//! The numeric vectors of a decoder, held as bit patterns, and the plan
//! sections that hold them.
use vstd::prelude::*;

use crate::plan::{Section, SectionView};
use crate::plan_error::Encoding;

verus! {

/// A second-order filter section: the bit patterns of its three numerator
/// coefficients, its three denominator coefficients and its two state values.
#[derive(Clone, Copy, Debug, PartialEq, Eq)]
pub struct Sos {
    pub words: [u32; 8],
}

/// The words of pairs, one pair after the other.
pub open spec fn pair_words(values: Seq<(u32, u32)>) -> Seq<u32> {
    Seq::new(
        2 * values.len(),
        |k: int|
            if k % 2 == 0 {
                values[k / 2].0
            } else {
                values[k / 2].1
            },
    )
}

/// The words of filter sections, one section after the other.
pub open spec fn sos_words(sections: Seq<Sos>) -> Seq<u32> {
    Seq::new(8 * sections.len(), |k: int| sections[k / 8].words@[k % 8])
}

/// The words of the arrays, one array after the other.
pub open spec fn nested_words(values: Seq<Vec<u32>>) -> Seq<u32>
    decreases values.len(),
{
    if values.len() == 0 {
        Seq::empty()
    } else {
        nested_words(values.drop_last()) + values.last()@
    }
}

/// The words of the filters, one filter after the other.
pub open spec fn nested_sos_words(values: Seq<Vec<Sos>>) -> Seq<u32>
    decreases values.len(),
{
    if values.len() == 0 {
        Seq::empty()
    } else {
        nested_sos_words(values.drop_last()) + sos_words(values.last()@)
    }
}

pub open spec fn f32_view(name: Seq<char>, values: Seq<u32>) -> SectionView {
    SectionView {
        name,
        encoding: Encoding::F32,
        dimensions: seq![values.len() as u64],
        values,
    }
}

pub open spec fn complex_view(name: Seq<char>, values: Seq<(u32, u32)>) -> SectionView {
    SectionView {
        name,
        encoding: Encoding::ComplexF32,
        dimensions: seq![values.len() as u64, 2u64],
        values: pair_words(values),
    }
}

pub open spec fn sos_view(name: Seq<char>, sections: Seq<Sos>) -> SectionView {
    SectionView {
        name,
        encoding: Encoding::SosF32,
        dimensions: seq![sections.len() as u64, 8u64],
        values: sos_words(sections),
    }
}

pub open spec fn nested_f32_view(name: Seq<char>, values: Seq<Vec<u32>>) -> SectionView {
    SectionView {
        name,
        encoding: Encoding::NestedF32,
        dimensions: seq![values.len() as u64] + Seq::new(
            values.len(),
            |i: int| values[i]@.len() as u64,
        ),
        values: nested_words(values),
    }
}

pub open spec fn nested_sos_view(name: Seq<char>, values: Seq<Vec<Sos>>) -> SectionView {
    SectionView {
        name,
        encoding: Encoding::NestedSosF32,
        dimensions: seq![values.len() as u64, 8u64] + Seq::new(
            values.len(),
            |i: int| values[i]@.len() as u64,
        ),
        values: nested_sos_words(values),
    }
}

pub open spec fn optional_f32_view(name: Seq<char>, values: Option<Vec<u32>>) -> SectionView {
    SectionView {
        name,
        encoding: Encoding::OptionalF32,
        dimensions: match values {
            Some(values) => seq![1u64, values@.len() as u64],
            None => seq![0u64, 0u64],
        },
        values: match values {
            Some(values) => values@,
            None => Seq::empty(),
        },
    }
}

pub open spec fn optional_complex_view(
    name: Seq<char>,
    values: Option<Vec<(u32, u32)>>,
) -> SectionView {
    SectionView {
        name,
        encoding: Encoding::OptionalComplexF32,
        dimensions: match values {
            Some(values) => seq![1u64, values@.len() as u64, 2u64],
            None => seq![0u64, 0u64, 2u64],
        },
        values: match values {
            Some(values) => pair_words(values@),
            None => Seq::empty(),
        },
    }
}

pub open spec fn optional_sos_view(name: Seq<char>, sections: Option<Vec<Sos>>) -> SectionView {
    SectionView {
        name,
        encoding: Encoding::OptionalSosF32,
        dimensions: match sections {
            Some(sections) => seq![1u64, sections@.len() as u64, 8u64],
            None => seq![0u64, 0u64, 8u64],
        },
        values: match sections {
            Some(sections) => sos_words(sections@),
            None => Seq::empty(),
        },
    }
}

fn copy_words(values: &Vec<u32>) -> (copy: Vec<u32>)
    ensures
        copy@ == values@,
{
    vstd::slice::slice_to_vec(values.as_slice())
}

fn flatten_pairs(values: &Vec<(u32, u32)>) -> (words: Vec<u32>)
    ensures
        words@ == pair_words(values@),
{
    let mut words: Vec<u32> = Vec::new();
    let mut index: usize = 0;
    while index < values.len()
        invariant
            index <= values@.len(),
            words@ == pair_words(values@.take(index as int)),
        decreases values@.len() - index,
    {
        let (first, second) = values[index];
        words.push(first);
        words.push(second);
        index = index + 1;
        proof {
            assert(words@ =~= pair_words(values@.take(index as int)));
        }
    }
    proof {
        assert(values@.take(values@.len() as int) =~= values@);
    }
    words
}

/// Appends the words of filter sections.
fn put_sos(words: &mut Vec<u32>, sections: &Vec<Sos>)
    ensures
        final(words)@ == old(words)@ + sos_words(sections@),
{
    let ghost before = words@;
    let mut index: usize = 0;
    proof {
        assert(before + sos_words(sections@.take(0)) =~= before);
    }
    while index < sections.len()
        invariant
            index <= sections@.len(),
            words@ == before + sos_words(sections@.take(index as int)),
        decreases sections@.len() - index,
    {
        let section = &sections[index];
        words.push(section.words[0]);
        words.push(section.words[1]);
        words.push(section.words[2]);
        words.push(section.words[3]);
        words.push(section.words[4]);
        words.push(section.words[5]);
        words.push(section.words[6]);
        words.push(section.words[7]);
        index = index + 1;
        proof {
            assert(words@ =~= before + sos_words(sections@.take(index as int)));
        }
    }
    proof {
        assert(sections@.take(sections@.len() as int) =~= sections@);
    }
}

pub fn sos_bits(sections: &Vec<Sos>) -> (words: Vec<u32>)
    ensures
        words@ == sos_words(sections@),
{
    let mut words: Vec<u32> = Vec::new();
    put_sos(&mut words, sections);
    proof {
        assert(words@ =~= sos_words(sections@));
    }
    words
}

pub fn f32_section(name: &str, values: &Vec<u32>) -> (section: Section)
    ensures
        section@ == f32_view(name@, values@),
{
    let dimensions: Vec<u64> = vec![values.len() as u64];
    let section = Section::new(name, Encoding::F32, dimensions, copy_words(values));
    proof {
        assert(section@ =~= f32_view(name@, values@));
    }
    section
}

pub fn complex_f32(name: &str, values: &Vec<(u32, u32)>) -> (section: Section)
    ensures
        section@ == complex_view(name@, values@),
{
    let dimensions: Vec<u64> = vec![values.len() as u64, 2];
    let section = Section::new(name, Encoding::ComplexF32, dimensions, flatten_pairs(values));
    proof {
        assert(section@ =~= complex_view(name@, values@));
    }
    section
}

/// Pairs are laid out as complex numbers are.
pub fn pairs_f32(name: &str, values: &Vec<(u32, u32)>) -> (section: Section)
    ensures
        section@ == complex_view(name@, values@),
{
    complex_f32(name, values)
}

pub fn sos_section(name: &str, sections: &Vec<Sos>) -> (section: Section)
    ensures
        section@ == sos_view(name@, sections@),
{
    let dimensions: Vec<u64> = vec![sections.len() as u64, 8];
    let section = Section::new(name, Encoding::SosF32, dimensions, sos_bits(sections));
    proof {
        assert(section@ =~= sos_view(name@, sections@));
    }
    section
}

pub fn nested_f32(name: &str, values: &Vec<Vec<u32>>) -> (section: Section)
    ensures
        section@ == nested_f32_view(name@, values@),
{
    let mut dimensions: Vec<u64> = vec![values.len() as u64];
    let mut words: Vec<u32> = Vec::new();
    let mut index: usize = 0;
    while index < values.len()
        invariant
            index <= values@.len(),
            dimensions@ == seq![values@.len() as u64] + Seq::new(
                index as nat,
                |i: int| values@[i]@.len() as u64,
            ),
            words@ == nested_words(values@.take(index as int)),
        decreases values@.len() - index,
    {
        let ghost before = words@;
        dimensions.push(values[index].len() as u64);
        words.extend_from_slice(values[index].as_slice());
        proof {
            assert(values@.take(index + 1).drop_last() =~= values@.take(index as int));
            assert(words@ =~= before + values@[index as int]@);
            assert(dimensions@ =~= seq![values@.len() as u64] + Seq::new(
                (index + 1) as nat,
                |i: int| values@[i]@.len() as u64,
            ));
        }
        index = index + 1;
    }
    let section = Section::new(name, Encoding::NestedF32, dimensions, words);
    proof {
        assert(values@.take(values@.len() as int) =~= values@);
        assert(section@ =~= nested_f32_view(name@, values@));
    }
    section
}

pub fn nested_sos(name: &str, values: &Vec<Vec<Sos>>) -> (section: Section)
    ensures
        section@ == nested_sos_view(name@, values@),
{
    let mut dimensions: Vec<u64> = vec![values.len() as u64, 8];
    let mut words: Vec<u32> = Vec::new();
    let mut index: usize = 0;
    while index < values.len()
        invariant
            index <= values@.len(),
            dimensions@ == seq![values@.len() as u64, 8u64] + Seq::new(
                index as nat,
                |i: int| values@[i]@.len() as u64,
            ),
            words@ == nested_sos_words(values@.take(index as int)),
        decreases values@.len() - index,
    {
        dimensions.push(values[index].len() as u64);
        put_sos(&mut words, &values[index]);
        proof {
            assert(values@.take(index + 1).drop_last() =~= values@.take(index as int));
            assert(dimensions@ =~= seq![values@.len() as u64, 8u64] + Seq::new(
                (index + 1) as nat,
                |i: int| values@[i]@.len() as u64,
            ));
        }
        index = index + 1;
    }
    let section = Section::new(name, Encoding::NestedSosF32, dimensions, words);
    proof {
        assert(values@.take(values@.len() as int) =~= values@);
        assert(section@ =~= nested_sos_view(name@, values@));
    }
    section
}

pub fn optional_f32(name: &str, values: &Option<Vec<u32>>) -> (section: Section)
    ensures
        section@ == optional_f32_view(name@, *values),
{
    let section = match values {
        Some(values) => {
            let dimensions: Vec<u64> = vec![1, values.len() as u64];
            Section::new(name, Encoding::OptionalF32, dimensions, copy_words(values))
        },
        None => {
            let dimensions: Vec<u64> = vec![0, 0];
            Section::new(name, Encoding::OptionalF32, dimensions, Vec::new())
        },
    };
    proof {
        assert(section@ =~= optional_f32_view(name@, *values));
    }
    section
}

pub fn optional_complex_f32(name: &str, values: &Option<Vec<(u32, u32)>>) -> (section: Section)
    ensures
        section@ == optional_complex_view(name@, *values),
{
    let section = match values {
        Some(values) => {
            let dimensions: Vec<u64> = vec![1, values.len() as u64, 2];
            Section::new(name, Encoding::OptionalComplexF32, dimensions, flatten_pairs(values))
        },
        None => {
            let dimensions: Vec<u64> = vec![0, 0, 2];
            Section::new(name, Encoding::OptionalComplexF32, dimensions, Vec::new())
        },
    };
    proof {
        assert(section@ =~= optional_complex_view(name@, *values));
    }
    section
}

pub fn optional_sos(name: &str, sections: &Option<Vec<Sos>>) -> (section: Section)
    ensures
        section@ == optional_sos_view(name@, *sections),
{
    let section = match sections {
        Some(sections) => {
            let dimensions: Vec<u64> = vec![1, sections.len() as u64, 8];
            Section::new(name, Encoding::OptionalSosF32, dimensions, sos_bits(sections))
        },
        None => {
            let dimensions: Vec<u64> = vec![0, 0, 8];
            Section::new(name, Encoding::OptionalSosF32, dimensions, Vec::new())
        },
    };
    proof {
        assert(section@ =~= optional_sos_view(name@, *sections));
    }
    section
}

/// Replaces the values of an array by those of a section, as far as it has any.
pub fn assign_f32(target: &mut Vec<u32>, section: &Section)
    ensures
        final(target)@ == Seq::new(
            old(target)@.len(),
            |i: int|
                if i < section.values@.len() {
                    section.values@[i]
                } else {
                    old(target)@[i]
                },
        ),
{
    let ghost before = target@;
    let mut index: usize = 0;
    while index < target.len() && index < section.values.len()
        invariant
            index <= target@.len(),
            index <= section.values@.len(),
            target@.len() == before.len(),
            forall|i: int| 0 <= i < index ==> target@[i] == section.values@[i],
            forall|i: int| index <= i < before.len() ==> target@[i] == before[i],
        decreases target@.len() - index,
    {
        target[index] = section.values[index];
        index = index + 1;
    }
    proof {
        assert(target@ =~= Seq::new(
            before.len(),
            |i: int|
                if i < section.values@.len() {
                    section.values@[i]
                } else {
                    before[i]
                },
        ));
    }
}

pub fn assign_optional_f32(target: &mut Option<Vec<u32>>, section: &Section)
    requires
        *old(target) is Some ==> (*old(target))->0@.len() == section.values@.len(),
    ensures
        match (*old(target), *final(target)) {
            (Some(_), Some(values)) => values@ == section.values@,
            (None, None) => true,
            _ => false,
        },
{
    match target.take() {
        Some(mut values) => {
            assign_f32(&mut values, section);
            proof {
                assert(values@ =~= section.values@);
            }
            *target = Some(values);
        },
        None => {},
    }
}

/// Replaces pairs by those of a section, as far as it has any.
pub fn assign_complex(target: &mut Vec<(u32, u32)>, section: &Section)
    ensures
        final(target)@ == Seq::new(
            old(target)@.len(),
            |i: int|
                if 2 * i + 1 < section.values@.len() {
                    (section.values@[2 * i], section.values@[2 * i + 1])
                } else {
                    old(target)@[i]
                },
        ),
{
    let ghost before = target@;
    let mut index: usize = 0;
    while index < target.len() && index < section.values.len() / 2
        invariant
            index <= target@.len(),
            index <= section.values@.len() / 2,
            target@.len() == before.len(),
            forall|i: int|
                0 <= i < index ==> #[trigger] target@[i] == (
                    section.values@[2 * i],
                    section.values@[2 * i + 1],
                ),
            forall|i: int| index <= i < before.len() ==> target@[i] == before[i],
        decreases target@.len() - index,
    {
        target[index] = (section.values[2 * index], section.values[2 * index + 1]);
        index = index + 1;
    }
    proof {
        assert(target@ =~= Seq::new(
            before.len(),
            |i: int|
                if 2 * i + 1 < section.values@.len() {
                    (section.values@[2 * i], section.values@[2 * i + 1])
                } else {
                    before[i]
                },
        ));
    }
}

/// Pairs that were replaced by as many words have those words.
proof fn lemma_pairs_replaced(values: Seq<(u32, u32)>, words: Seq<u32>)
    requires
        words.len() == 2 * values.len(),
        forall|i: int|
            0 <= i < values.len() ==> #[trigger] values[i] == (words[2 * i], words[2 * i + 1]),
    ensures
        pair_words(values) == words,
{
    assert forall|k: int| 0 <= k < words.len() implies pair_words(values)[k] == words[k] by {
        assert(values[k / 2] == (words[2 * (k / 2)], words[2 * (k / 2) + 1]));
    }
    assert(pair_words(values) =~= words);
}

fn sos_at(words: &Vec<u32>, at: usize) -> (section: Sos)
    requires
        at + 8 <= words@.len(),
    ensures
        section.words@ == words@.subrange(at as int, at + 8),
{
    let total: usize = words.len();
    assert(at + 8 <= total);
    let section = Sos {
        words: [
            words[at],
            words[at + 1],
            words[at + 2],
            words[at + 3],
            words[at + 4],
            words[at + 5],
            words[at + 6],
            words[at + 7],
        ],
    };
    proof {
        assert(section.words@ =~= words@.subrange(at as int, at + 8));
    }
    section
}

/// Replaces filter sections by those of a plan section, as far as it has any.
pub fn assign_sos(target: &mut Vec<Sos>, section: &Section)
    ensures
        final(target)@.len() == old(target)@.len(),
        forall|i: int|
            0 <= i < old(target)@.len() ==> if 8 * i + 8 <= section.values@.len() {
                (#[trigger] final(target)@[i]).words@ == section.values@.subrange(8 * i, 8 * i + 8)
            } else {
                final(target)@[i] == old(target)@[i]
            },
{
    let ghost before = target@;
    let mut index: usize = 0;
    while index < target.len() && index < section.values.len() / 8
        invariant
            index <= target@.len(),
            index <= section.values@.len() / 8,
            target@.len() == before.len(),
            forall|i: int|
                0 <= i < index ==> (#[trigger] target@[i]).words@ == section.values@.subrange(
                    8 * i,
                    8 * i + 8,
                ),
            forall|i: int| index <= i < before.len() ==> target@[i] == before[i],
        decreases target@.len() - index,
    {
        target[index] = sos_at(&section.values, 8 * index);
        index = index + 1;
    }
}

/// Filter sections that were replaced by as many words have those words.
proof fn lemma_sos_replaced(sections: Seq<Sos>, words: Seq<u32>)
    requires
        words.len() == 8 * sections.len(),
        forall|i: int|
            0 <= i < sections.len() ==> (#[trigger] sections[i]).words@ == words.subrange(
                8 * i,
                8 * i + 8,
            ),
    ensures
        sos_words(sections) == words,
{
    assert forall|k: int| 0 <= k < words.len() implies sos_words(sections)[k] == words[k] by {
        let i = k / 8;
        assert(sections[i].words@[k % 8] == words.subrange(8 * i, 8 * i + 8)[k % 8]);
    }
    assert(sos_words(sections) =~= words);
}

/// Replaces the values of all arrays by those of a section.
pub fn assign_nested_f32(target: &mut Vec<Vec<u32>>, section: &Section)
    requires
        nested_words(old(target)@).len() == section.values@.len(),
    ensures
        final(target)@.len() == old(target)@.len(),
        forall|i: int|
            0 <= i < old(target)@.len() ==> (#[trigger] final(target)@[i])@.len() == old(
                target,
            )@[i]@.len(),
        nested_words(final(target)@) == section.values@,
{
    let ghost before = target@;
    let total: usize = section.values.len();
    let mut index: usize = 0;
    let mut at: usize = 0;
    proof {
        assert(before.take(0) =~= Seq::<Vec<u32>>::empty());
        assert(target@.take(0) =~= Seq::<Vec<u32>>::empty());
        assert(section.values@.take(0) =~= Seq::<u32>::empty());
    }
    while index < target.len()
        invariant
            index <= target@.len(),
            target@.len() == before.len(),
            nested_words(before).len() == section.values@.len(),
            at == nested_words(before.take(index as int)).len(),
            at <= total == section.values@.len(),
            nested_words(target@.take(index as int)) == section.values@.take(at as int),
            forall|i: int| 0 <= i < index ==> (#[trigger] target@[i])@.len() == before[i]@.len(),
            forall|i: int| index <= i < before.len() ==> target@[i] == before[i],
        decreases target@.len() - index,
    {
        let length: usize = target[index].len();
        proof {
            assert(before.take(index + 1).drop_last() =~= before.take(index as int));
            lemma_nested_prefix(before, index + 1);
        }
        let inner: Vec<u32> = vstd::slice::slice_to_vec(
            vstd::slice::slice_subrange(section.values.as_slice(), at, at + length),
        );
        let ghost prior = target@;
        target[index] = inner;
        proof {
            assert(target@.take(index + 1).drop_last() =~= prior.take(index as int));
            assert(section.values@.take(at as int) + section.values@.subrange(
                at as int,
                at + length,
            ) =~= section.values@.take(at + length));
        }
        at = at + length;
        index = index + 1;
    }
    proof {
        assert(before.take(before.len() as int) =~= before);
        assert(target@.take(target@.len() as int) =~= target@);
        assert(section.values@.take(at as int) =~= section.values@);
    }
}

proof fn lemma_nested_prefix(values: Seq<Vec<u32>>, count: int)
    requires
        0 <= count <= values.len(),
    ensures
        nested_words(values.take(count)).len() <= nested_words(values).len(),
    decreases values.len() - count,
{
    if count < values.len() {
        lemma_nested_prefix(values, count + 1);
        assert(values.take(count + 1).drop_last() =~= values.take(count));
    } else {
        assert(values.take(count) =~= values);
    }
}

/// Replaces all filter sections by those of a plan section.
pub fn assign_nested_sos(target: &mut Vec<Vec<Sos>>, section: &Section)
    requires
        nested_sos_words(old(target)@).len() == section.values@.len(),
    ensures
        final(target)@.len() == old(target)@.len(),
        forall|i: int|
            0 <= i < old(target)@.len() ==> (#[trigger] final(target)@[i])@.len() == old(
                target,
            )@[i]@.len(),
        nested_sos_words(final(target)@) == section.values@,
{
    let ghost before = target@;
    let total: usize = section.values.len();
    let mut index: usize = 0;
    let mut at: usize = 0;
    proof {
        assert(before.take(0) =~= Seq::<Vec<Sos>>::empty());
        assert(target@.take(0) =~= Seq::<Vec<Sos>>::empty());
        assert(section.values@.take(0) =~= Seq::<u32>::empty());
    }
    while index < target.len()
        invariant
            index <= target@.len(),
            target@.len() == before.len(),
            nested_sos_words(before).len() == section.values@.len(),
            at == nested_sos_words(before.take(index as int)).len(),
            at <= total == section.values@.len(),
            nested_sos_words(target@.take(index as int)) == section.values@.take(at as int),
            forall|i: int| 0 <= i < index ==> (#[trigger] target@[i])@.len() == before[i]@.len(),
            forall|i: int| index <= i < before.len() ==> target@[i] == before[i],
        decreases target@.len() - index,
    {
        let length: usize = target[index].len();
        let ghost words = section.values@;
        proof {
            assert(before.take(index + 1).drop_last() =~= before.take(index as int));
            lemma_nested_sos_prefix(before, index + 1);
        }
        let mut inner: Vec<Sos> = Vec::with_capacity(length);
        let mut done: usize = 0;
        while done < length
            invariant
                done <= length,
                inner@.len() == done,
                words == section.values@,
                at + 8 * length <= total == words.len(),
                forall|i: int|
                    0 <= i < done ==> (#[trigger] inner@[i]).words@ == words.subrange(
                        at + 8 * i,
                        at + 8 * i + 8,
                    ),
            decreases length - done,
        {
            inner.push(sos_at(&section.values, at + 8 * done));
            done = done + 1;
        }
        let ghost part = words.subrange(at as int, at + 8 * length);
        proof {
            assert forall|i: int| 0 <= i < inner@.len() implies (#[trigger] inner@[i]).words@
                == part.subrange(8 * i, 8 * i + 8) by {
                assert(part.subrange(8 * i, 8 * i + 8) =~= words.subrange(
                    at + 8 * i,
                    at + 8 * i + 8,
                ));
            }
            lemma_sos_replaced(inner@, part);
        }
        let ghost prior = target@;
        target[index] = inner;
        proof {
            assert(target@.take(index + 1).drop_last() =~= prior.take(index as int));
            assert(words.take(at as int) + part =~= words.take(at + 8 * length));
        }
        at = at + 8 * length;
        index = index + 1;
    }
    proof {
        assert(before.take(before.len() as int) =~= before);
        assert(target@.take(target@.len() as int) =~= target@);
        assert(section.values@.take(at as int) =~= section.values@);
    }
}

proof fn lemma_nested_sos_prefix(values: Seq<Vec<Sos>>, count: int)
    requires
        0 <= count <= values.len(),
    ensures
        nested_sos_words(values.take(count)).len() <= nested_sos_words(values).len(),
    decreases values.len() - count,
{
    if count < values.len() {
        lemma_nested_sos_prefix(values, count + 1);
        assert(values.take(count + 1).drop_last() =~= values.take(count));
    } else {
        assert(values.take(count) =~= values);
    }
}

/// Whether a section has the name, the encoding and the shape of another.
pub open spec fn fits(actual: SectionView, expected: SectionView) -> bool {
    &&& actual.name == expected.name
    &&& actual.encoding == expected.encoding
    &&& actual.dimensions == expected.dimensions
    &&& actual.values.len() == expected.values.len()
}

/// The array with the values of a section of its shape.
pub(crate) fn replace_f32(target: Vec<u32>, section: &Section) -> (replaced: Vec<u32>)
    requires
        fits(section@, f32_view(section.name@, target@)),
    ensures
        f32_view(section.name@, replaced@) == section@,
{
    let mut target = target;
    assign_f32(&mut target, section);
    proof {
        assert(target@ =~= section.values@);
        assert(f32_view(section.name@, target@) =~= section@);
    }
    target
}

/// The array, if there is one, with the values of a section of its shape.
pub(crate) fn replace_optional_f32(target: Option<Vec<u32>>, section: &Section) -> (replaced: Option<
    Vec<u32>,
>)
    requires
        fits(section@, optional_f32_view(section.name@, target)),
    ensures
        optional_f32_view(section.name@, replaced) == section@,
{
    let mut target = target;
    assign_optional_f32(&mut target, section);
    proof {
        assert(optional_f32_view(section.name@, target) =~= section@);
    }
    target
}

/// The pairs with the values of a section of their shape.
pub(crate) fn replace_complex(target: Vec<(u32, u32)>, section: &Section) -> (replaced: Vec<
    (u32, u32),
>)
    requires
        fits(section@, complex_view(section.name@, target@)),
    ensures
        complex_view(section.name@, replaced@) == section@,
{
    let mut target = target;
    assign_complex(&mut target, section);
    proof {
        lemma_pairs_replaced(target@, section.values@);
        assert(complex_view(section.name@, target@) =~= section@);
    }
    target
}

/// The pairs, if there are any, with the values of a section of their shape.
pub(crate) fn replace_optional_complex(target: Option<Vec<(u32, u32)>>, section: &Section) -> (
replaced: Option<Vec<(u32, u32)>>)
    requires
        fits(section@, optional_complex_view(section.name@, target)),
    ensures
        optional_complex_view(section.name@, replaced) == section@,
{
    let replaced = match target {
        Some(values) => {
            let mut values = values;
            assign_complex(&mut values, section);
            proof {
                lemma_pairs_replaced(values@, section.values@);
            }
            Some(values)
        },
        None => None,
    };
    proof {
        assert(optional_complex_view(section.name@, replaced) =~= section@);
    }
    replaced
}

/// The filter with the values of a section of its shape.
pub(crate) fn replace_sos(target: Vec<Sos>, section: &Section) -> (replaced: Vec<Sos>)
    requires
        fits(section@, sos_view(section.name@, target@)),
    ensures
        sos_view(section.name@, replaced@) == section@,
{
    let mut target = target;
    assign_sos(&mut target, section);
    proof {
        lemma_sos_replaced(target@, section.values@);
        assert(sos_view(section.name@, target@) =~= section@);
    }
    target
}

/// The filter, if there is one, with the values of a section of its shape.
pub(crate) fn replace_optional_sos(target: Option<Vec<Sos>>, section: &Section) -> (replaced: Option<
    Vec<Sos>,
>)
    requires
        fits(section@, optional_sos_view(section.name@, target)),
    ensures
        optional_sos_view(section.name@, replaced) == section@,
{
    let replaced = match target {
        Some(values) => {
            let mut values = values;
            assign_sos(&mut values, section);
            proof {
                lemma_sos_replaced(values@, section.values@);
            }
            Some(values)
        },
        None => None,
    };
    proof {
        assert(optional_sos_view(section.name@, replaced) =~= section@);
    }
    replaced
}

/// The arrays with the values of a section of their shapes.
pub(crate) fn replace_nested_f32(target: Vec<Vec<u32>>, section: &Section) -> (replaced: Vec<
    Vec<u32>,
>)
    requires
        fits(section@, nested_f32_view(section.name@, target@)),
    ensures
        nested_f32_view(section.name@, replaced@) == section@,
{
    let ghost before = target@;
    let mut target = target;
    assign_nested_f32(&mut target, section);
    proof {
        assert(nested_f32_view(section.name@, target@).dimensions =~= nested_f32_view(
            section.name@,
            before,
        ).dimensions);
        assert(nested_f32_view(section.name@, target@) =~= section@);
    }
    target
}

/// The filters with the values of a section of their shapes.
pub(crate) fn replace_nested_sos(target: Vec<Vec<Sos>>, section: &Section) -> (replaced: Vec<
    Vec<Sos>,
>)
    requires
        fits(section@, nested_sos_view(section.name@, target@)),
    ensures
        nested_sos_view(section.name@, replaced@) == section@,
{
    let ghost before = target@;
    let mut target = target;
    assign_nested_sos(&mut target, section);
    proof {
        assert(nested_sos_view(section.name@, target@).dimensions =~= nested_sos_view(
            section.name@,
            before,
        ).dimensions);
        assert(nested_sos_view(section.name@, target@) =~= section@);
    }
    target
}

} // verus!
