//! The sections of a plan, found by name.
use vstd::prelude::*;

use crate::plan;
use crate::plan::{Section, SectionView};
use crate::plan_error::{PlanError, PlanErrorView, SectionFault};

verus! {

/// Whether one of the sections has the name.
pub open spec fn named(sections: Seq<SectionView>, name: Seq<char>) -> bool {
    exists|i: int| 0 <= i < sections.len() && #[trigger] sections[i].name == name
}

/// Where the section with the name stands.
pub open spec fn place(sections: Seq<SectionView>, name: Seq<char>) -> int {
    choose|i: int| 0 <= i < sections.len() && #[trigger] sections[i].name == name
}

/// Whether no two sections have one name.
pub open spec fn distinct(sections: Seq<SectionView>) -> bool {
    forall|i: int, j: int|
        0 <= i < j < sections.len() ==> (#[trigger] sections[i]).name != (
        #[trigger] sections[j]).name
}

/// The sections by name.
pub open spec fn by_name(sections: Seq<SectionView>) -> Map<Seq<char>, SectionView> {
    Map::new(|name: Seq<char>| named(sections, name), |name: Seq<char>|
        sections[place(sections, name)])
}

/// The first name that an earlier section has too.
pub open spec fn duplicate(sections: Seq<SectionView>) -> Option<Seq<char>>
    decreases sections.len(),
{
    if sections.len() == 0 {
        None
    } else {
        match duplicate(sections.drop_last()) {
            Some(name) => Some(name),
            None => if named(sections.drop_last(), sections.last().name) {
                Some(sections.last().name)
            } else {
                None
            },
        }
    }
}

/// Why the plan's section of the expected name does not fit, if it does not.
pub open spec fn match_error(
    sections: Map<Seq<char>, SectionView>,
    expected: SectionView,
) -> Option<PlanErrorView> {
    let actual = sections[expected.name];
    if !sections.dom().contains(expected.name) {
        Some(expected.error(SectionFault::Missing))
    } else if actual.encoding != expected.encoding {
        Some(
            expected.error(
                SectionFault::EncodingMismatch {
                    plan: actual.encoding,
                    decoder: expected.encoding,
                },
            ),
        )
    } else if actual.dimensions != expected.dimensions {
        Some(
            PlanErrorView::Shape {
                name: expected.name,
                plan: actual.dimensions,
                decoder: expected.dimensions,
            },
        )
    } else if actual.values.len() != expected.values.len() {
        Some(
            expected.error(
                SectionFault::ValueCount {
                    plan_count: actual.values.len() as u64,
                    decoder_count: expected.values.len() as u64,
                },
            ),
        )
    } else {
        None
    }
}

/// The order of byte strings: the first difference decides, and a string comes
/// after those that it continues.
pub open spec fn bytes_less(a: Seq<u8>, b: Seq<u8>) -> bool
    decreases a.len(),
{
    if b.len() == 0 {
        false
    } else if a.len() == 0 {
        true
    } else {
        a[0] < b[0] || (a[0] == b[0] && bytes_less(
            a.subrange(1, a.len() as int),
            b.subrange(1, b.len() as int),
        ))
    }
}

/// The order of names.
pub open spec fn name_less(a: Seq<char>, b: Seq<char>) -> bool {
    bytes_less(plan::name_bytes(a), plan::name_bytes(b))
}

/// Whether `name` is the first in order of all names in the table.
pub open spec fn is_first_name(sections: Map<Seq<char>, SectionView>, name: Seq<char>) -> bool {
    &&& sections.dom().contains(name)
    &&& forall|other: Seq<char>| #[trigger]
        sections.dom().contains(other) ==> !name_less(other, name)
}

/// The order of names has no cycles.
pub proof fn law_names_ordered(a: Seq<u8>, b: Seq<u8>, c: Seq<u8>)
    ensures
        !bytes_less(a, a),
        bytes_less(a, b) && bytes_less(b, c) ==> bytes_less(a, c),
        !bytes_less(a, b) && !bytes_less(b, a) ==> a == b,
    decreases a.len(),
{
    if a.len() > 0 && b.len() > 0 {
        let ra = a.subrange(1, a.len() as int);
        let rb = b.subrange(1, b.len() as int);
        let rc = if c.len() > 0 {
            c.subrange(1, c.len() as int)
        } else {
            c
        };
        law_names_ordered(ra, rb, rc);
        if ra == rb && a[0] == b[0] {
            assert(a =~= b) by {
                assert forall|i: int| 0 <= i < a.len() implies a[i] == b[i] by {
                    if i > 0 {
                        assert(ra[i - 1] == rb[i - 1]);
                    }
                }
            }
        }
    } else if a.len() == 0 && b.len() == 0 {
        assert(a =~= b);
    } else if a.len() > 0 {
        law_names_ordered(a.subrange(1, a.len() as int), Seq::empty(), Seq::empty());
    }
}

pub proof fn lemma_place(sections: Seq<SectionView>, index: int)
    requires
        distinct(sections),
        0 <= index < sections.len(),
    ensures
        named(sections, sections[index].name),
        place(sections, sections[index].name) == index,
{
    let found = place(sections, sections[index].name);
    assert(sections[found].name == sections[index].name);
    if found < index {
        assert(sections[found].name != sections[index].name);
    } else if index < found {
        assert(sections[index].name != sections[found].name);
    }
}

proof fn lemma_remove(sections: Seq<SectionView>, index: int)
    requires
        distinct(sections),
        0 <= index < sections.len(),
    ensures
        distinct(sections.remove(index)),
        by_name(sections.remove(index)) == by_name(sections).remove(sections[index].name),
{
    let name = sections[index].name;
    let rest = sections.remove(index);
    assert(distinct(rest));
    assert forall|n: Seq<char>| named(rest, n) == (named(sections, n) && n != name) by {
        if named(rest, n) {
            let i = place(rest, n);
            let j = if i < index {
                i
            } else {
                i + 1
            };
            assert(sections[j] == rest[i]);
            if j < index {
                assert(sections[j].name != sections[index].name);
            } else {
                assert(sections[index].name != sections[j].name);
            }
        }
        if named(sections, n) && n != name {
            let j = place(sections, n);
            let i = if j < index {
                j
            } else {
                j - 1
            };
            assert(rest[i] == sections[j]);
        }
    }
    assert forall|n: Seq<char>| named(rest, n) implies rest[place(rest, n)] == sections[place(
        sections,
        n,
    )] by {
        let i = place(rest, n);
        let j = if i < index {
            i
        } else {
            i + 1
        };
        assert(sections[j] == rest[i]);
        lemma_place(sections, j);
    }
    assert(by_name(rest) =~= by_name(sections).remove(name));
}

/// The sections of a plan, found by name.
pub struct SectionTable {
    sections: Vec<Section>,
}

impl View for SectionTable {
    type V = Map<Seq<char>, SectionView>;

    closed spec fn view(&self) -> Map<Seq<char>, SectionView> {
        by_name(plan::sections_view(self.sections@))
    }
}

fn find(sections: &Vec<Section>, name: &String) -> (found: Option<usize>)
    ensures
        match found {
            Some(index) => index < sections@.len() && sections@[index as int].name@ == name@,
            None => !named(plan::sections_view(sections@), name@),
        },
{
    let mut index: usize = 0;
    while index < sections.len()
        invariant
            index <= sections@.len(),
            forall|i: int| 0 <= i < index ==> (#[trigger] sections@[i]).name@ != name@,
        decreases sections@.len() - index,
    {
        if sections[index].name == *name {
            return Some(index);
        }
        index = index + 1;
    }
    proof {
        let views = plan::sections_view(sections@);
        assert forall|i: int| 0 <= i < views.len() implies #[trigger] views[i].name != name@ by {
            assert(sections@[i].name@ != name@);
        }
    }
    None
}

fn comes_before(a: &[u8], b: &[u8]) -> (less: bool)
    ensures
        less == bytes_less(a@, b@),
{
    let mut index: usize = 0;
    proof {
        assert(a@.subrange(0, a@.len() as int) =~= a@);
        assert(b@.subrange(0, b@.len() as int) =~= b@);
    }
    while index < a.len() && index < b.len()
        invariant
            index <= a@.len(),
            index <= b@.len(),
            bytes_less(a@, b@) == bytes_less(
                a@.subrange(index as int, a@.len() as int),
                b@.subrange(index as int, b@.len() as int),
            ),
        decreases a@.len() - index,
    {
        if a[index] < b[index] {
            return true;
        }
        if b[index] < a[index] {
            return false;
        }
        proof {
            let ra = a@.subrange(index as int, a@.len() as int);
            let rb = b@.subrange(index as int, b@.len() as int);
            assert(ra.subrange(1, ra.len() as int) =~= a@.subrange(index + 1, a@.len() as int));
            assert(rb.subrange(1, rb.len() as int) =~= b@.subrange(index + 1, b@.len() as int));
        }
        index = index + 1;
    }
    index < b.len()
}

fn same_words(a: &Vec<u64>, b: &Vec<u64>) -> (same: bool)
    ensures
        same == (a@ == b@),
{
    if a.len() != b.len() {
        return false;
    }
    let mut index: usize = 0;
    while index < a.len()
        invariant
            index <= a@.len(),
            a@.len() == b@.len(),
            forall|i: int| 0 <= i < index ==> a@[i] == b@[i],
        decreases a@.len() - index,
    {
        if a[index] != b[index] {
            return false;
        }
        index = index + 1;
    }
    proof {
        assert(a@ =~= b@);
    }
    true
}

impl SectionTable {
    #[verifier::type_invariant]
    spec fn names_differ(self) -> bool {
        distinct(plan::sections_view(self.sections@))
    }

    /// The table of the given sections; refused where two have one name.
    pub fn from_sections(sections: Vec<Section>) -> (result: Result<SectionTable, PlanError>)
        ensures
            match result {
                Ok(table) => duplicate(plan::sections_view(sections@)) is None && distinct(
                    plan::sections_view(sections@),
                ) && table@ == by_name(plan::sections_view(sections@)),
                Err(error) => duplicate(plan::sections_view(sections@)) is Some && error@ == (
                PlanErrorView::Section {
                    name: duplicate(plan::sections_view(sections@))->0,
                    flaw: SectionFault::Duplicate,
                }),
            },
    {
        let ghost views = plan::sections_view(sections@);
        let mut index: usize = 0;
        while index < sections.len()
            invariant
                index <= sections@.len(),
                views == plan::sections_view(sections@),
                duplicate(views.take(index as int)) is None,
                distinct(views.take(index as int)),
            decreases sections@.len() - index,
        {
            let ghost shorter = views.take(index as int);
            let ghost longer = views.take(index + 1);
            proof {
                assert(longer.drop_last() =~= shorter);
            }
            let mut earlier: usize = 0;
            while earlier < index
                invariant
                    earlier <= index < sections@.len(),
                    views == plan::sections_view(sections@),
                    shorter == views.take(index as int),
                    longer == views.take(index + 1),
                    longer.drop_last() == shorter,
                    duplicate(shorter) is None,
                    forall|i: int|
                        0 <= i < earlier ==> (#[trigger] views[i]).name != views[index as int].name,
                decreases index - earlier,
            {
                if sections[earlier].name == sections[index].name {
                    proof {
                        assert(shorter[earlier as int].name == longer.last().name);
                        assert(duplicate(longer) == Some(views[index as int].name));
                        lemma_duplicate_stays(views, index + 1);
                    }
                    return Err(
                        PlanError::Section {
                            name: sections[index].name.clone(),
                            flaw: SectionFault::Duplicate,
                        },
                    );
                }
                proof {
                    assert(views[earlier as int].name == sections@[earlier as int].name@);
                }
                earlier = earlier + 1;
            }
            proof {
                assert(!named(shorter, longer.last().name)) by {
                    if named(shorter, longer.last().name) {
                        let i = place(shorter, longer.last().name);
                        assert(views[i].name != views[index as int].name);
                    }
                }
                assert(distinct(longer)) by {
                    assert forall|i: int, j: int| 0 <= i < j < longer.len() implies (
                    #[trigger] longer[i]).name != (#[trigger] longer[j]).name by {
                        if j < index {
                            assert(shorter[i].name != shorter[j].name);
                        } else {
                            assert(views[i].name != views[index as int].name);
                        }
                    }
                }
            }
            index = index + 1;
        }
        proof {
            assert(views.take(index as int) =~= views);
        }
        Ok(SectionTable { sections })
    }

    /// Takes the section of the expected name out of the table and tests that
    /// it has the expected encoding and shape.
    pub fn take_matching(&mut self, expected: &Section) -> (result: Result<Section, PlanError>)
        ensures
            final(self)@ == old(self)@.remove(expected@.name),
            match result {
                Ok(actual) => match_error(old(self)@, expected@) is None && actual@ == old(
                    self,
                )@[expected@.name],
                Err(error) => match_error(old(self)@, expected@) == Some(error@),
            },
    {
        proof {
            use_type_invariant(&*self);
        }
        let ghost views = plan::sections_view(self.sections@);
        let mut sections: Vec<Section> = Vec::new();
        std::mem::swap(&mut self.sections, &mut sections);
        let index: usize = match find(&sections, &expected.name) {
            Some(index) => index,
            None => {
                self.sections = sections;
                proof {
                    assert(self@ =~= old(self)@.remove(expected@.name));
                }
                return Err(
                    PlanError::Section {
                        name: expected.name.clone(),
                        flaw: SectionFault::Missing,
                    },
                );
            },
        };
        proof {
            lemma_place(views, index as int);
            lemma_remove(views, index as int);
        }
        let actual: Section = sections.remove(index);
        proof {
            assert(plan::sections_view(sections@) =~= views.remove(index as int));
        }
        self.sections = sections;
        if actual.encoding != expected.encoding {
            return Err(
                PlanError::Section {
                    name: actual.name.clone(),
                    flaw: SectionFault::EncodingMismatch {
                        plan: actual.encoding,
                        decoder: expected.encoding,
                    },
                },
            );
        }
        if !same_words(&actual.dimensions, &expected.dimensions) {
            let decoder: Vec<u64> = vstd::slice::slice_to_vec(expected.dimensions.as_slice());
            return Err(
                PlanError::Shape { name: actual.name, plan: actual.dimensions, decoder },
            );
        }
        if actual.values.len() != expected.values.len() {
            return Err(
                PlanError::Section {
                    name: actual.name.clone(),
                    flaw: SectionFault::ValueCount {
                        plan_count: actual.values.len() as u64,
                        decoder_count: expected.values.len() as u64,
                    },
                },
            );
        }
        Ok(actual)
    }

    /// The first name in the table, in order, if it has any.
    pub fn first_name(&self) -> (first: Option<String>)
        ensures
            match first {
                Some(name) => is_first_name(self@, name@),
                None => self@ == Map::<Seq<char>, SectionView>::empty(),
            },
    {
        let ghost views = plan::sections_view(self.sections@);
        if self.sections.len() == 0 {
            proof {
                assert(self@ =~= Map::<Seq<char>, SectionView>::empty());
            }
            return None;
        }
        let mut best: usize = 0;
        let mut index: usize = 1;
        proof {
            law_names_ordered(
                plan::name_bytes(views[0].name),
                plan::name_bytes(views[0].name),
                plan::name_bytes(views[0].name),
            );
        }
        while index < self.sections.len()
            invariant
                best < index <= self.sections@.len(),
                views == plan::sections_view(self.sections@),
                forall|i: int|
                    0 <= i < index ==> !name_less(
                        (#[trigger] views[i]).name,
                        views[best as int].name,
                    ),
            decreases self.sections@.len() - index,
        {
            let candidate = self.sections[index].name.as_str().as_bytes();
            let current = self.sections[best].name.as_str().as_bytes();
            if comes_before(candidate, current) {
                proof {
                    let a = plan::name_bytes(views[index as int].name);
                    let b = plan::name_bytes(views[best as int].name);
                    assert forall|i: int| 0 <= i < index + 1 implies !name_less(
                        (#[trigger] views[i]).name,
                        views[index as int].name,
                    ) by {
                        law_names_ordered(plan::name_bytes(views[i].name), a, b);
                    }
                }
                best = index;
            }
            index = index + 1;
        }
        proof {
            assert(named(views, views[best as int].name));
            assert forall|other: Seq<char>| #[trigger] self@.dom().contains(other) implies !name_less(
                other,
                views[best as int].name,
            ) by {
                let i = place(views, other);
                assert(views[i].name == other);
            }
        }
        Some(self.sections[best].name.clone())
    }
}

proof fn lemma_duplicate_stays(sections: Seq<SectionView>, count: int)
    requires
        0 <= count <= sections.len(),
        duplicate(sections.take(count)) is Some,
    ensures
        duplicate(sections) == duplicate(sections.take(count)),
    decreases sections.len() - count,
{
    if count < sections.len() {
        assert(sections.take(count + 1).drop_last() =~= sections.take(count));
        lemma_duplicate_stays(sections, count + 1);
    } else {
        assert(sections.take(count) =~= sections);
    }
}

} // verus!
