//! The scalar witness is exact: settings with the same transcript are the same.
use vstd::prelude::*;

use crate::bytes;
use crate::plan;
use crate::spec::{SpecScalars, SystemScalars};
use crate::witness;

verus! {

/// That a transcript opens with `t`.
#[verifier::opaque]
spec fn opens(whole: Seq<u8>, t: Seq<u8>) -> bool {
    t.len() <= whole.len() && whole.take(t.len() as int) == t
}

/// What a transcript opens with, it opens with the beginnings of.
proof fn lemma_opens_before(whole: Seq<u8>, t: Seq<u8>, more: Seq<u8>)
    requires
        opens(whole, t + more),
    ensures
        opens(whole, t),
{
    reveal(opens);
    assert(whole.take(t.len() as int) =~= (t + more).take(t.len() as int));
    assert((t + more).take(t.len() as int) =~= t);
}

/// A transcript opens with one string of each length.
proof fn lemma_opens_once(whole: Seq<u8>, t: Seq<u8>, first: Seq<u8>, second: Seq<u8>)
    requires
        opens(whole, t + first),
        opens(whole, t + second),
        first.len() == second.len(),
    ensures
        first == second,
{
    reveal(opens);
    assert(t + first == t + second);
    assert((t + first).skip(t.len() as int) =~= first);
    assert((t + second).skip(t.len() as int) =~= second);
}

proof fn lemma_opens_number(
    whole: Seq<u8>,
    t: Seq<u8>,
    first: nat,
    second: nat,
    width: nat,
)
    requires
        opens(whole, t + bytes::le_bytes(first, width)),
        opens(whole, t + bytes::le_bytes(second, width)),
        first < bytes::le_bound(width),
        second < bytes::le_bound(width),
    ensures
        first == second,
{
    bytes::lemma_le_bytes_len(first, width);
    bytes::lemma_le_bytes_len(second, width);
    lemma_opens_once(whole, t, bytes::le_bytes(first, width), bytes::le_bytes(second, width));
    bytes::lemma_le_round_trip(first, width);
    bytes::lemma_le_round_trip(second, width);
}

proof fn lemma_label_before(whole: Seq<u8>, t: Seq<u8>, label: Seq<char>)
    requires
        opens(whole, witness::with_label(t, label)),
    ensures
        opens(whole, t),
{
    let size = bytes::le_bytes(vstd::utf8::encode_utf8(label).len(), 8);
    lemma_opens_before(whole, t + size, vstd::utf8::encode_utf8(label));
    lemma_opens_before(whole, t, size);
}

broadcast proof fn lemma_byte_before(whole: Seq<u8>, t: Seq<u8>, label: Seq<char>, value: u8)
    requires
        #[trigger] opens(whole, witness::with_byte(t, label, value)),
    ensures
        opens(whole, t),
{
    reveal(witness::with_byte);
    let named = witness::with_label(t, label);
    assert(named.push(value) =~= named + seq![value]);
    lemma_opens_before(whole, named, seq![value]);
    lemma_label_before(whole, t, label);
}

broadcast proof fn lemma_byte(
    whole: Seq<u8>,
    t: Seq<u8>,
    label: Seq<char>,
    first: u8,
    second: u8,
)
    requires
        #[trigger] opens(whole, witness::with_byte(t, label, first)),
        #[trigger] opens(whole, witness::with_byte(t, label, second)),
    ensures
        first == second,
{
    reveal(witness::with_byte);
    let named = witness::with_label(t, label);
    assert(named.push(first) =~= named + seq![first]);
    assert(named.push(second) =~= named + seq![second]);
    lemma_opens_once(whole, named, seq![first], seq![second]);
    assert(seq![first][0] == seq![second][0]);
}

broadcast proof fn lemma_flag_before(whole: Seq<u8>, t: Seq<u8>, label: Seq<char>, value: bool)
    requires
        #[trigger] opens(whole, witness::with_flag(t, label, value)),
    ensures
        opens(whole, t),
{
    reveal(witness::with_flag);
    lemma_byte_before(
        whole,
        t,
        label,
        if value {
            1
        } else {
            0
        },
    );
}

broadcast proof fn lemma_flag(
    whole: Seq<u8>,
    t: Seq<u8>,
    label: Seq<char>,
    first: bool,
    second: bool,
)
    requires
        #[trigger] opens(whole, witness::with_flag(t, label, first)),
        #[trigger] opens(whole, witness::with_flag(t, label, second)),
    ensures
        first == second,
{
    reveal(witness::with_flag);
    if first != second {
        lemma_byte(whole, t, label, 0, 1);
    }
}

broadcast proof fn lemma_double_before(whole: Seq<u8>, t: Seq<u8>, label: Seq<char>, value: u64)
    requires
        #[trigger] opens(whole, witness::with_double(t, label, value)),
    ensures
        opens(whole, t),
{
    reveal(witness::with_double);
    lemma_opens_before(whole, witness::with_label(t, label), bytes::le_bytes(value as nat, 8));
    lemma_label_before(whole, t, label);
}

broadcast proof fn lemma_double(
    whole: Seq<u8>,
    t: Seq<u8>,
    label: Seq<char>,
    first: u64,
    second: u64,
)
    requires
        #[trigger] opens(whole, witness::with_double(t, label, first)),
        #[trigger] opens(whole, witness::with_double(t, label, second)),
    ensures
        first == second,
{
    reveal(witness::with_double);
    bytes::lemma_le_bounds();
    lemma_opens_number(whole, witness::with_label(t, label), first as nat, second as nat, 8);
}

broadcast proof fn lemma_size_before(whole: Seq<u8>, t: Seq<u8>, label: Seq<char>, value: usize)
    requires
        #[trigger] opens(whole, witness::with_size(t, label, value)),
    ensures
        opens(whole, t),
{
    reveal(witness::with_size);
    lemma_opens_before(whole, witness::with_label(t, label), bytes::le_bytes(value as nat, 8));
    lemma_label_before(whole, t, label);
}

broadcast proof fn lemma_size(
    whole: Seq<u8>,
    t: Seq<u8>,
    label: Seq<char>,
    first: usize,
    second: usize,
)
    requires
        #[trigger] opens(whole, witness::with_size(t, label, first)),
        #[trigger] opens(whole, witness::with_size(t, label, second)),
    ensures
        first == second,
{
    reveal(witness::with_size);
    bytes::lemma_le_bounds();
    lemma_opens_number(whole, witness::with_label(t, label), first as nat, second as nat, 8);
}

broadcast proof fn lemma_signed_before(whole: Seq<u8>, t: Seq<u8>, label: Seq<char>, value: i64)
    requires
        #[trigger] opens(whole, witness::with_signed(t, label, value)),
    ensures
        opens(whole, t),
{
    reveal(witness::with_signed);
    lemma_opens_before(
        whole,
        witness::with_label(t, label),
        bytes::le_bytes(bytes::twos_complement(value), 8),
    );
    lemma_label_before(whole, t, label);
}

broadcast proof fn lemma_signed(
    whole: Seq<u8>,
    t: Seq<u8>,
    label: Seq<char>,
    first: i64,
    second: i64,
)
    requires
        #[trigger] opens(whole, witness::with_signed(t, label, first)),
        #[trigger] opens(whole, witness::with_signed(t, label, second)),
    ensures
        first == second,
{
    reveal(witness::with_signed);
    bytes::lemma_le_bounds();
    lemma_opens_number(
        whole,
        witness::with_label(t, label),
        bytes::twos_complement(first),
        bytes::twos_complement(second),
        8,
    );
}

broadcast proof fn lemma_single_before(whole: Seq<u8>, t: Seq<u8>, label: Seq<char>, value: u32)
    requires
        #[trigger] opens(whole, witness::with_single(t, label, value)),
    ensures
        opens(whole, t),
{
    reveal(witness::with_single);
    lemma_opens_before(whole, witness::with_label(t, label), bytes::le_bytes(value as nat, 4));
    lemma_label_before(whole, t, label);
}

broadcast proof fn lemma_single(
    whole: Seq<u8>,
    t: Seq<u8>,
    label: Seq<char>,
    first: u32,
    second: u32,
)
    requires
        #[trigger] opens(whole, witness::with_single(t, label, first)),
        #[trigger] opens(whole, witness::with_single(t, label, second)),
    ensures
        first == second,
{
    reveal(witness::with_single);
    bytes::lemma_le_bounds();
    lemma_opens_number(whole, witness::with_label(t, label), first as nat, second as nat, 4);
}

/// What stands for a value that may be missing, after its label.
spec fn marked(body: Option<Seq<u8>>) -> Seq<u8> {
    match body {
        Some(body) => seq![1u8] + body,
        None => seq![0u8],
    }
}

proof fn lemma_marked(
    whole: Seq<u8>,
    t: Seq<u8>,
    first: Option<Seq<u8>>,
    second: Option<Seq<u8>>,
)
    requires
        opens(whole, t + marked(first)),
        opens(whole, t + marked(second)),
        first is Some && second is Some ==> first->0.len() == second->0.len(),
    ensures
        first == second,
{
    let (one, two) = (marked(first), marked(second));
    assert(t + one =~= t + one.take(1) + one.skip(1));
    assert(t + two =~= t + two.take(1) + two.skip(1));
    lemma_opens_before(whole, t + one.take(1), one.skip(1));
    lemma_opens_before(whole, t + two.take(1), two.skip(1));
    lemma_opens_once(whole, t, one.take(1), two.take(1));
    assert(one.take(1)[0] == two.take(1)[0]);
    if first is Some {
        lemma_opens_once(whole, t, one, two);
        assert(one.skip(1) =~= first->0);
        assert(two.skip(1) =~= second->0);
    }
}

spec fn option_single_body(value: Option<u32>) -> Option<Seq<u8>> {
    match value {
        Some(value) => Some(bytes::le_bytes(value as nat, 4)),
        None => None,
    }
}

proof fn lemma_option_single_form(t: Seq<u8>, label: Seq<char>, value: Option<u32>)
    ensures
        witness::with_option_single(t, label, value) == witness::with_label(t, label) + marked(
            option_single_body(value),
        ),
        value is Some ==> option_single_body(value)->0.len() == 4,
{
    reveal(witness::with_option_single);
    if value is Some {
        bytes::lemma_le_bytes_len(value->0 as nat, 4);
    }
    assert(witness::with_option_single(t, label, value) =~= witness::with_label(t, label)
        + marked(option_single_body(value)));
}

broadcast proof fn lemma_option_single_before(
    whole: Seq<u8>,
    t: Seq<u8>,
    label: Seq<char>,
    value: Option<u32>,
)
    requires
        #[trigger] opens(whole, witness::with_option_single(t, label, value)),
    ensures
        opens(whole, t),
{
    reveal(witness::with_option_single);
    lemma_option_single_form(t, label, value);
    lemma_opens_before(whole, witness::with_label(t, label), marked(option_single_body(value)));
    lemma_label_before(whole, t, label);
}

broadcast proof fn lemma_option_single(
    whole: Seq<u8>,
    t: Seq<u8>,
    label: Seq<char>,
    first: Option<u32>,
    second: Option<u32>,
)
    requires
        #[trigger] opens(whole, witness::with_option_single(t, label, first)),
        #[trigger] opens(whole, witness::with_option_single(t, label, second)),
    ensures
        first == second,
{
    reveal(witness::with_option_single);
    lemma_option_single_form(t, label, first);
    lemma_option_single_form(t, label, second);
    lemma_marked(
        whole,
        witness::with_label(t, label),
        option_single_body(first),
        option_single_body(second),
    );
    if first is Some {
        bytes::lemma_le_bounds();
        bytes::lemma_le_round_trip(first->0 as nat, 4);
        bytes::lemma_le_round_trip(second->0 as nat, 4);
    }
}

spec fn option_double_body(value: Option<u64>) -> Option<Seq<u8>> {
    match value {
        Some(value) => Some(bytes::le_bytes(value as nat, 8)),
        None => None,
    }
}

proof fn lemma_option_double_form(t: Seq<u8>, label: Seq<char>, value: Option<u64>)
    ensures
        witness::with_option_double(t, label, value) == witness::with_label(t, label) + marked(
            option_double_body(value),
        ),
        value is Some ==> option_double_body(value)->0.len() == 8,
{
    reveal(witness::with_option_double);
    if value is Some {
        bytes::lemma_le_bytes_len(value->0 as nat, 8);
    }
    assert(witness::with_option_double(t, label, value) =~= witness::with_label(t, label)
        + marked(option_double_body(value)));
}

broadcast proof fn lemma_option_double_before(
    whole: Seq<u8>,
    t: Seq<u8>,
    label: Seq<char>,
    value: Option<u64>,
)
    requires
        #[trigger] opens(whole, witness::with_option_double(t, label, value)),
    ensures
        opens(whole, t),
{
    reveal(witness::with_option_double);
    lemma_option_double_form(t, label, value);
    lemma_opens_before(whole, witness::with_label(t, label), marked(option_double_body(value)));
    lemma_label_before(whole, t, label);
}

broadcast proof fn lemma_option_double(
    whole: Seq<u8>,
    t: Seq<u8>,
    label: Seq<char>,
    first: Option<u64>,
    second: Option<u64>,
)
    requires
        #[trigger] opens(whole, witness::with_option_double(t, label, first)),
        #[trigger] opens(whole, witness::with_option_double(t, label, second)),
    ensures
        first == second,
{
    reveal(witness::with_option_double);
    lemma_option_double_form(t, label, first);
    lemma_option_double_form(t, label, second);
    lemma_marked(
        whole,
        witness::with_label(t, label),
        option_double_body(first),
        option_double_body(second),
    );
    if first is Some {
        bytes::lemma_le_bounds();
        bytes::lemma_le_round_trip(first->0 as nat, 8);
        bytes::lemma_le_round_trip(second->0 as nat, 8);
    }
}

spec fn option_signed_body(value: Option<i64>) -> Option<Seq<u8>> {
    match value {
        Some(value) => Some(bytes::le_bytes(bytes::twos_complement(value), 8)),
        None => None,
    }
}

proof fn lemma_option_signed_form(t: Seq<u8>, label: Seq<char>, value: Option<i64>)
    ensures
        witness::with_option_signed(t, label, value) == witness::with_label(t, label) + marked(
            option_signed_body(value),
        ),
        value is Some ==> option_signed_body(value)->0.len() == 8,
{
    reveal(witness::with_option_signed);
    if value is Some {
        bytes::lemma_le_bytes_len(bytes::twos_complement(value->0), 8);
    }
    assert(witness::with_option_signed(t, label, value) =~= witness::with_label(t, label)
        + marked(option_signed_body(value)));
}

broadcast proof fn lemma_option_signed_before(
    whole: Seq<u8>,
    t: Seq<u8>,
    label: Seq<char>,
    value: Option<i64>,
)
    requires
        #[trigger] opens(whole, witness::with_option_signed(t, label, value)),
    ensures
        opens(whole, t),
{
    reveal(witness::with_option_signed);
    lemma_option_signed_form(t, label, value);
    lemma_opens_before(whole, witness::with_label(t, label), marked(option_signed_body(value)));
    lemma_label_before(whole, t, label);
}

broadcast proof fn lemma_option_signed(
    whole: Seq<u8>,
    t: Seq<u8>,
    label: Seq<char>,
    first: Option<i64>,
    second: Option<i64>,
)
    requires
        #[trigger] opens(whole, witness::with_option_signed(t, label, first)),
        #[trigger] opens(whole, witness::with_option_signed(t, label, second)),
    ensures
        first == second,
{
    reveal(witness::with_option_signed);
    lemma_option_signed_form(t, label, first);
    lemma_option_signed_form(t, label, second);
    lemma_marked(
        whole,
        witness::with_label(t, label),
        option_signed_body(first),
        option_signed_body(second),
    );
    if first is Some {
        bytes::lemma_le_bounds();
        bytes::lemma_le_round_trip(bytes::twos_complement(first->0), 8);
        bytes::lemma_le_round_trip(bytes::twos_complement(second->0), 8);
    }
}

/// Two numbers one after the other are read back one by one.
proof fn lemma_two_numbers(a: nat, b: nat, c: nat, d: nat, width: nat)
    requires
        bytes::le_bytes(a, width) + bytes::le_bytes(b, width) == bytes::le_bytes(c, width)
            + bytes::le_bytes(d, width),
        a < bytes::le_bound(width),
        b < bytes::le_bound(width),
        c < bytes::le_bound(width),
        d < bytes::le_bound(width),
    ensures
        a == c,
        b == d,
{
    bytes::lemma_le_bytes_len(a, width);
    bytes::lemma_le_bytes_len(b, width);
    bytes::lemma_le_bytes_len(c, width);
    bytes::lemma_le_bytes_len(d, width);
    let both = bytes::le_bytes(a, width) + bytes::le_bytes(b, width);
    let other = bytes::le_bytes(c, width) + bytes::le_bytes(d, width);
    assert(both.take(width as int) =~= bytes::le_bytes(a, width));
    assert(both.skip(width as int) =~= bytes::le_bytes(b, width));
    assert(other.take(width as int) =~= bytes::le_bytes(c, width));
    assert(other.skip(width as int) =~= bytes::le_bytes(d, width));
    bytes::lemma_le_round_trip(a, width);
    bytes::lemma_le_round_trip(b, width);
    bytes::lemma_le_round_trip(c, width);
    bytes::lemma_le_round_trip(d, width);
}

spec fn signed_pair_body(value: Option<[i64; 2]>) -> Option<Seq<u8>> {
    match value {
        Some(value) => Some(
            bytes::le_bytes(bytes::twos_complement(value@[0]), 8) + bytes::le_bytes(
                bytes::twos_complement(value@[1]),
                8,
            ),
        ),
        None => None,
    }
}

proof fn lemma_signed_pair_form(t: Seq<u8>, label: Seq<char>, value: Option<[i64; 2]>)
    ensures
        witness::with_option_signed_pair(t, label, value) == witness::with_label(t, label)
            + marked(signed_pair_body(value)),
        value is Some ==> signed_pair_body(value)->0.len() == 16,
{
    reveal(witness::with_option_signed_pair);
    if value is Some {
        bytes::lemma_le_bytes_len(bytes::twos_complement(value->0@[0]), 8);
        bytes::lemma_le_bytes_len(bytes::twos_complement(value->0@[1]), 8);
    }
    assert(witness::with_option_signed_pair(t, label, value) =~= witness::with_label(t, label)
        + marked(signed_pair_body(value)));
}

broadcast proof fn lemma_signed_pair_before(
    whole: Seq<u8>,
    t: Seq<u8>,
    label: Seq<char>,
    value: Option<[i64; 2]>,
)
    requires
        #[trigger] opens(whole, witness::with_option_signed_pair(t, label, value)),
    ensures
        opens(whole, t),
{
    reveal(witness::with_option_signed_pair);
    lemma_signed_pair_form(t, label, value);
    lemma_opens_before(whole, witness::with_label(t, label), marked(signed_pair_body(value)));
    lemma_label_before(whole, t, label);
}

broadcast proof fn lemma_signed_pair(
    whole: Seq<u8>,
    t: Seq<u8>,
    label: Seq<char>,
    first: Option<[i64; 2]>,
    second: Option<[i64; 2]>,
)
    requires
        #[trigger] opens(whole, witness::with_option_signed_pair(t, label, first)),
        #[trigger] opens(whole, witness::with_option_signed_pair(t, label, second)),
    ensures
        first == second,
{
    reveal(witness::with_option_signed_pair);
    lemma_signed_pair_form(t, label, first);
    lemma_signed_pair_form(t, label, second);
    lemma_marked(
        whole,
        witness::with_label(t, label),
        signed_pair_body(first),
        signed_pair_body(second),
    );
    if first is Some {
        let (a, b) = (first->0, second->0);
        bytes::lemma_le_bounds();
        lemma_two_numbers(
            bytes::twos_complement(a@[0]),
            bytes::twos_complement(a@[1]),
            bytes::twos_complement(b@[0]),
            bytes::twos_complement(b@[1]),
            8,
        );
        assert(a@ =~= b@);
        assert(a =~= b);
    }
}

spec fn single_pair_body(value: Option<(u32, u32)>) -> Option<Seq<u8>> {
    match value {
        Some(value) => Some(
            bytes::le_bytes(value.0 as nat, 4) + bytes::le_bytes(value.1 as nat, 4),
        ),
        None => None,
    }
}

proof fn lemma_single_pair_form(t: Seq<u8>, label: Seq<char>, value: Option<(u32, u32)>)
    ensures
        witness::with_option_single_pair(t, label, value) == witness::with_label(t, label)
            + marked(single_pair_body(value)),
        value is Some ==> single_pair_body(value)->0.len() == 8,
{
    reveal(witness::with_option_single_pair);
    if value is Some {
        let pair = value->0;
        bytes::lemma_le_bytes_len(pair.0 as nat, 4);
        bytes::lemma_le_bytes_len(pair.1 as nat, 4);
    }
    assert(witness::with_option_single_pair(t, label, value) =~= witness::with_label(t, label)
        + marked(single_pair_body(value)));
}

broadcast proof fn lemma_single_pair_before(
    whole: Seq<u8>,
    t: Seq<u8>,
    label: Seq<char>,
    value: Option<(u32, u32)>,
)
    requires
        #[trigger] opens(whole, witness::with_option_single_pair(t, label, value)),
    ensures
        opens(whole, t),
{
    reveal(witness::with_option_single_pair);
    lemma_single_pair_form(t, label, value);
    lemma_opens_before(whole, witness::with_label(t, label), marked(single_pair_body(value)));
    lemma_label_before(whole, t, label);
}

broadcast proof fn lemma_single_pair(
    whole: Seq<u8>,
    t: Seq<u8>,
    label: Seq<char>,
    first: Option<(u32, u32)>,
    second: Option<(u32, u32)>,
)
    requires
        #[trigger] opens(whole, witness::with_option_single_pair(t, label, first)),
        #[trigger] opens(whole, witness::with_option_single_pair(t, label, second)),
    ensures
        first == second,
{
    reveal(witness::with_option_single_pair);
    lemma_single_pair_form(t, label, first);
    lemma_single_pair_form(t, label, second);
    lemma_marked(
        whole,
        witness::with_label(t, label),
        single_pair_body(first),
        single_pair_body(second),
    );
    if first is Some {
        let (a, b) = (first->0, second->0);
        bytes::lemma_le_bounds();
        lemma_two_numbers(a.0 as nat, a.1 as nat, b.0 as nat, b.1 as nat, 4);
    }
}

/// A list after its label: how many values, and the values.
spec fn listed(count: nat, values: Seq<u64>) -> Seq<u8> {
    bytes::le_bytes(count, 8) + plan::u64s_bytes(values)
}

proof fn lemma_words(first: Seq<u64>, second: Seq<u64>)
    requires
        first.len() == second.len(),
        plan::u64s_bytes(first) == plan::u64s_bytes(second),
    ensures
        first == second,
{
    bytes::lemma_le_bounds();
    assert forall|i: int| 0 <= i < first.len() implies first[i] == second[i] by {
        bytes::lemma_le_bytes_len(first[i] as nat, 8);
        bytes::lemma_le_bytes_len(second[i] as nat, 8);
        assert forall|k: int| 0 <= k < 8 implies bytes::le_bytes(first[i] as nat, 8)[k]
            == bytes::le_bytes(second[i] as nat, 8)[k] by {
            let place = 8 * i + k;
            assert(place / 8 == i && place % 8 == k);
            assert(plan::u64s_bytes(first)[place] == bytes::le_bytes(first[i] as nat, 8)[k]);
            assert(plan::u64s_bytes(second)[place] == bytes::le_bytes(second[i] as nat, 8)[k]);
        }
        assert(bytes::le_bytes(first[i] as nat, 8) =~= bytes::le_bytes(second[i] as nat, 8));
        bytes::lemma_le_round_trip(first[i] as nat, 8);
        bytes::lemma_le_round_trip(second[i] as nat, 8);
    }
    assert(first =~= second);
}

/// Lists of `width` words for each value are read back.
proof fn lemma_listed(
    whole: Seq<u8>,
    t: Seq<u8>,
    counts: (nat, nat),
    first: Seq<u64>,
    second: Seq<u64>,
    width: nat,
)
    requires
        opens(whole, t + listed(counts.0, first)),
        opens(whole, t + listed(counts.1, second)),
        counts.0 < 0x1_0000_0000_0000_0000,
        counts.1 < 0x1_0000_0000_0000_0000,
        first.len() == width * counts.0,
        second.len() == width * counts.1,
    ensures
        counts.0 == counts.1,
        first == second,
{
    let (a, b) = (bytes::le_bytes(counts.0, 8), bytes::le_bytes(counts.1, 8));
    bytes::lemma_le_bounds();
    assert(t + listed(counts.0, first) =~= t + a + plan::u64s_bytes(first));
    assert(t + listed(counts.1, second) =~= t + b + plan::u64s_bytes(second));
    lemma_opens_before(whole, t + a, plan::u64s_bytes(first));
    lemma_opens_before(whole, t + b, plan::u64s_bytes(second));
    lemma_opens_number(whole, t, counts.0, counts.1, 8);
    lemma_opens_once(whole, t + a, plan::u64s_bytes(first), plan::u64s_bytes(second));
    lemma_words(first, second);
}

proof fn lemma_listed_before(
    whole: Seq<u8>,
    t: Seq<u8>,
    label: Seq<char>,
    count: nat,
    values: Seq<u64>,
)
    requires
        opens(
            whole,
            witness::with_label(t, label) + bytes::le_bytes(count, 8) + plan::u64s_bytes(values),
        ),
    ensures
        opens(whole, t),
        opens(whole, witness::with_label(t, label) + listed(count, values)),
{
    let named = witness::with_label(t, label);
    let size = bytes::le_bytes(count, 8);
    assert(named + size + plan::u64s_bytes(values) =~= named + listed(count, values));
    lemma_opens_before(whole, named + size, plan::u64s_bytes(values));
    lemma_opens_before(whole, named, size);
    lemma_label_before(whole, t, label);
}

broadcast proof fn lemma_double_slice_before(
    whole: Seq<u8>,
    t: Seq<u8>,
    label: Seq<char>,
    values: Seq<u64>,
)
    requires
        #[trigger] opens(whole, witness::with_double_slice(t, label, values)),
    ensures
        opens(whole, t),
{
    reveal(witness::with_double_slice);
    lemma_listed_before(whole, t, label, values.len(), values);
}

broadcast proof fn lemma_double_slice(
    whole: Seq<u8>,
    t: Seq<u8>,
    label: Seq<char>,
    first: [u64; 2],
    second: [u64; 2],
)
    requires
        #[trigger] opens(whole, witness::with_double_slice(t, label, first@)),
        #[trigger] opens(whole, witness::with_double_slice(t, label, second@)),
    ensures
        first == second,
{
    reveal(witness::with_double_slice);
    lemma_listed_before(whole, t, label, 2, first@);
    lemma_listed_before(whole, t, label, 2, second@);
    lemma_listed(whole, witness::with_label(t, label), (2, 2), first@, second@, 1);
    assert(first =~= second);
}

spec fn size_words(values: Seq<usize>) -> Seq<u64> {
    Seq::new(values.len(), |i: int| values[i] as u64)
}

broadcast proof fn lemma_size_slice_before(
    whole: Seq<u8>,
    t: Seq<u8>,
    label: Seq<char>,
    values: Seq<usize>,
)
    requires
        #[trigger] opens(whole, witness::with_size_slice(t, label, values)),
    ensures
        opens(whole, t),
{
    reveal(witness::with_size_slice);
    assert(size_words(values) =~= Seq::new(values.len(), |i: int| values[i] as u64));
    lemma_listed_before(whole, t, label, values.len(), size_words(values));
}

broadcast proof fn lemma_size_slice(
    whole: Seq<u8>,
    t: Seq<u8>,
    label: Seq<char>,
    first: [usize; 3],
    second: [usize; 3],
)
    requires
        #[trigger] opens(whole, witness::with_size_slice(t, label, first@)),
        #[trigger] opens(whole, witness::with_size_slice(t, label, second@)),
    ensures
        first == second,
{
    reveal(witness::with_size_slice);
    let (a, b) = (size_words(first@), size_words(second@));
    assert(a =~= Seq::new(first@.len(), |i: int| first@[i] as u64));
    assert(b =~= Seq::new(second@.len(), |i: int| second@[i] as u64));
    lemma_listed_before(whole, t, label, 3, a);
    lemma_listed_before(whole, t, label, 3, b);
    lemma_listed(whole, witness::with_label(t, label), (3, 3), a, b, 1);
    assert forall|i: int| 0 <= i < 3 implies first@[i] == second@[i] by {
        assert(a[i] == b[i]);
    }
    assert(first@ =~= second@);
    assert(first =~= second);
}

spec fn signed_words(values: Seq<i64>) -> Seq<u64> {
    Seq::new(values.len(), |i: int| bytes::twos_complement(values[i]) as u64)
}

broadcast proof fn lemma_signed_slice_before(
    whole: Seq<u8>,
    t: Seq<u8>,
    label: Seq<char>,
    values: Seq<i64>,
)
    requires
        #[trigger] opens(whole, witness::with_signed_slice(t, label, values)),
    ensures
        opens(whole, t),
{
    reveal(witness::with_signed_slice);
    assert(signed_words(values) =~= Seq::new(
        values.len(),
        |i: int| bytes::twos_complement(values[i]) as u64,
    ));
    lemma_listed_before(whole, t, label, values.len(), signed_words(values));
}

broadcast proof fn lemma_signed_slice(
    whole: Seq<u8>,
    t: Seq<u8>,
    label: Seq<char>,
    first: [i64; 2],
    second: [i64; 2],
)
    requires
        #[trigger] opens(whole, witness::with_signed_slice(t, label, first@)),
        #[trigger] opens(whole, witness::with_signed_slice(t, label, second@)),
    ensures
        first == second,
{
    reveal(witness::with_signed_slice);
    let (a, b) = (signed_words(first@), signed_words(second@));
    assert(a =~= Seq::new(first@.len(), |i: int| bytes::twos_complement(first@[i]) as u64));
    assert(b =~= Seq::new(second@.len(), |i: int| bytes::twos_complement(second@[i]) as u64));
    lemma_listed_before(whole, t, label, 2, a);
    lemma_listed_before(whole, t, label, 2, b);
    lemma_listed(whole, witness::with_label(t, label), (2, 2), a, b, 1);
    assert forall|i: int| 0 <= i < 2 implies first@[i] == second@[i] by {
        assert(a[i] == b[i]);
    }
    assert(first@ =~= second@);
    assert(first =~= second);
}

spec fn location_words(values: Seq<[usize; 3]>) -> Seq<u64> {
    Seq::new(3 * values.len(), |k: int| values[k / 3]@[k % 3] as u64)
}

broadcast proof fn lemma_locations_before(
    whole: Seq<u8>,
    t: Seq<u8>,
    label: Seq<char>,
    values: Seq<[usize; 3]>,
)
    requires
        #[trigger] opens(whole, witness::with_locations(t, label, values)),
    ensures
        opens(whole, t),
{
    reveal(witness::with_locations);
    assert(location_words(values) =~= Seq::new(
        3 * values.len(),
        |k: int| values[k / 3]@[k % 3] as u64,
    ));
    lemma_listed_before(whole, t, label, values.len(), location_words(values));
}

broadcast proof fn lemma_locations(
    whole: Seq<u8>,
    t: Seq<u8>,
    label: Seq<char>,
    first: Vec<[usize; 3]>,
    second: Vec<[usize; 3]>,
)
    requires
        #[trigger] opens(whole, witness::with_locations(t, label, first@)),
        #[trigger] opens(whole, witness::with_locations(t, label, second@)),
    ensures
        first@ == second@,
{
    reveal(witness::with_locations);
    let (a, b) = (location_words(first@), location_words(second@));
    assert(a =~= Seq::new(3 * first@.len(), |k: int| first@[k / 3]@[k % 3] as u64));
    assert(b =~= Seq::new(3 * second@.len(), |k: int| second@[k / 3]@[k % 3] as u64));
    lemma_listed_before(whole, t, label, first@.len(), a);
    lemma_listed_before(whole, t, label, second@.len(), b);
    assert(first.len() <= usize::MAX && second.len() <= usize::MAX);
    lemma_listed(
        whole,
        witness::with_label(t, label),
        (first@.len(), second@.len()),
        a,
        b,
        3,
    );
    assert forall|i: int| 0 <= i < first@.len() implies first@[i] == second@[i] by {
        assert forall|k: int| 0 <= k < 3 implies first@[i]@[k] == second@[i]@[k] by {
            assert(a[3 * i + k] == b[3 * i + k]);
            assert((3 * i + k) / 3 == i && (3 * i + k) % 3 == k);
        }
        assert(first@[i]@ =~= second@[i]@);
        assert(first@[i] =~= second@[i]);
    }
    assert(first@ =~= second@);
}

broadcast group group_entries {
    lemma_byte_before,
    lemma_byte,
    lemma_flag_before,
    lemma_flag,
    lemma_double_before,
    lemma_double,
    lemma_size_before,
    lemma_size,
    lemma_signed_before,
    lemma_signed,
    lemma_single_before,
    lemma_single,
    lemma_option_single_before,
    lemma_option_single,
    lemma_option_double_before,
    lemma_option_double,
    lemma_option_signed_before,
    lemma_option_signed,
    lemma_signed_pair_before,
    lemma_signed_pair,
    lemma_single_pair_before,
    lemma_single_pair,
    lemma_double_slice_before,
    lemma_double_slice,
    lemma_size_slice_before,
    lemma_size_slice,
    lemma_signed_slice_before,
    lemma_signed_slice,
    lemma_locations_before,
    lemma_locations,
}

/// That two sets of settings hold the same in every field, bit for bit.
pub open spec fn same_scalars(a: SpecScalars, b: SpecScalars) -> bool {
    &&& a == (SpecScalars {
        sys: SystemScalars { ld_vits_whitelocs: a.sys.ld_vits_whitelocs, ..b.sys },
        ..b
    })
    &&& a.sys.ld_vits_whitelocs@ == b.sys.ld_vits_whitelocs@
}

#[verifier::rlimit(40)]
#[verifier::spinoff_prover]
proof fn lemma_system(whole: Seq<u8>, t: Seq<u8>, a: SpecScalars, b: SpecScalars)
    requires
        opens(whole, witness::with_system(t, a)),
        opens(whole, witness::with_system(t, b)),
    ensures
        witness::with_system(t, a) == witness::with_system(t, b),
        a.freq == b.freq,
        a.color_system == b.color_system,
        a.sys == (SystemScalars { ld_vits_whitelocs: a.sys.ld_vits_whitelocs, ..b.sys }),
        a.sys.ld_vits_whitelocs@ == b.sys.ld_vits_whitelocs@,
{
    broadcast use group_entries;

    reveal(witness::with_system);
}

#[verifier::spinoff_prover]
proof fn lemma_format_before(whole: Seq<u8>, t: Seq<u8>, s: SpecScalars)
    requires
        opens(whole, witness::with_format(t, s)),
    ensures
        opens(whole, t),
{
    broadcast use group_entries;

    reveal(witness::with_format);
}

#[verifier::rlimit(40)]
#[verifier::spinoff_prover]
proof fn lemma_format(whole: Seq<u8>, t: Seq<u8>, a: SpecScalars, b: SpecScalars)
    requires
        opens(whole, witness::with_format(t, a)),
        opens(whole, witness::with_format(t, b)),
    ensures
        witness::with_format(t, a) == witness::with_format(t, b),
        a.decoder == b.decoder,
{
    broadcast use group_entries;

    reveal(witness::with_format);
}

#[verifier::spinoff_prover]
proof fn lemma_request_settings_before(whole: Seq<u8>, t: Seq<u8>, s: SpecScalars)
    requires
        opens(whole, witness::with_request_settings(t, s)),
    ensures
        opens(whole, t),
{
    broadcast use group_entries;

    reveal(witness::with_request_settings);
}

#[verifier::rlimit(40)]
#[verifier::spinoff_prover]
proof fn lemma_request_settings(whole: Seq<u8>, t: Seq<u8>, a: SpecScalars, b: SpecScalars)
    requires
        opens(whole, witness::with_request_settings(t, a)),
        opens(whole, witness::with_request_settings(t, b)),
    ensures
        witness::with_request_settings(t, a) == witness::with_request_settings(t, b),
        a.field_order_action == b.field_order_action,
        a.chroma_afc_fine_tune_fh_ratio == b.chroma_afc_fine_tune_fh_ratio,
        a.dod_threshold_p == b.dod_threshold_p,
        a.dod_threshold_a == b.dod_threshold_a,
        a.dod_hysteresis == b.dod_hysteresis,
        a.rf_disable_comb == b.rf_disable_comb,
        a.rf_disable_right_hsync == b.rf_disable_right_hsync,
        a.rf_disable_dc_offset == b.rf_disable_dc_offset,
        a.rf_fallback_vsync == b.rf_fallback_vsync,
        a.rf_field_order_confidence == b.rf_field_order_confidence,
        a.rf_saved_levels == b.rf_saved_levels,
        a.rf_y_comb == b.rf_y_comb,
        a.rf_write_chroma == b.rf_write_chroma,
        a.rf_skip_hsync_refine == b.rf_skip_hsync_refine,
        a.rf_export_raw_tbc == b.rf_export_raw_tbc,
        a.rf_ire0_adjust == b.rf_ire0_adjust,
        a.rf_relaxed_line0 == b.rf_relaxed_line0,
        a.rf_detect_chroma_track_phase == b.rf_detect_chroma_track_phase,
        a.rf_disable_burst_hsync == b.rf_disable_burst_hsync,
        a.rf_disable_phase_correction == b.rf_disable_phase_correction,
{
    broadcast use group_entries;

    reveal(witness::with_request_settings);
}

#[verifier::spinoff_prover]
proof fn lemma_video_settings_before(whole: Seq<u8>, t: Seq<u8>, s: SpecScalars)
    requires
        opens(whole, witness::with_video_settings(t, s)),
    ensures
        opens(whole, t),
{
    broadcast use group_entries;

    reveal(witness::with_video_settings);
}

#[verifier::rlimit(40)]
#[verifier::spinoff_prover]
proof fn lemma_video_settings(whole: Seq<u8>, t: Seq<u8>, a: SpecScalars, b: SpecScalars)
    requires
        opens(whole, witness::with_video_settings(t, a)),
        opens(whole, witness::with_video_settings(t, b)),
    ensures
        a.video_high_boost_value == b.video_high_boost_value,
        a.video_disable_diff_demod == b.video_disable_diff_demod,
        a.video_nldeemp_enabled == b.video_nldeemp_enabled,
        a.video_subdeemp_enabled == b.video_subdeemp_enabled,
        a.resync_divisor == b.resync_divisor,
        a.resync_vsync_env_decimation == b.resync_vsync_env_decimation,
        a.ntscj == b.ntscj,
        a.track_phase == b.track_phase,
        a.wow_level_adjust_smoothing == b.wow_level_adjust_smoothing,
        a.wow_interpolation_method == b.wow_interpolation_method,
        a.do_dod == b.do_dod,
        a.level_adjust == b.level_adjust,
{
    broadcast use group_entries;

    reveal(witness::with_video_settings);
}

proof fn lemma_transcript_tells(a: SpecScalars, b: SpecScalars)
    requires
        witness::scalar_transcript(a) == witness::scalar_transcript(b),
    ensures
        same_scalars(a, b),
{
    let whole = witness::scalar_transcript(a);
    let t = vstd::utf8::encode_utf8("tape-decode DecoderSpec scalar witness v1\0"@);
    let (a1, b1) = (witness::with_system(t, a), witness::with_system(t, b));
    let (a2, b2) = (witness::with_format(a1, a), witness::with_format(b1, b));
    let a3 = witness::with_request_settings(a2, a);
    let b3 = witness::with_request_settings(b2, b);
    assert(opens(whole, whole)) by {
        reveal(opens);
        assert(whole.take(whole.len() as int) =~= whole);
    }
    lemma_video_settings_before(whole, a3, a);
    lemma_video_settings_before(whole, b3, b);
    lemma_request_settings_before(whole, a2, a);
    lemma_request_settings_before(whole, b2, b);
    lemma_format_before(whole, a1, a);
    lemma_format_before(whole, b1, b);
    lemma_system(whole, t, a, b);
    lemma_format(whole, a1, a, b);
    lemma_request_settings(whole, a2, a, b);
    lemma_video_settings(whole, a3, a, b);
}

proof fn lemma_same_transcript(a: SpecScalars, b: SpecScalars)
    requires
        same_scalars(a, b),
    ensures
        witness::scalar_transcript(a) == witness::scalar_transcript(b),
{
    assert forall|t: Seq<u8>| #[trigger] witness::with_system(t, a) == witness::with_system(
        t,
        b,
    ) by {
        reveal(witness::with_system);
    }
    assert forall|t: Seq<u8>| #[trigger] witness::with_format(t, a) == witness::with_format(
        t,
        b,
    ) by {
        reveal(witness::with_format);
    }
    assert forall|t: Seq<u8>| #[trigger]
        witness::with_request_settings(t, a) == witness::with_request_settings(t, b) by {
        reveal(witness::with_request_settings);
    }
    assert forall|t: Seq<u8>| #[trigger]
        witness::with_video_settings(t, a) == witness::with_video_settings(t, b) by {
        reveal(witness::with_video_settings);
    }
}

/// The scalar witness is exact: two decoders have the same transcript exactly where
/// every setting that they keep is the same, bit for bit. So their witnesses differ
/// where a setting does, unless two transcripts have one digest; and nothing else
/// of a decoder has a part in it.
pub proof fn law_transcript_exact(a: SpecScalars, b: SpecScalars)
    ensures
        witness::scalar_transcript(a) == witness::scalar_transcript(b) <==> same_scalars(a, b),
{
    if witness::scalar_transcript(a) == witness::scalar_transcript(b) {
        lemma_transcript_tells(a, b);
    }
    if same_scalars(a, b) {
        lemma_same_transcript(a, b);
    }
}

} // verus!
