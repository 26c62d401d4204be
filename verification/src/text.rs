//! Numbers written out as text.
use vstd::prelude::*;

verus! {

/// The digit of `value` in bases up to sixteen.
pub open spec fn digit(value: nat) -> char {
    if value < 10 {
        (48 + value) as char
    } else {
        (87 + value) as char
    }
}

/// The decimal digits of `value`, without leading zeros.
pub open spec fn decimal(value: nat) -> Seq<char>
    decreases value,
{
    if value < 10 {
        seq![digit(value)]
    } else {
        decimal(value / 10).push(digit(value % 10))
    }
}

/// The `width` low hexadecimal digits of `value`, most significant first.
pub open spec fn hexadecimal(value: nat, width: nat) -> Seq<char>
    decreases width,
{
    if width == 0 {
        Seq::empty()
    } else {
        hexadecimal(value / 16, (width - 1) as nat).push(digit(value % 16))
    }
}

/// `values` in decimal, separated by commas.
pub open spec fn decimals(values: Seq<u64>) -> Seq<char>
    decreases values.len(),
{
    if values.len() == 0 {
        Seq::empty()
    } else if values.len() == 1 {
        decimal(values[0] as nat)
    } else {
        decimals(values.drop_last()) + ", "@ + decimal(values.last() as nat)
    }
}

fn push_digit(text: &mut String, value: u64)
    requires
        value < 16,
    ensures
        final(text)@ == old(text)@.push(digit(value as nat)),
{
    let symbol: &str = if value == 0 {
        "0"
    } else if value == 1 {
        "1"
    } else if value == 2 {
        "2"
    } else if value == 3 {
        "3"
    } else if value == 4 {
        "4"
    } else if value == 5 {
        "5"
    } else if value == 6 {
        "6"
    } else if value == 7 {
        "7"
    } else if value == 8 {
        "8"
    } else if value == 9 {
        "9"
    } else if value == 10 {
        "a"
    } else if value == 11 {
        "b"
    } else if value == 12 {
        "c"
    } else if value == 13 {
        "d"
    } else if value == 14 {
        "e"
    } else {
        "f"
    };
    let ghost before = text@;
    text.append(symbol);
    proof {
        reveal_strlit("0");
        reveal_strlit("1");
        reveal_strlit("2");
        reveal_strlit("3");
        reveal_strlit("4");
        reveal_strlit("5");
        reveal_strlit("6");
        reveal_strlit("7");
        reveal_strlit("8");
        reveal_strlit("9");
        reveal_strlit("a");
        reveal_strlit("b");
        reveal_strlit("c");
        reveal_strlit("d");
        reveal_strlit("e");
        reveal_strlit("f");
        assert(symbol@ =~= seq![digit(value as nat)]);
        assert(before + seq![digit(value as nat)] =~= before.push(digit(value as nat)));
    }
}

/// Appends `value` in decimal.
pub fn push_decimal(text: &mut String, value: u64)
    ensures
        final(text)@ == old(text)@ + decimal(value as nat),
    decreases value,
{
    let ghost before = text@;
    if value >= 10 {
        push_decimal(text, value / 10);
    }
    push_digit(text, value % 10);
    proof {
        if value >= 10 {
            assert((before + decimal((value / 10) as nat)).push(digit((value % 10) as nat))
                =~= before + decimal(value as nat));
        } else {
            assert(before.push(digit(value as nat)) =~= before + seq![digit(value as nat)]);
        }
    }
}

/// Appends the `width` low hexadecimal digits of `value`.
pub fn push_hexadecimal(text: &mut String, value: u64, width: u64)
    ensures
        final(text)@ == old(text)@ + hexadecimal(value as nat, width as nat),
    decreases width,
{
    let ghost before = text@;
    if width > 0 {
        push_hexadecimal(text, value / 16, width - 1);
        push_digit(text, value % 16);
        proof {
            assert((before + hexadecimal((value / 16) as nat, (width - 1) as nat)).push(
                digit((value % 16) as nat),
            ) =~= before + hexadecimal(value as nat, width as nat));
        }
    } else {
        proof {
            assert(before + Seq::<char>::empty() =~= before);
        }
    }
}

/// Appends `values` in decimal, separated by commas.
pub fn push_decimals(text: &mut String, values: &Vec<u64>)
    ensures
        final(text)@ == old(text)@ + decimals(values@),
{
    let ghost before = text@;
    let mut index: usize = 0;
    proof {
        assert(values@.take(0) =~= Seq::<u64>::empty());
        assert(before + Seq::<char>::empty() =~= before);
    }
    while index < values.len()
        invariant
            index <= values@.len(),
            text@ == before + decimals(values@.take(index as int)),
        decreases values@.len() - index,
    {
        let ghost shorter = values@.take(index as int);
        let ghost longer = values@.take(index + 1);
        proof {
            assert(longer.drop_last() =~= shorter);
        }
        if index > 0 {
            text.append(", ");
        }
        push_decimal(text, values[index]);
        proof {
            if index > 0 {
                assert(before + decimals(shorter) + ", "@ + decimal(longer.last() as nat)
                    =~= before + decimals(longer));
            } else {
                assert(before + Seq::<char>::empty() + decimal(longer.last() as nat) =~= before
                    + decimals(longer));
            }
        }
        index = index + 1;
    }
    proof {
        assert(values@.take(values@.len() as int) =~= values@);
    }
}

/// Whether a sign stands here that does not belong to an exponent.
pub open spec fn splits_complex(text: Seq<u8>, index: int) -> bool {
    &&& 0 < index < text.len()
    &&& text[index] == PLUS || text[index] == MINUS
    &&& text[index - 1] != SMALL_E
    &&& text[index - 1] != LARGE_E
}

/// The sign `+`.
pub const PLUS: u8 = 43;

/// The sign `-`.
pub const MINUS: u8 = 45;

/// The letter `e`.
pub const SMALL_E: u8 = 101;

/// The letter `E`.
pub const LARGE_E: u8 = 69;

/// Where the imaginary part of a complex number begins: at the last sign that does
/// not belong to an exponent.
pub fn complex_split(text: &[u8]) -> (split: Option<usize>)
    ensures
        match split {
            Some(split) => splits_complex(text@, split as int) && forall|i: int|
                split < i ==> !#[trigger] splits_complex(text@, i),
            None => forall|i: int| !#[trigger] splits_complex(text@, i),
        },
{
    let mut index: usize = text.len();
    while index > 1
        invariant
            index <= text@.len(),
            forall|i: int| index <= i ==> !#[trigger] splits_complex(text@, i),
        decreases index,
    {
        index = index - 1;
        let sign: u8 = text[index];
        let before: u8 = text[index - 1];
        if (sign == PLUS || sign == MINUS) && before != SMALL_E && before != LARGE_E {
            return Some(index);
        }
    }
    None
}

} // verus!
