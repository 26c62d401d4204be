//! Little-endian integers in byte buffers, and a cursor that reads them.
use vstd::prelude::*;

verus! {

/// The `width` low base-256 digits of `value`, least significant first.
pub open spec fn le_bytes(value: nat, width: nat) -> Seq<u8>
    decreases width,
{
    if width == 0 {
        Seq::empty()
    } else {
        seq![(value % 256) as u8] + le_bytes(value / 256, (width - 1) as nat)
    }
}

/// The number whose base-256 digits, least significant first, are `bytes`.
pub open spec fn le_value(bytes: Seq<u8>) -> nat
    decreases bytes.len(),
{
    if bytes.len() == 0 {
        0
    } else {
        bytes[0] as nat + 256 * le_value(bytes.subrange(1, bytes.len() as int))
    }
}

/// How many values `width` bytes can hold.
pub open spec fn le_bound(width: nat) -> nat
    decreases width,
{
    if width == 0 {
        1
    } else {
        256 * le_bound((width - 1) as nat)
    }
}

pub proof fn lemma_le_bytes_len(value: nat, width: nat)
    ensures
        le_bytes(value, width).len() == width,
    decreases width,
{
    if width > 0 {
        lemma_le_bytes_len(value / 256, (width - 1) as nat);
    }
}

pub proof fn lemma_le_value_bound(bytes: Seq<u8>)
    ensures
        le_value(bytes) < le_bound(bytes.len()),
    decreases bytes.len(),
{
    if bytes.len() > 0 {
        lemma_le_value_bound(bytes.subrange(1, bytes.len() as int));
    }
}

pub proof fn lemma_le_bounds()
    ensures
        le_bound(1) == 0x100,
        le_bound(2) == 0x1_0000,
        le_bound(4) == 0x1_0000_0000,
        le_bound(8) == 0x1_0000_0000_0000_0000,
{
    reveal_with_fuel(le_bound, 9);
}

/// Reading the digits of a value that fits gives the value back.
pub proof fn lemma_le_round_trip(value: nat, width: nat)
    requires
        value < le_bound(width),
    ensures
        le_value(le_bytes(value, width)) == value,
    decreases width,
{
    lemma_le_bytes_len(value, width);
    if width > 0 {
        let rest = le_bytes(value / 256, (width - 1) as nat);
        lemma_le_round_trip(value / 256, (width - 1) as nat);
        assert(le_bytes(value, width).subrange(1, width as int) =~= rest);
    }
}

/// Every byte string is the digit string of the value it reads as.
pub proof fn lemma_le_canonical(bytes: Seq<u8>)
    ensures
        le_bytes(le_value(bytes), bytes.len()) == bytes,
    decreases bytes.len(),
{
    if bytes.len() > 0 {
        let rest = bytes.subrange(1, bytes.len() as int);
        lemma_le_canonical(rest);
        assert(le_value(bytes) % 256 == bytes[0]);
        assert(le_value(bytes) / 256 == le_value(rest));
        assert(seq![bytes[0]] + rest =~= bytes);
    }
}

/// Appends the `width` low base-256 digits of `value`.
fn put_le(output: &mut Vec<u8>, value: u64, width: usize)
    ensures
        final(output)@ == old(output)@ + le_bytes(value as nat, width as nat),
{
    let ghost before = output@;
    let mut rest: u64 = value;
    let mut done: usize = 0;
    proof {
        assert(before + Seq::<u8>::empty() =~= before);
    }
    while done < width
        invariant
            done <= width,
            before + le_bytes(value as nat, width as nat) == output@ + le_bytes(
                rest as nat,
                (width - done) as nat,
            ),
        decreases width - done,
    {
        let digit: u8 = (rest % 256) as u8;
        let ghost written = output@;
        output.push(digit);
        proof {
            let tail = le_bytes((rest / 256) as nat, (width - done - 1) as nat);
            assert(le_bytes(rest as nat, (width - done) as nat) == seq![digit] + tail);
            assert(written + (seq![digit] + tail) =~= written.push(digit) + tail);
        }
        rest = rest / 256;
        done = done + 1;
    }
    proof {
        assert(output@ + Seq::<u8>::empty() =~= output@);
    }
}

/// Appends `value` as two little-endian bytes.
pub fn put_u16(output: &mut Vec<u8>, value: u16)
    ensures
        final(output)@ == old(output)@ + le_bytes(value as nat, 2),
{
    put_le(output, value as u64, 2);
}

/// Appends `value` as four little-endian bytes.
pub fn put_u32(output: &mut Vec<u8>, value: u32)
    ensures
        final(output)@ == old(output)@ + le_bytes(value as nat, 4),
{
    put_le(output, value as u64, 4);
}

/// Appends `value` as eight little-endian bytes.
pub fn put_u64(output: &mut Vec<u8>, value: u64)
    ensures
        final(output)@ == old(output)@ + le_bytes(value as nat, 8),
{
    put_le(output, value, 8);
}

/// Appends the two's complement of `value` as eight little-endian bytes.
pub fn put_i64(output: &mut Vec<u8>, value: i64)
    ensures
        final(output)@ == old(output)@ + le_bytes(twos_complement(value), 8),
{
    let unsigned: u64 = if value >= 0 {
        value as u64
    } else {
        (value + i64::MAX + 1) as u64 + 0x8000_0000_0000_0000
    };
    put_le(output, unsigned, 8);
}

/// The unsigned 64-bit reading of a signed 64-bit integer.
pub open spec fn twos_complement(value: i64) -> nat {
    if value >= 0 {
        value as nat
    } else {
        (value + 0x1_0000_0000_0000_0000) as nat
    }
}

/// Reads at most eight little-endian bytes.
fn get_le(bytes: &[u8]) -> (value: u64)
    requires
        bytes@.len() <= 8,
    ensures
        value == le_value(bytes@),
{
    let mut index: usize = bytes.len();
    let mut value: u64 = 0;
    proof {
        assert(bytes@.subrange(bytes@.len() as int, bytes@.len() as int) =~= Seq::<u8>::empty());
    }
    while index > 0
        invariant
            index <= bytes@.len() <= 8,
            value == le_value(bytes@.subrange(index as int, bytes@.len() as int)),
        decreases index,
    {
        index = index - 1;
        proof {
            let here = bytes@.subrange(index as int, bytes@.len() as int);
            let rest = bytes@.subrange(index + 1, bytes@.len() as int);
            assert(here.subrange(1, here.len() as int) =~= rest);
            lemma_le_value_bound(rest);
            lemma_le_bounds();
            lemma_le_bound_monotone(rest.len(), 7);
            reveal_with_fuel(le_bound, 9);
        }
        value = value * 256 + bytes[index] as u64;
    }
    proof {
        assert(bytes@.subrange(0, bytes@.len() as int) =~= bytes@);
    }
    value
}

proof fn lemma_le_bound_monotone(a: nat, b: nat)
    requires
        a <= b,
    ensures
        1 <= le_bound(a) <= le_bound(b),
    decreases b,
{
    if a < b {
        lemma_le_bound_monotone(a, (b - 1) as nat);
    } else if b > 0 {
        lemma_le_bound_monotone((a - 1) as nat, (b - 1) as nat);
    }
}

/// Why a read from a [`Cursor`] failed.
#[derive(Clone, Copy, Debug, PartialEq, Eq, Structural)]
pub enum CursorError {
    /// The end of the read does not fit in an offset.
    OffsetOverflow,
    /// The input ends before the read does.
    Truncated,
}

/// A position in a byte string that is read front to back.
pub struct Cursor<'a> {
    input: &'a [u8],
    position: usize,
}

impl<'a> Cursor<'a> {
    #[verifier::type_invariant]
    spec fn in_input(self) -> bool {
        self.position <= self.input@.len()
    }

    /// The whole byte string, read or not.
    pub closed spec fn input(self) -> Seq<u8> {
        self.input@
    }

    /// How many bytes have been read.
    pub closed spec fn at(self) -> nat {
        self.position as nat
    }

    /// What a read of `length` bytes does: its error, if any.
    pub open spec fn read_error(self, length: nat) -> Option<CursorError> {
        if self.at() + length > usize::MAX {
            Some(CursorError::OffsetOverflow)
        } else if self.at() + length > self.input().len() {
            Some(CursorError::Truncated)
        } else {
            None
        }
    }

    /// The bytes that a read of `length` bytes gives.
    pub open spec fn next(self, length: nat) -> Seq<u8> {
        self.input().subrange(self.at() as int, (self.at() + length) as int)
    }

    /// That `after` is `self` with `length` more bytes read.
    pub open spec fn advanced(self, after: Self, length: nat) -> bool {
        &&& after.input() == self.input()
        &&& after.at() == self.at() + length
    }

    pub fn new(input: &'a [u8]) -> (cursor: Self)
        ensures
            cursor.input() == input@,
            cursor.at() == 0,
    {
        Cursor { input, position: 0 }
    }

    pub fn position(&self) -> (position: usize)
        ensures
            position == self.at(),
    {
        self.position
    }

    pub fn remaining(&self) -> (count: usize)
        ensures
            self.at() <= self.input().len() <= usize::MAX,
            count == self.input().len() - self.at(),
    {
        proof {
            use_type_invariant(self);
        }
        self.input.len() - self.position
    }

    /// Reads the next `length` bytes; on an error nothing is read.
    pub fn take(&mut self, length: usize) -> (result: Result<&'a [u8], CursorError>)
        ensures
            match result {
                Ok(bytes) => old(self).read_error(length as nat) is None && bytes@ == old(
                    self,
                ).next(length as nat) && bytes@.len() == length && old(self).advanced(
                    *final(self),
                    length as nat,
                ),
                Err(error) => old(self).read_error(length as nat) == Some(error) && *final(self)
                    == *old(self),
            },
    {
        proof {
            use_type_invariant(&*self);
        }
        let end: usize = match self.position.checked_add(length) {
            Some(end) => end,
            None => return Err(CursorError::OffsetOverflow),
        };
        if end > self.input.len() {
            return Err(CursorError::Truncated);
        }
        let output = vstd::slice::slice_subrange(self.input, self.position, end);
        self.position = end;
        Ok(output)
    }

    /// Reads one byte.
    pub fn u8(&mut self) -> (result: Result<u8, CursorError>)
        ensures
            match result {
                Ok(value) => old(self).read_error(1) is None && value == le_value(
                    old(self).next(1),
                ) && old(self).advanced(*final(self), 1),
                Err(error) => old(self).read_error(1) == Some(error) && *final(self) == *old(self),
            },
    {
        match self.take(1) {
            Ok(bytes) => {
                proof {
                    lemma_le_value_bound(bytes@);
                    lemma_le_bounds();
                }
                Ok(get_le(bytes) as u8)
            },
            Err(error) => Err(error),
        }
    }

    /// Reads a little-endian 16-bit integer.
    pub fn u16(&mut self) -> (result: Result<u16, CursorError>)
        ensures
            match result {
                Ok(value) => old(self).read_error(2) is None && value == le_value(
                    old(self).next(2),
                ) && old(self).advanced(*final(self), 2),
                Err(error) => old(self).read_error(2) == Some(error) && *final(self) == *old(self),
            },
    {
        match self.take(2) {
            Ok(bytes) => {
                proof {
                    lemma_le_value_bound(bytes@);
                    lemma_le_bounds();
                }
                Ok(get_le(bytes) as u16)
            },
            Err(error) => Err(error),
        }
    }

    /// Reads a little-endian 32-bit integer.
    pub fn u32(&mut self) -> (result: Result<u32, CursorError>)
        ensures
            match result {
                Ok(value) => old(self).read_error(4) is None && value == le_value(
                    old(self).next(4),
                ) && old(self).advanced(*final(self), 4),
                Err(error) => old(self).read_error(4) == Some(error) && *final(self) == *old(self),
            },
    {
        match self.take(4) {
            Ok(bytes) => {
                proof {
                    lemma_le_value_bound(bytes@);
                    lemma_le_bounds();
                }
                Ok(get_le(bytes) as u32)
            },
            Err(error) => Err(error),
        }
    }

    /// Reads a little-endian 64-bit integer.
    pub fn u64(&mut self) -> (result: Result<u64, CursorError>)
        ensures
            match result {
                Ok(value) => old(self).read_error(8) is None && value == le_value(
                    old(self).next(8),
                ) && old(self).advanced(*final(self), 8),
                Err(error) => old(self).read_error(8) == Some(error) && *final(self) == *old(self),
            },
    {
        match self.take(8) {
            Ok(bytes) => Ok(get_le(bytes)),
            Err(error) => Err(error),
        }
    }

    /// Reads thirty-two bytes.
    pub fn array_32(&mut self) -> (result: Result<[u8; 32], CursorError>)
        ensures
            match result {
                Ok(bytes) => old(self).read_error(32) is None && bytes@ == old(self).next(32)
                    && old(self).advanced(*final(self), 32),
                Err(error) => old(self).read_error(32) == Some(error) && *final(self) == *old(self),
            },
    {
        match self.take(32) {
            Ok(bytes) => {
                let mut array: [u8; 32] = [0;32];
                let mut index: usize = 0;
                while index < 32
                    invariant
                        index <= 32,
                        bytes@.len() == 32,
                        forall|i: int| 0 <= i < index ==> array@[i] == bytes@[i],
                    decreases 32 - index,
                {
                    array[index] = bytes[index];
                    index = index + 1;
                }
                proof {
                    assert(array@ =~= bytes@);
                }
                Ok(array)
            },
            Err(error) => Err(error),
        }
    }
}

} // verus!
