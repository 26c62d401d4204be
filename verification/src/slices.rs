//! Windows into sample buffers: bounds that may be negative or too large, and
//! the walks of the comb filters.
use vstd::prelude::*;

verus! {

/// Where a bound falls in a buffer: from its end where negative, and never
/// outside of it.
pub open spec fn slice_bound(len: nat, index: int) -> int {
    if index >= 0 {
        if index < len {
            index
        } else {
            len as int
        }
    } else if len + index >= 0 {
        len + index
    } else {
        0
    }
}

pub fn resolve_slice_bound(len: usize, index: isize) -> (bound: usize)
    ensures
        bound == slice_bound(len as nat, index as int),
{
    if index >= 0 {
        if (index as usize) < len {
            index as usize
        } else {
            len
        }
    } else {
        let magnitude: usize = (-(index + 1)) as usize + 1;
        len.saturating_sub(magnitude)
    }
}

/// The place that an index names, from the end where negative; none outside.
/// The place behind the last is named by no index.
pub fn resolve_signed_index(len: usize, index: isize) -> (place: Option<usize>)
    ensures
        place == (if 0 <= index < len {
            Some(index as usize)
        } else if index < 0 && len + index >= 0 {
            Some((len + index) as usize)
        } else {
            None
        }),
{
    if index >= 0 {
        if (index as usize) < len {
            Some(index as usize)
        } else {
            None
        }
    } else {
        let magnitude: usize = (-(index + 1)) as usize + 1;
        len.checked_sub(magnitude)
    }
}

/// The part of a buffer between two bounds; empty where they cross.
pub fn signed_bounds_slice<T>(data: &[T], start: isize, end: isize) -> (slice: &[T])
    ensures
        ({
            let from = slice_bound(data@.len(), start as int);
            let to = slice_bound(data@.len(), end as int);
            slice@ == (if from <= to {
                data@.subrange(from, to)
            } else {
                Seq::empty()
            })
        }),
{
    let from: usize = resolve_slice_bound(data.len(), start);
    let to: usize = resolve_slice_bound(data.len(), end);
    if from <= to {
        vstd::slice::slice_subrange(data, from, to)
    } else {
        let empty = vstd::slice::slice_subrange(data, 0, 0);
        proof {
            assert(empty@ =~= Seq::<T>::empty());
        }
        empty
    }
}

/// The lesser of two numbers.
pub open spec fn lesser(a: int, b: int) -> int {
    if a < b {
        a
    } else {
        b
    }
}

/// The part of a buffer between two places, as far as it has them.
pub fn clamped_slice<T>(values: &[T], start: usize, end: usize) -> (slice: &[T])
    requires
        lesser(start as int, values@.len() as int) <= lesser(end as int, values@.len() as int),
    ensures
        slice@ == values@.subrange(
            lesser(start as int, values@.len() as int),
            lesser(end as int, values@.len() as int),
        ),
{
    let count: usize = values.len();
    let from: usize = if start < count {
        start
    } else {
        count
    };
    let to: usize = if end < count {
        end
    } else {
        count
    };
    vstd::slice::slice_subrange(values, from, to)
}

/// A place moved into a buffer of the given length.
pub open spec fn clamped(value: int, len: int) -> int {
    if value < 0 {
        0
    } else if value > len {
        len
    } else {
        value
    }
}

fn clamp_place(value: i128, len: usize) -> (place: usize)
    ensures
        place == clamped(value as int, len as int),
{
    if value < 0 {
        0
    } else if value > len as i128 {
        len
    } else {
        value as usize
    }
}

/// The window between two places as far as the buffer has it; none where it is
/// empty.
pub fn demod_slice_bounds(len: usize, start: i64, end: i64) -> (bounds: Option<(usize, usize)>)
    ensures
        ({
            let from = clamped(start as int, len as int);
            let to = clamped(end as int, len as int);
            bounds == (if from < to {
                Some((from as usize, to as usize))
            } else {
                None
            })
        }),
{
    let from: usize = clamp_place(start as i128, len);
    let to: usize = clamp_place(end as i128, len);
    if from < to {
        Some((from, to))
    } else {
        None
    }
}

/// The window of a pulse as far as the buffer has it; none where it is empty.
pub open spec fn pulse_window<T>(data: Seq<T>, start: int, len: int) -> Option<Seq<T>> {
    let from = clamped(start, data.len() as int);
    let to = clamped(start + len, data.len() as int);
    if from < to {
        Some(data.subrange(from, to))
    } else {
        None
    }
}

/// The window of a pulse as far as the buffer has it; none where it is empty.
pub fn demod_checked_slice<T>(data: &[T], start: i64, len: i64) -> (window: Option<&[T]>)
    ensures
        match window {
            Some(window) => pulse_window(data@, start as int, len as int) == Some(window@),
            None => pulse_window(data@, start as int, len as int) is None,
        },
{
    let from: usize = clamp_place(start as i128, data.len());
    let to: usize = clamp_place(start as i128 + len as i128, data.len());
    if from < to {
        Some(vstd::slice::slice_subrange(data, from, to))
    } else {
        None
    }
}

/// Where the value at `index` comes from when a buffer is turned to the right.
pub open spec fn rolled_from(len: int, shift: int, index: int) -> int {
    (index - shift) % len
}

/// Turns a buffer to the right by `shift` places, to the left where negative.
pub fn roll<T: Copy>(values: &mut Vec<T>, shift: isize)
    ensures
        final(values)@ == Seq::new(
            old(values)@.len(),
            |i: int| old(values)@[rolled_from(old(values)@.len() as int, shift as int, i)],
        ),
{
    let ghost before = values@;
    if values.len() == 0 {
        proof {
            assert(values@ =~= Seq::new(
                before.len(),
                |i: int| before[rolled_from(before.len() as int, shift as int, i)],
            ));
        }
        return;
    }
    let count: usize = values.len();
    let first: i128 = (-(shift as i128)) % (count as i128);
    let mut from: usize = if first < 0 {
        (first + count as i128) as usize
    } else {
        first as usize
    };
    proof {
        lemma_first(shift as int, count as int, first as int, from as int);
    }
    let mut turned: Vec<T> = Vec::with_capacity(count);
    while turned.len() < count
        invariant
            count == values@.len() == before.len(),
            values@ == before,
            0 < count,
            turned@.len() <= count,
            from == rolled_from(count as int, shift as int, turned@.len() as int),
            forall|i: int|
                0 <= i < turned@.len() ==> #[trigger] turned@[i] == before[rolled_from(
                    count as int,
                    shift as int,
                    i,
                )],
        decreases count - turned@.len(),
    {
        let ghost at = turned@.len() as int;
        proof {
            let n = count as int;
            let d = at - shift;
            assert(0 <= d % n < n);
            assert((d + 1) % n == (if d % n + 1 == n {
                0
            } else {
                d % n + 1
            })) by {
                lemma_mod_step(d, n);
            }
        }
        turned.push(values[from]);
        from = if from + 1 == count {
            0
        } else {
            from + 1
        };
    }
    *values = turned;
    proof {
        assert(values@ =~= Seq::new(
            before.len(),
            |i: int| before[rolled_from(before.len() as int, shift as int, i)],
        ));
    }
}

proof fn lemma_mod_step(d: int, n: int)
    requires
        n > 0,
    ensures
        (d + 1) % n == (if d % n + 1 == n {
            0
        } else {
            d % n + 1
        }),
{
    let q = d / n;
    let r = d % n;
    vstd::arithmetic::div_mod::lemma_fundamental_div_mod(d, n);
    if r + 1 == n {
        assert(d + 1 == n * (q + 1) + 0) by (nonlinear_arith)
            requires
                d == n * q + r,
                r + 1 == n,
        ;
        vstd::arithmetic::div_mod::lemma_fundamental_div_mod_converse(d + 1, n, q + 1, 0);
    } else {
        vstd::arithmetic::div_mod::lemma_fundamental_div_mod_converse(d + 1, n, q, r + 1);
    }
}

proof fn lemma_first(shift: int, count: int, first: int, from: int)
    requires
        count > 0,
        -shift >= 0 ==> first == (-shift) % count,
        -shift < 0 ==> first == -(shift % count),
        from == (if first < 0 {
            first + count
        } else {
            first
        }),
    ensures
        from == (-shift) % count,
        0 <= from < count,
{
    if -shift < 0 {
        let q = shift / count;
        let r = shift % count;
        vstd::arithmetic::div_mod::lemma_fundamental_div_mod(shift, count);
        if r == 0 {
            assert(-shift == count * (-q) + 0) by (nonlinear_arith)
                requires
                    shift == count * q + r,
                    r == 0,
            ;
            vstd::arithmetic::div_mod::lemma_fundamental_div_mod_converse(-shift, count, -q, 0);
        } else {
            assert(-shift == count * (-q - 1) + (count - r)) by (nonlinear_arith)
                requires
                    shift == count * q + r,
            ;
            vstd::arithmetic::div_mod::lemma_fundamental_div_mod_converse(
                -shift,
                count,
                -q - 1,
                count - r,
            );
        }
    }
}

/// Turning a buffer back undoes the turn.
pub proof fn law_roll_back<T>(values: Seq<T>, shift: int, index: int)
    requires
        0 <= index < values.len(),
    ensures
        ({
            let n = values.len() as int;
            rolled_from(n, shift, rolled_from(n, -shift, index)) == index
        }),
{
    let n = values.len() as int;
    let there = (index + shift) % n;
    let q = (index + shift) / n;
    vstd::arithmetic::div_mod::lemma_fundamental_div_mod(index + shift, n);
    assert(there - shift == n * (-q) + index) by (nonlinear_arith)
        requires
            index + shift == n * q + there,
    ;
    vstd::arithmetic::div_mod::lemma_fundamental_div_mod_converse(there - shift, n, -q, index);
}

/// A run of samples for the luminance comb: each sample from `start` to `end`
/// is paired with the samples that lie as far behind `back` and behind `fwd`.
#[derive(Clone, Copy, Debug, PartialEq, Eq, Structural)]
pub struct CombSegment {
    pub start: usize,
    pub end: usize,
    pub back: usize,
    pub fwd: usize,
}

/// That every sample of a run is paired with the samples a line after and a line
/// before, counted round the buffer.
pub open spec fn comb_segment_right(segment: CombSegment, len: int, line_len: int) -> bool {
    &&& segment.start <= segment.end <= len
    &&& segment.start < segment.end ==> segment.back + (segment.end - segment.start) <= len
    &&& segment.start < segment.end ==> segment.fwd + (segment.end - segment.start) <= len
    &&& forall|i: int|
        segment.start <= i < segment.end ==> {
            &&& #[trigger] (segment.back + (i - segment.start)) == (i + line_len) % len
            &&& segment.fwd + (i - segment.start) == (i - line_len) % len
        }
}

proof fn lemma_segment(segment: CombSegment, len: int, line_len: int, shift: int)
    requires
        len > 0,
        line_len >= 0,
        shift == line_len % len,
        segment.start <= segment.end <= len,
        segment.start < segment.end ==> {
            ||| segment.end <= len - shift && segment.back == segment.start + shift
            ||| segment.start >= len - shift && segment.back == segment.start + shift - len
        },
        segment.start < segment.end ==> {
            ||| segment.end <= shift && segment.fwd == segment.start - shift + len
            ||| segment.start >= shift && segment.fwd == segment.start - shift
        },
    ensures
        comb_segment_right(segment, len, line_len),
{
    assert forall|i: int| segment.start <= i < segment.end implies {
        &&& #[trigger] (segment.back + (i - segment.start)) == (i + line_len) % len
        &&& segment.fwd + (i - segment.start) == (i - line_len) % len
    } by {
        let q = line_len / len;
        vstd::arithmetic::div_mod::lemma_fundamental_div_mod(line_len, len);
        assert(0 <= shift < len) by (nonlinear_arith)
            requires
                shift == line_len % len,
                len > 0,
        ;
        let b = segment.back + (i - segment.start);
        assert(0 <= b < len);
        let f = segment.fwd + (i - segment.start);
        let bq = if b == i + shift {
            q
        } else {
            q + 1
        };
        assert(i + line_len == len * bq + b) by (nonlinear_arith)
            requires
                line_len == len * q + shift,
                (bq == q && b == i + shift) || (bq == q + 1 && b == i + shift - len),
        ;
        vstd::arithmetic::div_mod::lemma_fundamental_div_mod_converse(i + line_len, len, bq, b);
        let fq = if f == i - shift {
            -q
        } else {
            -q - 1
        };
        assert(i - line_len == len * fq + f) by (nonlinear_arith)
            requires
                line_len == len * q + shift,
                (fq == -q && f == i - shift) || (fq == -q - 1 && f == i - shift + len),
        ;
        vstd::arithmetic::div_mod::lemma_fundamental_div_mod_converse(i - line_len, len, fq, f);
    }
}

/// The three runs in which the luminance comb walks a buffer: cut where one of
/// the paired samples goes round its end.
pub fn comb_segments(len: usize, line_len: usize) -> (segments: [CombSegment; 3])
    requires
        0 < len,
    ensures
        segments@[0].start == 0,
        segments@[0].end == segments@[1].start,
        segments@[1].end == segments@[2].start,
        segments@[2].end == len,
        comb_segment_right(segments@[0], len as int, line_len as int),
        comb_segment_right(segments@[1], len as int, line_len as int),
        comb_segment_right(segments@[2], len as int, line_len as int),
{
    let shift: usize = line_len % len;
    let (cut0, cut1): (usize, usize) = if shift < len - shift {
        (shift, len - shift)
    } else {
        (len - shift, shift)
    };
    let first = CombSegment {
        start: 0,
        end: cut0,
        back: shift,
        fwd: if shift == 0 {
            0
        } else {
            len - shift
        },
    };
    let second = if shift < len - shift {
        CombSegment { start: cut0, end: cut1, back: cut0 + shift, fwd: cut0 - shift }
    } else {
        CombSegment { start: cut0, end: cut1, back: cut0 - (len - shift), fwd: cut0 + (len - shift) }
    };
    let third = CombSegment { start: cut1, end: len, back: cut1 - (len - shift), fwd: cut1 - shift };
    proof {
        lemma_segment(first, len as int, line_len as int, shift as int);
        lemma_segment(second, len as int, line_len as int, shift as int);
        lemma_segment(third, len as int, line_len as int, shift as int);
    }
    [first, second, third]
}

/// The places of a line for the chroma comb: its own, that of the line ahead
/// and that of the line behind.
#[derive(Clone, Copy, Debug, PartialEq, Eq, Structural)]
pub struct CombLine {
    pub start: usize,
    pub ahead: usize,
    pub behind: usize,
}

/// The lines that the chroma comb filters: from the seventeenth to the third
/// from the last, each with the lines `distance` ahead and behind.
pub fn comb_lines(len: usize, line_len: usize, distance: usize) -> (lines: Vec<CombLine>)
    requires
        0 < line_len,
        1 <= distance <= 2,
    ensures
        ({
            let total = len as int / line_len as int;
            &&& lines@.len() == (if total > 18 {
                total - 18
            } else {
                0
            })
            &&& forall|k: int|
                0 <= k < lines@.len() ==> {
                    &&& (#[trigger] lines@[k]).start == (16 + k) * line_len
                    &&& lines@[k].ahead == (16 + k + distance) * line_len
                    &&& lines@[k].behind == (16 + k - distance) * line_len
                    &&& lines@[k].ahead + line_len <= len
                }
        }),
{
    let total: usize = len / line_len;
    let mut lines: Vec<CombLine> = Vec::new();
    if total <= 18 {
        return lines;
    }
    proof {
        assert(total * line_len <= len) by (nonlinear_arith)
            requires
                total == len / line_len,
                line_len > 0,
        ;
    }
    let mut line: usize = 16;
    while line < total - 2
        invariant
            16 <= line <= total - 2,
            18 < total,
            0 < line_len,
            1 <= distance <= 2,
            total * line_len <= len,
            lines@.len() == line - 16,
            forall|k: int|
                0 <= k < lines@.len() ==> {
                    &&& (#[trigger] lines@[k]).start == (16 + k) * line_len
                    &&& lines@[k].ahead == (16 + k + distance) * line_len
                    &&& lines@[k].behind == (16 + k - distance) * line_len
                    &&& lines@[k].ahead + line_len <= len
                },
        decreases total - line,
    {
        proof {
            let l = line as int;
            let d = distance as int;
            let w = line_len as int;
            assert((l + d) * w + w <= total * w && 0 <= (l - d) * w <= l * w <= (l + d) * w)
                by (nonlinear_arith)
                requires
                    0 < w,
                    1 <= d <= 2,
                    16 <= l,
                    l + d + 1 <= total,
            ;
        }
        let ghost k = lines@.len() as int;
        lines.push(
            CombLine {
                start: line * line_len,
                ahead: (line + distance) * line_len,
                behind: (line - distance) * line_len,
            },
        );
        proof {
            assert(16 + k == line);
        }
        line = line + 1;
    }
    lines
}

/// Of which line locations the length of a line is taken.
#[derive(Clone, Copy, Debug, PartialEq, Eq, Structural)]
pub struct LineSpan {
    pub later: usize,
    pub earlier: usize,
    /// Whether the span is of two lines.
    pub double: bool,
}

/// Of which line locations the length of a line is taken: the lines on both
/// sides, or, at the ends of the field, the one.
pub fn line_span(line: usize, linecount: usize, lineoffset: usize) -> (span: LineSpan)
    requires
        line < usize::MAX,
        line >= linecount + lineoffset ==> line > 0,
    ensures
        span == (if line >= linecount + lineoffset {
            LineSpan { later: line, earlier: (line - 1) as usize, double: false }
        } else if line > 0 {
            LineSpan { later: (line + 1) as usize, earlier: (line - 1) as usize, double: true }
        } else {
            LineSpan { later: 1, earlier: 0, double: false }
        }),
{
    if line as u128 >= linecount as u128 + lineoffset as u128 {
        LineSpan { later: line, earlier: line - 1, double: false }
    } else if line > 0 {
        LineSpan { later: line + 1, earlier: line - 1, double: true }
    } else {
        LineSpan { later: 1, earlier: 0, double: false }
    }
}

/// Where the taps of a resampling filter stay inside a buffer.
#[derive(Clone, Copy, Debug, PartialEq, Eq, Structural)]
pub struct FirPlan {
    /// Before this the window begins before the buffer.
    pub head_end: usize,
    /// From this on the window may end behind the buffer.
    pub tail_start: usize,
}

/// Where a window of `width` samples, beginning `win_lo` samples off, stays
/// inside a buffer.
pub fn fir_plan(len: usize, win_lo: isize, width: usize) -> (plan: FirPlan)
    ensures
        plan.head_end == lesser(
            if win_lo < 0 {
                -win_lo
            } else {
                0
            },
            len as int,
        ),
        plan.tail_start == ({
            let inside = len - win_lo - width + 1;
            if inside < plan.head_end {
                plan.head_end as int
            } else if inside > len {
                len as int
            } else {
                inside
            }
        }),
        forall|i: int|
            plan.head_end <= i < plan.tail_start ==> 0 <= i + win_lo && #[trigger] (i + win_lo)
                + width <= len,
{
    let reach: i128 = if win_lo < 0 {
        -(win_lo as i128)
    } else {
        0
    };
    let head_end: usize = if reach < len as i128 {
        reach as usize
    } else {
        len
    };
    let inside: i128 = len as i128 - win_lo as i128 - width as i128 + 1;
    let tail_start: usize = if inside < head_end as i128 {
        head_end
    } else if inside > len as i128 {
        len
    } else {
        inside as usize
    };
    FirPlan { head_end, tail_start }
}

/// A place moved to the nearest sample of a buffer.
pub fn clamped_index(len: usize, index: isize) -> (place: usize)
    requires
        0 < len,
    ensures
        place == (if index < 0 {
            0
        } else if index >= len {
            len - 1
        } else {
            index as int
        }),
{
    if index < 0 {
        0
    } else if index as usize >= len {
        len - 1
    } else {
        index as usize
    }
}

/// The parts of a spectrum that the analytic signal doubles and clears.
#[derive(Clone, Copy, Debug, PartialEq, Eq, Structural)]
pub struct HilbertPlan {
    pub double_start: usize,
    pub double_end: usize,
    pub clear_start: usize,
}

/// The parts of a spectrum of `n` bins that the analytic signal doubles and
/// clears: the bins of positive and those of negative frequency.
pub fn hilbert_plan(n: usize) -> (plan: HilbertPlan)
    requires
        0 < n,
    ensures
        plan.double_start <= plan.double_end <= plan.clear_start <= n,
        forall|k: int|
            0 <= k < n ==> (plan.double_start <= k < plan.double_end <==> 0 < k && #[trigger] (2
                * k) < n),
        forall|k: int| 0 <= k < n ==> (plan.clear_start <= k <==> #[trigger] (2 * k) > n),
{
    if n % 2 == 0 {
        HilbertPlan {
            double_start: 1,
            double_end: n / 2,
            clear_start: n / 2 + 1,
        }
    } else {
        HilbertPlan {
            double_start: if n > 1 {
                1
            } else {
                0
            },
            double_end: if n > 1 {
                (n - 1) / 2 + 1
            } else {
                0
            },
            clear_start: (n - 1) / 2 + 1,
        }
    }
}

/// The window of each line in which the blanking level is measured, four samples
/// inside the back porch; none where the picture does not have it.
pub open spec fn porch_window(
    line: int,
    outlinelen: int,
    backporch: (usize, usize),
    len: int,
) -> Option<(int, int)> {
    let start = line * outlinelen + backporch.0 + 4;
    let end = line * outlinelen + backporch.1 - 4;
    if end > len || start >= end {
        None
    } else {
        Some((start, end))
    }
}

/// The windows of all lines in which the blanking level is measured; nothing
/// where there can be none.
pub fn porch_windows(
    outlinecount: usize,
    outlinelen: usize,
    backporch: (usize, usize),
    len: usize,
) -> (windows: Option<Vec<Option<(usize, usize)>>>)
    requires
        4 <= backporch.1,
        outlinecount * outlinelen + backporch.0 + 4 <= usize::MAX,
        outlinecount * outlinelen + backporch.1 <= usize::MAX,
    ensures
        match windows {
            None => outlinecount == 0 || outlinelen == 0 || backporch.0 + 4 >= backporch.1 - 4,
            Some(windows) => {
                &&& outlinecount != 0 && outlinelen != 0 && backporch.0 + 4 < backporch.1 - 4
                &&& windows@.len() == outlinecount
                &&& forall|k: int|
                    0 <= k < windows@.len() ==> match #[trigger] windows@[k] {
                        Some((start, end)) => porch_window(
                            k,
                            outlinelen as int,
                            backporch,
                            len as int,
                        ) == Some((start as int, end as int)),
                        None => porch_window(k, outlinelen as int, backporch, len as int) is None,
                    }
            },
        },
{
    proof {
        assert(0 <= outlinecount * outlinelen) by (nonlinear_arith);
    }
    let first: usize = backporch.0 + 4;
    let last: usize = backporch.1 - 4;
    if outlinecount == 0 || outlinelen == 0 || first >= last {
        return None;
    }
    let mut windows: Vec<Option<(usize, usize)>> = Vec::with_capacity(outlinecount);
    let mut line: usize = 0;
    let mut line_start: usize = 0;
    proof {
        assert(0 * outlinelen == 0) by (nonlinear_arith);
    }
    while line < outlinecount
        invariant
            line <= outlinecount,
            line_start == line * outlinelen,
            first == backporch.0 + 4,
            last == backporch.1 - 4,
            first < last,
            outlinecount * outlinelen + last + 4 <= usize::MAX,
            windows@.len() == line,
            forall|k: int|
                0 <= k < windows@.len() ==> match #[trigger] windows@[k] {
                    Some((start, end)) => porch_window(
                        k,
                        outlinelen as int,
                        backporch,
                        len as int,
                    ) == Some((start as int, end as int)),
                    None => porch_window(k, outlinelen as int, backporch, len as int) is None,
                },
        decreases outlinecount - line,
    {
        proof {
            let a = line as int;
            let b = outlinecount as int;
            let w = outlinelen as int;
            assert(a * w + w <= b * w) by (nonlinear_arith)
                requires
                    a + 1 <= b,
                    0 <= w,
            ;
            assert((a + 1) * w == a * w + w) by (nonlinear_arith);
        }
        let start: usize = line_start + first;
        let end: usize = line_start + last;
        if end > len || start >= end {
            windows.push(None);
        } else {
            windows.push(Some((start, end)));
        }
        line_start = line_start + outlinelen;
        line = line + 1;
    }
    Some(windows)
}

} // verus!
