//! Choosing between envelope minima and serrations.
use vstd::prelude::*;

verus! {

/// How many of the values are from `low` to `high`, both included.
pub open spec fn count_in(values: Seq<i64>, low: i64, high: i64) -> nat
    decreases values.len(),
{
    if values.len() == 0 {
        0
    } else {
        count_in(values.drop_last(), low, high) + if low <= values.last() <= high {
            1nat
        } else {
            0nat
        }
    }
}

/// The serration after the one at `index`, or the last.
pub open spec fn next_serration(serrations: Seq<i64>, index: int) -> i64 {
    if index + 1 < serrations.len() {
        serrations[index + 1]
    } else {
        serrations.last()
    }
}

/// Whether a vertical sync fits before or after the serration.
pub open spec fn fits_beside(vsynclen: i64, serration: i64, datalen: i64) -> bool {
    serration - vsynclen >= 0 || serration + vsynclen < datalen
}

/// Of the first `count` serrations those that a vertical sync fits beside, each
/// as often as there are minima up to the next.
pub open spec fn supported(
    vsynclen: i64,
    minima: Seq<i64>,
    serrations: Seq<i64>,
    datalen: i64,
    count: nat,
) -> Seq<i64>
    decreases count,
{
    if count == 0 {
        Seq::empty()
    } else {
        let edge = serrations[count - 1];
        let times = if fits_beside(vsynclen, edge, datalen) {
            count_in(minima, edge, next_serration(serrations, count - 1))
        } else {
            0
        };
        supported(vsynclen, minima, serrations, datalen, (count - 1) as nat) + Seq::new(
            times,
            |i: int| edge,
        )
    }
}

/// Where vertical syncs are searched for.
pub open spec fn arbitrated(
    vsynclen: i64,
    minima: Seq<i64>,
    serrations: Seq<i64>,
    datalen: i64,
) -> Seq<i64> {
    if minima.len() > 1 {
        supported(vsynclen, minima, serrations, datalen, serrations.len())
    } else if minima.len() == 1 {
        let only = minima[0];
        if only + vsynclen < datalen - 1 {
            seq![only, (only + vsynclen) as i64]
        } else if only - vsynclen > 0 {
            seq![only, (only - vsynclen) as i64]
        } else {
            seq![only, 0i64]
        }
    } else {
        Seq::empty()
    }
}

/// Whether the place beside a single minimum, before it or after it, is one that an
/// integer can hold. Of more minima, or of none, nothing is asked.
pub open spec fn sums_fit(vsynclen: i64, minima: Seq<i64>, datalen: i64) -> bool {
    minima.len() == 1 ==> {
        let only = minima[0];
        &&& i64::MIN <= only + vsynclen
        &&& only + vsynclen < datalen - 1 || only - vsynclen <= i64::MAX
    }
}

/// Whether the values never fall.
pub open spec fn ascending(values: Seq<i64>) -> bool {
    forall|i: int, j: int| 0 <= i <= j < values.len() ==> values[i] <= values[j]
}

/// How many values are below `bound`, or, where `included`, at or below it.
fn bound_index(values: &[i64], bound: i64, included: bool) -> (index: usize)
    requires
        ascending(values@),
    ensures
        index <= values@.len(),
        forall|i: int|
            0 <= i < index ==> if included {
                values@[i] <= bound
            } else {
                values@[i] < bound
            },
        forall|i: int|
            index <= i < values@.len() ==> if included {
                values@[i] > bound
            } else {
                values@[i] >= bound
            },
{
    let mut low: usize = 0;
    let mut high: usize = values.len();
    while low < high
        invariant
            low <= high <= values@.len(),
            ascending(values@),
            forall|i: int|
                0 <= i < low ==> if included {
                    values@[i] <= bound
                } else {
                    values@[i] < bound
                },
            forall|i: int|
                high <= i < values@.len() ==> if included {
                    values@[i] > bound
                } else {
                    values@[i] >= bound
                },
        decreases high - low,
    {
        let middle: usize = low + (high - low) / 2;
        let below: bool = if included {
            values[middle] <= bound
        } else {
            values[middle] < bound
        };
        if below {
            low = middle + 1;
        } else {
            high = middle;
        }
    }
    low
}

proof fn lemma_count_between(values: Seq<i64>, low: i64, high: i64, first: int, end: int, upto: int)
    requires
        0 <= first <= values.len(),
        0 <= end <= values.len(),
        0 <= upto <= values.len(),
        forall|i: int| 0 <= i < first ==> values[i] < low,
        forall|i: int| first <= i < values.len() ==> values[i] >= low,
        forall|i: int| 0 <= i < end ==> values[i] <= high,
        forall|i: int| end <= i < values.len() ==> values[i] > high,
    ensures
        count_in(values.take(upto), low, high) == {
            let stop = if upto < end {
                upto
            } else {
                end
            };
            if stop > first {
                (stop - first) as nat
            } else {
                0
            }
        },
    decreases upto,
{
    if upto > 0 {
        lemma_count_between(values, low, high, first, end, upto - 1);
        assert(values.take(upto).drop_last() =~= values.take(upto - 1));
        assert(values.take(upto).last() == values[upto - 1]);
    }
}

fn fits(vsynclen: i64, serration: i64, datalen: i64) -> (fits: bool)
    ensures
        fits == fits_beside(vsynclen, serration, datalen),
{
    serration as i128 - vsynclen as i128 >= 0 || serration as i128 + (vsynclen as i128)
        < datalen as i128
}

/// Appends a value a number of times.
fn push_times(result: &mut Vec<i64>, value: i64, times: usize)
    ensures
        final(result)@ == old(result)@ + Seq::new(times as nat, |i: int| value),
{
    let ghost before = result@;
    let mut done: usize = 0;
    proof {
        assert(before + Seq::new(0, |i: int| value) =~= before);
    }
    while done < times
        invariant
            done <= times,
            result@ == before + Seq::new(done as nat, |i: int| value),
        decreases times - done,
    {
        result.push(value);
        done = done + 1;
        proof {
            assert(result@ =~= before + Seq::new(done as nat, |i: int| value));
        }
    }
}

/// What a single minimum gives.
fn arbitrate_one(vsynclen: i64, only: i64, datalen: i64) -> (result: Vec<i64>)
    requires
        sums_fit(vsynclen, seq![only], datalen),
    ensures
        result@ == arbitrated(vsynclen, seq![only], Seq::empty(), datalen),
{
    proof {
        assert(seq![only][0] == only);
    }
    let after: i128 = only as i128 + vsynclen as i128;
    let before: i128 = only as i128 - vsynclen as i128;
    let other: i64 = if after < datalen as i128 - 1 {
        after as i64
    } else if before > 0 {
        before as i64
    } else {
        0
    };
    let mut result: Vec<i64> = Vec::with_capacity(2);
    result.push(only);
    result.push(other);
    proof {
        assert(result@ =~= arbitrated(vsynclen, seq![only], Seq::empty(), datalen));
    }
    result
}

/// Where vertical syncs are searched for, given envelope minima in ascending
/// order. Two binary searches bound the minima of each serration.
pub fn vsync_arbitrage(vsynclen: i64, where_allmin: &[i64], serrations: &[i64], datalen: i64) -> (
result: Vec<i64>)
    requires
        sums_fit(vsynclen, where_allmin@, datalen),
        ascending(where_allmin@),
    ensures
        result@ == arbitrated(vsynclen, where_allmin@, serrations@, datalen),
{
    if where_allmin.len() == 0 {
        return Vec::new();
    }
    if where_allmin.len() == 1 {
        return arbitrate_one(vsynclen, where_allmin[0], datalen);
    }
    let mut result: Vec<i64> = Vec::new();
    let mut index: usize = 0;
    while index < serrations.len()
        invariant
            index <= serrations@.len(),
            ascending(where_allmin@),
            result@ == supported(
                vsynclen,
                where_allmin@,
                serrations@,
                datalen,
                index as nat,
            ),
        decreases serrations@.len() - index,
    {
        let edge: i64 = serrations[index];
        let next: i64 = if serrations.len() - index > 1 {
            serrations[index + 1]
        } else {
            serrations[serrations.len() - 1]
        };
        let first: usize = bound_index(where_allmin, edge, false);
        let end: usize = bound_index(where_allmin, next, true);
        let times: usize = end.saturating_sub(first);
        proof {
            lemma_count_between(
                where_allmin@,
                edge,
                next,
                first as int,
                end as int,
                where_allmin@.len() as int,
            );
            assert(where_allmin@.take(where_allmin@.len() as int) =~= where_allmin@);
        }
        if fits(vsynclen, edge, datalen) {
            push_times(&mut result, edge, times);
        } else {
            proof {
                assert(result@ + Seq::new(0, |i: int| edge) =~= result@);
            }
        }
        index = index + 1;
    }
    result
}

/// Where vertical syncs are searched for, by a direct nested search. The minima
/// may come in any order.
pub fn vsync_arbitrage_quadratic_reference(
    vsynclen: i64,
    where_allmin: &[i64],
    serrations: &[i64],
    datalen: i64,
) -> (result: Vec<i64>)
    requires
        sums_fit(vsynclen, where_allmin@, datalen),
    ensures
        result@ == arbitrated(vsynclen, where_allmin@, serrations@, datalen),
{
    if where_allmin.len() == 0 {
        return Vec::new();
    }
    if where_allmin.len() == 1 {
        return arbitrate_one(vsynclen, where_allmin[0], datalen);
    }
    let mut result: Vec<i64> = Vec::new();
    let mut index: usize = 0;
    while index < serrations.len()
        invariant
            index <= serrations@.len(),
            result@ == supported(
                vsynclen,
                where_allmin@,
                serrations@,
                datalen,
                index as nat,
            ),
        decreases serrations@.len() - index,
    {
        let edge: i64 = serrations[index];
        let next: i64 = if serrations.len() - index > 1 {
            serrations[index + 1]
        } else {
            serrations[serrations.len() - 1]
        };
        let beside: bool = fits(vsynclen, edge, datalen);
        let ghost before = result@;
        let mut inner: usize = 0;
        proof {
            assert(before + Seq::new(0, |i: int| edge) =~= before);
        }
        while inner < where_allmin.len()
            invariant
                inner <= where_allmin@.len(),
                beside == fits_beside(vsynclen, edge, datalen),
                result@ == before + Seq::new(
                    if beside {
                        count_in(where_allmin@.take(inner as int), edge, next)
                    } else {
                        0
                    },
                    |i: int| edge,
                ),
            decreases where_allmin@.len() - inner,
        {
            let minimum: i64 = where_allmin[inner];
            let ghost shorter = where_allmin@.take(inner as int);
            let ghost longer = where_allmin@.take(inner + 1);
            proof {
                assert(longer.drop_last() =~= shorter);
            }
            if beside && edge <= minimum && minimum <= next {
                result.push(edge);
            }
            proof {
                assert(result@ =~= before + Seq::new(
                    if beside {
                        count_in(longer, edge, next)
                    } else {
                        0
                    },
                    |i: int| edge,
                ));
            }
            inner = inner + 1;
        }
        proof {
            assert(where_allmin@.take(where_allmin@.len() as int) =~= where_allmin@);
        }
        index = index + 1;
    }
    result
}

/// Minima that support no serration leave nothing to search; a serration is
/// searched only where a vertical sync fits beside it and some minimum lies
/// between it and the next.
pub proof fn law_supported_members(
    vsynclen: i64,
    minima: Seq<i64>,
    serrations: Seq<i64>,
    datalen: i64,
    count: nat,
    index: int,
)
    requires
        count <= serrations.len(),
        0 <= index < supported(vsynclen, minima, serrations, datalen, count).len(),
    ensures
        exists|k: int|
            0 <= k < count && #[trigger] serrations[k] == supported(
                vsynclen,
                minima,
                serrations,
                datalen,
                count,
            )[index] && fits_beside(vsynclen, serrations[k], datalen) && count_in(
                minima,
                serrations[k],
                next_serration(serrations, k),
            ) > 0,
    decreases count,
{
    if count > 0 {
        let before = supported(vsynclen, minima, serrations, datalen, (count - 1) as nat);
        if index < before.len() {
            law_supported_members(
                vsynclen,
                minima,
                serrations,
                datalen,
                (count - 1) as nat,
                index,
            );
        } else {
            assert(serrations[count - 1] == supported(
                vsynclen,
                minima,
                serrations,
                datalen,
                count,
            )[index]);
        }
    }
}

} // verus!
