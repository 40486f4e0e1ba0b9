//! The cumulative log-return representation. Per-period returns reach the
//! library as fixed-point natural-log values, `None` standing for a
//! non-finite sample; the accumulator turns a fully finite series into the
//! length N+1 prefix-sum series on which every extremum search runs, and
//! refuses to produce anything from a series with a non-finite sample.

use vstd::prelude::*;

verus! {

/// Largest magnitude accepted for one per-period log return.
pub const MAX_STEP: i64 = 0x2000_0000_0000;

/// Largest number of samples accepted in one series.
pub const MAX_SAMPLES: usize = 0x10000;

/// Bound that every element of a cumulative series stays within:
/// `MAX_SAMPLES * MAX_STEP`.
pub const MAX_CUM: i64 = 0x2000_0000_0000_0000;

/// Every sample in `[a, b)` is finite.
pub open spec fn finite_range(v: Seq<Option<i64>>, a: int, b: int) -> bool {
    forall|i: int| a <= i < b ==> (#[trigger] v[i]) is Some
}

/// Every sample is finite.
pub open spec fn all_finite(v: Seq<Option<i64>>) -> bool {
    finite_range(v, 0, v.len() as int)
}

/// Every finite sample lies within the accepted step bound.
pub open spec fn steps_bounded(v: Seq<Option<i64>>) -> bool {
    forall|i: int|
        0 <= i < v.len() ==> ((#[trigger] v[i]) matches Some(x) ==> -MAX_STEP <= x <= MAX_STEP)
}

/// Sum of the samples in `[a, j)`, all assumed finite.
pub open spec fn range_sum(v: Seq<Option<i64>>, a: int, j: int) -> int
    decreases j - a,
{
    if j <= a {
        0
    } else {
        range_sum(v, a, j - 1) + v[j - 1]->0
    }
}

/// A partial sum of bounded finite steps is bounded by its length.
pub proof fn lemma_range_sum_bound(v: Seq<Option<i64>>, a: int, j: int)
    requires
        0 <= a <= j <= v.len(),
        finite_range(v, a, j),
        steps_bounded(v),
    ensures
        -(j - a) * MAX_STEP <= range_sum(v, a, j) <= (j - a) * MAX_STEP,
    decreases j - a,
{
    if j > a {
        lemma_range_sum_bound(v, a, j - 1);
    }
}

/// Splitting a prefix sum at any point splits the sum.
pub proof fn lemma_range_sum_split(v: Seq<Option<i64>>, a: int, b: int)
    requires
        0 <= a <= b,
    ensures
        range_sum(v, 0, b) == range_sum(v, 0, a) + range_sum(v, a, b),
    decreases b - a,
{
    if b > a {
        lemma_range_sum_split(v, a, b - 1);
    }
}

/// Index of the first non-finite sample, if any.
pub(crate) fn first_non_finite(values: &Vec<Option<i64>>) -> (r: Option<usize>)
    ensures
        r is None <==> all_finite(values@),
        r matches Some(k) ==> 0 <= k < values@.len() && values@[k as int] is None,
{
    let mut i: usize = 0;
    while i < values.len()
        invariant
            0 <= i <= values@.len(),
            finite_range(values@, 0, i as int),
        decreases values.len() - i,
    {
        if values[i].is_none() {
            return Some(i);
        }
        i = i + 1;
    }
    None
}

/// Prefix sums of the sample window `[a, b)`: element `k` is the sum of the
/// first `k` samples of the window, so the result has `b - a + 1` elements
/// and starts with 0.
pub(crate) fn cum_range(values: &Vec<Option<i64>>, a: usize, b: usize) -> (r: Vec<i64>)
    requires
        a <= b <= values@.len(),
        b - a <= MAX_SAMPLES,
        finite_range(values@, a as int, b as int),
        steps_bounded(values@),
    ensures
        r@.len() == b - a + 1,
        forall|k: int| 0 <= k <= b - a ==> #[trigger] r@[k] == range_sum(values@, a as int, a + k),
        forall|k: int| 0 <= k <= b - a ==> -MAX_CUM <= #[trigger] r@[k] <= MAX_CUM,
{
    let mut r: Vec<i64> = Vec::new();
    r.push(0);
    let mut i: usize = a;
    while i < b
        invariant
            a <= i <= b <= values@.len(),
            b - a <= MAX_SAMPLES,
            finite_range(values@, a as int, b as int),
            steps_bounded(values@),
            r@.len() == i - a + 1,
            forall|k: int|
                0 <= k <= i - a ==> #[trigger] r@[k] == range_sum(values@, a as int, a + k),
            forall|k: int|
                0 <= k <= i - a ==> -MAX_STEP * (i - a) <= #[trigger] r@[k] <= MAX_STEP * (i - a),
        decreases b - i,
    {
        proof {
            lemma_range_sum_bound(values@, a as int, i as int);
            assert(MAX_STEP * (i - a) <= MAX_STEP * (MAX_SAMPLES as int)) by (nonlinear_arith)
                requires
                    i - a <= MAX_SAMPLES as int,
            ;
        }
        let x = match values[i] {
            Some(x) => x,
            None => 0,
        };
        let next = r[i - a] + x;
        r.push(next);
        i = i + 1;
        proof {
            assert(MAX_STEP * (i - a) <= MAX_STEP * (MAX_SAMPLES as int)) by (nonlinear_arith)
                requires
                    i - a <= MAX_SAMPLES as int,
            ;
        }
    }
    proof {
        assert forall|k: int| 0 <= k <= b - a implies -MAX_CUM <= #[trigger] r@[k] <= MAX_CUM by {
            assert(MAX_STEP * (b - a) <= MAX_STEP * (MAX_SAMPLES as int)) by (nonlinear_arith)
                requires
                    b - a <= MAX_SAMPLES as int,
            ;
        }
    }
    r
}

/// The Accumulator: the cumulative log series of a return series, `None` as
/// soon as any sample is non-finite. On success element 0 is 0 and element
/// `i + 1` extends element `i` by sample `i`.
pub fn build_log_cumulative(values: &Vec<Option<i64>>) -> (r: Option<Vec<i64>>)
    requires
        values@.len() <= MAX_SAMPLES,
        steps_bounded(values@),
    ensures
        r is Some <==> all_finite(values@),
        r matches Some(c) ==> {
            &&& c@.len() == values@.len() + 1
            &&& forall|k: int|
                0 <= k <= values@.len() ==> #[trigger] c@[k] == range_sum(values@, 0, k)
            &&& forall|k: int| 0 <= k <= values@.len() ==> -MAX_CUM <= #[trigger] c@[k] <= MAX_CUM
        },
{
    match first_non_finite(values) {
        Some(_) => None,
        None => Some(cum_range(values, 0, values.len())),
    }
}

} // verus!
