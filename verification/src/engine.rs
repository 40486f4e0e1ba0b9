//! The extremum-interval engine: a recursive divide-and-conquer search for
//! the sub-interval of maximum decline (drawdown) or maximum rise (gain) of a
//! cumulative log-return series. The gain search is the exact mirror of the
//! drawdown search and is run by negating the series. The recursion budget
//! `depth`, set to the series length by the public entry points, bounds the
//! recursion depth by the input length; when it is exhausted the search
//! answers with the candidate already in hand.

use vstd::prelude::*;

use crate::series::MAX_CUM;

verus! {

/// A region of a series and its cumulative log change. `end` is exclusive in
/// reported output; a result with `start == end` is the degenerate
/// zero-magnitude sentinel, meaning nothing was observed.
#[derive(PartialEq, Eq, Structural, Debug, Clone, Copy)]
pub struct Interval {
    pub start: usize,
    pub end: usize,
    pub magnitude: i64,
}

/// Every element within the cumulative-series bound, so that differences of
/// elements fit the machine word.
pub open spec fn values_bounded(v: Seq<i64>) -> bool {
    forall|i: int| 0 <= i < v.len() ==> -MAX_CUM <= #[trigger] v[i] <= MAX_CUM
}

/// First index in `[i, end]` holding a nonzero value; `end + 1` when none.
pub open spec fn first_nonzero(v: Seq<i64>, i: int, end: int) -> int
    decreases end + 1 - i,
{
    if i > end {
        end + 1
    } else if v[i] != 0 {
        i
    } else {
        first_nonzero(v, i + 1, end)
    }
}

/// The search's working start: one back from the first nonzero value of the
/// range, so that the last of the leading zero samples — and not the first —
/// plays the part of the opening peak or trough.
pub open spec fn adjusted_start(v: Seq<i64>, start: int, end: int) -> int {
    let i = first_nonzero(v, start, end);
    if i > end {
        start
    } else if i > 0 {
        i - 1
    } else {
        0
    }
}

/// Earliest index of the maximum over `[a, b]`.
pub open spec fn max_idx(v: Seq<i64>, a: int, b: int) -> int
    decreases b - a,
{
    if a >= b {
        b
    } else {
        let m = max_idx(v, a, b - 1);
        if v[b] > v[m] {
            b
        } else {
            m
        }
    }
}

/// Earliest index of the minimum over `[a, b]`.
pub open spec fn min_idx(v: Seq<i64>, a: int, b: int) -> int
    decreases b - a,
{
    if a >= b {
        b
    } else {
        let m = min_idx(v, a, b - 1);
        if v[b] < v[m] {
            b
        } else {
            m
        }
    }
}

/// Last index of the strictly increasing run that starts at `i`, capped at
/// `cap`: the inflexion after the trough.
pub open spec fn rise_end(v: Seq<i64>, i: int, cap: int) -> int
    decreases cap - i,
{
    if i >= cap {
        i
    } else if v[i + 1] > v[i] {
        rise_end(v, i + 1, cap)
    } else {
        i
    }
}

/// Backward scan toward the range maximum: from `k` down to `floor`, while
/// the pair below `k` still rises the marker moves to `k - 1`; the scan also
/// stops at index 0. The result is the inflexion before the peak.
pub open spec fn back_scan(v: Seq<i64>, k: int, floor: int, mark: int) -> int
    decreases k + 1 - floor,
{
    if k < floor || k == 0 {
        mark
    } else if v[k - 1] < v[k] {
        back_scan(v, k - 1, floor, k - 1)
    } else {
        mark
    }
}

/// The divide-and-conquer drawdown search over `[start, end]`, mirrored
/// step for step by the executable search:
/// find the earliest maximum and minimum of the range (after the
/// leading-zero adjustment); a peak before the trough is already the answer;
/// a flat range answers the zero sentinel; otherwise the best of the decline
/// into the trough, the decline off the peak, and — while the recursion
/// budget lasts — a recursive search of the interior between the two
/// inflexions.
pub open spec fn spec_drawdown(v: Seq<i64>, start: int, end: int, depth: nat) -> (int, int, int)
    decreases depth,
{
    let s = adjusted_start(v, start, end);
    let mx = max_idx(v, s, end);
    let mn = min_idx(v, s, end);
    if mx < mn {
        (mx, mn, v[mx] - v[mn])
    } else if mx == mn {
        (0, 0, 0)
    } else {
        let mb = if s < mn {
            max_idx(v, s, mn - 1)
        } else {
            s
        };
        let down_before = v[mb] - v[mn];
        let ma = min_idx(v, mx, end);
        let down_after = v[mx] - v[ma];
        let ext = if down_before < down_after {
            (mx, ma, down_after)
        } else {
            (mb, mn, down_before)
        };
        let fia = rise_end(v, mn, mx);
        let fib = back_scan(v, mx - 1, mn, mx);
        if fia > fib || depth == 0 {
            ext
        } else {
            let rec = spec_drawdown(v, fia, fib, (depth - 1) as nat);
            if rec.2 > ext.2 {
                rec
            } else {
                ext
            }
        }
    }
}

/// The drawdown search with the recursion budget the entry points use: the
/// length of the series.
pub open spec fn spec_max_drawdown(v: Seq<i64>, start: int, end: int) -> (int, int, int) {
    spec_drawdown(v, start, end, v.len())
}

/// The series with every element negated.
pub open spec fn neg_seq(v: Seq<i64>) -> Seq<i64> {
    Seq::new(v.len(), |i: int| (-v[i]) as i64)
}

/// The gain search: the drawdown search run on the negated series, which
/// swaps every peak for a trough. The interval comes out unchanged and its
/// magnitude is the rise `v[end] - v[start]`.
pub open spec fn spec_max_gain(v: Seq<i64>, start: int, end: int) -> (int, int, int) {
    spec_drawdown(neg_seq(v), start, end, v.len())
}

/// The executable interval carries exactly the triple of the specification.
pub open spec fn interval_matches(iv: Interval, t: (int, int, int)) -> bool {
    &&& iv.start as int == t.0
    &&& iv.end as int == t.1
    &&& iv.magnitude as int == t.2
}

proof fn lemma_first_nonzero_range(v: Seq<i64>, i: int, end: int)
    requires
        i <= end + 1,
    ensures
        i <= first_nonzero(v, i, end) <= end + 1,
    decreases end + 1 - i,
{
    if i <= end && v[i] == 0 {
        lemma_first_nonzero_range(v, i + 1, end);
    }
}

/// Skipping a prefix of zero values does not move the first nonzero index.
proof fn lemma_first_nonzero_skip(v: Seq<i64>, start: int, i: int, end: int)
    requires
        start <= i <= end + 1,
        forall|j: int| start <= j < i ==> v[j] == 0,
    ensures
        first_nonzero(v, start, end) == first_nonzero(v, i, end),
    decreases i - start,
{
    if start < i {
        lemma_first_nonzero_skip(v, start + 1, i, end);
    }
}

proof fn lemma_max_idx_props(v: Seq<i64>, a: int, b: int)
    requires
        a <= b,
    ensures
        a <= max_idx(v, a, b) <= b,
        forall|j: int| a <= j <= b ==> #[trigger] v[j] <= v[max_idx(v, a, b)],
        forall|j: int| a <= j < max_idx(v, a, b) ==> #[trigger] v[j] < v[max_idx(v, a, b)],
    decreases b - a,
{
    if a < b {
        lemma_max_idx_props(v, a, b - 1);
    }
}

proof fn lemma_min_idx_props(v: Seq<i64>, a: int, b: int)
    requires
        a <= b,
    ensures
        a <= min_idx(v, a, b) <= b,
        forall|j: int| a <= j <= b ==> #[trigger] v[j] >= v[min_idx(v, a, b)],
        forall|j: int| a <= j < min_idx(v, a, b) ==> #[trigger] v[j] > v[min_idx(v, a, b)],
    decreases b - a,
{
    if a < b {
        lemma_min_idx_props(v, a, b - 1);
    }
}

proof fn lemma_rise_end_range(v: Seq<i64>, i: int, cap: int)
    requires
        i <= cap,
    ensures
        i <= rise_end(v, i, cap) <= cap,
    decreases cap - i,
{
    if i < cap && v[i + 1] > v[i] {
        lemma_rise_end_range(v, i + 1, cap);
    }
}

proof fn lemma_adjusted_start_range(v: Seq<i64>, start: int, end: int)
    requires
        0 <= start <= end,
    ensures
        0 <= adjusted_start(v, start, end) <= end,
{
    lemma_first_nonzero_range(v, start, end);
}

proof fn lemma_back_scan_bounds(v: Seq<i64>, k: int, floor: int, mark: int)
    requires
        0 <= floor,
        0 <= mark,
    ensures
        0 <= back_scan(v, k, floor, mark),
        back_scan(v, k, floor, mark) <= mark || back_scan(v, k, floor, mark) < k,
    decreases k + 1 - floor,
{
    if !(k < floor || k == 0) && v[k - 1] < v[k] {
        lemma_back_scan_bounds(v, k - 1, floor, k - 1);
    }
}

/// A non-degenerate search result is a genuine decline of the series: its
/// indices lie in the searched range in order, and its magnitude is the
/// positive drop from its start to its end. A degenerate result carries
/// magnitude zero.
pub proof fn lemma_drawdown_sound(v: Seq<i64>, start: int, end: int, depth: nat)
    requires
        0 <= start <= end < v.len(),
    ensures
        ({
            let r = spec_drawdown(v, start, end, depth);
            &&& 0 <= r.0 <= r.1 <= end
            &&& r.2 >= 0
            &&& (r.0 < r.1 ==> r.2 == v[r.0] - v[r.1] && r.2 > 0)
            &&& (r.0 == r.1 ==> r.2 == 0)
        }),
    decreases depth,
{
    let s = adjusted_start(v, start, end);
    lemma_adjusted_start_range(v, start, end);
    let mx = max_idx(v, s, end);
    let mn = min_idx(v, s, end);
    lemma_max_idx_props(v, s, end);
    lemma_min_idx_props(v, s, end);
    if mx > mn {
        let mb = if s < mn {
            max_idx(v, s, mn - 1)
        } else {
            s
        };
        if s < mn {
            lemma_max_idx_props(v, s, mn - 1);
        }
        let ma = min_idx(v, mx, end);
        lemma_min_idx_props(v, mx, end);
        let fia = rise_end(v, mn, mx);
        let fib = back_scan(v, mx - 1, mn, mx);
        lemma_rise_end_range(v, mn, mx);
        lemma_back_scan_bounds(v, mx - 1, mn, mx);
        if !(fia > fib || depth == 0) {
            lemma_drawdown_sound(v, fia, fib, (depth - 1) as nat);
        }
    }
}

/// Idempotence: two searches of the same series over the same range answer
/// bit-identical intervals — the result is a function of the input alone.
pub proof fn lemma_search_idempotent(
    v: Seq<i64>,
    start: int,
    end: int,
    r1: Interval,
    r2: Interval,
)
    requires
        interval_matches(r1, spec_max_drawdown(v, start, end)),
        interval_matches(r2, spec_max_drawdown(v, start, end)),
    ensures
        r1 == r2,
{
}

/// Symmetry: the gain search of the negated series is the drawdown search of
/// the series itself, interval for interval and magnitude for magnitude.
pub proof fn lemma_gain_of_negated_is_drawdown(v: Seq<i64>, start: int, end: int)
    requires
        values_bounded(v),
    ensures
        spec_max_gain(neg_seq(v), start, end) == spec_max_drawdown(v, start, end),
{
    assert(neg_seq(neg_seq(v)) =~= v);
}

proof fn lemma_idx_increasing(v: Seq<i64>, a: int, b: int)
    requires
        a <= b,
        forall|i: int| a <= i < b ==> #[trigger] v[i] < v[i + 1],
    ensures
        max_idx(v, a, b) == b,
        min_idx(v, a, b) == a,
        a < b ==> v[a] < v[b],
    decreases b - a,
{
    if a < b {
        lemma_idx_increasing(v, a, b - 1);
    }
}

proof fn lemma_idx_decreasing(v: Seq<i64>, a: int, b: int)
    requires
        a <= b,
        forall|i: int| a <= i < b ==> #[trigger] v[i] > v[i + 1],
    ensures
        max_idx(v, a, b) == a,
        min_idx(v, a, b) == b,
        a < b ==> v[a] > v[b],
    decreases b - a,
{
    if a < b {
        lemma_idx_decreasing(v, a, b - 1);
    }
}

proof fn lemma_rise_end_increasing(v: Seq<i64>, i: int, cap: int)
    requires
        i <= cap,
        forall|j: int| i <= j < cap ==> #[trigger] v[j] < v[j + 1],
    ensures
        rise_end(v, i, cap) == cap,
    decreases cap - i,
{
    if i < cap {
        lemma_rise_end_increasing(v, i + 1, cap);
    }
}

proof fn lemma_back_scan_rising(v: Seq<i64>, k: int, mark: int)
    requires
        k >= 1,
        forall|j: int| 0 <= j < k ==> #[trigger] v[j] < v[j + 1],
    ensures
        back_scan(v, k, 0, mark) == 0,
    decreases k,
{
    assert(v[k - 1] < v[k]);
    if k > 1 {
        lemma_back_scan_rising(v, k - 1, k - 1);
    } else {
        assert(back_scan(v, 0, 0, 0) == 0);
    }
}

proof fn lemma_rising_unit(v: Seq<i64>, depth: nat)
    requires
        v.len() >= 2,
        v[0] < v[1],
    ensures
        spec_drawdown(v, 1, 1, depth) == (0int, 0int, 0int),
    decreases depth,
{
    if v[1] == 0 {
        assert(first_nonzero(v, 2, 1) == 2);
        assert(first_nonzero(v, 1, 1) == 2);
    } else {
        assert(first_nonzero(v, 1, 1) == 1);
        lemma_idx_increasing(v, 0, 1);
        lemma_rise_end_increasing(v, 0, 1);
        if depth > 0 {
            lemma_rising_unit(v, (depth - 1) as nat);
        }
    }
}

proof fn lemma_rising_drawdown(v: Seq<i64>, end: int, depth: nat)
    requires
        1 <= end < v.len(),
        forall|i: int| 0 <= i < end ==> #[trigger] v[i] < v[i + 1],
    ensures
        spec_drawdown(v, 0, end, depth) == (0int, 0int, 0int),
    decreases depth,
{
    assert(v[0] < v[1]);
    if v[0] == 0 {
        assert(v[1] != 0);
        assert(first_nonzero(v, 1, end) == 1);
        assert(first_nonzero(v, 0, end) == 1);
    } else {
        assert(first_nonzero(v, 0, end) == 0);
    }
    assert(adjusted_start(v, 0, end) == 0);
    lemma_idx_increasing(v, 0, end);
    lemma_rise_end_increasing(v, 0, end);
    lemma_idx_increasing(v, end, end);
    if end >= 2 {
        lemma_back_scan_rising(v, end - 1, end);
    } else {
        if depth > 0 {
            lemma_rising_unit(v, (depth - 1) as nat);
        }
    }
}

/// Monotonic rising series: the drawdown search answers the degenerate
/// zero-magnitude sentinel, and the gain search answers the whole range with
/// the rise from the first to the last value.
pub proof fn lemma_monotonic_rising(v: Seq<i64>, end: int)
    requires
        values_bounded(v),
        2 <= v.len(),
        end == v.len() - 1,
        forall|i: int| 0 <= i < end ==> #[trigger] v[i] < v[i + 1],
    ensures
        spec_max_drawdown(v, 0, end) == (0int, 0int, 0int),
        spec_max_gain(v, 0, end) == (0int, end, v[end] - v[0]),
{
    lemma_rising_drawdown(v, end, v.len());
    let n = neg_seq(v);
    assert forall|i: int| 0 <= i < end implies #[trigger] n[i] > n[i + 1] by {
        assert(v[i] < v[i + 1]);
    }
    assert(n[0] > n[1]);
    if n[0] == 0 {
        assert(n[1] != 0);
        assert(first_nonzero(n, 1, end) == 1);
        assert(first_nonzero(n, 0, end) == 1);
    } else {
        assert(first_nonzero(n, 0, end) == 0);
    }
    assert(adjusted_start(n, 0, end) == 0);
    lemma_idx_decreasing(n, 0, end);
}

/// The recursive extremum search, step for step the image of
/// `spec_drawdown`.
#[verifier::loop_isolation(false)]
#[verifier::rlimit(80)]
pub(crate) fn drawdown_search(v: &Vec<i64>, start: usize, end: usize, depth: usize) -> (r:
    Interval)
    requires
        start <= end < v@.len(),
        values_bounded(v@),
    ensures
        interval_matches(r, spec_drawdown(v@, start as int, end as int, depth as nat)),
    decreases depth,
{
    let ghost gs = adjusted_start(v@, start as int, end as int);
    let n = v.len();
    proof {
        assert(end < n);
    }

    // Skip past the leading run of exact-zero values: the working start is
    // the last zero at or before the first nonzero sample.
    let mut i = start;
    while i <= end && v[i] == 0
        invariant
            start <= i <= end + 1,
            end < v@.len(),
            forall|j: int| start <= j < i ==> v@[j] == 0,
        decreases end + 1 - i,
    {
        i = i + 1;
    }
    proof {
        lemma_first_nonzero_skip(v@, start as int, i as int, end as int);
        lemma_first_nonzero_range(v@, i as int, end as int);
    }
    let s = if i <= end {
        if i > 0 {
            i - 1
        } else {
            0
        }
    } else {
        start
    };
    proof {
        assert(s as int == gs);
        lemma_max_idx_props(v@, s as int, end as int);
        lemma_min_idx_props(v@, s as int, end as int);
    }

    // Earliest maximum and minimum of the working range.
    let mut mx = s;
    let mut mn = s;
    let mut j = s + 1;
    while j <= end
        invariant
            s + 1 <= j <= end + 1,
            end < v@.len(),
            s <= mx < j,
            s <= mn < j,
            mx as int == max_idx(v@, s as int, j - 1),
            mn as int == min_idx(v@, s as int, j - 1),
        decreases end + 1 - j,
    {
        if v[j] > v[mx] {
            mx = j;
        }
        if v[j] < v[mn] {
            mn = j;
        }
        j = j + 1;
    }

    if mx < mn {
        return Interval { start: mx, end: mn, magnitude: v[mx] - v[mn] };
    }
    if mx == mn {
        return Interval { start: 0, end: 0, magnitude: 0 };
    }

    // Largest decline ending at the trough: peak over [s, mn).
    let mut mb = s;
    let mut j = s + 1;
    while j < mn
        invariant
            s + 1 <= j,
            j <= mn || j == s + 1,
            s <= mb < j,
            mb as int == max_idx(v@, s as int, j - 1),
        decreases mn - j,
    {
        if v[j] > v[mb] {
            mb = j;
        }
        j = j + 1;
    }
    let down_before = v[mb] - v[mn];

    // Largest decline starting at the peak: trough over [mx, end].
    let mut ma = mx;
    let mut j = mx + 1;
    while j <= end
        invariant
            mx + 1 <= j <= end + 1,
            end < v@.len(),
            mx <= ma < j,
            ma as int == min_idx(v@, mx as int, j - 1),
        decreases end + 1 - j,
    {
        if v[j] < v[ma] {
            ma = j;
        }
        j = j + 1;
    }
    let down_after = v[mx] - v[ma];

    let ext = if down_before < down_after {
        Interval { start: mx, end: ma, magnitude: down_after }
    } else {
        Interval { start: mb, end: mn, magnitude: down_before }
    };

    // First index after the trough where the series stops strictly rising.
    let mut fia = mn;
    while fia < mx && v[fia + 1] > v[fia]
        invariant
            mn <= fia <= mx,
            mx <= end < v@.len(),
            rise_end(v@, mn as int, mx as int) == rise_end(v@, fia as int, mx as int),
        decreases mx - fia,
    {
        fia = fia + 1;
    }

    // First index before the peak, scanned backward, where the rise toward
    // the peak stops.
    let mut fib = mx;
    let mut k = mx - 1;
    #[verifier::loop_isolation(true)]
    loop
        invariant
            mn <= k + 1 <= mx,
            fib <= mx <= end < v@.len(),
            back_scan(v@, mx - 1, mn as int, mx as int) == back_scan(
                v@,
                k as int,
                mn as int,
                fib as int,
            ),
        ensures
            fib <= mx <= end < v@.len(),
            fib as int == back_scan(v@, mx - 1, mn as int, mx as int),
        decreases k,
    {
        if k < mn || k == 0 {
            break ;
        }
        if v[k - 1] < v[k] {
            fib = k - 1;
            k = k - 1;
        } else {
            break ;
        }
    }

    if fia > fib || depth == 0 {
        return ext;
    }
    let rec = drawdown_search(v, fia, fib, depth - 1);
    if rec.magnitude > ext.magnitude {
        rec
    } else {
        ext
    }
}

/// The sub-interval of maximum decline of the cumulative series over
/// `[start, end]`, searched with a recursion budget of the series length.
pub fn find_max_drawdown(series: &Vec<i64>, start: usize, end: usize) -> (r: Interval)
    requires
        start <= end < series@.len(),
        values_bounded(series@),
    ensures
        interval_matches(r, spec_max_drawdown(series@, start as int, end as int)),
{
    drawdown_search(series, start, end, series.len())
}

/// The sub-interval of maximum rise of the cumulative series over
/// `[start, end]`: the mirror search, run on the negated series.
pub fn find_max_gain(series: &Vec<i64>, start: usize, end: usize) -> (r: Interval)
    requires
        start <= end < series@.len(),
        values_bounded(series@),
    ensures
        interval_matches(r, spec_max_gain(series@, start as int, end as int)),
{
    let mut neg: Vec<i64> = Vec::new();
    let mut i: usize = 0;
    while i < series.len()
        invariant
            0 <= i <= series@.len(),
            values_bounded(series@),
            neg@.len() == i as int,
            forall|j: int| 0 <= j < i ==> #[trigger] neg@[j] == neg_seq(series@)[j],
        decreases series.len() - i,
    {
        neg.push(-series[i]);
        i = i + 1;
    }
    proof {
        assert(neg@ =~= neg_seq(series@));
        assert forall|j: int| 0 <= j < neg@.len() implies -MAX_CUM <= #[trigger] neg@[j]
            <= MAX_CUM by {
            assert(series@[j] >= -MAX_CUM && series@[j] <= MAX_CUM);
        }
    }
    drawdown_search(&neg, start, end, neg.len())
}

} // verus!
