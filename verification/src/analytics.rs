//! The reported statistics: maximum drawdown with its recovery labeling,
//! maximum gain, longest up/down streaks, best/worst rolling windows and the
//! calendar-bucketed drawdown magnitudes behind the average drawdown.
//!
//! Inputs are per-period returns as fixed-point natural-log values, `None`
//! standing for a non-finite sample, paired one to one with day-serial dates.
//! Magnitudes are reported in the same fixed-point log units; `None` in a
//! report is the not-a-number sentinel. The percent conversions
//! (`exp(x) - 1`, annualization) belong to the caller, outside this library.

use vstd::prelude::*;

use crate::date_util::period_begin_serial;
use crate::date_util::period_end_serial;
use crate::date_util::to_period_begin_int;
use crate::date_util::to_period_end_int;
use crate::date_util::MAX_SERIAL;
use crate::date_util::MIN_SERIAL;
use crate::engine::find_max_drawdown;
use crate::engine::find_max_gain;
use crate::engine::lemma_drawdown_sound;
use crate::engine::neg_seq;
use crate::engine::spec_max_drawdown;
use crate::engine::spec_max_gain;
use crate::enums::Errors;
use crate::enums::ClFrequency;
use crate::series::all_finite;
use crate::series::build_log_cumulative;
use crate::series::range_sum;
use crate::series::steps_bounded;
use crate::series::MAX_SAMPLES;
use crate::series::MAX_STEP;

verus! {

/// The maximum-drawdown report. `magnitude` is the log-scale decline from
/// peak to trough (`None`: not computable, or no drawdown observed); dates
/// label the drawdown and its recovery, zero where unset.
#[derive(PartialEq, Eq, Structural, Debug, Clone, Copy)]
pub struct DrawdownReport {
    pub magnitude: Option<i64>,
    pub peak_date: i32,
    pub valley_date: i32,
    pub months: i32,
    pub recovery_months: i32,
    pub recovery_date: i32,
}

/// The maximum-gain report. `magnitude` is the log-scale rise (`None` only
/// when the input was not computable; a gainless series reports `Some(0)`).
#[derive(PartialEq, Eq, Structural, Debug, Clone, Copy)]
pub struct GainReport {
    pub magnitude: Option<i64>,
    pub start_date: i32,
    pub end_date: i32,
    pub months: i32,
}

/// Every date is a representable day serial.
pub open spec fn dates_ok(dates: Seq<i32>) -> bool {
    forall|i: int|
        0 <= i < dates.len() ==> MIN_SERIAL as int <= #[trigger] dates[i] <= MAX_SERIAL as int
}

/// The cumulative log series of a fully finite return series, as the engine
/// sees it: length N+1, element k the sum of the first k samples.
pub open spec fn spec_cum(v: Seq<Option<i64>>) -> Seq<i64> {
    Seq::new((v.len() + 1) as nat, |k: int| range_sum(v, 0, k) as i64)
}

/// First index at or after `i` where the cumulative series returns to the
/// peak's level; 0 when the loss is never recovered in the window.
pub open spec fn recovery_pos(c: Seq<i64>, i: int, peak: int) -> int
    decreases c.len() - i,
{
    if i >= c.len() {
        0
    } else if c[i] >= c[peak] {
        i
    } else {
        recovery_pos(c, i + 1, peak)
    }
}

/// The all-unset drawdown report: the not-a-number sentinel.
pub open spec fn drawdown_sentinel() -> DrawdownReport {
    DrawdownReport {
        magnitude: None,
        peak_date: 0,
        valley_date: 0,
        months: 0,
        recovery_months: 0,
        recovery_date: 0,
    }
}

/// What `max_draw_down` reports: the sentinel for a series with a non-finite
/// sample and for a series without a drawdown; otherwise the engine's
/// interval labelled with its period-begin peak date, valley date, length,
/// and recovery scan.
pub open spec fn spec_max_draw_down_report(
    values: Seq<Option<i64>>,
    dates: Seq<i32>,
    freq: ClFrequency,
) -> DrawdownReport {
    if !all_finite(values) {
        drawdown_sentinel()
    } else {
        let c = spec_cum(values);
        let dg = spec_max_drawdown(c, 0, values.len() as int);
        if dg.0 < dg.1 && dg.2 != 0 {
            let rp = recovery_pos(c, dg.1, dg.0);
            DrawdownReport {
                magnitude: Some(dg.2 as i64),
                peak_date: period_begin_serial(freq, dates[dg.0] as int) as i32,
                valley_date: dates[dg.1 - 1],
                months: (dg.1 - dg.0) as i32,
                recovery_months: if rp != 0 {
                    (rp - dg.1) as i32
                } else {
                    0
                },
                recovery_date: if rp != 0 {
                    dates[rp - 1]
                } else {
                    0
                },
            }
        } else {
            drawdown_sentinel()
        }
    }
}

/// What `max_gain` reports: `None` only for a non-computable series; the
/// engine's magnitude otherwise (zero included), with dates and length only
/// for a proper rise.
pub open spec fn spec_max_gain_report(
    values: Seq<Option<i64>>,
    dates: Seq<i32>,
    freq: ClFrequency,
) -> GainReport {
    if !all_finite(values) {
        GainReport { magnitude: None, start_date: 0, end_date: 0, months: 0 }
    } else {
        let c = spec_cum(values);
        let dg = spec_max_gain(c, 0, values.len() as int);
        if dg.0 < dg.1 && dg.2 != 0 {
            GainReport {
                magnitude: Some(dg.2 as i64),
                start_date: period_begin_serial(freq, dates[dg.0] as int) as i32,
                end_date: dates[dg.1 - 1],
                months: (dg.1 - dg.0) as i32,
            }
        } else {
            GainReport { magnitude: Some(dg.2 as i64), start_date: 0, end_date: 0, months: 0 }
        }
    }
}

fn recovery_scan(c: &Vec<i64>, from: usize, peak: usize) -> (r: usize)
    requires
        peak < c@.len(),
        from <= c@.len(),
    ensures
        r as int == recovery_pos(c@, from as int, peak as int),
        r == 0 || from <= r < c@.len(),
{
    let mut i = from;
    while i < c.len() && c[i] < c[peak]
        invariant
            from <= i <= c@.len(),
            peak < c@.len(),
            recovery_pos(c@, from as int, peak as int) == recovery_pos(c@, i as int, peak as int),
        decreases c@.len() - i,
    {
        i = i + 1;
    }
    if i < c.len() {
        i
    } else {
        0
    }
}

/// The maximum drawdown of the series: its log magnitude, the period-begin
/// date of the peak, the valley date, its length in periods, and the first
/// recovery to the peak's level. A non-finite sample anywhere, or a series
/// that never declines, reports the sentinel.
#[verifier::rlimit(50)]
pub fn max_draw_down(values: &Vec<Option<i64>>, dates: &Vec<i32>, freq: ClFrequency) -> (r: Result<
    DrawdownReport,
    Errors,
>)
    requires
        values@.len() <= MAX_SAMPLES,
        steps_bounded(values@),
        dates_ok(dates@),
    ensures
        r is Err <==> (values@.len() == 0 || dates@.len() != values@.len()),
        r matches Err(e) ==> e == Errors::ClErrorCodeInvalidPara,
        r matches Ok(rep) ==> rep == spec_max_draw_down_report(values@, dates@, freq),
        r matches Ok(rep) ==> (!all_finite(values@) ==> rep.magnitude is None),
{
    let n = values.len();
    if n == 0 || dates.len() != n {
        return Err(Errors::ClErrorCodeInvalidPara);
    }
    let c = match build_log_cumulative(values) {
        None => {
            return Ok(drawdown_report_sentinel());
        },
        Some(c) => c,
    };
    proof {
        assert(c@ =~= spec_cum(values@));
    }
    let dg = find_max_drawdown(&c, 0, n);
    proof {
        lemma_drawdown_sound(c@, 0, n as int, c@.len());
    }
    if dg.start < dg.end && dg.magnitude != 0 {
        let rp = recovery_scan(&c, dg.end, dg.start);
        let peak_date = to_period_begin_int(freq, dates[dg.start] as u64) as i32;
        Ok(
            DrawdownReport {
                magnitude: Some(dg.magnitude),
                peak_date,
                valley_date: dates[dg.end - 1],
                months: (dg.end - dg.start) as i32,
                recovery_months: if rp != 0 {
                    (rp - dg.end) as i32
                } else {
                    0
                },
                recovery_date: if rp != 0 {
                    dates[rp - 1]
                } else {
                    0
                },
            },
        )
    } else {
        Ok(drawdown_report_sentinel())
    }
}

fn drawdown_report_sentinel() -> (r: DrawdownReport)
    ensures
        r == drawdown_sentinel(),
{
    DrawdownReport {
        magnitude: None,
        peak_date: 0,
        valley_date: 0,
        months: 0,
        recovery_months: 0,
        recovery_date: 0,
    }
}

/// The maximum gain of the series: its log magnitude (zero when nothing
/// rose), the period-begin date of the starting trough, the end date and the
/// length in periods. A non-finite sample anywhere reports the sentinel.
#[verifier::rlimit(50)]
pub fn max_gain(values: &Vec<Option<i64>>, dates: &Vec<i32>, freq: ClFrequency) -> (r: Result<
    GainReport,
    Errors,
>)
    requires
        values@.len() <= MAX_SAMPLES,
        steps_bounded(values@),
        dates_ok(dates@),
    ensures
        r is Err <==> (values@.len() == 0 || dates@.len() != values@.len()),
        r matches Err(e) ==> e == Errors::ClErrorCodeInvalidPara,
        r matches Ok(rep) ==> rep == spec_max_gain_report(values@, dates@, freq),
        r matches Ok(rep) ==> (!all_finite(values@) ==> rep.magnitude is None),
{
    let n = values.len();
    if n == 0 || dates.len() != n {
        return Err(Errors::ClErrorCodeInvalidPara);
    }
    let c = match build_log_cumulative(values) {
        None => {
            return Ok(GainReport { magnitude: None, start_date: 0, end_date: 0, months: 0 });
        },
        Some(c) => c,
    };
    proof {
        assert(c@ =~= spec_cum(values@));
    }
    let dg = find_max_gain(&c, 0, n);
    proof {
        lemma_drawdown_sound(neg_seq(c@), 0, n as int, neg_seq(c@).len());
    }
    if dg.start < dg.end && dg.magnitude != 0 {
        let start_date = to_period_begin_int(freq, dates[dg.start] as u64) as i32;
        Ok(
            GainReport {
                magnitude: Some(dg.magnitude),
                start_date,
                end_date: dates[dg.end - 1],
                months: (dg.end - dg.start) as i32,
            },
        )
    } else {
        Ok(GainReport { magnitude: Some(dg.magnitude), start_date: 0, end_date: 0, months: 0 })
    }
}

/// The longest-streak report: the compounded log sum of the winning run and
/// its period-begin/period-end date labels. `None`: no streak exists.
#[derive(PartialEq, Eq, Structural, Debug, Clone, Copy)]
pub struct StreakReport {
    pub value: Option<i64>,
    pub start_date: i32,
    pub end_date: i32,
    pub periods: i32,
}

/// One sample satisfies the streak's sign condition.
pub open spec fn sign_ok(x: i64, up: bool) -> bool {
    if up {
        x > 0
    } else {
        x < 0
    }
}

/// The inner scan of the streak search, from offset `i`: a non-finite sample
/// is skipped without breaking the run, a sign-matching sample extends the
/// run and its log sum, and the first sign violation ends it. Returns the
/// last extended index and the sum.
pub open spec fn streak_scan(
    v: Seq<Option<i64>>,
    i: int,
    end: int,
    up: bool,
    last: int,
    sum: int,
) -> (int, int)
    decreases end - i,
{
    if i >= end {
        (last, sum)
    } else if v[i] is None {
        streak_scan(v, i + 1, end, up, last, sum)
    } else if sign_ok(v[i]->0, up) {
        streak_scan(v, i + 1, end, up, i, sum + v[i]->0)
    } else {
        (last, sum)
    }
}

/// The outer scan: a run is started at every finite offset, and the first
/// run of greatest index span among those whose compounded sum is nonzero
/// wins. `(bs, be, bsum)` is the best so far, `bsum == 0` meaning none yet.
pub open spec fn best_streak(
    v: Seq<Option<i64>>,
    i: int,
    end: int,
    up: bool,
    bs: int,
    be: int,
    bsum: int,
) -> (int, int, int)
    decreases end - i,
{
    if i >= end {
        (bs, be, bsum)
    } else if v[i] is None {
        best_streak(v, i + 1, end, up, bs, be, bsum)
    } else {
        let sc = streak_scan(v, i, end, up, i, 0);
        if sc.1 != 0 && (bsum == 0 || sc.0 - i > be - bs) {
            best_streak(v, i + 1, end, up, i, sc.0, sc.1)
        } else {
            best_streak(v, i + 1, end, up, bs, be, bsum)
        }
    }
}

/// The longest same-signed run of the series: its start, last index and
/// compounded log sum; `(0, 0, 0)` when no run exists.
pub open spec fn spec_longest_streak(v: Seq<Option<i64>>, up: bool) -> (int, int, int) {
    best_streak(v, 0, v.len() as int, up, 0, 0, 0)
}

/// What the streak statistics report: nothing observed when no run was
/// recorded; otherwise the run's sum, its period-begin start date, its
/// period-end end date, and its length in periods, gaps included.
pub open spec fn spec_streak_report(
    values: Seq<Option<i64>>,
    dates: Seq<i32>,
    freq: ClFrequency,
    up: bool,
) -> StreakReport {
    let t = spec_longest_streak(values, up);
    if t.2 == 0 && t.0 == t.1 {
        StreakReport { value: None, start_date: 0, end_date: 0, periods: 0 }
    } else {
        StreakReport {
            value: Some(t.2 as i64),
            start_date: period_begin_serial(freq, dates[t.0] as int) as i32,
            end_date: period_end_serial(freq, dates[t.1] as int) as i32,
            periods: (t.1 - t.0 + 1) as i32,
        }
    }
}

/// Whether the run scan passes over the sample: it is non-finite (skipped)
/// or matches the run's sign.
fn streak_continues(values: &Vec<Option<i64>>, j: usize, up: bool) -> (r: bool)
    requires
        j < values@.len(),
    ensures
        r == (values@[j as int] is None || sign_ok(values@[j as int]->0, up)),
{
    match values[j] {
        None => true,
        Some(x) => {
            if up {
                x > 0
            } else {
                x < 0
            }
        },
    }
}

#[verifier::loop_isolation(false)]
fn longest_streak_scan(values: &Vec<Option<i64>>, up: bool) -> (r: (usize, usize, i64))
    requires
        values@.len() <= MAX_SAMPLES,
        steps_bounded(values@),
    ensures
        ({
            let t = spec_longest_streak(values@, up);
            r.0 as int == t.0 && r.1 as int == t.1 && r.2 as int == t.2
        }),
        r.0 <= r.1 < values@.len() || (r.0 == 0 && r.1 == 0 && r.2 == 0),
{
    let n = values.len();
    let ghost target = spec_longest_streak(values@, up);
    let mut bs: usize = 0;
    let mut be: usize = 0;
    let mut bsum: i64 = 0;
    let mut i: usize = 0;
    while i < n
        invariant
            0 <= i <= n,
            bs <= be < n || (bs == 0 && be == 0 && bsum == 0),
            target == best_streak(values@, i as int, n as int, up, bs as int, be as int, bsum as int),
        decreases n - i,
    {
        if values[i].is_some() {
            let mut j = i;
            let mut last = i;
            let mut sum: i64 = 0;
            while j < n && streak_continues(values, j, up)
                invariant
                    i <= j <= n,
                    i <= last <= j || (last == i && sum == 0),
                    last < n,
                    -MAX_STEP * ((j - i) as int) <= sum <= MAX_STEP * ((j - i) as int),
                    streak_scan(values@, i as int, n as int, up, i as int, 0) == streak_scan(
                        values@,
                        j as int,
                        n as int,
                        up,
                        last as int,
                        sum as int,
                    ),
                decreases n - j,
            {
                proof {
                    assert(MAX_STEP * ((j - i) as int) <= MAX_STEP * (MAX_SAMPLES as int))
                        by (nonlinear_arith)
                        requires
                            (j - i) as int <= MAX_SAMPLES as int,
                    ;
                }
                match values[j] {
                    None => {
                    },
                    Some(x) => {
                        sum = sum + x;
                        last = j;
                    },
                }
                j = j + 1;
                proof {
                    assert(MAX_STEP * ((j - i) as int) <= MAX_STEP * (MAX_SAMPLES as int))
                        by (nonlinear_arith)
                        requires
                            (j - i) as int <= MAX_SAMPLES as int,
                    ;
                }
            }
            if sum != 0 && (bsum == 0 || last - i > be - bs) {
                bs = i;
                be = last;
                bsum = sum;
            }
        }
        i = i + 1;
    }
    (bs, be, bsum)
}

fn longest_up_down_streak(
    values: &Vec<Option<i64>>,
    dates: &Vec<i32>,
    freq: ClFrequency,
    is_up: bool,
) -> (r: Result<StreakReport, Errors>)
    requires
        values@.len() <= MAX_SAMPLES,
        steps_bounded(values@),
        dates_ok(dates@),
    ensures
        r is Err <==> (values@.len() == 0 || dates@.len() != values@.len()),
        r matches Err(e) ==> e == Errors::ClErrorCodeInvalidPara,
        r matches Ok(rep) ==> rep == spec_streak_report(values@, dates@, freq, is_up),
{
    let n = values.len();
    if n == 0 || dates.len() != n {
        return Err(Errors::ClErrorCodeInvalidPara);
    }
    let t = longest_streak_scan(values, is_up);
    if t.2 == 0 && t.0 == t.1 {
        return Ok(StreakReport { value: None, start_date: 0, end_date: 0, periods: 0 });
    }
    let start_date = to_period_begin_int(freq, dates[t.0] as u64) as i32;
    let end_date = to_period_end_int(freq, dates[t.1] as u64) as i32;
    Ok(
        StreakReport {
            value: Some(t.2),
            start_date,
            end_date,
            periods: (t.1 - t.0 + 1) as i32,
        },
    )
}

/// The longest streak of strictly positive returns: its compounded log sum,
/// period-aligned start and end dates, and length in periods. Non-finite
/// samples are skipped without breaking a run.
pub fn longest_up_streak(values: &Vec<Option<i64>>, dates: &Vec<i32>, freq: ClFrequency) -> (r:
    Result<StreakReport, Errors>)
    requires
        values@.len() <= MAX_SAMPLES,
        steps_bounded(values@),
        dates_ok(dates@),
    ensures
        r is Err <==> (values@.len() == 0 || dates@.len() != values@.len()),
        r matches Err(e) ==> e == Errors::ClErrorCodeInvalidPara,
        r matches Ok(rep) ==> rep == spec_streak_report(values@, dates@, freq, true),
{
    longest_up_down_streak(values, dates, freq, true)
}

/// The longest streak of strictly negative returns; see `longest_up_streak`.
pub fn longest_down_streak(values: &Vec<Option<i64>>, dates: &Vec<i32>, freq: ClFrequency) -> (r:
    Result<StreakReport, Errors>)
    requires
        values@.len() <= MAX_SAMPLES,
        steps_bounded(values@),
        dates_ok(dates@),
    ensures
        r is Err <==> (values@.len() == 0 || dates@.len() != values@.len()),
        r matches Err(e) ==> e == Errors::ClErrorCodeInvalidPara,
        r matches Ok(rep) ==> rep == spec_streak_report(values@, dates@, freq, false),
{
    longest_up_down_streak(values, dates, freq, false)
}

/// One rolling-window position: the compounded log sum of the window and
/// the date of its last sample. `None`: not computable.
#[derive(PartialEq, Eq, Structural, Debug, Clone, Copy)]
pub struct RollingReport {
    pub value: Option<i64>,
    pub date: i32,
}

/// Log sum of the window of `w` samples ending at index `e`.
pub open spec fn window_sum(v: Seq<Option<i64>>, e: int, w: int) -> int {
    range_sum(v, e + 1 - w, e + 1)
}

/// End index of the most extreme window, scanned left to right from window
/// end `i` with current best `bi`: only a strict improvement replaces the
/// best, so the earliest extreme wins.
pub open spec fn best_roll(v: Seq<Option<i64>>, w: int, i: int, bi: int, want_greater: bool) -> int
    decreases v.len() - i,
{
    if i >= v.len() {
        bi
    } else {
        let better = if want_greater {
            window_sum(v, i, w) > window_sum(v, bi, w)
        } else {
            window_sum(v, i, w) < window_sum(v, bi, w)
        };
        if better {
            best_roll(v, w, i + 1, i, want_greater)
        } else {
            best_roll(v, w, i + 1, bi, want_greater)
        }
    }
}

/// What the rolling statistics report: the sentinel when any sample is
/// non-finite or the window is empty; otherwise the best (or worst) window's
/// log sum and end date.
pub open spec fn spec_rolling_report(
    values: Seq<Option<i64>>,
    dates: Seq<i32>,
    w: int,
    want_greater: bool,
) -> RollingReport {
    if !all_finite(values) || w == 0 {
        RollingReport { value: None, date: 0 }
    } else {
        let bi = best_roll(values, w, w, w - 1, want_greater);
        RollingReport { value: Some(window_sum(values, bi, w) as i64), date: dates[bi] }
    }
}

#[verifier::loop_isolation(false)]
#[verifier::rlimit(80)]
fn best_worth_rolling(
    values: &Vec<Option<i64>>,
    dates: &Vec<i32>,
    months_num: usize,
    want_greater: bool,
) -> (r: Result<RollingReport, Errors>)
    requires
        values@.len() <= MAX_SAMPLES,
        steps_bounded(values@),
        dates_ok(dates@),
    ensures
        r is Err <==> (values@.len() == 0 || months_num > values@.len() || dates@.len()
            != values@.len() || !crate::common::spec_is_sorted(dates@)),
        r matches Err(e) ==> {
            &&& (values@.len() == 0 || months_num > values@.len() || dates@.len()
                != values@.len()) ==> e == Errors::ClErrorCodeInvalidPara
            &&& !(values@.len() == 0 || months_num > values@.len() || dates@.len()
                != values@.len()) ==> e == Errors::ClErrorCodeInvalidOutput
        },
        r matches Ok(rep) ==> rep == spec_rolling_report(
            values@,
            dates@,
            months_num as int,
            want_greater,
        ),
{
    let n = values.len();
    if n == 0 || months_num > n || dates.len() != n {
        return Err(Errors::ClErrorCodeInvalidPara);
    }
    if !crate::common::is_sorted_array(dates.as_slice()) {
        return Err(Errors::ClErrorCodeInvalidOutput);
    }
    let w = months_num;
    let c = match build_log_cumulative(values) {
        None => {
            return Ok(RollingReport { value: None, date: 0 });
        },
        Some(c) => c,
    };
    if w == 0 {
        return Ok(RollingReport { value: None, date: 0 });
    }
    let mut bi: usize = w - 1;
    let mut bv: i64 = c[w] - c[0];
    proof {
        crate::series::lemma_range_sum_split(values@, 1 - 1, w as int);
        assert(bv as int == window_sum(values@, w - 1, w as int));
    }
    let mut i: usize = w;
    while i < n
        invariant
            w <= i <= n,
            w - 1 <= bi < i,
            bv as int == window_sum(values@, bi as int, w as int),
            best_roll(values@, w as int, w as int, w - 1, want_greater) == best_roll(
                values@,
                w as int,
                i as int,
                bi as int,
                want_greater,
            ),
        decreases n - i,
    {
        let cur = c[i + 1] - c[i + 1 - w];
        proof {
            crate::series::lemma_range_sum_split(values@, i + 1 - w, i + 1);
            assert(cur as int == window_sum(values@, i as int, w as int));
        }
        let better = if want_greater {
            cur > bv
        } else {
            cur < bv
        };
        if better {
            bi = i;
            bv = cur;
        }
        i = i + 1;
    }
    Ok(RollingReport { value: Some(bv), date: dates[bi] })
}

/// The best compounded return over every fully populated window of
/// `best_months_num` consecutive samples, with its end date. Any non-finite
/// sample makes the whole call report the sentinel.
pub fn best_rolling_month(
    values: &Vec<Option<i64>>,
    dates: &Vec<i32>,
    best_months_num: usize,
) -> (r: Result<RollingReport, Errors>)
    requires
        values@.len() <= MAX_SAMPLES,
        steps_bounded(values@),
        dates_ok(dates@),
    ensures
        r is Err <==> (values@.len() == 0 || best_months_num > values@.len() || dates@.len()
            != values@.len() || !crate::common::spec_is_sorted(dates@)),
        r matches Ok(rep) ==> rep == spec_rolling_report(
            values@,
            dates@,
            best_months_num as int,
            true,
        ),
        r matches Ok(rep) ==> (!all_finite(values@) ==> rep.value is None),
{
    best_worth_rolling(values, dates, best_months_num, true)
}

/// The worst compounded return over every fully populated window; see
/// `best_rolling_month`.
pub fn worst_rolling_month(
    values: &Vec<Option<i64>>,
    dates: &Vec<i32>,
    worst_months_num: usize,
) -> (r: Result<RollingReport, Errors>)
    requires
        values@.len() <= MAX_SAMPLES,
        steps_bounded(values@),
        dates_ok(dates@),
    ensures
        r is Err <==> (values@.len() == 0 || worst_months_num > values@.len() || dates@.len()
            != values@.len() || !crate::common::spec_is_sorted(dates@)),
        r matches Ok(rep) ==> rep == spec_rolling_report(
            values@,
            dates@,
            worst_months_num as int,
            false,
        ),
        r matches Ok(rep) ==> (!all_finite(values@) ==> rep.value is None),
{
    best_worth_rolling(values, dates, worst_months_num, false)
}

/// Periods in one year of the cadence; the bucketer cuts one bucket per
/// year's worth of periods. Zero for the unknown cadence.
pub open spec fn spec_annual_periods(freq: ClFrequency) -> int {
    match freq {
        ClFrequency::ClFrequencyDaily => 365,
        ClFrequency::ClFrequencyWeekly => 52,
        ClFrequency::ClFrequencyMonthly => 12,
        ClFrequency::ClFrequencyQuarterly => 4,
        ClFrequency::ClFrequencySemiannually => 2,
        ClFrequency::ClFrequencyAnnually => 1,
        ClFrequency::ClFrequencyUnknown => 0,
    }
}

/// Whole periods of the cadence in one year. Daily uses 365, the whole part
/// of the year length the reporting layer scales with.
pub fn annual_period_count(freq: ClFrequency) -> (r: u32)
    requires
        freq != ClFrequency::ClFrequencyUnknown,
    ensures
        r as int == spec_annual_periods(freq),
        1 <= r <= 365,
{
    match freq {
        ClFrequency::ClFrequencyDaily => 365,
        ClFrequency::ClFrequencyWeekly => 52,
        ClFrequency::ClFrequencyMonthly => 12,
        ClFrequency::ClFrequencyQuarterly => 4,
        ClFrequency::ClFrequencySemiannually => 2,
        _ => 1,
    }
}

/// Last day serial a bucket starting on day `d` may cover: the period end
/// one year of periods ahead. When the shifted date leaves the representable
/// calendar the bucket is unbounded.
pub open spec fn bucket_limit(freq: ClFrequency, d: int) -> int {
    match crate::date_util::n_period_serial(
        freq,
        spec_annual_periods(freq) - 1,
        crate::enums::ClDateMoveAction::ClMoveToEnd,
        d,
    ) {
        Some(s) => s,
        None => MAX_SERIAL as int + 1,
    }
}

/// Last sample of the bucket that starts at sample `j`: the bucket always
/// holds its first sample and extends while the next sample's date stays
/// within the limit.
pub open spec fn bucket_end(dates: Seq<i32>, j: int, limit: int) -> int
    decreases dates.len() - j,
{
    if j + 1 >= dates.len() || dates[j + 1] > limit {
        j
    } else {
        bucket_end(dates, j + 1, limit)
    }
}

pub proof fn lemma_bucket_end_range(dates: Seq<i32>, j: int, limit: int)
    requires
        0 <= j < dates.len(),
    ensures
        j <= bucket_end(dates, j, limit) < dates.len(),
    decreases dates.len() - j,
{
    if !(j + 1 >= dates.len() || dates[j + 1] > limit) {
        lemma_bucket_end_range(dates, j + 1, limit);
    }
}

/// The cumulative log series of the sample window `[a, b]`, both inclusive.
pub open spec fn spec_cum_window(values: Seq<Option<i64>>, a: int, b: int) -> Seq<i64> {
    Seq::new((b - a + 2) as nat, |k: int| range_sum(values, a, a + k) as i64)
}

/// The log magnitudes of the per-bucket maximum drawdowns from sample `j`
/// on: consecutive calendar buckets, each searched independently, each
/// non-degenerate result contributing its magnitude and a degenerate bucket
/// contributing nothing.
pub open spec fn spec_bucket_mags(
    values: Seq<Option<i64>>,
    dates: Seq<i32>,
    freq: ClFrequency,
    j: int,
) -> Seq<i64>
    decreases values.len() - j,
    when 0 <= j && dates.len() == values.len()
    via spec_bucket_mags_dec
{
    if j >= values.len() {
        Seq::empty()
    } else {
        let e = bucket_end(dates, j, bucket_limit(freq, dates[j] as int));
        let c = spec_cum_window(values, j, e);
        let dg = spec_max_drawdown(c, 0, e - j + 1);
        let rest = spec_bucket_mags(values, dates, freq, e + 1);
        if dg.0 < dg.1 && dg.2 != 0 {
            seq![dg.2 as i64] + rest
        } else {
            rest
        }
    }
}

#[via_fn]
proof fn spec_bucket_mags_dec(
    values: Seq<Option<i64>>,
    dates: Seq<i32>,
    freq: ClFrequency,
    j: int,
) {
    if j < values.len() {
        lemma_bucket_end_range(dates, j, bucket_limit(freq, dates[j] as int));
    }
}

/// What `average_draw_down` computes before scaling: `None` when any sample
/// is non-finite; the per-bucket magnitudes otherwise, none at all for a
/// single-sample series.
pub open spec fn spec_average_buckets(
    values: Seq<Option<i64>>,
    dates: Seq<i32>,
    freq: ClFrequency,
) -> Option<Seq<i64>> {
    if !all_finite(values) {
        None
    } else if values.len() <= 1 {
        Some(Seq::empty())
    } else {
        Some(spec_bucket_mags(values, dates, freq, 0))
    }
}

/// The Period Bucketer behind the average drawdown: the dated series is cut
/// into consecutive buckets of one year of periods each, the drawdown engine
/// runs once per bucket, and the non-degenerate log magnitudes come back in
/// bucket order. `Ok(None)` is the not-computable sentinel; the caller
/// converts each magnitude to a percent decline, sums, and scales by the
/// annual multiplier over the sample count.
#[verifier::loop_isolation(false)]
#[verifier::rlimit(80)]
pub fn average_draw_down(values: &Vec<Option<i64>>, dates: &Vec<i32>, freq: ClFrequency) -> (r:
    Result<Option<Vec<i64>>, Errors>)
    requires
        values@.len() <= MAX_SAMPLES,
        steps_bounded(values@),
        dates_ok(dates@),
    ensures
        r is Err <==> (values@.len() == 0 || freq == ClFrequency::ClFrequencyUnknown
            || dates@.len() != values@.len() || !crate::common::spec_is_sorted(dates@)),
        r matches Err(e) ==> {
            &&& (values@.len() == 0 || freq == ClFrequency::ClFrequencyUnknown || dates@.len()
                != values@.len()) ==> e == Errors::ClErrorCodeInvalidPara
            &&& !(values@.len() == 0 || freq == ClFrequency::ClFrequencyUnknown || dates@.len()
                != values@.len()) ==> e == Errors::ClErrorCodeUnsortedByDate
        },
        r matches Ok(o) ==> {
            &&& (o is Some <==> all_finite(values@))
            &&& (o matches Some(m) ==> Some(m@) == spec_average_buckets(values@, dates@, freq))
        },
{
    let n = values.len();
    if n == 0 || !crate::enums::is_valid_frequency(freq) || dates.len() != n {
        return Err(Errors::ClErrorCodeInvalidPara);
    }
    if !crate::common::is_sorted_array(dates.as_slice()) {
        return Err(Errors::ClErrorCodeUnsortedByDate);
    }
    if crate::series::first_non_finite(values).is_some() {
        return Ok(None);
    }
    let mut mags: Vec<i64> = Vec::new();
    if n == 1 {
        return Ok(Some(mags));
    }
    let apc = annual_period_count(freq);
    let mut j: usize = 0;
    while j < n
        invariant
            0 <= j <= n,
            apc as int == spec_annual_periods(freq),
            spec_bucket_mags(values@, dates@, freq, 0) == mags@ + spec_bucket_mags(
                values@,
                dates@,
                freq,
                j as int,
            ),
        decreases n - j,
    {
        let ghost glimit = bucket_limit(freq, dates@[j as int] as int);
        let lim: u64 = match crate::date_util::to_n_period_end_int(
            freq,
            (apc - 1) as i32,
            dates[j] as u64,
        ) {
            Some(u) => u,
            None => u64::MAX,
        };
        let mut e = j;
        while e + 1 < n && dates[e + 1] as u64 <= lim
            invariant
                j <= e < n,
                bucket_end(dates@, j as int, glimit) == bucket_end(dates@, e as int, glimit),
            decreases n - e,
        {
            proof {
                assert(dates@[e + 1] <= glimit);
            }
            e = e + 1;
        }
        proof {
            if e + 1 < n {
                assert(!(dates@[e + 1] as u64 <= lim));
                assert(dates@[e + 1] > glimit);
            }
            assert(bucket_end(dates@, e as int, glimit) == e);
        }
        let c = crate::series::cum_range(values, j, e + 1);
        proof {
            assert(c@ =~= spec_cum_window(values@, j as int, e as int));
        }
        let dg = find_max_drawdown(&c, 0, e + 1 - j);
        let ghost old_mags = mags@;
        if dg.start < dg.end && dg.magnitude != 0 {
            mags.push(dg.magnitude);
            proof {
                assert(mags@ =~= old_mags + seq![dg.magnitude]);
            }
        }
        proof {
            let rest = spec_bucket_mags(values@, dates@, freq, e + 1);
            let here = spec_bucket_mags(values@, dates@, freq, j as int);
            if dg.start < dg.end && dg.magnitude != 0 {
                assert(here =~= seq![dg.magnitude] + rest);
                assert(old_mags + here =~= (old_mags + seq![dg.magnitude]) + rest);
            } else {
                assert(here == rest);
            }
        }
        j = e + 1;
    }
    proof {
        assert(spec_bucket_mags(values@, dates@, freq, n as int) =~= Seq::<i64>::empty());
        assert(mags@ + Seq::<i64>::empty() =~= mags@);
    }
    Ok(Some(mags))
}

} // verus!
