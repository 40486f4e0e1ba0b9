use mpt_lib::analytics::average_draw_down;
use mpt_lib::analytics::best_rolling_month;
use mpt_lib::analytics::longest_up_streak;
use mpt_lib::analytics::max_draw_down;
use mpt_lib::analytics::max_gain;
use mpt_lib::analytics::worst_rolling_month;
use mpt_lib::analytics::annual_period_count;
use mpt_lib::common::is_sorted_array;
use mpt_lib::engine::find_max_drawdown;
use mpt_lib::engine::find_max_gain;
use mpt_lib::enums::is_valid_frequency;
use mpt_lib::enums::ClFrequency;
use mpt_lib::enums::Errors;
use mpt_lib::series::build_log_cumulative;

const SCALE: i64 = 1_000_000_000_000;

fn convert(data: &[f64]) -> Vec<Option<i64>> {
    data.iter()
        .map(|&x| {
            if x.is_finite() {
                Some(((1.0 + x / 100.0).ln() * SCALE as f64).round() as i64)
            } else {
                None
            }
        })
        .collect()
}

#[test]
fn should_correct_sorted_order() {
    assert_eq!(is_sorted_array(&[1, 2, 3, 4, 5, 6]), true);
    assert_eq!(is_sorted_array(&[1, 2, 3, 4, 5, 1]), false);
}

#[test]
fn v_shape_interval() {
    // The v-shaped log series: drawdown over the first two steps, magnitude 1.
    let series: Vec<i64> = vec![0, -SCALE / 2, -SCALE, -3 * SCALE / 10, 8 * SCALE / 10];
    let iv = find_max_drawdown(&series, 0, 4);
    assert_eq!(iv.start, 0);
    assert_eq!(iv.end, 2);
    assert_eq!(iv.magnitude, SCALE);
}

#[test]
fn repeated_search_is_bit_identical() {
    let series: Vec<i64> = vec![0, 5, -3, 9, -14, 2, 2, -1, 20, 6];
    let a = find_max_drawdown(&series, 0, 9);
    let b = find_max_drawdown(&series, 0, 9);
    assert_eq!(a.start, b.start);
    assert_eq!(a.end, b.end);
    assert_eq!(a.magnitude, b.magnitude);
    let c = find_max_gain(&series, 0, 9);
    let d = find_max_gain(&series, 0, 9);
    assert_eq!((c.start, c.end, c.magnitude), (d.start, d.end, d.magnitude));
}

#[test]
fn gain_of_negated_mirrors_drawdown() {
    let series: Vec<i64> = vec![0, 7, -2, 11, -5, 3, -9, 4];
    let negated: Vec<i64> = series.iter().map(|&x| -x).collect();
    let dd = find_max_drawdown(&series, 0, 7);
    let g = find_max_gain(&negated, 0, 7);
    assert_eq!(dd.start, g.start);
    assert_eq!(dd.end, g.end);
    assert_eq!(dd.magnitude, g.magnitude);
}

#[test]
fn monotonic_rising_series_has_no_drawdown() {
    let series: Vec<i64> = vec![0, 3, 7, 12, 20, 31];
    let dd = find_max_drawdown(&series, 0, 5);
    assert_eq!((dd.start, dd.end, dd.magnitude), (0, 0, 0));
    let g = find_max_gain(&series, 0, 5);
    assert_eq!((g.start, g.end, g.magnitude), (0, 5, 31));
}

#[test]
fn single_nan_poisons_every_statistic() {
    let mut data = vec![
        1.5, -2.0, 0.7, 3.1, -4.4, 0.9, -1.1, 2.2, -0.3, 1.8, -2.5, 0.4,
    ];
    let dates: Vec<i32> = (0..12).map(|i| 40000 + 31 * i).collect();
    data[5] = f64::NAN;
    let values = convert(&data);

    let dd = max_draw_down(&values, &dates, ClFrequency::ClFrequencyMonthly).unwrap();
    assert!(dd.magnitude.is_none());
    assert_eq!(
        (dd.peak_date, dd.valley_date, dd.months, dd.recovery_months, dd.recovery_date),
        (0, 0, 0, 0, 0)
    );

    let g = max_gain(&values, &dates, ClFrequency::ClFrequencyMonthly).unwrap();
    assert!(g.magnitude.is_none());

    let best = best_rolling_month(&values, &dates, 3).unwrap();
    assert!(best.value.is_none());
    assert_eq!(best.date, 0);

    let worst = worst_rolling_month(&values, &dates, 3).unwrap();
    assert!(worst.value.is_none());

    let avg = average_draw_down(&values, &dates, ClFrequency::ClFrequencyMonthly).unwrap();
    assert!(avg.is_none());

    assert!(build_log_cumulative(&values).is_none());
}

#[test]
fn streaks_skip_non_finite_samples() {
    // A non-finite sample inside a run neither breaks nor extends it.
    let data = vec![1.0, f64::NAN, 2.0, -1.0];
    let dates = vec![40000, 40031, 40062, 40093];
    let values = convert(&data);
    let rep = longest_up_streak(&values, &dates, ClFrequency::ClFrequencyDaily).unwrap();
    assert!(rep.value.is_some());
    assert_eq!(rep.periods, 3);
    assert_eq!(rep.start_date, 40000);
    assert_eq!(rep.end_date, 40062);
}

#[test]
fn empty_series_is_invalid_parameter() {
    let values: Vec<Option<i64>> = Vec::new();
    let dates: Vec<i32> = Vec::new();
    assert_eq!(
        max_draw_down(&values, &dates, ClFrequency::ClFrequencyMonthly).unwrap_err(),
        Errors::ClErrorCodeInvalidPara
    );
    assert_eq!(
        max_gain(&values, &dates, ClFrequency::ClFrequencyMonthly).unwrap_err(),
        Errors::ClErrorCodeInvalidPara
    );
    assert_eq!(
        best_rolling_month(&values, &dates, 3).unwrap_err(),
        Errors::ClErrorCodeInvalidPara
    );
    assert_eq!(
        average_draw_down(&values, &dates, ClFrequency::ClFrequencyMonthly).unwrap_err(),
        Errors::ClErrorCodeInvalidPara
    );
}

#[test]
fn oversized_window_is_invalid_parameter() {
    let values = convert(&[1.0, 2.0, -1.0]);
    let dates = vec![40000, 40031, 40062];
    assert_eq!(
        best_rolling_month(&values, &dates, 4).unwrap_err(),
        Errors::ClErrorCodeInvalidPara
    );
}

#[test]
fn unsorted_dates_are_refused() {
    let values = convert(&[1.0, 2.0, -1.0, 0.5]);
    let dates = vec![40000, 40062, 40031, 40093];
    assert_eq!(
        best_rolling_month(&values, &dates, 2).unwrap_err(),
        Errors::ClErrorCodeInvalidOutput
    );
    assert_eq!(
        average_draw_down(&values, &dates, ClFrequency::ClFrequencyMonthly).unwrap_err(),
        Errors::ClErrorCodeUnsortedByDate
    );
}

#[test]
fn unknown_frequency_is_invalid_for_bucketing() {
    let values = convert(&[1.0, 2.0, -1.0]);
    let dates = vec![40000, 40031, 40062];
    assert_eq!(
        average_draw_down(&values, &dates, ClFrequency::ClFrequencyUnknown).unwrap_err(),
        Errors::ClErrorCodeInvalidPara
    );
    assert_eq!(is_valid_frequency(ClFrequency::ClFrequencyUnknown), false);
    assert_eq!(is_valid_frequency(ClFrequency::ClFrequencyMonthly), true);
}

#[test]
fn gainless_series_reports_zero_gain() {
    // Strictly falling returns: no gain observed, reported as zero, not NaN.
    let values = convert(&[-1.0, -2.0, -0.5]);
    let dates = vec![40000, 40031, 40062];
    let rep = max_gain(&values, &dates, ClFrequency::ClFrequencyMonthly).unwrap();
    assert_eq!(rep.magnitude, Some(0));
    assert_eq!((rep.start_date, rep.end_date, rep.months), (0, 0, 0));
    // And the mirrored drawdown of a rising series is the sentinel.
    let rising = convert(&[1.0, 2.0, 0.5]);
    let dd = max_draw_down(&rising, &dates, ClFrequency::ClFrequencyMonthly).unwrap();
    assert!(dd.magnitude.is_none());
}

#[test]
fn accumulator_builds_prefix_sums() {
    let values: Vec<Option<i64>> = vec![Some(5), Some(-3), Some(10)];
    let c = build_log_cumulative(&values).unwrap();
    assert_eq!(c, vec![0, 5, 2, 12]);
}

#[test]
fn annual_period_counts_match_cadence() {
    assert_eq!(annual_period_count(ClFrequency::ClFrequencyDaily), 365);
    assert_eq!(annual_period_count(ClFrequency::ClFrequencyWeekly), 52);
    assert_eq!(annual_period_count(ClFrequency::ClFrequencyMonthly), 12);
    assert_eq!(annual_period_count(ClFrequency::ClFrequencyQuarterly), 4);
    assert_eq!(annual_period_count(ClFrequency::ClFrequencySemiannually), 2);
    assert_eq!(annual_period_count(ClFrequency::ClFrequencyAnnually), 1);
}

#[test]
fn recovery_is_labelled_after_the_trough() {
    // +10%, -20%, +30%: the drawdown is the -20% month and the next sample
    // climbs back above the peak, so the loss recovers in one period.
    let values = convert(&[10.0, -20.0, 30.0]);
    // First-of-month serials for 2022-01, 2022-02, 2022-03.
    let dates = vec![44562, 44593, 44621];
    let rep = max_draw_down(&values, &dates, ClFrequency::ClFrequencyMonthly).unwrap();
    let mag = rep.magnitude.unwrap();
    let pct = ((-(mag as f64) / SCALE as f64).exp() - 1.0) * 100.0;
    assert!((pct - -20.0).abs() < 1e-6);
    assert_eq!(rep.peak_date, 44593);
    assert_eq!(rep.valley_date, 44593);
    assert_eq!(rep.months, 1);
    assert_eq!(rep.recovery_months, 1);
    assert_eq!(rep.recovery_date, 44621);
}

#[test]
fn buckets_split_after_a_year_of_periods() {
    // Thirteen monthly samples: the first twelve form one calendar bucket,
    // the trailing month its own short bucket with its own drawdown.
    let mut data = vec![5.0, -10.0, 8.0];
    data.extend(std::iter::repeat(0.0).take(9));
    data.push(-5.0);
    let dates = vec![
        44562, 44593, 44621, 44652, 44682, 44713, 44743, 44774, 44805, 44835, 44866, 44896,
        44927,
    ];
    let values = convert(&data);
    let mags = average_draw_down(&values, &dates, ClFrequency::ClFrequencyMonthly)
        .unwrap()
        .unwrap();
    assert_eq!(mags.len(), 2);
    let pct0 = ((-(mags[0] as f64) / SCALE as f64).exp() - 1.0) * 100.0;
    let pct1 = ((-(mags[1] as f64) / SCALE as f64).exp() - 1.0) * 100.0;
    assert!((pct0 - -10.0).abs() < 1e-6);
    assert!((pct1 - -5.0).abs() < 1e-6);
}

#[test]
fn leading_zero_is_not_a_peak() {
    // The synthetic leading zero must not count as the peak: the drawdown of
    // a series that first rises then falls back starts at the later peak.
    let series: Vec<i64> = vec![0, 10, 20, 5];
    let iv = find_max_drawdown(&series, 0, 3);
    assert_eq!((iv.start, iv.end, iv.magnitude), (2, 3, 15));
}

#[test]
fn flat_trough_plateau_terminates_with_the_outer_candidate() {
    // A flat minimum plateau followed by a choppy rise keeps the interior
    // zone non-empty at every level; the recursion budget still bounds the
    // search and the outer decline into the plateau wins.
    let series: Vec<i64> = vec![0, -SCALE, -2 * SCALE, -2 * SCALE, SCALE, SCALE / 2, 2 * SCALE];
    let iv = find_max_drawdown(&series, 0, 6);
    assert_eq!((iv.start, iv.end, iv.magnitude), (0, 2, 2 * SCALE));
}

#[test]
fn earliest_index_wins_ties() {
    // Two equal peaks: the earlier one is chosen.
    let series: Vec<i64> = vec![0, 10, 4, 10, 4];
    let iv = find_max_drawdown(&series, 0, 4);
    assert_eq!(iv.start, 1);
    assert_eq!(iv.magnitude, 6);
}
