use mpt_lib::date_util::from_int;
use mpt_lib::date_util::is_leap_year;
use mpt_lib::date_util::last_day_of_month;
use mpt_lib::date_util::to_int;
use mpt_lib::date_util::to_month_begin;
use mpt_lib::date_util::to_month_end;
use mpt_lib::date_util::to_n_period;
use mpt_lib::date_util::to_period_begin;
use mpt_lib::date_util::to_period_end;
use mpt_lib::date_util::to_quarter_begin;
use mpt_lib::date_util::to_quarter_end;
use mpt_lib::date_util::to_semi_annu_begin;
use mpt_lib::date_util::to_semi_annu_end;
use mpt_lib::date_util::to_week_begin;
use mpt_lib::date_util::to_week_end;
use mpt_lib::date_util::to_year_begin;
use mpt_lib::date_util::to_year_end;
use mpt_lib::date_util::Date;
use mpt_lib::enums::ClDateMoveAction;
use mpt_lib::enums::ClFrequency;

fn ymd(year: i32, month: u32, day: u32) -> Date {
    Date { year, month, day }
}

#[test]
fn should_correct_from_int() {
    let dt = from_int(44743).unwrap();
    assert_eq!(dt.year == 2022 && dt.month == 7 && dt.day == 1, true);
}

#[test]
fn should_correct_to_int() {
    let dt = ymd(2022, 10, 1);
    assert_eq!(to_int(&dt) == 44835, true);
}

#[test]
fn should_to_weekend() {
    let mut dt = ymd(2022, 11, 1);
    to_week_end(&mut dt);
    assert_eq!(dt.year == 2022 && dt.month == 11 && dt.day == 5, true);
}

#[test]
fn should_to_quarterend() {
    let mut dt = ymd(2022, 7, 1);
    to_quarter_end(&mut dt);
    assert_eq!(dt.year == 2022 && dt.month == 9 && dt.day == 30, true);
}

#[test]
fn should_to_monthend() {
    let mut dt = ymd(2022, 11, 1);
    to_month_end(&mut dt);
    assert_eq!(dt.year == 2022 && dt.month == 11 && dt.day == 30, true);
}

#[test]
fn should_to_yearend() {
    let mut dt = ymd(2022, 11, 1);
    to_year_end(&mut dt);
    assert_eq!(dt.year == 2022 && dt.month == 12 && dt.day == 31, true);
}

#[test]
fn should_to_semi_annu_end() {
    let mut dt = ymd(2022, 1, 1);
    to_semi_annu_end(&mut dt);
    assert_eq!(dt.year == 2022 && dt.month == 6 && dt.day == 30, true);
}

#[test]
fn should_to_period_end() {
    let mut dt_week = ymd(2022, 11, 1);
    to_period_end(ClFrequency::ClFrequencyWeekly, &mut dt_week);
    assert_eq!(
        dt_week.year == 2022 && dt_week.month == 11 && dt_week.day == 5,
        true
    );

    let mut dt_month = ymd(2022, 11, 1);
    to_period_end(ClFrequency::ClFrequencyMonthly, &mut dt_month);
    assert_eq!(
        dt_month.year == 2022 && dt_month.month == 11 && dt_month.day == 30,
        true
    );

    let mut dt_quarter = ymd(2022, 7, 1);
    to_period_end(ClFrequency::ClFrequencyQuarterly, &mut dt_quarter);
    assert_eq!(
        dt_quarter.year == 2022 && dt_quarter.month == 9 && dt_quarter.day == 30,
        true
    );

    let mut dt_semi_annu = ymd(2022, 1, 1);
    to_period_end(ClFrequency::ClFrequencySemiannually, &mut dt_semi_annu);
    assert_eq!(
        dt_semi_annu.year == 2022 && dt_semi_annu.month == 6 && dt_semi_annu.day == 30,
        true
    );

    let mut dt_year = ymd(2022, 11, 1);
    to_period_end(ClFrequency::ClFrequencyAnnually, &mut dt_year);
    assert_eq!(
        dt_year.year == 2022 && dt_year.month == 12 && dt_year.day == 31,
        true
    );
}

#[test]
fn should_to_weekbegin() {
    let mut dt = ymd(2022, 11, 1);
    to_week_begin(&mut dt);
    assert_eq!(dt.year == 2022 && dt.month == 10 && dt.day == 30, true);
}

#[test]
fn should_to_monthbegin() {
    let mut dt = ymd(2022, 11, 15);
    to_month_begin(&mut dt);
    assert_eq!(dt.year == 2022 && dt.month == 11 && dt.day == 1, true);
}

#[test]
fn should_to_quarterbegin() {
    let mut dt = ymd(2022, 9, 15);
    to_quarter_begin(&mut dt);
    assert_eq!(dt.year == 2022 && dt.month == 7 && dt.day == 1, true);
}

#[test]
fn should_to_semi_annu_begin() {
    let mut dt = ymd(2022, 11, 1);
    to_semi_annu_begin(&mut dt);
    assert_eq!(dt.year == 2022 && dt.month == 7 && dt.day == 1, true);
}

#[test]
fn should_to_yearbegin() {
    let mut dt = ymd(2022, 11, 1);
    to_year_begin(&mut dt);
    assert_eq!(dt.year == 2022 && dt.month == 1 && dt.day == 1, true);
}

#[test]
fn should_to_period_begin() {
    let mut dt_week = ymd(2022, 11, 1);
    to_period_begin(ClFrequency::ClFrequencyWeekly, &mut dt_week);
    assert_eq!(
        dt_week.year == 2022 && dt_week.month == 10 && dt_week.day == 30,
        true
    );

    let mut dt_month = ymd(2022, 11, 15);
    to_period_begin(ClFrequency::ClFrequencyMonthly, &mut dt_month);
    assert_eq!(
        dt_month.year == 2022 && dt_month.month == 11 && dt_month.day == 1,
        true
    );

    let mut dt_quarter = ymd(2022, 9, 15);
    to_period_begin(ClFrequency::ClFrequencyQuarterly, &mut dt_quarter);
    assert_eq!(
        dt_quarter.year == 2022 && dt_quarter.month == 7 && dt_quarter.day == 1,
        true
    );

    let mut dt_semi_annu = ymd(2022, 11, 1);
    to_period_begin(ClFrequency::ClFrequencySemiannually, &mut dt_semi_annu);
    assert_eq!(
        dt_semi_annu.year == 2022 && dt_semi_annu.month == 7 && dt_semi_annu.day == 1,
        true
    );

    let mut dt_year = ymd(2022, 11, 1);
    to_period_begin(ClFrequency::ClFrequencyAnnually, &mut dt_year);
    assert_eq!(
        dt_year.year == 2022 && dt_year.month == 1 && dt_year.day == 1,
        true
    );
}

#[test]
fn should_handle_exception_to_n_period() {
    let mut dt = ymd(2022, 12, 1);
    let ret = to_n_period(
        ClFrequency::ClFrequencyMonthly,
        -10000000,
        ClDateMoveAction::ClMoveToEnd,
        &mut dt,
    );
    assert_eq!(ret, false)
}

#[test]
fn should_handle_leap_year_top_n_period() {
    let mut dt = ymd(2020, 1, 31);
    to_n_period(
        ClFrequency::ClFrequencyMonthly,
        1,
        ClDateMoveAction::ClNotMove,
        &mut dt,
    );
    assert_eq!(dt.year == 2020 && dt.month == 2 && dt.day == 29, true)
}

#[test]
fn should_to_n_period() {
    let mut dt = ymd(2022, 7, 1);
    let mut ret = to_n_period(
        ClFrequency::ClFrequencyDaily,
        63,
        ClDateMoveAction::ClMoveToEnd,
        &mut dt,
    );
    assert_eq!(
        ret == true && dt.year == 2022 && dt.month == 9 && dt.day == 2,
        true
    );

    dt = ymd(2022, 7, 1);
    ret = to_n_period(
        ClFrequency::ClFrequencyWeekly,
        -3,
        ClDateMoveAction::ClMoveToEnd,
        &mut dt,
    );
    assert_eq!(
        ret == true && dt.year == 2022 && dt.month == 6 && dt.day == 11,
        true
    );

    dt = ymd(2022, 7, 1);
    to_n_period(
        ClFrequency::ClFrequencyWeekly,
        3,
        ClDateMoveAction::ClMoveToBegin,
        &mut dt,
    );
    assert_eq!(dt.year == 2022 && dt.month == 7 && dt.day == 17, true);

    dt = ymd(2022, 7, 1);
    to_n_period(
        ClFrequency::ClFrequencyWeekly,
        3,
        ClDateMoveAction::ClNotMove,
        &mut dt,
    );
    assert_eq!(dt.year == 2022 && dt.month == 7 && dt.day == 22, true);

    dt = ymd(2022, 7, 15);
    to_n_period(
        ClFrequency::ClFrequencyMonthly,
        3,
        ClDateMoveAction::ClMoveToBegin,
        &mut dt,
    );
    assert_eq!(dt.year == 2022 && dt.month == 10 && dt.day == 1, true);

    dt = ymd(2022, 7, 15);
    to_n_period(
        ClFrequency::ClFrequencyMonthly,
        -3,
        ClDateMoveAction::ClMoveToEnd,
        &mut dt,
    );
    assert_eq!(dt.year == 2022 && dt.month == 4 && dt.day == 30, true);

    dt = ymd(2022, 7, 15);
    to_n_period(
        ClFrequency::ClFrequencyMonthly,
        -3,
        ClDateMoveAction::ClNotMove,
        &mut dt,
    );
    assert_eq!(dt.year == 2022 && dt.month == 4 && dt.day == 15, true);

    dt = ymd(2022, 7, 15);
    to_n_period(
        ClFrequency::ClFrequencyQuarterly,
        -3,
        ClDateMoveAction::ClMoveToEnd,
        &mut dt,
    );
    assert_eq!(dt.year == 2021 && dt.month == 12 && dt.day == 31, true);

    dt = ymd(2022, 7, 15);
    to_n_period(
        ClFrequency::ClFrequencyQuarterly,
        1,
        ClDateMoveAction::ClMoveToBegin,
        &mut dt,
    );
    assert_eq!(dt.year == 2022 && dt.month == 10 && dt.day == 1, true);

    dt = ymd(2022, 7, 15);
    to_n_period(
        ClFrequency::ClFrequencyQuarterly,
        -1,
        ClDateMoveAction::ClNotMove,
        &mut dt,
    );
    assert_eq!(dt.year == 2022 && dt.month == 4 && dt.day == 15, true);

    dt = ymd(2022, 7, 15);
    to_n_period(
        ClFrequency::ClFrequencySemiannually,
        -2,
        ClDateMoveAction::ClMoveToBegin,
        &mut dt,
    );
    assert_eq!(dt.year == 2021 && dt.month == 7 && dt.day == 1, true);

    dt = ymd(2020, 7, 15);
    to_n_period(
        ClFrequency::ClFrequencySemiannually,
        2,
        ClDateMoveAction::ClMoveToEnd,
        &mut dt,
    );
    assert_eq!(dt.year == 2021 && dt.month == 12 && dt.day == 31, true);

    dt = ymd(2020, 7, 15);
    to_n_period(
        ClFrequency::ClFrequencySemiannually,
        1,
        ClDateMoveAction::ClNotMove,
        &mut dt,
    );
    assert_eq!(dt.year == 2021 && dt.month == 1 && dt.day == 15, true);

    dt = ymd(2020, 7, 15);
    to_n_period(
        ClFrequency::ClFrequencyAnnually,
        2,
        ClDateMoveAction::ClMoveToEnd,
        &mut dt,
    );
    assert_eq!(dt.year == 2022 && dt.month == 12 && dt.day == 31, true);

    dt = ymd(2020, 7, 15);
    to_n_period(
        ClFrequency::ClFrequencyAnnually,
        -2,
        ClDateMoveAction::ClMoveToBegin,
        &mut dt,
    );
    assert_eq!(dt.year == 2018 && dt.month == 1 && dt.day == 1, true);

    dt = ymd(2020, 7, 15);
    to_n_period(
        ClFrequency::ClFrequencyAnnually,
        -2,
        ClDateMoveAction::ClNotMove,
        &mut dt,
    );
    assert_eq!(dt.year == 2018 && dt.month == 7 && dt.day == 15, true);
}

#[test]
fn should_know_leap_years() {
    assert_eq!(is_leap_year(2000), true);
    assert_eq!(is_leap_year(1900), false);
    assert_eq!(is_leap_year(2020), true);
    assert_eq!(is_leap_year(2021), false);
}

#[test]
fn should_know_month_lengths() {
    assert_eq!(last_day_of_month(2020, 2), 29);
    assert_eq!(last_day_of_month(2021, 2), 28);
    assert_eq!(last_day_of_month(2021, 4), 30);
    assert_eq!(last_day_of_month(2021, 12), 31);
}

#[test]
fn should_round_trip_serials() {
    for n in [2u64, 3, 37711, 37712, 39387, 44743, 44835, 2958465] {
        let d = from_int(n).unwrap();
        assert_eq!(to_int(&d), n);
    }
    assert!(from_int(0).is_none());
    assert!(from_int(1).is_none());
    assert!(from_int(2958466).is_none());
}

#[test]
fn should_detect_weekends() {
    // Serial 2 is Monday 1900-01-01.
    assert_eq!(mpt_lib::date_util::is_weekend(2), false);
    assert_eq!(mpt_lib::date_util::is_weekend(7), true);
    assert_eq!(mpt_lib::date_util::is_weekend(8), true);
    assert_eq!(mpt_lib::date_util::is_weekend(9), false);
}

#[test]
fn should_align_period_begin_serials() {
    // 2003-03-31 is serial 37711; its month begins on serial 37681.
    assert_eq!(
        mpt_lib::date_util::to_period_begin_int(ClFrequency::ClFrequencyMonthly, 37711),
        37681
    );
    // 2003-04-30 is serial 37741; its month begins on 2003-04-01, serial 37712.
    assert_eq!(
        mpt_lib::date_util::to_period_begin_int(ClFrequency::ClFrequencyMonthly, 37741),
        37712
    );
    assert_eq!(
        mpt_lib::date_util::to_period_end_int(ClFrequency::ClFrequencyMonthly, 37712),
        37741
    );
    // Daily leaves the serial alone.
    assert_eq!(
        mpt_lib::date_util::to_period_begin_int(ClFrequency::ClFrequencyDaily, 37711),
        37711
    );
}
