//! Calendar arithmetic on day serials, where day 2 is 1900-01-01 (the classic
//! spreadsheet epoch). Dates are year/month/day triples of the proleptic
//! Gregorian calendar; chrono performs the two conversions between a serial
//! and its calendar triple, and everything built on top — period begins and
//! ends, whole-period shifts, weekday arithmetic — is verified integer logic
//! against the closed-form day-number function `serial_of_ymd`.

use vstd::arithmetic::div_mod::lemma_fundamental_div_mod;
use vstd::arithmetic::div_mod::lemma_fundamental_div_mod_converse;
use vstd::prelude::*;

use chrono::Datelike;

use crate::enums::ClDateMoveAction;
use crate::enums::ClFrequency;

verus! {

/// Smallest representable day serial: 1900-01-01.
pub const MIN_SERIAL: u64 = 2;

/// Largest representable day serial: 9999-12-31.
pub const MAX_SERIAL: u64 = 2958465;

pub const MIN_YEAR: i32 = 1900;

pub const MAX_YEAR: i32 = 9999;

/// Gregorian leap-year rule.
pub open spec fn is_leap(y: int) -> bool {
    y % 4 == 0 && (y % 100 != 0 || y % 400 == 0)
}

/// Number of days in month `m` of year `y` (months count from 1).
pub open spec fn days_in_month(y: int, m: int) -> int {
    if m == 2 {
        if is_leap(y) {
            29
        } else {
            28
        }
    } else if m == 4 || m == 6 || m == 9 || m == 11 {
        30
    } else {
        31
    }
}

/// Days of year `y` that lie before the first of month `m`.
pub open spec fn days_before_month(y: int, m: int) -> int {
    let leap_add: int = if is_leap(y) {
        1
    } else {
        0
    };
    if m <= 1 {
        0
    } else if m == 2 {
        31
    } else if m == 3 {
        59 + leap_add
    } else if m == 4 {
        90 + leap_add
    } else if m == 5 {
        120 + leap_add
    } else if m == 6 {
        151 + leap_add
    } else if m == 7 {
        181 + leap_add
    } else if m == 8 {
        212 + leap_add
    } else if m == 9 {
        243 + leap_add
    } else if m == 10 {
        273 + leap_add
    } else if m == 11 {
        304 + leap_add
    } else {
        334 + leap_add
    }
}

/// Number of leap years strictly before year `y` (counted from year 1).
pub open spec fn leaps_before(y: int) -> int {
    (y - 1) / 4 - (y - 1) / 100 + (y - 1) / 400
}

/// Day serial of a calendar date: 2 + days since 1900-01-01.
/// `leaps_before(1900) == 460`.
pub open spec fn serial_of_ymd(y: int, m: int, d: int) -> int {
    2 + 365 * (y - 1900) + (leaps_before(y) - 460) + days_before_month(y, m) + (d - 1)
}

/// A calendar date. The library works on this plain triple; the outside
/// calendar library is consulted only to map a day serial to its triple and
/// back.
#[derive(PartialEq, Eq, Structural, Debug, Clone, Copy)]
pub struct Date {
    pub year: i32,
    pub month: u32,
    pub day: u32,
}

impl Date {
    /// A well-formed date within the representable range.
    pub open spec fn valid(self) -> bool {
        &&& MIN_YEAR <= self.year <= MAX_YEAR
        &&& 1 <= self.month <= 12
        &&& 1 <= self.day <= days_in_month(self.year as int, self.month as int)
    }

    /// The date's day serial.
    pub open spec fn serial(self) -> int {
        serial_of_ymd(self.year as int, self.month as int, self.day as int)
    }
}

/// Gregorian leap-year test.
pub fn is_leap_year(year: i32) -> (r: bool)
    ensures
        r == is_leap(year as int),
{
    proof {
        lemma_divisibility_agrees(year as int, 4);
        lemma_divisibility_agrees(year as int, 100);
        lemma_divisibility_agrees(year as int, 400);
    }
    year % 4 == 0 && (year % 100 != 0 || year % 400 == 0)
}

/// A number is divisible by a positive constant exactly when the Euclidean
/// remainder is zero; this lets the truncating machine remainder decide
/// divisibility for negative years too.
proof fn lemma_divisibility_agrees(x: int, d: int)
    requires
        d > 0,
    ensures
        (x % d == 0) <==> (exists|q: int| #[trigger] (q * d) == x),
{
    if x % d == 0 {
        lemma_fundamental_div_mod(x, d);
        assert((x / d) * d == x) by (nonlinear_arith)
            requires
                x == d * (x / d) + x % d,
                x % d == 0,
        ;
    }
    if exists|q: int| #[trigger] (q * d) == x {
        let q = choose|q: int| #[trigger] (q * d) == x;
        lemma_fundamental_div_mod_converse(x, d, q, 0);
    }
}

/// Last day of the month, 28 to 31.
pub fn last_day_of_month(year: i32, month: u32) -> (r: u32)
    requires
        1 <= month <= 12,
    ensures
        r as int == days_in_month(year as int, month as int),
{
    match month {
        1 | 3 | 5 | 7 | 8 | 10 | 12 => 31,
        4 | 6 | 9 | 11 => 30,
        _ => {
            if is_leap_year(year) {
                29
            } else {
                28
            }
        },
    }
}

/// Raising a dividend by one raises the quotient exactly when the new
/// dividend is a multiple of the (positive) divisor.
proof fn lemma_div_step(y: int, d: int)
    requires
        d > 0,
    ensures
        y / d - (y - 1) / d == (if y % d == 0 {
            1int
        } else {
            0int
        }),
{
    let q = (y - 1) / d;
    let r = (y - 1) % d;
    lemma_fundamental_div_mod(y - 1, d);
    assert(0 <= r < d) by {
        vstd::arithmetic::div_mod::lemma_mod_division_less_than_divisor(y - 1, d);
    }
    if r + 1 < d {
        lemma_fundamental_div_mod_converse(y, d, q, r + 1);
    } else {
        assert(y == d * (q + 1) + 0) by (nonlinear_arith)
            requires
                y - 1 == d * q + r,
                r + 1 == d,
        ;
        lemma_fundamental_div_mod_converse(y, d, q + 1, 0);
    }
}

/// A multiple of `a * k` is a multiple of `a`.
proof fn lemma_divides_factor(y: int, a: int, k: int)
    requires
        a > 0,
        k > 0,
        y % (a * k) == 0,
    ensures
        y % a == 0,
{
    let q = y / (a * k);
    assert(a * k > 0) by (nonlinear_arith)
        requires
            a > 0,
            k > 0,
    ;
    lemma_fundamental_div_mod(y, a * k);
    assert(y == a * (k * q)) by (nonlinear_arith)
        requires
            y == (a * k) * q,
    ;
    lemma_fundamental_div_mod_converse(y, a, k * q, 0);
}

/// The leap-year count rises across year `y` exactly when `y` is a leap year.
proof fn lemma_leaps_step(y: int)
    ensures
        leaps_before(y + 1) == leaps_before(y) + (if is_leap(y) {
            1int
        } else {
            0int
        }),
{
    lemma_div_step(y, 4);
    lemma_div_step(y, 100);
    lemma_div_step(y, 400);
    if y % 400 == 0 {
        lemma_divides_factor(y, 100, 4);
        lemma_divides_factor(y, 4, 100);
    }
    if y % 100 == 0 {
        lemma_divides_factor(y, 4, 25);
    }
}

/// Between two years the leap count grows by at least zero and at most one
/// per year.
proof fn lemma_leaps_mono(a: int, b: int)
    requires
        a <= b,
    ensures
        0 <= leaps_before(b) - leaps_before(a) <= b - a,
    decreases b - a,
{
    if a < b {
        lemma_leaps_mono(a, b - 1);
        lemma_leaps_step(b - 1);
    }
}

/// A leap year strictly before `b` contributes a full extra day to the count.
proof fn lemma_leaps_gap(a: int, b: int)
    requires
        a < b,
        is_leap(a),
    ensures
        leaps_before(b) >= leaps_before(a) + 1,
{
    lemma_leaps_step(a);
    lemma_leaps_mono(a + 1, b);
}

/// The day-of-year offset of a valid month/day pair stays within the year.
proof fn lemma_doy_bounds(y: int, m: int, d: int)
    requires
        1 <= m <= 12,
        1 <= d <= days_in_month(y, m),
    ensures
        0 <= days_before_month(y, m) + d - 1 <= 364 + (if is_leap(y) {
            1int
        } else {
            0int
        }),
{
}

/// Consecutive months partition the year.
proof fn lemma_dbm_next(y: int, m: int)
    requires
        1 <= m <= 11,
    ensures
        days_before_month(y, m + 1) == days_before_month(y, m) + days_in_month(y, m),
{
}

/// A later month begins after the whole of an earlier month.
proof fn lemma_dbm_mono(y: int, m1: int, m2: int)
    requires
        1 <= m1 < m2 <= 12,
    ensures
        days_before_month(y, m2) >= days_before_month(y, m1) + days_in_month(y, m1),
    decreases m2 - m1,
{
    lemma_dbm_next(y, m1);
    if m1 + 1 < m2 {
        lemma_dbm_mono(y, m1 + 1, m2);
    }
}

/// Two valid dates with the same day serial are the same date.
pub proof fn lemma_serial_injective(d1: Date, d2: Date)
    requires
        d1.valid(),
        d2.valid(),
        d1.serial() == d2.serial(),
    ensures
        d1 == d2,
{
    let y1 = d1.year as int;
    let y2 = d2.year as int;
    let m1 = d1.month as int;
    let m2 = d2.month as int;
    let doy1 = days_before_month(y1, m1) + d1.day - 1;
    let doy2 = days_before_month(y2, m2) + d2.day - 1;
    lemma_doy_bounds(y1, m1, d1.day as int);
    lemma_doy_bounds(y2, m2, d2.day as int);
    if y1 < y2 {
        lemma_leaps_mono(y1 + 1, y2);
        if is_leap(y1) {
            lemma_leaps_gap(y1, y2);
        } else {
            lemma_leaps_mono(y1, y2);
        }
        assert(false);
    } else if y2 < y1 {
        lemma_leaps_mono(y2 + 1, y1);
        if is_leap(y2) {
            lemma_leaps_gap(y2, y1);
        } else {
            lemma_leaps_mono(y2, y1);
        }
        assert(false);
    } else {
        if m1 < m2 {
            lemma_dbm_mono(y1, m1, m2);
            assert(false);
        } else if m2 < m1 {
            lemma_dbm_mono(y1, m2, m1);
            assert(false);
        }
    }
}

/// Every valid date's serial lies in the representable range.
pub proof fn lemma_serial_range(d: Date)
    requires
        d.valid(),
    ensures
        MIN_SERIAL as int <= d.serial() <= MAX_SERIAL as int,
{
    let y = d.year as int;
    let m = d.month as int;
    lemma_doy_bounds(y, m, d.day as int);
    lemma_leaps_mono(1900, y);
    lemma_leaps_mono(y, 9999);
    if is_leap(y) && y < 9999 {
        lemma_leaps_gap(y, 9999);
    }
}

/// Every serial in the representable range is the serial of some valid date.
pub proof fn lemma_serial_surjective(n: int)
    requires
        MIN_SERIAL as int <= n <= MAX_SERIAL as int,
    ensures
        exists|d: Date| d.valid() && d.serial() == n,
    decreases n,
{
    if n == MIN_SERIAL as int {
        let base = Date { year: 1900, month: 1, day: 1 };
        assert(base.valid() && base.serial() == n);
    } else {
        lemma_serial_surjective(n - 1);
        let d = choose|d: Date| d.valid() && d.serial() == n - 1;
        let y = d.year as int;
        let m = d.month as int;
        if (d.day as int) < days_in_month(y, m) {
            let s = Date { year: d.year, month: d.month, day: (d.day + 1) as u32 };
            assert(s.valid() && s.serial() == n);
        } else if d.month < 12 {
            lemma_dbm_next(y, m);
            let s = Date { year: d.year, month: (d.month + 1) as u32, day: 1 };
            assert(s.valid() && s.serial() == n);
        } else {
            lemma_leaps_step(y);
            let s = Date { year: (d.year + 1) as i32, month: 1, day: 1 };
            if d.year == MAX_YEAR {
                lemma_serial_range(d);
                assert(false);
            }
            assert(s.valid() && s.serial() == n);
        }
    }
}

/// The calendar triple that carries a given day serial. For serials in the
/// representable range this is uniquely determined (`lemma_serial_injective`).
pub open spec fn date_of_serial(n: int) -> Date {
    choose|d: Date| d.valid() && d.serial() == n
}

/// In range, `date_of_serial` yields the one valid date with that serial.
pub proof fn lemma_date_of_serial(n: int)
    requires
        MIN_SERIAL as int <= n <= MAX_SERIAL as int,
    ensures
        date_of_serial(n).valid(),
        date_of_serial(n).serial() == n,
{
    lemma_serial_surjective(n);
    let w = choose|d: Date| d.valid() && d.serial() == n;
    assert(date_of_serial(n) == w);
}

/// A valid date is recovered from its own serial.
pub proof fn lemma_date_of_serial_inv(d: Date)
    requires
        d.valid(),
    ensures
        date_of_serial(d.serial()) == d,
{
    lemma_serial_range(d);
    lemma_date_of_serial(d.serial());
    lemma_serial_injective(date_of_serial(d.serial()), d);
}

/// Relies on chrono's `NaiveDate::checked_add_days` and the `Datelike`
/// accessors: stepping 1900-01-01 forward by `n - 2` days in the proleptic
/// Gregorian calendar yields the unique calendar triple whose day number
/// (`serial_of_ymd`) equals `n`.
#[verifier::external_body]
fn ymd_from_serial(n: u64) -> (r: Date)
    requires
        MIN_SERIAL <= n <= MAX_SERIAL,
    ensures
        r.valid(),
        r.serial() == n as int,
{
    let base = chrono::NaiveDate::from_ymd_opt(1900, 1, 1).unwrap();
    let d = base.checked_add_days(chrono::Days::new(n - 2)).unwrap();
    Date { year: d.year(), month: d.month(), day: d.day() }
}

/// Relies on chrono's `NaiveDate::from_ymd_opt` and date subtraction: the
/// signed day distance from 1900-01-01, plus 2, is the day number
/// (`serial_of_ymd`) of the triple.
#[verifier::external_body]
fn serial_from_ymd(date: &Date) -> (r: u64)
    requires
        date.valid(),
    ensures
        r as int == date.serial(),
{
    let base = chrono::NaiveDate::from_ymd_opt(1900, 1, 1).unwrap();
    let d = chrono::NaiveDate::from_ymd_opt(date.year, date.month, date.day).unwrap();
    (d - base).num_days() as u64 + 2
}

/// Calendar triple of a day serial `n`, written 1900-01-01 for serial 2.
pub fn from_int(n_date: u64) -> (r: Option<Date>)
    ensures
        r is Some <==> MIN_SERIAL <= n_date <= MAX_SERIAL,
        r matches Some(d) ==> d.valid() && d.serial() == n_date as int,
{
    if MIN_SERIAL <= n_date && n_date <= MAX_SERIAL {
        Some(ymd_from_serial(n_date))
    } else {
        None
    }
}

/// Day serial of a calendar triple.
pub fn to_int(date: &Date) -> (r: u64)
    requires
        date.valid(),
    ensures
        r as int == date.serial(),
{
    serial_from_ymd(date)
}

/// First month of the quarter containing month `m`.
pub open spec fn quarter_begin_month(m: int) -> int {
    ((m + 2) / 3) * 3 - 2
}

/// Last month of the quarter containing month `m`.
pub open spec fn quarter_end_month(m: int) -> int {
    ((m + 2) / 3) * 3
}

/// First month of the half-year containing month `m`.
pub open spec fn semi_begin_month(m: int) -> int {
    ((m + 5) / 6) * 6 - 5
}

/// Last month of the half-year containing month `m`.
pub open spec fn semi_end_month(m: int) -> int {
    ((m + 5) / 6) * 6
}

/// Serial of the Sunday at or before serial `n` (serial 1 is a Sunday).
pub open spec fn week_begin_serial(n: int) -> int {
    n - ((n - 1) % 7)
}

/// Serial of the Saturday at or after serial `n`.
pub open spec fn week_end_serial(n: int) -> int {
    n + 6 - ((n - 1) % 7)
}

/// Saturday or Sunday.
pub open spec fn is_weekend_serial(n: int) -> bool {
    (n - 1) % 7 == 0 || (n - 1) % 7 == 6
}

/// The date moved to the first day of its period under cadence `freq`;
/// daily and unknown cadences leave the date alone.
pub open spec fn period_begin_date(freq: ClFrequency, d: Date) -> Date {
    match freq {
        ClFrequency::ClFrequencyMonthly => Date { year: d.year, month: d.month, day: 1 },
        ClFrequency::ClFrequencyQuarterly => Date {
            year: d.year,
            month: quarter_begin_month(d.month as int) as u32,
            day: 1,
        },
        ClFrequency::ClFrequencySemiannually => Date {
            year: d.year,
            month: semi_begin_month(d.month as int) as u32,
            day: 1,
        },
        ClFrequency::ClFrequencyAnnually => Date { year: d.year, month: 1, day: 1 },
        _ => d,
    }
}

/// The date moved to the last day of its period under cadence `freq`.
pub open spec fn period_end_date(freq: ClFrequency, d: Date) -> Date {
    match freq {
        ClFrequency::ClFrequencyMonthly => Date {
            year: d.year,
            month: d.month,
            day: days_in_month(d.year as int, d.month as int) as u32,
        },
        ClFrequency::ClFrequencyQuarterly => Date {
            year: d.year,
            month: quarter_end_month(d.month as int) as u32,
            day: days_in_month(d.year as int, quarter_end_month(d.month as int)) as u32,
        },
        ClFrequency::ClFrequencySemiannually => Date {
            year: d.year,
            month: semi_end_month(d.month as int) as u32,
            day: days_in_month(d.year as int, semi_end_month(d.month as int)) as u32,
        },
        ClFrequency::ClFrequencyAnnually => Date { year: d.year, month: 12, day: 31 },
        _ => d,
    }
}

/// Serial of the first day of the period containing serial `n`; weeks are
/// handled directly on the serial, the other cadences through the calendar
/// triple of `n`.
pub open spec fn period_begin_serial(freq: ClFrequency, n: int) -> int {
    if freq == ClFrequency::ClFrequencyWeekly {
        week_begin_serial(n)
    } else {
        period_begin_date(freq, date_of_serial(n)).serial()
    }
}

/// Serial of the last day of the period containing serial `n`.
pub open spec fn period_end_serial(freq: ClFrequency, n: int) -> int {
    if freq == ClFrequency::ClFrequencyWeekly {
        week_end_serial(n)
    } else {
        period_end_date(freq, date_of_serial(n)).serial()
    }
}

/// Saturday/Sunday test on a day serial.
pub fn is_weekend(n_date: u64) -> (r: bool)
    requires
        n_date >= MIN_SERIAL,
    ensures
        r == is_weekend_serial(n_date as int),
{
    let w = (n_date - 1) % 7;
    w == 0 || w == 6
}

/// Move the date back to the Sunday that starts its week.
pub fn to_week_begin(date: &mut Date)
    requires
        old(date).valid(),
        week_begin_serial(old(date).serial()) >= MIN_SERIAL as int,
    ensures
        final(date).valid(),
        final(date).serial() == week_begin_serial(old(date).serial()),
{
    proof {
        lemma_serial_range(*date);
    }
    let s = serial_from_ymd(date);
    let b = s - (s - 1) % 7;
    *date = ymd_from_serial(b);
}

/// Move the date forward to the Saturday that ends its week.
pub fn to_week_end(date: &mut Date)
    requires
        old(date).valid(),
        week_end_serial(old(date).serial()) <= MAX_SERIAL as int,
    ensures
        final(date).valid(),
        final(date).serial() == week_end_serial(old(date).serial()),
{
    proof {
        lemma_serial_range(*date);
    }
    let s = serial_from_ymd(date);
    let e = s + 6 - (s - 1) % 7;
    *date = ymd_from_serial(e);
}

/// Move the date to the first day of its month.
pub fn to_month_begin(date: &mut Date)
    requires
        old(date).valid(),
    ensures
        *final(date) == period_begin_date(ClFrequency::ClFrequencyMonthly, *old(date)),
        final(date).valid(),
{
    date.day = 1;
}

/// Move the date to the last day of its month.
pub fn to_month_end(date: &mut Date)
    requires
        old(date).valid(),
    ensures
        *final(date) == period_end_date(ClFrequency::ClFrequencyMonthly, *old(date)),
        final(date).valid(),
{
    date.day = last_day_of_month(date.year, date.month);
}

/// Move the date to the first day of its quarter.
pub fn to_quarter_begin(date: &mut Date)
    requires
        old(date).valid(),
    ensures
        *final(date) == period_begin_date(ClFrequency::ClFrequencyQuarterly, *old(date)),
        final(date).valid(),
{
    let month = (date.month + 2) / 3 * 3 - 2;
    date.month = month;
    date.day = 1;
}

/// Move the date to the last day of its quarter.
pub fn to_quarter_end(date: &mut Date)
    requires
        old(date).valid(),
    ensures
        *final(date) == period_end_date(ClFrequency::ClFrequencyQuarterly, *old(date)),
        final(date).valid(),
{
    let month = (date.month + 2) / 3 * 3;
    date.month = month;
    date.day = last_day_of_month(date.year, month);
}

/// Move the date to the first day of its half-year.
pub fn to_semi_annu_begin(date: &mut Date)
    requires
        old(date).valid(),
    ensures
        *final(date) == period_begin_date(ClFrequency::ClFrequencySemiannually, *old(date)),
        final(date).valid(),
{
    let month = (date.month + 5) / 6 * 6 - 5;
    date.month = month;
    date.day = 1;
}

/// Move the date to the last day of its half-year.
pub fn to_semi_annu_end(date: &mut Date)
    requires
        old(date).valid(),
    ensures
        *final(date) == period_end_date(ClFrequency::ClFrequencySemiannually, *old(date)),
        final(date).valid(),
{
    let month = (date.month + 5) / 6 * 6;
    date.month = month;
    date.day = last_day_of_month(date.year, month);
}

/// Move the date to January the first of its year.
pub fn to_year_begin(date: &mut Date)
    requires
        old(date).valid(),
    ensures
        *final(date) == period_begin_date(ClFrequency::ClFrequencyAnnually, *old(date)),
        final(date).valid(),
{
    date.month = 1;
    date.day = 1;
}

/// Move the date to December the thirty-first of its year.
pub fn to_year_end(date: &mut Date)
    requires
        old(date).valid(),
    ensures
        *final(date) == period_end_date(ClFrequency::ClFrequencyAnnually, *old(date)),
        final(date).valid(),
{
    date.month = 12;
    date.day = 31;
}

/// Move the date to the first day of its period under `freq`; daily and
/// unknown cadences leave it unchanged.
pub fn to_period_begin(freq: ClFrequency, date: &mut Date)
    requires
        old(date).valid(),
        freq == ClFrequency::ClFrequencyWeekly ==> week_begin_serial(old(date).serial())
            >= MIN_SERIAL as int,
    ensures
        final(date).valid(),
        freq == ClFrequency::ClFrequencyWeekly ==> final(date).serial() == week_begin_serial(
            old(date).serial(),
        ),
        freq != ClFrequency::ClFrequencyWeekly ==> *final(date) == period_begin_date(
            freq,
            *old(date),
        ),
{
    match freq {
        ClFrequency::ClFrequencyWeekly => to_week_begin(date),
        ClFrequency::ClFrequencyMonthly => to_month_begin(date),
        ClFrequency::ClFrequencyQuarterly => to_quarter_begin(date),
        ClFrequency::ClFrequencySemiannually => to_semi_annu_begin(date),
        ClFrequency::ClFrequencyAnnually => to_year_begin(date),
        _ => (),
    }
}

/// Move the date to the last day of its period under `freq`.
pub fn to_period_end(freq: ClFrequency, date: &mut Date)
    requires
        old(date).valid(),
        freq == ClFrequency::ClFrequencyWeekly ==> week_end_serial(old(date).serial())
            <= MAX_SERIAL as int,
    ensures
        final(date).valid(),
        freq == ClFrequency::ClFrequencyWeekly ==> final(date).serial() == week_end_serial(
            old(date).serial(),
        ),
        freq != ClFrequency::ClFrequencyWeekly ==> *final(date) == period_end_date(
            freq,
            *old(date),
        ),
{
    match freq {
        ClFrequency::ClFrequencyWeekly => to_week_end(date),
        ClFrequency::ClFrequencyMonthly => to_month_end(date),
        ClFrequency::ClFrequencyQuarterly => to_quarter_end(date),
        ClFrequency::ClFrequencySemiannually => to_semi_annu_end(date),
        ClFrequency::ClFrequencyAnnually => to_year_end(date),
        _ => (),
    }
}

/// Serial of the first day of the period containing serial `n_date`.
pub fn to_period_begin_int(freq: ClFrequency, n_date: u64) -> (r: u64)
    requires
        MIN_SERIAL <= n_date <= MAX_SERIAL,
    ensures
        r as int == period_begin_serial(freq, n_date as int),
        1 <= r <= MAX_SERIAL,
{
    if freq == ClFrequency::ClFrequencyWeekly {
        proof {
            vstd::arithmetic::div_mod::lemma_mod_division_less_than_divisor(
                n_date as int - 1,
                7,
            );
            vstd::arithmetic::div_mod::lemma_mod_decreases((n_date - 1) as nat, 7);
        }
        n_date - (n_date - 1) % 7
    } else {
        let mut d = ymd_from_serial(n_date);
        proof {
            lemma_date_of_serial_inv(d);
        }
        to_period_begin(freq, &mut d);
        proof {
            lemma_serial_range(d);
        }
        serial_from_ymd(&d)
    }
}

/// Serial of the last day of the period containing serial `n_date`.
pub fn to_period_end_int(freq: ClFrequency, n_date: u64) -> (r: u64)
    requires
        MIN_SERIAL <= n_date <= MAX_SERIAL,
    ensures
        r as int == period_end_serial(freq, n_date as int),
        2 <= r <= MAX_SERIAL + 6,
{
    if freq == ClFrequency::ClFrequencyWeekly {
        proof {
            vstd::arithmetic::div_mod::lemma_mod_division_less_than_divisor(
                n_date as int - 1,
                7,
            );
            vstd::arithmetic::div_mod::lemma_mod_decreases((n_date - 1) as nat, 7);
        }
        n_date + 6 - (n_date - 1) % 7
    } else {
        let mut d = ymd_from_serial(n_date);
        proof {
            lemma_date_of_serial_inv(d);
        }
        to_period_end(freq, &mut d);
        proof {
            lemma_serial_range(d);
        }
        serial_from_ymd(&d)
    }
}

/// Months in one period of the cadence; zero for daily, weekly and unknown,
/// which never shift by months.
pub open spec fn freq_month_step(freq: ClFrequency) -> int {
    match freq {
        ClFrequency::ClFrequencyMonthly => 1,
        ClFrequency::ClFrequencyQuarterly => 3,
        ClFrequency::ClFrequencySemiannually => 6,
        ClFrequency::ClFrequencyAnnually => 12,
        _ => 0,
    }
}

/// The date shifted by `k` whole months, with the day clamped to the length
/// of the target month.
pub open spec fn shifted_months(d: Date, k: int) -> Date {
    let total = d.year * 12 + (d.month - 1) + k;
    let y2 = total / 12;
    let m2 = total % 12 + 1;
    let dd = if d.day as int > days_in_month(y2, m2) {
        days_in_month(y2, m2)
    } else {
        d.day as int
    };
    Date { year: y2 as i32, month: m2 as u32, day: dd as u32 }
}

/// Whether a `k`-month shift keeps the date within the representable years.
pub open spec fn months_in_range(d: Date, k: int) -> bool {
    22800 <= d.year * 12 + (d.month - 1) + k <= 119999
}

/// Week-cadence serial adjustment for a date-move action.
pub open spec fn weekly_adjust(t: int, action: ClDateMoveAction) -> int {
    match action {
        ClDateMoveAction::ClMoveToEnd => week_end_serial(t),
        ClDateMoveAction::ClMoveToBegin => week_begin_serial(t),
        ClDateMoveAction::ClNotMove => t,
    }
}

/// Month-cadence date adjustment for a date-move action.
pub open spec fn month_action_date(freq: ClFrequency, action: ClDateMoveAction, d: Date) -> Date {
    match action {
        ClDateMoveAction::ClMoveToEnd => period_end_date(freq, d),
        ClDateMoveAction::ClMoveToBegin => period_begin_date(freq, d),
        ClDateMoveAction::ClNotMove => d,
    }
}

/// Shift the date by `n` whole periods of cadence `freq` (negative `n` moves
/// backward), then apply the date-move action. Returns false, leaving the
/// date unchanged, when the target would leave the representable calendar.
pub fn to_n_period(freq: ClFrequency, n: i32, action: ClDateMoveAction, date: &mut Date) -> (r:
    bool)
    requires
        old(date).valid(),
    ensures
        final(date).valid(),
        !r ==> *final(date) == *old(date),
        freq == ClFrequency::ClFrequencyUnknown ==> r && *final(date) == *old(date),
        freq == ClFrequency::ClFrequencyDaily ==> {
            &&& r == (MIN_SERIAL as int <= old(date).serial() + n <= MAX_SERIAL as int)
            &&& (r ==> final(date).serial() == old(date).serial() + n)
        },
        freq == ClFrequency::ClFrequencyWeekly ==> {
            &&& r == (old(date).serial() + 7 * n >= MIN_SERIAL as int && MIN_SERIAL as int
                <= weekly_adjust(old(date).serial() + 7 * n, action) <= MAX_SERIAL as int)
            &&& (r ==> final(date).serial() == weekly_adjust(old(date).serial() + 7 * n, action))
        },
        freq_month_step(freq) > 0 ==> {
            &&& r == months_in_range(*old(date), n * freq_month_step(freq))
            &&& (r ==> *final(date) == month_action_date(
                freq,
                action,
                shifted_months(*old(date), n * freq_month_step(freq)),
            ))
        },
{
    match freq {
        ClFrequency::ClFrequencyDaily => {
            proof {
                lemma_serial_range(*date);
            }
            let s = serial_from_ymd(date) as i64;
            let t = s + n as i64;
            if t < MIN_SERIAL as i64 || t > MAX_SERIAL as i64 {
                return false;
            }
            *date = ymd_from_serial(t as u64);
            true
        },
        ClFrequency::ClFrequencyWeekly => {
            proof {
                lemma_serial_range(*date);
            }
            let s = serial_from_ymd(date) as i64;
            let t = s + 7 * (n as i64);
            if t < MIN_SERIAL as i64 {
                return false;
            }
            let tu = t as u64;
            let k = (tu - 1) % 7;
            let t2: u64 = match action {
                ClDateMoveAction::ClMoveToEnd => tu + 6 - k,
                ClDateMoveAction::ClMoveToBegin => tu - k,
                ClDateMoveAction::ClNotMove => tu,
            };
            if t2 < MIN_SERIAL || t2 > MAX_SERIAL {
                return false;
            }
            *date = ymd_from_serial(t2);
            true
        },
        ClFrequency::ClFrequencyMonthly
        | ClFrequency::ClFrequencyQuarterly
        | ClFrequency::ClFrequencySemiannually
        | ClFrequency::ClFrequencyAnnually => {
            let step: i64 = match freq {
                ClFrequency::ClFrequencyMonthly => 1,
                ClFrequency::ClFrequencyQuarterly => 3,
                ClFrequency::ClFrequencySemiannually => 6,
                _ => 12,
            };
            let total: i64 = date.year as i64 * 12 + (date.month as i64 - 1) + n as i64 * step;
            if total < 22800 || total > 119999 {
                return false;
            }
            let tu = total as u64;
            let y2 = (tu / 12) as i32;
            let m2 = (tu % 12 + 1) as u32;
            let ld = last_day_of_month(y2, m2);
            let d2 = if date.day > ld {
                ld
            } else {
                date.day
            };
            let mut nd = Date { year: y2, month: m2, day: d2 };
            match action {
                ClDateMoveAction::ClMoveToEnd => to_period_end(freq, &mut nd),
                ClDateMoveAction::ClMoveToBegin => to_period_begin(freq, &mut nd),
                ClDateMoveAction::ClNotMove => (),
            }
            *date = nd;
            true
        },
        ClFrequency::ClFrequencyUnknown => true,
    }
}

/// Serial reached from serial `nd` by an `n`-period shift under `freq`
/// followed by the date-move action; `None` when the target leaves the
/// representable calendar.
pub open spec fn n_period_serial(
    freq: ClFrequency,
    n: int,
    action: ClDateMoveAction,
    nd: int,
) -> Option<int> {
    let d = date_of_serial(nd);
    if freq == ClFrequency::ClFrequencyDaily {
        let t = d.serial() + n;
        if MIN_SERIAL as int <= t <= MAX_SERIAL as int {
            Some(t)
        } else {
            None
        }
    } else if freq == ClFrequency::ClFrequencyWeekly {
        let t = d.serial() + 7 * n;
        let a = weekly_adjust(t, action);
        if t >= MIN_SERIAL as int && MIN_SERIAL as int <= a <= MAX_SERIAL as int {
            Some(a)
        } else {
            None
        }
    } else if freq == ClFrequency::ClFrequencyUnknown {
        Some(d.serial())
    } else {
        let k = n * freq_month_step(freq);
        if months_in_range(d, k) {
            Some(month_action_date(freq, action, shifted_months(d, k)).serial())
        } else {
            None
        }
    }
}

fn to_n_period_action_int(freq: ClFrequency, n: i32, action: ClDateMoveAction, n_date: u64) -> (r:
    Option<u64>)
    requires
        MIN_SERIAL <= n_date <= MAX_SERIAL,
    ensures
        r is Some <==> n_period_serial(freq, n as int, action, n_date as int) is Some,
        r matches Some(u) ==> n_period_serial(freq, n as int, action, n_date as int) == Some(
            u as int,
        ),
{
    let mut d = ymd_from_serial(n_date);
    proof {
        lemma_date_of_serial_inv(d);
    }
    if to_n_period(freq, n, action, &mut d) {
        Some(serial_from_ymd(&d))
    } else {
        None
    }
}

/// Serial of the period begin after an `n`-period shift from serial `n_date`.
pub fn to_n_period_begin_int(freq: ClFrequency, n: i32, n_date: u64) -> (r: Option<u64>)
    requires
        MIN_SERIAL <= n_date <= MAX_SERIAL,
    ensures
        r is Some <==> n_period_serial(
            freq,
            n as int,
            ClDateMoveAction::ClMoveToBegin,
            n_date as int,
        ) is Some,
        r matches Some(u) ==> n_period_serial(
            freq,
            n as int,
            ClDateMoveAction::ClMoveToBegin,
            n_date as int,
        ) == Some(u as int),
{
    to_n_period_action_int(freq, n, ClDateMoveAction::ClMoveToBegin, n_date)
}

/// Serial of the period end after an `n`-period shift from serial `n_date`.
pub fn to_n_period_end_int(freq: ClFrequency, n: i32, n_date: u64) -> (r: Option<u64>)
    requires
        MIN_SERIAL <= n_date <= MAX_SERIAL,
    ensures
        r is Some <==> n_period_serial(
            freq,
            n as int,
            ClDateMoveAction::ClMoveToEnd,
            n_date as int,
        ) is Some,
        r matches Some(u) ==> n_period_serial(
            freq,
            n as int,
            ClDateMoveAction::ClMoveToEnd,
            n_date as int,
        ) == Some(u as int),
{
    to_n_period_action_int(freq, n, ClDateMoveAction::ClMoveToEnd, n_date)
}

/// Serial reached by an `n`-period shift from serial `n_date`, with no
/// begin/end adjustment.
pub fn to_n_period_int(freq: ClFrequency, n: i32, n_date: u64) -> (r: Option<u64>)
    requires
        MIN_SERIAL <= n_date <= MAX_SERIAL,
    ensures
        r is Some <==> n_period_serial(
            freq,
            n as int,
            ClDateMoveAction::ClNotMove,
            n_date as int,
        ) is Some,
        r matches Some(u) ==> n_period_serial(
            freq,
            n as int,
            ClDateMoveAction::ClNotMove,
            n_date as int,
        ) == Some(u as int),
{
    to_n_period_action_int(freq, n, ClDateMoveAction::ClNotMove, n_date)
}

} // verus!
