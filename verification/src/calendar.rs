//! Calendar days and local wall-clock times.
//!
//! A day is held by its number in the proleptic Gregorian calendar, counted
//! from 1 January of year 1 (day 1), the count that chrono's
//! `Datelike::num_days_from_ce` gives. What needs the calendar itself
//! (weekday, day of month, month arithmetic) is asked of chrono.
use vstd::prelude::*;

use chrono::{Datelike, Months, NaiveDate, Timelike};

use crate::text::{
    all_digits, append, decimal, decimal_chars, digits_value, split_once, trim_start, two_digits,
    two_digits_chars,
};

verus! {

/// Day number of `NaiveDate::MIN`.
pub const MIN_DAY: i32 = -95746129;

/// Day number of `NaiveDate::MAX`.
pub const MAX_DAY: i32 = 95745399;

/// First and last year that chrono represents.
pub const MIN_YEAR: i32 = -262143;

pub const MAX_YEAR: i32 = 262142;

pub open spec fn day_in_range(n: int) -> bool {
    MIN_DAY <= n <= MAX_DAY
}

/// Weekday of day `n`, counted from Monday (`Weekday::num_days_from_monday`):
/// day 1, 0001-01-01 of the proleptic Gregorian calendar, is a Monday, and
/// the weekdays repeat every seven days.
pub open spec fn civil_weekday(n: int) -> int {
    (n - 1) % 7
}

/// Day `n` split into the proleptic Gregorian calendar's 400-year cycles,
/// counted from 1 March of year 0 (day -305): the cycle, the year of the
/// cycle (0..=399), the day of that March-based year (0..=365) and its
/// month counted from March (0..=11).
pub open spec fn civil_parts(n: int) -> (int, int, int, int) {
    let z = n + 305;
    let era = z / 146097;
    let doe = z % 146097;
    let yoe = (doe - doe / 1460 + doe / 36524 - doe / 146096) / 365;
    let doy = doe - (365 * yoe + yoe / 4 - yoe / 100);
    let mp = (5 * doy + 2) / 153;
    (era, yoe, doy, mp)
}

/// Day of the month of day `n` (`Datelike::day`).
#[verifier::opaque]
pub open spec fn civil_day(n: int) -> int {
    let (_, _, doy, mp) = civil_parts(n);
    doy - (153 * mp + 2) / 5 + 1
}

/// Month of day `n` (`Datelike::month`).
#[verifier::opaque]
pub open spec fn civil_month(n: int) -> int {
    let (_, _, _, mp) = civil_parts(n);
    if mp < 10 {
        mp + 3
    } else {
        mp - 9
    }
}

/// Year of day `n` (`Datelike::year`); year 0 is 1 BCE.
#[verifier::opaque]
pub open spec fn civil_year(n: int) -> int {
    let (era, yoe, _, mp) = civil_parts(n);
    era * 400 + yoe + (if mp >= 10 {
        1int
    } else {
        0int
    })
}

/// Day number of `NaiveDate::checked_add_months(n, Months::new(k))`.
pub uninterp spec fn civil_add_months(n: int, k: int) -> Option<int>;

/// Day number of `NaiveDate::from_ymd_opt(y, m, d)`.
pub uninterp spec fn civil_from_ymd(y: int, m: int, d: int) -> Option<int>;

/// Hour and minute that `NaiveTime::parse_from_str(s, "%H:%M")` gives:
/// white space, one or two ASCII digits for an hour below 24, `:`, white
/// space, one or two digits for a minute below 60, and nothing after.
pub open spec fn civil_parse_hm(s: Seq<char>) -> Option<(int, int)> {
    match split_once(trim_start(s), ':') {
        None => None,
        Some((h, rest)) => {
            let m = trim_start(rest);
            if 1 <= h.len() <= 2 && all_digits(h) && 1 <= m.len() <= 2 && all_digits(m)
                && digits_value(h) < 24 && digits_value(m) < 60 {
                Some((digits_value(h) as int, digits_value(m) as int))
            } else {
                None
            }
        },
    }
}

/// `NaiveDate::from_num_days_from_ce_opt(n)` then `weekday().num_days_from_monday()`.
/// Day 1 is a Monday; see `civil_weekday`.
#[verifier::external_body]
fn weekday_of(n: i32) -> (r: u32)
    requires
        day_in_range(n as int),
    ensures
        r == civil_weekday(n as int),
        r < 7,
{
    match NaiveDate::from_num_days_from_ce_opt(n) {
        Some(d) => d.weekday().num_days_from_monday(),
        None => 0,
    }
}

/// `NaiveDate::from_num_days_from_ce_opt(n)` then `day()`: 1 to 31.
#[verifier::external_body]
fn day_of(n: i32) -> (r: u32)
    requires
        day_in_range(n as int),
    ensures
        r == civil_day(n as int),
        1 <= r <= 31,
{
    match NaiveDate::from_num_days_from_ce_opt(n) {
        Some(d) => d.day(),
        None => 1,
    }
}

/// `NaiveDate::from_num_days_from_ce_opt(n)` then `month()`: 1 to 12.
#[verifier::external_body]
fn month_of(n: i32) -> (r: u32)
    requires
        day_in_range(n as int),
    ensures
        r == civil_month(n as int),
        1 <= r <= 12,
{
    match NaiveDate::from_num_days_from_ce_opt(n) {
        Some(d) => d.month(),
        None => 1,
    }
}

/// `NaiveDate::from_num_days_from_ce_opt(n)` then `year()`, within chrono's
/// year range.
#[verifier::external_body]
fn year_of(n: i32) -> (r: i32)
    requires
        day_in_range(n as int),
    ensures
        r == civil_year(n as int),
        MIN_YEAR <= r <= MAX_YEAR,
{
    match NaiveDate::from_num_days_from_ce_opt(n) {
        Some(d) => d.year(),
        None => 0,
    }
}

/// `NaiveDate::checked_add_months(Months::new(k))` on day `n`; a result is
/// a representable day.
#[verifier::external_body]
fn add_months_of(n: i32, k: u32) -> (r: Option<i32>)
    requires
        day_in_range(n as int),
    ensures
        match r {
            Some(m) => civil_add_months(n as int, k as int) == Some(m as int) && day_in_range(
                m as int,
            ),
            None => civil_add_months(n as int, k as int) is None,
        },
{
    match NaiveDate::from_num_days_from_ce_opt(n) {
        Some(d) => d.checked_add_months(Months::new(k)).map(|x| x.num_days_from_ce()),
        None => None,
    }
}

/// `NaiveDate::from_ymd_opt(y, m, d)`, as a day number; a result is a
/// representable day.
#[verifier::external_body]
fn from_ymd_of(y: i32, m: u32, d: u32) -> (r: Option<i32>)
    ensures
        match r {
            Some(n) => civil_from_ymd(y as int, m as int, d as int) == Some(n as int)
                && day_in_range(n as int),
            None => civil_from_ymd(y as int, m as int, d as int) is None,
        },
{
    NaiveDate::from_ymd_opt(y, m, d).map(|x| x.num_days_from_ce())
}

/// `NaiveTime::parse_from_str(s, "%H:%M")`, as hour and minute; see
/// `civil_parse_hm`. chrono skips white space before each number, reads at
/// most two ASCII digits for it, checks its range, wants the `:` right
/// after the hour and no text after the minute.
#[verifier::external_body]
pub(crate) fn parse_hour_minute(s: &[char]) -> (r: Option<(u32, u32)>)
    ensures
        match r {
            Some((h, m)) => civil_parse_hm(s@) == Some((h as int, m as int)),
            None => civil_parse_hm(s@) is None,
        },
{
    let text: String = s.iter().collect();
    chrono::NaiveTime::parse_from_str(&text, "%H:%M").ok().map(|t| (t.hour(), t.minute()))
}

/// Day number of `NaiveDate::parse_from_str(s, "%Y-%m-%d")`.
pub uninterp spec fn civil_parse_ymd(s: Seq<char>) -> Option<int>;

/// `s` preceded by zeros up to `w` characters.
pub open spec fn zero_pad(s: Seq<char>, w: nat) -> Seq<char> {
    if s.len() >= w {
        s
    } else {
        Seq::new((w - s.len()) as nat, |i: int| '0') + s
    }
}

/// The year as `NaiveDate`'s `Display` writes it: four digits for years 0
/// to 9999, else a sign and at least four digits.
pub open spec fn year_text(y: int) -> Seq<char> {
    if 0 <= y <= 9999 {
        two_digits((y / 100) as nat) + two_digits((y % 100) as nat)
    } else if y > 9999 {
        seq!['+'] + decimal(y as nat)
    } else {
        seq!['-'] + zero_pad(decimal((-y) as nat), 4)
    }
}

/// Day `n` as `YYYY-MM-DD` (`NaiveDate`'s `Display`).
pub open spec fn date_text(n: int) -> Seq<char> {
    year_text(civil_year(n)) + seq!['-'] + two_digits(civil_month(n) as nat) + seq!['-']
        + two_digits(civil_day(n) as nat)
}

/// `NaiveDate::parse_from_str(s, "%Y-%m-%d")`, as a day number. The format
/// is the one `Display` writes (chrono documents parsing and display as the
/// same format), so the text of a day reads back as that day.
#[verifier::external_body]
pub(crate) fn parse_ymd(s: &[char]) -> (r: Option<Date>)
    ensures
        match r {
            Some(d) => civil_parse_ymd(s@) == Some(d@),
            None => civil_parse_ymd(s@) is None,
        },
        r matches Some(d) ==> day_in_range(d@),
        r is Some || forall|n: int| day_in_range(n) ==> #[trigger] date_text(n) != s@,
        r matches Some(d) ==> forall|n: int| day_in_range(n) && #[trigger] date_text(n) == s@ ==> d@ == n,

{
    let text: String = s.iter().collect();
    NaiveDate::parse_from_str(&text, "%Y-%m-%d").ok().map(|d| Date { days: d.num_days_from_ce() })
}

/// Unix time of day `n` at `secs` seconds after midnight read as UTC:
/// chrono counts days from 0001-01-01 as day 1, and 1970-01-01 is day
/// 719 163.
pub open spec fn utc_secs(n: int, secs: int) -> int {
    (n - 719163) * 86400 + secs
}

/// Unix time of day `n` at `hour:minute` read as UTC.
pub open spec fn utc_stamp(n: int, hour: int, minute: int) -> int {
    utc_secs(n, hour * 3600 + minute * 60)
}

/// `t` is day `n` at `secs` seconds after midnight in some time zone: it
/// lies less than a day from the same wall-clock time read as UTC.
pub open spec fn near_secs(t: int, n: int, secs: int) -> bool {
    utc_secs(n, secs) - 86400 < t < utc_secs(n, secs) + 86400
}

/// `t` is day `n` at `hour:minute` in some time zone.
pub open spec fn near_utc(t: int, n: int, hour: int, minute: int) -> bool {
    near_secs(t, n, hour * 3600 + minute * 60)
}

/// How `NaiveDateTime::and_local_timezone(Local)` resolved a wall-clock time,
/// as Unix timestamps.
#[derive(Clone, Copy, Debug)]
pub enum LocalStamp {
    Single(i64),
    /// Two readings, earliest first.
    Ambiguous(i64, i64),
    Gap,
}

/// A reading that a time zone can give for day `n` at `secs` seconds
/// after midnight: every time in it lies within a day of that wall-clock
/// time read as UTC.
pub open spec fn stamp_secs_ok(s: LocalStamp, n: int, secs: int) -> bool {
    match s {
        LocalStamp::Single(t) => near_secs(t as int, n, secs),
        LocalStamp::Ambiguous(a, b) => near_secs(a as int, n, secs) && near_secs(b as int, n, secs),
        LocalStamp::Gap => true,
    }
}

/// A reading that a time zone can give for day `n` at `hour:minute`.
pub open spec fn stamp_ok(s: LocalStamp, n: int, hour: int, minute: int) -> bool {
    stamp_secs_ok(s, n, hour * 3600 + minute * 60)
}

/// The time a reading gives: the single one, or the earlier of two.
pub open spec fn reading_of(s: LocalStamp) -> Option<i64> {
    match s {
        LocalStamp::Single(t) => Some(t),
        LocalStamp::Ambiguous(a, _) => Some(a),
        LocalStamp::Gap => None,
    }
}

/// The local start from the day's reading and, where the clock skips that
/// time, the next day's reading.
pub open spec fn local_start(today: LocalStamp, next: Option<LocalStamp>) -> Option<i64> {
    match reading_of(today) {
        Some(t) => Some(t),
        None => match next {
            Some(x) => reading_of(x),
            None => None,
        },
    }
}

/// Readings that a time zone can give for day `n` and the next day; the
/// next day is read exactly when the day's reading is a gap and there is a
/// next day.
pub open spec fn readings_ok(
    today: LocalStamp,
    next: Option<LocalStamp>,
    n: int,
    hour: int,
    minute: int,
) -> bool {
    &&& stamp_ok(today, n, hour, minute)
    &&& next matches Some(x) ==> stamp_ok(x, n + 1, hour, minute)
    &&& (next is Some <==> (reading_of(today) is None && n < MAX_DAY))
}

/// `o` is the local start of day `n` at `hour:minute` under some time zone.
pub open spec fn possible_start(o: Option<i64>, n: int, hour: int, minute: int) -> bool {
    exists|today: LocalStamp, next: Option<LocalStamp>|
        #![trigger local_start(today, next)]
        readings_ok(today, next, n, hour, minute) && o == local_start(today, next)
}

/// The local start from the day's reading and, where the clock skips that
/// time, the next day's reading; see `local_start`.
pub fn choose_local_start(today: &LocalStamp, next: &Option<LocalStamp>) -> (r: Option<i64>)
    ensures
        r == local_start(*today, *next),
{
    match today {
        LocalStamp::Single(t) => Some(*t),
        LocalStamp::Ambiguous(a, _) => Some(*a),
        LocalStamp::Gap => match next {
            Some(LocalStamp::Single(t)) => Some(*t),
            Some(LocalStamp::Ambiguous(a, _)) => Some(*a),
            _ => None,
        },
    }
}

/// `NaiveDate::and_time(..).and_local_timezone(Local)` for day `n` at `secs`
/// seconds after midnight. Which variant comes back and the exact times
/// depend on the time zone of the machine and are not stated; every time
/// found is that wall-clock time minus the zone's offset, which chrono keeps
/// strictly within a day (`FixedOffset`), so it lies within a day of
/// `utc_secs`.
#[verifier::external_body]
pub(crate) fn local_stamp(n: i32, secs: u32) -> (r: LocalStamp)
    requires
        day_in_range(n as int),
        secs < 86400,
    ensures
        stamp_secs_ok(r, n as int, secs as int),
{
    let date = match NaiveDate::from_num_days_from_ce_opt(n) {
        Some(d) => d,
        None => return LocalStamp::Gap,
    };
    let time = match chrono::NaiveTime::from_num_seconds_from_midnight_opt(secs, 0) {
        Some(t) => t,
        None => return LocalStamp::Gap,
    };
    match date.and_time(time).and_local_timezone(chrono::Local) {
        chrono::LocalResult::Single(dt) => LocalStamp::Single(dt.timestamp()),
        chrono::LocalResult::Ambiguous(a, b) => LocalStamp::Ambiguous(a.timestamp(), b.timestamp()),
        chrono::LocalResult::None => LocalStamp::Gap,
    }
}

/// A calendar day.
#[derive(Clone, Copy, PartialEq, Eq, Structural, Debug)]
pub struct Date {
    days: i32,
}

impl View for Date {
    type V = int;

    closed spec fn view(&self) -> int {
        self.days as int
    }
}

impl Date {
    #[verifier::type_invariant]
    spec fn inv(self) -> bool {
        day_in_range(self.days as int)
    }

    /// The day `year-month-day`, when it exists.
    pub fn from_ymd(year: i32, month: u32, day: u32) -> (r: Option<Date>)
        ensures
            match r {
                Some(d) => civil_from_ymd(year as int, month as int, day as int) == Some(d@),
                None => civil_from_ymd(year as int, month as int, day as int) is None,
            },
    {
        match from_ymd_of(year, month, day) {
            Some(n) => Some(Date { days: n }),
            None => None,
        }
    }

    /// Day number (`num_days_from_ce`).
    pub fn day_number(&self) -> (r: i32)
        ensures
            r as int == self@,
            day_in_range(r as int),
    {
        proof {
            use_type_invariant(self);
        }
        self.days
    }

    /// The following day (`NaiveDate::succ_opt`).
    pub fn succ(&self) -> (r: Option<Date>)
        ensures
            match r {
                Some(d) => d@ == self@ + 1 && self@ < MAX_DAY,
                None => self@ == MAX_DAY,
            },
    {
        proof {
            use_type_invariant(self);
        }
        if self.days < MAX_DAY {
            Some(Date { days: self.days + 1 })
        } else {
            None
        }
    }

    pub fn weekday(&self) -> (r: u32)
        ensures
            r == civil_weekday(self@),
            r < 7,
    {
        proof {
            use_type_invariant(self);
        }
        weekday_of(self.days)
    }

    pub fn day(&self) -> (r: u32)
        ensures
            r == civil_day(self@),
            1 <= r <= 31,
    {
        proof {
            use_type_invariant(self);
        }
        day_of(self.days)
    }

    pub fn month(&self) -> (r: u32)
        ensures
            r == civil_month(self@),
            1 <= r <= 12,
    {
        proof {
            use_type_invariant(self);
        }
        month_of(self.days)
    }

    pub fn year(&self) -> (r: i32)
        ensures
            r == civil_year(self@),
            MIN_YEAR <= r <= MAX_YEAR,
    {
        proof {
            use_type_invariant(self);
        }
        year_of(self.days)
    }

    /// `YYYY-MM-DD`, as `NaiveDate`'s `Display` writes it.
    pub fn text(&self) -> (r: Vec<char>)
        ensures
            r@ == date_text(self@),
    {
        let y = self.year();
        let m = self.month();
        let d = self.day();
        let mut v: Vec<char> = Vec::new();
        if 0 <= y && y <= 9999 {
            let hi = two_digits_chars((y / 100) as u32);
            let lo = two_digits_chars((y % 100) as u32);
            append(&mut v, hi.as_slice());
            append(&mut v, lo.as_slice());
        } else if y > 9999 {
            v.push('+');
            append(&mut v, decimal_chars(y as u64).as_slice());
        } else {
            v.push('-');
            let digits = decimal_chars((-(y as i64)) as u64);
            let mut k: usize = digits.len();
            while k < 4
                invariant
                    digits.len() <= k,
                    k <= 4 || k == digits.len(),
                    v@ == seq!['-'] + Seq::new((k - digits.len()) as nat, |i: int| '0'),
                decreases 4 - k,
            {
                v.push('0');
                assert(v@ =~= seq!['-'] + Seq::new((k + 1 - digits.len()) as nat, |i: int| '0'));
                k += 1;
            }
            append(&mut v, digits.as_slice());
            assert(v@ =~= seq!['-'] + zero_pad(decimal((-y) as nat), 4));
        }
        assert(v@ == year_text(y as int));
        v.push('-');
        append(&mut v, two_digits_chars(m).as_slice());
        v.push('-');
        append(&mut v, two_digits_chars(d).as_slice());
        v
    }

    /// `checked_add_months`.
    pub fn add_months(&self, k: u32) -> (r: Option<Date>)
        ensures
            match r {
                Some(d) => civil_add_months(self@, k as int) == Some(d@),
                None => civil_add_months(self@, k as int) is None,
            },
    {
        proof {
            use_type_invariant(self);
        }
        match add_months_of(self.days, k) {
            Some(n) => Some(Date { days: n }),
            None => None,
        }
    }

    /// This day at `hour:minute` local time, as a Unix timestamp: the single
    /// reading, the earlier of two readings, or, where the clock skips that
    /// time, that of the same time on the next day; see `local_start`. The
    /// readings themselves come from the machine's time zone: each lies
    /// within a day of the wall-clock time read as UTC.
    pub fn at_local(&self, hour: u32, minute: u32) -> (r: Option<i64>)
        requires
            hour < 24,
            minute < 60,
        ensures
            possible_start(r, self@, hour as int, minute as int),
    {
        proof {
            use_type_invariant(self);
        }
        let secs: u32 = hour * 3600 + minute * 60;
        let today = local_stamp(self.days, secs);
        let next = match today {
            LocalStamp::Gap => match self.succ() {
                Some(d) => {
                    proof {
                        use_type_invariant(d);
                    }
                    Some(local_stamp(d.days, secs))
                },
                None => None,
            },
            _ => None,
        };
        let r = choose_local_start(&today, &next);
        assert(readings_ok(today, next, self@, hour as int, minute as int));
        r
    }
}

} // verus!
