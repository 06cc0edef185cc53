use gobgp_sync::calendar::{choose_local_start, LocalStamp};
use gobgp_sync::calendar::Date;
use gobgp_sync::schedule::{parse_interval, parse_month_days, parse_weekday, SyncSchedule, SyncUnit, Weekday};

fn day(y: i32, m: u32, d: u32) -> Date {
    Date::from_ymd(y, m, d).unwrap()
}

#[test]
fn plain_time_is_daily() {
    let s = SyncSchedule::parse("02:00");
    assert_eq!(s.every, 1);
    assert_eq!(s.unit, SyncUnit::Day);
    assert_eq!((s.time.hour, s.time.minute), (2, 0));
    assert!(s.weekdays.is_empty() && s.month_days.is_empty());
    assert_eq!(s.describe(), "every 1 day at 02:00");
    let t = SyncSchedule::parse(" 23:15 ");
    assert_eq!((t.time.hour, t.time.minute), (23, 15));
}

#[test]
fn blank_and_unknown_give_default() {
    for raw in ["", "   ", "garbage"] {
        let s = SyncSchedule::parse(raw);
        assert_eq!(s.every, 1, "{raw}");
        assert_eq!(s.unit, SyncUnit::Day);
        assert_eq!((s.time.hour, s.time.minute), (2, 0));
    }
}

#[test]
fn interval_weekday_and_month_day_schedules() {
    let a = SyncSchedule::parse("3d 02:00");
    assert_eq!((a.every, a.unit), (3, SyncUnit::Day));
    assert_eq!(a.describe(), "every 3 day at 02:00");

    let b = SyncSchedule::parse("2w Mon 02:00");
    assert_eq!((b.every, b.unit), (2, SyncUnit::Week));
    assert_eq!(b.weekdays, vec![Weekday::Mon]);
    assert_eq!(b.describe(), "every 2 week at 02:00 on Mon");

    let c = SyncSchedule::parse("1m 15 02:00");
    assert_eq!((c.every, c.unit), (1, SyncUnit::Month));
    assert_eq!(c.month_days, vec![15]);
    assert_eq!(c.describe(), "every 1 month at 02:00 on day 15");

    let d = SyncSchedule::parse("fri,mon-wed/04:30");
    assert_eq!((d.every, d.unit), (1, SyncUnit::Week));
    assert_eq!(d.weekdays, vec![Weekday::Mon, Weekday::Tue, Weekday::Wed, Weekday::Fri]);
    assert_eq!(d.describe(), "every 1 week at 04:30 on Mon,Tue,Wed,Fri");

    let e = SyncSchedule::parse("every 17,1,15-16 23:59");
    assert_eq!(e.unit, SyncUnit::Month);
    assert_eq!(e.month_days, vec![1, 15, 16, 17]);
}

#[test]
fn interval_tokens() {
    assert_eq!(parse_interval("3Days"), Some((3, SyncUnit::Day)));
    assert_eq!(parse_interval("2w"), Some((2, SyncUnit::Week)));
    assert_eq!(parse_interval("6mo"), Some((6, SyncUnit::Month)));
    assert_eq!(parse_interval("0d"), Some((1, SyncUnit::Day)));
    assert_eq!(parse_interval("12"), None);
    assert_eq!(parse_interval("d"), None);
    assert_eq!(parse_interval("3x"), None);
}

#[test]
fn month_day_tokens() {
    assert_eq!(parse_month_days("1,15-17"), Some(vec![1, 15, 16, 17]));
    assert_eq!(parse_month_days("31"), Some(vec![31]));
    assert_eq!(parse_month_days("0"), None);
    assert_eq!(parse_month_days("32"), None);
    assert_eq!(parse_month_days("5-3"), None);
    assert_eq!(parse_month_days(","), None);
}

#[test]
fn weekday_names() {
    assert_eq!(parse_weekday(&['T', 'h', 'u', 'r', 's']), Some(Weekday::Thu));
    assert_eq!(parse_weekday(&['s', 'u', 'n', 'd', 'a', 'y']), Some(Weekday::Sun));
    assert_eq!(parse_weekday(&['x']), None);
    assert_eq!(Weekday::Wed.num_days_from_monday(), 2);
    assert_eq!(Weekday::from_monday(6), Some(Weekday::Sun));
    assert_eq!(Weekday::from_monday(7), None);
}

#[test]
fn calendar_days() {
    let d = day(2024, 1, 1);
    assert_eq!(d.weekday(), 0);
    assert_eq!((d.year(), d.month(), d.day()), (2024, 1, 1));
    assert_eq!(d.succ().unwrap().day(), 2);
    assert_eq!(day(2024, 1, 31).add_months(1).unwrap().day(), 29);
    assert!(Date::from_ymd(2023, 2, 29).is_none());
    let t: String = day(2024, 3, 5).text().into_iter().collect();
    assert_eq!(t, "2024-03-05");
    let big: String = day(12345, 6, 7).text().into_iter().collect();
    assert_eq!(big, "+12345-06-07");
    let neg: String = day(-1, 1, 1).text().into_iter().collect();
    assert_eq!(neg, "-0001-01-01");
}

#[test]
fn fetch_lifecycle() {
    let daily = SyncSchedule::parse("02:00");
    assert!(daily.lifecycle_ok(day(2024, 1, 1), day(2024, 1, 1)));
    assert!(!daily.lifecycle_ok(day(2024, 1, 1), day(2024, 1, 2)));
    let every3 = SyncSchedule::parse("3d 02:00");
    assert!(every3.lifecycle_ok(day(2024, 1, 1), day(2024, 1, 3)));
    assert!(!every3.lifecycle_ok(day(2024, 1, 1), day(2024, 1, 4)));
    let monday = SyncSchedule::parse("1w Mon 02:00");
    assert!(monday.lifecycle_ok(day(2024, 1, 1), day(2024, 1, 7)));
    assert!(!monday.lifecycle_ok(day(2024, 1, 1), day(2024, 1, 8)));
    assert_eq!(monday.next_run_date_after(day(2024, 1, 1)).unwrap().day(), 8);
}

#[test]
fn run_days() {
    let every3 = SyncSchedule::parse("3d");
    assert!(every3.is_run_day(day(2024, 1, 4), Some(day(2024, 1, 1))));
    assert!(!every3.is_run_day(day(2024, 1, 3), Some(day(2024, 1, 1))));
    assert!(every3.is_run_day(day(2024, 1, 3), None));
    let fifteenth = SyncSchedule::parse("1m 15");
    assert!(fifteenth.is_run_day(day(2024, 2, 15), Some(day(2024, 1, 15))));
    assert!(!fifteenth.is_run_day(day(2024, 1, 15), Some(day(2024, 1, 15))));
    assert!(!fifteenth.is_run_day(day(2024, 2, 14), None));
}

#[test]
fn next_run_is_in_the_future() {
    let s = SyncSchedule::parse("02:00");
    let now: i64 = 1_704_067_200;
    let next = s.next_run(day(2024, 1, 1), now, None);
    assert!(next > now);
    assert!(next <= now + 2 * 86_400);
}

#[test]
fn local_start_is_within_a_day_of_utc() {
    let t = day(2024, 5, 1).at_local(2, 0).unwrap();
    assert!((t - 1_714_528_800).abs() < 86_400);
}

#[test]
fn first_start_after_now() {
    assert_eq!(SyncSchedule::first_start_after(100, &vec![None, Some(50), Some(200), Some(150)]), 200);
    assert_eq!(SyncSchedule::first_start_after(100, &vec![Some(100), None]), 100 + 86400);
    assert_eq!(SyncSchedule::first_start_after(100, &vec![]), 100 + 86400);
    assert_eq!(SyncSchedule::first_start_after(0, &vec![Some(1)]), 1);
}

#[test]
fn local_start_choice() {
    assert_eq!(choose_local_start(&LocalStamp::Single(7), &None), Some(7));
    assert_eq!(choose_local_start(&LocalStamp::Ambiguous(5, 9), &None), Some(5));
    assert_eq!(choose_local_start(&LocalStamp::Gap, &Some(LocalStamp::Single(90))), Some(90));
    assert_eq!(choose_local_start(&LocalStamp::Gap, &Some(LocalStamp::Ambiguous(80, 83))), Some(80));
    assert_eq!(choose_local_start(&LocalStamp::Gap, &Some(LocalStamp::Gap)), None);
    assert_eq!(choose_local_start(&LocalStamp::Gap, &None), None);
}

#[test]
fn weekday_from_day_number() {
    // 2024-01-01 was a Monday, 2024-03-10 a Sunday.
    assert_eq!(Date::from_ymd(2024, 1, 1).unwrap().weekday(), 0);
    assert_eq!(Date::from_ymd(2024, 3, 10).unwrap().weekday(), 6);
    assert_eq!(Date::from_ymd(1, 1, 1).unwrap().weekday(), 0);
}

#[test]
fn hour_minute_forms() {
    let hm = |raw: &str| {
        let s = SyncSchedule::parse(raw);
        (s.time.hour, s.time.minute)
    };
    assert_eq!(hm("7:5"), (7, 5));
    assert_eq!(hm("3: 05"), (3, 5));
    assert_eq!(hm("0:00"), (0, 0));
    assert_eq!(hm("23:59"), (23, 59));
    // Out of range or too many digits: no time, so the default.
    assert_eq!(hm("24:00"), (2, 0));
    assert_eq!(hm("12:60"), (2, 0));
    assert_eq!(hm("123:00"), (2, 0));
    assert_eq!(hm("12:000"), (2, 0));
    assert_eq!(hm("12 :00"), (2, 0));
}

#[test]
fn zero_interval_without_division() {
    let d = Date::from_ymd(2024, 3, 10).unwrap();
    let l = Date::from_ymd(2024, 3, 1).unwrap();
    let daily = SyncSchedule {
        every: 0,
        unit: SyncUnit::Day,
        time: gobgp_sync::schedule::TimeOfDay { hour: 2, minute: 0 },
        weekdays: vec![],
        month_days: vec![],
    };
    assert!(daily.is_run_day(d, Some(l)));
    let monthly = SyncSchedule { unit: SyncUnit::Month, ..daily.clone() };
    assert!(!monthly.is_run_day(d, Some(l)));
    assert!(monthly.is_run_day(d, None));
    let on_sundays = SyncSchedule { unit: SyncUnit::Week, weekdays: vec![Weekday::Sun], ..daily.clone() };
    assert!(on_sundays.is_run_day(d, Some(l)));
}
