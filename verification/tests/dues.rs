use planifie::due::Due;
use planifie::moment::{datetime_to_str, parse_datetime, Civil, Moment};
use std::cmp::Ordering;

fn at(year: i32, month: u32, day: u32, hour: u32, minute: u32) -> Moment {
    Moment::new(Civil { year, month, day, hour, minute }).unwrap()
}

fn day(d: u32) -> Moment {
    at(2022, 1, d, 0, 0)
}

#[test]
fn moment_new_takes_calendar_dates() {
    let m = at(2022, 1, 10, 14, 30);
    assert_eq!(m.civil(), Civil { year: 2022, month: 1, day: 10, hour: 14, minute: 30 });
    assert!(Moment::new(Civil { year: 2024, month: 2, day: 29, hour: 0, minute: 0 }).is_some());
}

#[test]
fn moment_new_refuses_what_the_calendar_lacks() {
    assert!(Moment::new(Civil { year: 2022, month: 2, day: 30, hour: 0, minute: 0 }).is_none());
    assert!(Moment::new(Civil { year: 2023, month: 2, day: 29, hour: 0, minute: 0 }).is_none());
    assert!(Moment::new(Civil { year: 2022, month: 13, day: 1, hour: 0, minute: 0 }).is_none());
    assert!(Moment::new(Civil { year: 2022, month: 0, day: 1, hour: 0, minute: 0 }).is_none());
    assert!(Moment::new(Civil { year: 2022, month: 1, day: 0, hour: 0, minute: 0 }).is_none());
    assert!(Moment::new(Civil { year: 2022, month: 1, day: 1, hour: 24, minute: 0 }).is_none());
    assert!(Moment::new(Civil { year: 2022, month: 1, day: 1, hour: 0, minute: 60 }).is_none());
    assert!(Moment::new(Civil { year: -1, month: 1, day: 1, hour: 0, minute: 0 }).is_none());
    assert!(Moment::new(Civil { year: 10000, month: 1, day: 1, hour: 0, minute: 0 }).is_none());
}

#[test]
fn parse_datetime_reads_date_and_time() {
    assert_eq!(parse_datetime("10/01/22 14:30"), Some(at(2022, 1, 10, 14, 30)));
    assert_eq!(parse_datetime("31/12/99 23:59"), Some(at(1999, 12, 31, 23, 59)));
}

#[test]
fn parse_datetime_reads_date_as_midnight() {
    assert_eq!(parse_datetime("10/01/22"), Some(at(2022, 1, 10, 0, 0)));
    assert_eq!(parse_datetime("01/03/69"), Some(at(2069, 3, 1, 0, 0)));
    assert_eq!(parse_datetime("01/03/70"), Some(at(1970, 3, 1, 0, 0)));
}

#[test]
fn parse_datetime_refuses_other_text() {
    assert_eq!(parse_datetime(""), None);
    assert_eq!(parse_datetime("soon"), None);
    assert_eq!(parse_datetime("31/02/22"), None);
    assert_eq!(parse_datetime("10/01/22 25:00"), None);
    assert_eq!(parse_datetime("Mon 10/01/22"), None);
}

#[test]
fn datetime_to_str_leaves_midnight_out() {
    assert_eq!(datetime_to_str(&at(2022, 1, 10, 0, 0)), "Mon 10/01/22");
    assert_eq!(datetime_to_str(&at(2022, 1, 16, 0, 0)), "Sun 16/01/22");
    assert_eq!(datetime_to_str(&at(2000, 2, 29, 0, 0)), "Tue 29/02/00");
}

#[test]
fn datetime_to_str_writes_the_time() {
    assert_eq!(datetime_to_str(&at(2022, 1, 10, 14, 30)), "Mon 10/01/22 14:30");
    assert_eq!(datetime_to_str(&at(2022, 1, 10, 0, 5)), "Mon 10/01/22 00:05");
    assert_eq!(datetime_to_str(&at(2022, 1, 10, 9, 0)), "Mon 10/01/22 09:00");
    assert_eq!(datetime_to_str(&at(2105, 7, 4, 8, 7)), "Sat 04/07/05 08:07");
}

#[test]
fn moments_order_by_their_fields() {
    assert_eq!(at(2022, 1, 10, 0, 0).cmp(&at(2022, 1, 10, 0, 0)), Ordering::Equal);
    assert_eq!(at(2021, 12, 31, 23, 59).cmp(&at(2022, 1, 1, 0, 0)), Ordering::Less);
    assert_eq!(at(2022, 2, 1, 0, 0).cmp(&at(2022, 1, 31, 0, 0)), Ordering::Greater);
    assert_eq!(at(2022, 1, 10, 9, 0).cmp(&at(2022, 1, 10, 10, 0)), Ordering::Less);
    assert_eq!(at(2022, 1, 10, 9, 30).cmp(&at(2022, 1, 10, 9, 29)), Ordering::Greater);
    assert!(at(2022, 1, 10, 9, 0) < at(2022, 1, 10, 9, 1));
    assert!(at(2022, 1, 10, 9, 0) <= at(2022, 1, 10, 9, 0));
    assert!(at(2022, 1, 11, 0, 0) > at(2022, 1, 10, 23, 59));
}

#[test]
fn due_parse_reads_a_day() {
    assert_eq!(Due::parse("10/01/22"), Some(Due::Day(day(10))));
    assert_eq!(Due::parse("10/01/22 08:15"), Some(Due::Day(at(2022, 1, 10, 8, 15))));
}

#[test]
fn due_parse_reads_an_interval() {
    assert_eq!(Due::parse("10/01/22-20/01/22"), Some(Due::Interval(day(10), day(20))));
    assert_eq!(
        Due::parse("10/01/22 08:00-10/01/22 09:30"),
        Some(Due::Interval(at(2022, 1, 10, 8, 0), at(2022, 1, 10, 9, 30)))
    );
}

#[test]
fn due_parse_refuses_other_text() {
    assert_eq!(Due::parse(""), None);
    assert_eq!(Due::parse("-"), None);
    assert_eq!(Due::parse("10/01/22-"), None);
    assert_eq!(Due::parse("-10/01/22"), None);
    assert_eq!(Due::parse("10/01/22-soon"), None);
    assert_eq!(Due::parse("10/01/22-20/01/22-30/01/22"), None);
    assert_eq!(Due::parse("tomorrow"), None);
}

#[test]
fn interval_overlap() {
    let due = Due::Interval(day(10), day(20));
    assert!(due.active_on(&day(15), &day(25)));
    assert!(!due.active_on(&day(21), &day(30)));
}

#[test]
fn interval_overlap_includes_both_ends() {
    let due = Due::Interval(day(10), day(20));
    assert!(due.active_on(&day(20), &day(30)));
    assert!(due.active_on(&day(1), &day(10)));
    assert!(due.active_on(&day(12), &day(13)));
    assert!(due.active_on(&day(1), &day(30)));
    assert!(!due.active_on(&day(1), &day(9)));
}

#[test]
fn day_is_active_within_the_span() {
    let due = Due::Day(day(15));
    assert!(due.active_on(&day(15), &day(15)));
    assert!(due.active_on(&day(10), &day(15)));
    assert!(due.active_on(&day(15), &day(20)));
    assert!(!due.active_on(&day(16), &day(20)));
    assert!(!due.active_on(&day(10), &day(14)));
}

#[test]
fn never_is_active_on_no_span() {
    assert!(!Due::Never.active_on(&day(1), &day(31)));
}

#[test]
fn due_is_active_at_its_own_start() {
    let moment = at(2022, 1, 10, 8, 0);
    assert!(Due::Day(moment).active_on(&moment, &moment));
    assert!(Due::Interval(moment, day(20)).active_on(&moment, &moment));
    assert!(Due::Interval(moment, moment).active_on(&moment, &moment));
}

#[test]
fn never_is_the_greatest() {
    assert_eq!(Due::Day(day(10)).cmp(&Due::Never), Ordering::Less);
    assert_eq!(Due::Interval(day(10), day(20)).cmp(&Due::Never), Ordering::Less);
    assert_eq!(Due::Never.cmp(&Due::Day(day(10))), Ordering::Greater);
    assert_eq!(Due::Never.cmp(&Due::Interval(day(10), day(20))), Ordering::Greater);
    assert_eq!(Due::Never.cmp(&Due::Never), Ordering::Equal);
    assert!(Due::Day(at(9999, 12, 31, 23, 59)) < Due::Never);
    assert!(Due::Interval(day(10), day(20)) < Due::Never);
}

#[test]
fn dues_order_by_their_starts() {
    assert_eq!(Due::Day(day(10)).cmp(&Due::Day(day(11))), Ordering::Less);
    assert_eq!(Due::Day(day(11)).cmp(&Due::Day(day(10))), Ordering::Greater);
    assert_eq!(Due::Day(day(10)).cmp(&Due::Day(day(10))), Ordering::Equal);
    assert_eq!(Due::Day(day(10)).cmp(&Due::Interval(day(11), day(12))), Ordering::Less);
    assert_eq!(Due::Day(day(10)).cmp(&Due::Interval(day(10), day(12))), Ordering::Equal);
    assert_eq!(Due::Interval(day(10), day(12)).cmp(&Due::Day(day(10))), Ordering::Equal);
    assert_eq!(Due::Interval(day(10), day(12)).cmp(&Due::Day(day(9))), Ordering::Greater);
}

#[test]
fn intervals_that_start_together_order_by_their_ends() {
    let short = Due::Interval(day(10), day(12));
    let long = Due::Interval(day(10), day(20));
    assert_eq!(short.cmp(&long), Ordering::Less);
    assert_eq!(long.cmp(&short), Ordering::Greater);
    assert_eq!(short.cmp(&short), Ordering::Equal);
    assert_eq!(Due::Interval(day(9), day(30)).cmp(&short), Ordering::Less);
    assert!(short < long);
    assert!(long >= short);
}

#[test]
fn swapping_two_dues_reverses_their_order() {
    let all = [
        Due::Never,
        Due::Day(day(10)),
        Due::Day(day(11)),
        Due::Interval(day(10), day(12)),
        Due::Interval(day(10), day(20)),
        Due::Interval(day(11), day(11)),
    ];
    for a in all.iter() {
        for b in all.iter() {
            assert_eq!(a.cmp(b), b.cmp(a).reverse());
        }
    }
}

#[test]
fn due_equality_goes_by_what_is_held() {
    assert_eq!(Due::Never, Due::Never);
    assert_eq!(Due::Day(day(10)), Due::Day(day(10)));
    assert_ne!(Due::Day(day(10)), Due::Day(day(11)));
    assert_ne!(Due::Day(day(10)), Due::Interval(day(10), day(10)));
    assert_ne!(Due::Interval(day(10), day(11)), Due::Interval(day(10), day(12)));
}

#[test]
fn due_to_string_writes_each_shape() {
    assert_eq!(Due::Never.to_string(), "");
    assert_eq!(Due::Day(day(10)).to_string(), "Mon 10/01/22");
    assert_eq!(Due::Interval(day(10), day(20)).to_string(), "Mon 10/01/22-Thu 20/01/22");
    assert_eq!(
        Due::Interval(at(2022, 1, 10, 8, 0), at(2022, 1, 10, 9, 30)).to_string(),
        "Mon 10/01/22 08:00-Mon 10/01/22 09:30"
    );
}
