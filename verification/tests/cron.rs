use powderman::cron::{minute_of, parse, CronError, WallTime};

fn at(year: i32, month: u32, day: u32, hour: u32, minute: u32, weekday: u32) -> WallTime {
    WallTime { year, month, day, hour, minute, weekday }
}

/// 2026-08-09 is a Sunday.
fn aug(day: u32, hour: u32, minute: u32) -> WallTime {
    at(2026, 8, day, hour, minute, (day - 9 + 7) % 7)
}

#[test]
fn rejects_wrong_field_count() {
    assert!(parse("0 6 * *").is_err());
    assert!(parse("0 6 * * * *").is_err());
}

#[test]
fn rejects_out_of_range_instead_of_never_firing() {
    assert!(parse("0 25 * * *").is_err());
    assert!(parse("0 6 32 * *").is_err());
    assert!(parse("0 6 * 13 *").is_err());
    assert!(parse("0 6 * * 9").is_err());
    assert!(parse("*/0 * * * *").is_err());
}

#[test]
fn daily_at_six_fires_only_in_that_minute() {
    let c = parse("0 6 * * *").unwrap();
    assert!(c.matches(&aug(9, 6, 0)));
    assert!(!c.matches(&aug(9, 6, 1)));
    assert!(!c.matches(&aug(9, 5, 0)));
}

#[test]
fn every_fifteen_minutes() {
    let c = parse("*/15 * * * *").unwrap();
    let hits: Vec<u32> = [0, 10, 15, 20, 30, 45, 50]
        .into_iter()
        .filter(|m| c.matches(&aug(9, 9, *m)))
        .collect();
    assert_eq!(hits, vec![0, 15, 30, 45]);
}

#[test]
fn lists_and_ranges() {
    let c = parse("0 9,17 * * 1-5").unwrap();
    assert!(c.matches(&aug(10, 9, 0)));
    assert!(c.matches(&aug(10, 17, 0)));
    assert!(!c.matches(&aug(10, 13, 0)));
    assert!(!c.matches(&aug(9, 9, 0)));
}

#[test]
fn dom_and_dow_are_ored_when_both_restricted() {
    let c = parse("0 6 1 * 1").unwrap();
    assert!(c.matches(&at(2026, 8, 1, 6, 0, 6)));
    assert!(c.matches(&aug(10, 6, 0)));
    assert!(!c.matches(&aug(11, 6, 0)));
}

#[test]
fn next_after_finds_the_following_minute() {
    let c = parse("0 6 * * *").unwrap();
    assert_eq!(c.next_after(aug(9, 5, 59)).unwrap(), aug(9, 6, 0));
}

#[test]
fn next_after_crosses_a_year_end() {
    let c = parse("30 0 1 1 *").unwrap();
    let from = at(2026, 12, 31, 23, 59, 4);
    assert_eq!(c.next_after(from).unwrap(), at(2027, 1, 1, 0, 30, 5));
}

#[test]
fn a_leap_day_schedule_waits_for_a_leap_year() {
    let c = parse("0 0 29 2 *").unwrap();
    let from = at(2026, 3, 1, 0, 0, 0);
    assert_eq!(c.next_after(from).unwrap(), at(2028, 2, 29, 0, 0, 2));
}

#[test]
fn the_thirty_first_of_february_never_fires() {
    let c = parse("0 0 31 2 *").unwrap();
    let err = c.next_after(at(2026, 1, 1, 0, 0, 4)).unwrap_err();
    assert!(matches!(err, CronError::NeverFires { .. }));
}

#[test]
fn each_refusal_names_what_it_refused() {
    match parse("0 6 * *") {
        Err(CronError::FieldCount { got, .. }) => assert_eq!(got, 4),
        _ => panic!("expected a field count error"),
    }
    match parse("0 25 * * *") {
        Err(CronError::Field { field, text, .. }) => {
            assert_eq!(field, 1);
            assert_eq!(text, "25");
        }
        _ => panic!("expected a field error"),
    }
    match parse("1-x * * * *") {
        Err(CronError::Field { field, .. }) => assert_eq!(field, 0),
        _ => panic!("expected a field error"),
    }
}

#[test]
fn the_source_is_kept_with_its_spacing_normalized() {
    let c = parse("  0   6 *  * * ").unwrap();
    assert_eq!(c.source, "0 6 * * *");
}

#[test]
fn minute_of_floors_toward_the_past() {
    assert_eq!(minute_of(0), 0);
    assert_eq!(minute_of(59), 0);
    assert_eq!(minute_of(60), 1);
    assert_eq!(minute_of(-1), -1);
    assert_eq!(minute_of(-60), -1);
    assert_eq!(minute_of(-61), -2);
}
