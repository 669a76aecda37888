use wincron::config::parse_config;
use wincron::constraint::{read_u8, Constraint};
use wincron::dispatch::{Dispatcher, LOOKAHEAD_MS, POLL_MS};
use wincron::entry::Entry;
use wincron::schedule::{Schedule, ScheduleError};
use wincron::time::LocalTime;

fn valid_values(c: &Constraint, limit: u32) -> Vec<u32> {
    (0..limit).filter(|v| c.satisfy(*v)).collect()
}

fn schedule_of(line: &str) -> Schedule {
    let parts: Vec<&str> = line.split(' ').collect();
    Schedule::new(
        Constraint::parse(parts[0], 60, false).unwrap(),
        Constraint::parse(parts[1], 24, false).unwrap(),
        Constraint::parse(parts[2], 32, true).unwrap(),
        Constraint::parse(parts[3], 13, true).unwrap(),
        Constraint::parse(parts[4], 7, false).unwrap(),
    )
}

fn at(y: i32, mo: u32, d: u32, h: u32, mi: u32, s: u32) -> LocalTime {
    LocalTime::from_parts(y, mo, d, h, mi, s).unwrap()
}

#[test]
fn step_over_wildcard() {
    let c = Constraint::parse("*/15", 60, false).unwrap();
    assert_eq!(valid_values(&c, 60), vec![0, 15, 30, 45]);
}

#[test]
fn day_of_month_limit_rejected() {
    assert!(Constraint::parse("32", 32, true).is_none());
}

#[test]
fn zero_in_one_indexed_rejected() {
    assert!(Constraint::parse("0", 32, true).is_none());
    assert!(Constraint::parse("0", 13, true).is_none());
}

#[test]
fn stepped_range() {
    let c = Constraint::parse("1-5/2", 7, false).unwrap();
    assert_eq!(valid_values(&c, 7), vec![1, 3, 5]);
}

#[test]
fn list_of_items() {
    let c = Constraint::parse("1,3-4,10-20/5", 60, false).unwrap();
    assert_eq!(valid_values(&c, 60), vec![1, 3, 4, 10, 15, 20]);
    let w = Constraint::parse("*", 13, true).unwrap();
    assert_eq!(valid_values(&w, 13), (1..13).collect::<Vec<u32>>());
}

#[test]
fn malformed_fields_rejected() {
    for text in ["", ",", "1,", "5/2", "*5", "a", "1-", "1-5/", "*/0", "256", "-3", "1--2", "60"] {
        assert!(Constraint::parse(text, 60, false).is_none(), "{text}");
    }
}

#[test]
fn parse_is_deterministic() {
    let a = Constraint::parse("0-30/7,45", 60, false).unwrap();
    let b = Constraint::parse("0-30/7,45", 60, false).unwrap();
    assert_eq!(valid_values(&a, 60), valid_values(&b, 60));
}

#[test]
fn read_u8_reads_digit_runs() {
    let s: Vec<char> = "042x".chars().collect();
    assert_eq!(read_u8(&s, 0), (Some(42), 3));
    let big: Vec<char> = "300".chars().collect();
    assert_eq!(read_u8(&big, 0), (None, 3));
    let none: Vec<char> = "x".chars().collect();
    assert_eq!(read_u8(&none, 0), (None, 0));
}

#[test]
fn yearly_schedule_from_march() {
    let s = schedule_of("0 0 1 1 *");
    let next = s.calc_next(&at(2024, 3, 15, 10, 0, 0)).unwrap();
    assert_eq!(next, at(2025, 1, 1, 0, 0, 0));
}

#[test]
fn daily_schedule_boundaries() {
    let s = schedule_of("30 2 * * *");
    assert_eq!(s.calc_next(&at(2024, 6, 1, 2, 29, 59)).unwrap(), at(2024, 6, 1, 2, 30, 0));
    assert_eq!(s.calc_next(&at(2024, 6, 1, 2, 30, 0)).unwrap(), at(2024, 6, 1, 2, 30, 0));
    assert_eq!(s.calc_next(&at(2024, 6, 1, 2, 30, 1)).unwrap(), at(2024, 6, 2, 2, 30, 0));
}

#[test]
fn weekday_field_uses_calendar() {
    // 2024-06-01 is a Saturday; the next Monday is 2024-06-03.
    let s = schedule_of("0 9 * * 1");
    assert_eq!(s.calc_next(&at(2024, 6, 1, 12, 0, 0)).unwrap(), at(2024, 6, 3, 9, 0, 0));
}

#[test]
fn impossible_schedule_is_reported() {
    let s = schedule_of("0 0 31 2 *");
    assert_eq!(s.calc_next(&at(2024, 1, 1, 0, 0, 0)), Err(ScheduleError::Unsatisfiable));
}

#[test]
fn next_run_is_never_before_now() {
    let s = schedule_of("*/7 * * * *");
    let mut t = at(2024, 2, 28, 23, 50, 13);
    for _ in 0..20 {
        let n = s.calc_next(&t).unwrap();
        assert!(!n.is_before(&t));
        t = LocalTime { nanosecond: 1, ..n };
    }
}

#[test]
fn memoized_next_run_is_stable() {
    let mut e = Entry::new("echo hi".to_string(), schedule_of("*/5 * * * *"));
    let now = at(2024, 6, 1, 10, 2, 30);
    let first = e.next_run(&now).unwrap();
    let second = e.next_run(&now).unwrap();
    assert_eq!(first, second);
    assert_eq!(first, at(2024, 6, 1, 10, 5, 0));
    assert_eq!(e.command(), "echo hi");
}

#[test]
fn equal_schedules_share_a_batch() {
    let entries = parse_config("*/5 * * * * job-a\n*/5 * * * * job-b\n0 3 * * * job-c\n").unwrap();
    let mut d = Dispatcher::new(Some(entries));
    let plan = d.plan(&at(2024, 6, 1, 10, 4, 55));
    assert_eq!(plan.nearest, Some(at(2024, 6, 1, 10, 5, 0)));
    assert_eq!(plan.sleep_ms, 5000);
    assert!(plan.failed.is_empty());
    let mut batch = d.take_batch();
    batch.sort();
    assert_eq!(batch, vec!["job-a".to_string(), "job-b".to_string()]);
    assert!(d.take_batch().is_empty());
}

#[test]
fn far_runs_only_poll() {
    let entries = parse_config("0 3 * * * job-c\n").unwrap();
    let mut d = Dispatcher::new(Some(entries));
    let plan = d.plan(&at(2024, 6, 1, 10, 4, 55));
    assert_eq!(plan.sleep_ms, POLL_MS);
    assert!(d.take_batch().is_empty());
    assert_eq!(LOOKAHEAD_MS, 10_000);
}

#[test]
fn reload_discards_armed_batch() {
    let entries = parse_config("*/5 * * * * job-a\n").unwrap();
    let mut d = Dispatcher::new(Some(entries));
    d.plan(&at(2024, 6, 1, 10, 4, 55));
    d.reload(parse_config("0 3 * * * job-c\n"));
    assert!(d.take_batch().is_empty());
}

#[test]
fn unsatisfiable_entry_is_reported_not_fatal() {
    let entries = parse_config("0 0 31 2 * never\n*/5 * * * * job-a\n").unwrap();
    let mut d = Dispatcher::new(Some(entries));
    let plan = d.plan(&at(2024, 6, 1, 10, 4, 55));
    assert_eq!(plan.failed, vec![0]);
    assert_eq!(d.take_batch(), vec!["job-a".to_string()]);
}

#[test]
fn malformed_line_rejects_whole_config() {
    let text = "*/5 * * * * job-a\n61 * * * * bad\n0 3 * * * job-c\n";
    assert!(parse_config(text).is_none());
    let mut d = Dispatcher::new(parse_config(text));
    let plan = d.plan(&at(2024, 6, 1, 10, 4, 55));
    assert_eq!(plan.nearest, None);
    assert_eq!(plan.sleep_ms, POLL_MS);
}

#[test]
fn config_skips_blank_and_comment_lines() {
    let text = "# nightly\n\n  \t\n30 2 * * *   backup --all  \r\n";
    let entries = parse_config(text).unwrap();
    assert_eq!(entries.len(), 1);
    assert_eq!(entries[0].command(), "backup --all");
}

#[test]
fn from_parts_rejects_invalid_dates() {
    assert!(LocalTime::from_parts(2023, 2, 29, 0, 0, 0).is_none());
    assert!(LocalTime::from_parts(2024, 2, 29, 0, 0, 0).is_some());
    assert!(LocalTime::from_parts(2024, 1, 1, 24, 0, 0).is_none());
    assert_eq!(at(1, 1, 1, 0, 0, 0).day, 1);
    assert_eq!(at(2024, 6, 1, 0, 0, 0).millis_until(&at(2024, 6, 2, 0, 0, 1)), 86_401_000);
}

#[test]
fn calendar_of_known_day() {
    let c = at(2024, 6, 1, 0, 0, 0).calendar();
    assert_eq!((c.month, c.day, c.weekday), (6, 1, 6));
}
