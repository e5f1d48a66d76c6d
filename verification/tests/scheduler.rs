use clawhive::cron::{CronError, CronExpression};
use clawhive::datetime::CivilDateTime;
use clawhive::schedule::{is_schedule_due, next_fire_time, Schedule};
use clawhive::scheduler::{agent_key, validate_schedule, ScheduleService, SchedulerError};

fn at(year: i32, month: u32, day: u32, hour: u32, minute: u32, second: u32) -> CivilDateTime {
    CivilDateTime { year, month, day, hour, minute, second }
}

fn now_seconds() -> i64 {
    std::time::SystemTime::now().duration_since(std::time::UNIX_EPOCH).unwrap().as_secs() as i64
}

fn every_minute() -> Schedule {
    Schedule { cron: "0 * * * * *".to_string(), timezone: "UTC".to_string() }
}

#[test]
fn test_parse_wildcard() {
    let cron = CronExpression::parse("* * * * *").unwrap();
    assert!(cron.matches_datetime(&at(2024, 1, 15, 12, 30, 0)));
}

#[test]
fn test_parse_specific_values() {
    let cron = CronExpression::parse("0 12 * * *").unwrap();
    assert!(cron.matches_datetime(&at(2024, 1, 15, 12, 0, 0)));
    assert!(!cron.matches_datetime(&at(2024, 1, 15, 13, 0, 0)));
}

#[test]
fn test_parse_range() {
    let cron = CronExpression::parse("0 9-17 * * *").unwrap();
    assert!(cron.matches_datetime(&at(2024, 1, 15, 9, 0, 0)));
    assert!(!cron.matches_datetime(&at(2024, 1, 15, 18, 0, 0)));
}

#[test]
fn test_parse_step() {
    let cron = CronExpression::parse("*/5 * * * *").unwrap();
    assert!(cron.matches_datetime(&at(2024, 1, 15, 10, 0, 0)));
    assert!(cron.matches_datetime(&at(2024, 1, 15, 10, 5, 0)));
    assert!(!cron.matches_datetime(&at(2024, 1, 15, 10, 3, 0)));
}

#[test]
fn test_parse_list() {
    let cron = CronExpression::parse("0 0,12 * * *").unwrap();
    assert!(cron.matches_datetime(&at(2024, 1, 15, 0, 0, 0)));
    assert!(cron.matches_datetime(&at(2024, 1, 15, 12, 0, 0)));
    assert!(!cron.matches_datetime(&at(2024, 1, 15, 6, 0, 0)));
}

#[test]
fn test_parse_6_field_with_seconds() {
    let cron = CronExpression::parse("0 */5 * * * *").unwrap();
    assert!(cron.matches_datetime(&at(2024, 1, 15, 10, 0, 0)));
    assert!(cron.matches_datetime(&at(2024, 1, 15, 10, 5, 0)));
}

#[test]
fn test_next_fire_time() {
    let cron = CronExpression::parse("*/5 * * * *").unwrap();
    let next = next_fire_time(&cron, at(2024, 1, 15, 10, 3, 0)).unwrap();
    assert_eq!((next.hour, next.minute), (10, 5));
}

#[test]
fn test_next_fire_time_crosses_hour() {
    let cron = CronExpression::parse("*/5 * * * *").unwrap();
    let next = next_fire_time(&cron, at(2024, 1, 15, 10, 58, 0)).unwrap();
    assert_eq!((next.hour, next.minute), (11, 0));
}

#[test]
fn next_fire_time_crosses_year_and_weekday() {
    let cron = CronExpression::parse("30 6 1 1 *").unwrap();
    assert_eq!(next_fire_time(&cron, at(2024, 3, 1, 0, 0, 0)), Some(at(2025, 1, 1, 6, 30, 0)));
    // 2024-01-15 is a Monday; the next Sunday is the 21st.
    let sundays = CronExpression::parse("0 9 * * 0").unwrap();
    assert_eq!(next_fire_time(&sundays, at(2024, 1, 15, 10, 0, 0)), Some(at(2024, 1, 21, 9, 0, 0)));
}

#[test]
fn next_fire_time_moves_past_a_day_the_month_lacks() {
    // February has no 31st: the search moves on to March.
    let cron = CronExpression::parse("0 0 12 31 * *").unwrap();
    assert_eq!(next_fire_time(&cron, at(2024, 2, 10, 0, 0, 0)), Some(at(2024, 3, 31, 12, 0, 0)));
    let cron = CronExpression::parse("0 0 31 * *").unwrap();
    assert_eq!(next_fire_time(&cron, at(2024, 2, 1, 0, 0, 0)), Some(at(2024, 3, 31, 0, 0, 0)));
    // From January it reaches the 31st of January.
    let cron = CronExpression::parse("0 0 12 31 * *").unwrap();
    assert_eq!(next_fire_time(&cron, at(2024, 1, 10, 0, 0, 0)), Some(at(2024, 1, 31, 12, 0, 0)));
}

#[test]
fn next_fire_time_is_after_from() {
    let every_minute = CronExpression::parse("* * * * *").unwrap();
    assert_eq!(next_fire_time(&every_minute, at(2024, 1, 10, 10, 3, 30)), Some(at(2024, 1, 10, 10, 4, 0)));
    // Listed seconds later in the same minute are found.
    let secs = CronExpression::parse("15,45 * * * * *").unwrap();
    assert_eq!(next_fire_time(&secs, at(2024, 1, 10, 0, 0, 20)), Some(at(2024, 1, 10, 0, 0, 45)));
    assert_eq!(next_fire_time(&secs, at(2024, 1, 10, 0, 0, 59)), Some(at(2024, 1, 10, 0, 1, 15)));
}

#[test]
fn day_of_week_seven_is_sunday() {
    let cron = CronExpression::parse("0 0 * * 7").unwrap();
    // 2024-01-14 is a Sunday.
    assert!(cron.matches_datetime(&at(2024, 1, 14, 0, 0, 0)));
    assert!(!cron.matches_datetime(&at(2024, 1, 15, 0, 0, 0)));
    assert_eq!(next_fire_time(&cron, at(2024, 1, 10, 0, 0, 0)), Some(at(2024, 1, 14, 0, 0, 0)));
    let both = CronExpression::parse("0 0 * * 0,7").unwrap();
    assert_eq!(both.day_of_week.values, vec![0]);
}

#[test]
fn test_invalid_cron() {
    assert!(CronExpression::parse("invalid").is_err());
    assert!(CronExpression::parse("60 * * * *").is_err());
    assert!(CronExpression::parse("0 25 * * *").is_err());
}

#[test]
fn cron_error_texts() {
    assert_eq!(CronExpression::parse("invalid").unwrap_err().message(), "expected 5 or 6 fields, got 1");
    assert_eq!(CronExpression::parse("60 * * * *").unwrap_err().message(), "value 60 out of range 0-59");
    assert_eq!(CronExpression::parse("*/0 * * * *").unwrap_err(), CronError::ZeroStep);
    assert_eq!(CronExpression::parse("5-2 * * * *").unwrap_err().message(), "range 5-2 is invalid");
    assert_eq!(CronExpression::parse("x * * * *").unwrap_err().message(), "invalid value: x");
    assert_eq!(CronExpression::parse("*/y * * * *").unwrap_err().message(), "invalid step: y");
}

#[test]
fn due_only_with_valid_cron_and_zone() {
    let now = now_seconds();
    assert!(is_schedule_due(&every_minute(), now));
    let bad_zone = Schedule { cron: "0 * * * * *".to_string(), timezone: "Mars/Olympus".to_string() };
    assert!(!is_schedule_due(&bad_zone, now));
    let bad_cron = Schedule { cron: "nope".to_string(), timezone: "UTC".to_string() };
    assert!(!is_schedule_due(&bad_cron, now));
}

#[test]
fn test_tick_returns_due_schedules() {
    let mut svc = ScheduleService::new();
    let agent_id: u128 = 0x0190_0000_0000_7000_8000_0000_0000_0001;
    svc.add_schedule(agent_id, every_minute()).unwrap();
    let due = svc.tick(now_seconds());
    assert!(!due.is_empty());
    assert_eq!(due[0].agent_id, agent_id);
}

#[test]
fn test_record_and_get_last_run() {
    let mut svc = ScheduleService::new();
    let agent_id: u128 = 7;
    svc.record_last_run(agent_id, 0, 1_000_000);
    assert_eq!(svc.get_last_run(agent_id, 0), Some(1_000_000));
    svc.record_last_run(agent_id, 0, 2_000_000);
    assert_eq!(svc.get_last_run(agent_id, 0), Some(2_000_000));
    assert_eq!(svc.get_last_run(agent_id, 1), None);
}

#[test]
fn test_get_last_run_returns_none_when_empty() {
    let svc = ScheduleService::new();
    assert_eq!(svc.get_last_run(7, 0), None);
}

#[test]
fn add_list_remove_schedules() {
    let mut svc = ScheduleService::new();
    let a: u128 = 5;
    let b: u128 = 3;
    svc.add_schedule(a, every_minute()).unwrap();
    svc.add_schedule(b, Schedule { cron: "0 0 * * *".into(), timezone: "Asia/Jakarta".into() }).unwrap();
    svc.add_schedule(a, Schedule { cron: "*/5 * * * *".into(), timezone: "UTC".into() }).unwrap();
    let listed: Vec<String> = svc.list_schedules(a).into_iter().map(|s| s.cron).collect();
    assert_eq!(listed, vec!["0 * * * * *".to_string(), "*/5 * * * *".to_string()]);

    let err = svc.add_schedule(a, Schedule { cron: "61 * * * *".into(), timezone: "UTC".into() }).unwrap_err();
    assert_eq!(err.message(), "invalid cron expression: value 61 out of range 0-59");
    let err = svc.add_schedule(a, Schedule { cron: "* * * * *".into(), timezone: "Nowhere".into() }).unwrap_err();
    assert_eq!(err.message(), "timezone parsing failed: failed to parse timezone");
    assert_eq!(svc.list_schedules(a).len(), 2);

    let err = svc.remove_schedule(a, 2).unwrap_err();
    assert_eq!(
        err,
        SchedulerError::ScheduleNotFound {
            agent_id: "00000000-0000-0000-0000-000000000005".into(),
            schedule_id: "2".into(),
        }
    );
    svc.remove_schedule(a, 0).unwrap();
    let listed: Vec<String> = svc.list_schedules(a).into_iter().map(|s| s.cron).collect();
    assert_eq!(listed, vec!["*/5 * * * *".to_string()]);
    svc.remove_schedule(a, 0).unwrap();
    assert!(svc.list_schedules(a).is_empty());
    assert_eq!(
        svc.remove_schedule(a, 0).unwrap_err().message(),
        "agent not found: 00000000-0000-0000-0000-000000000005"
    );
    assert_eq!(svc.list_schedules(b).len(), 1);
}

#[test]
fn due_schedules_in_agent_order() {
    let mut svc = ScheduleService::new();
    svc.add_schedule(9, every_minute()).unwrap();
    svc.add_schedule(2, every_minute()).unwrap();
    let due = svc.get_due_schedules(now_seconds());
    let agents: Vec<u128> = due.iter().map(|d| d.agent_id).collect();
    assert_eq!(agents, vec![2, 9]);
}

#[test]
fn schedule_keys_and_validation() {
    assert_eq!(agent_key(1), "schedule:00000000-0000-0000-0000-000000000001");
    assert!(validate_schedule(&every_minute()).is_ok());
}

#[test]
fn due_in_the_minute_around_a_fire_time() {
    let hourly = Schedule { cron: "0 * * * *".to_string(), timezone: "UTC".to_string() };
    // 2024-01-15 10:00:30 UTC: the 10:00 run was half a minute ago.
    assert!(is_schedule_due(&hourly, 1_705_312_830));
    // 09:59:20 UTC: the 10:00 run is forty seconds away.
    assert!(is_schedule_due(&hourly, 1_705_312_760));
    // 10:30:00 UTC: half an hour from either run.
    assert!(!is_schedule_due(&hourly, 1_705_314_600));
    // 10:01:01 UTC: the 10:00 run is more than a minute past.
    assert!(!is_schedule_due(&hourly, 1_705_312_861));
}

#[test]
fn next_fire_time_skips_no_matching_second() {
    // every second of 2024-01-15 from 10:00:00 to 11:59:59, in order
    let day: Vec<CivilDateTime> = (0..7200u32).map(|k| at(2024, 1, 15, 10 + k / 3600, (k / 60) % 60, k % 60)).collect();
    for text in ["*/7 * * * *", "15,45 */2 * * * *", "30 59 10 * * *"] {
        let cron = CronExpression::parse(text).unwrap();
        let from = day[100];
        let next = next_fire_time(&cron, from).unwrap();
        assert!(cron.matches_datetime(&next));
        let mut seen_next = false;
        for dt in &day[101..] {
            if *dt == next {
                seen_next = true;
                break;
            }
            assert!(!cron.matches_datetime(dt), "{} matches {:?} before {:?}", text, dt, next);
        }
        assert!(seen_next, "{}: {:?} lies in the scanned two hours", text, next);
    }
}
