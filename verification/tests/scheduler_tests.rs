use chrono::{Duration, Utc};
use rubypass::config::{Config, UpdateSchedule};
use rubypass::scheduler::{should_update, should_update_checked, update_due};

fn cfg_with(schedule: UpdateSchedule, last: Option<&str>) -> Config {
    Config {
        bypass_enabled: false,
        autostart: false,
        update_schedule: schedule,
        last_updated: last.map(str::to_string),
        gateway_override: None,
    }
}

#[test]
fn test_never_never_updates() {
    let cfg = cfg_with(UpdateSchedule::Never, None);
    assert!(!should_update(&cfg));
}

#[test]
fn test_updates_when_no_last_updated() {
    let cfg = cfg_with(UpdateSchedule::Weekly, None);
    assert!(should_update(&cfg));
}

#[test]
fn test_weekly_not_due_if_recent() {
    let recent = Utc::now().format("%Y-%m-%dT%H:%M:%SZ").to_string();
    let cfg = cfg_with(UpdateSchedule::Weekly, Some(&recent));
    assert!(!should_update(&cfg));
}

#[test]
fn test_weekly_due_if_old() {
    let old = (Utc::now() - Duration::days(8))
        .format("%Y-%m-%dT%H:%M:%SZ").to_string();
    let cfg = cfg_with(UpdateSchedule::Weekly, Some(&old));
    assert!(should_update(&cfg));
}

#[test]
fn unreadable_last_update_means_due() {
    assert!(should_update(&cfg_with(UpdateSchedule::Daily, Some("yesterday"))));
    assert!(!should_update(&cfg_with(UpdateSchedule::Never, Some("yesterday"))));
}

#[test]
fn due_exactly_after_the_interval() {
    let t = (1_700_000_000i64, 0u32);
    assert!(!update_due(UpdateSchedule::Daily, Some(t), (false, (t.0 + 86_400) as u64, 0)));
    assert!(update_due(UpdateSchedule::Daily, Some(t), (false, (t.0 + 86_400) as u64, 1)));
    assert!(!update_due(UpdateSchedule::Weekly, Some(t), (false, (t.0 + 6 * 86_400) as u64, 0)));
    assert!(update_due(UpdateSchedule::Weekly, Some(t), (false, (t.0 + 7 * 86_400 + 1) as u64, 0)));
    assert!(!update_due(UpdateSchedule::Monthly, Some(t), (false, (t.0 + 30 * 86_400) as u64, 0)));
    assert!(update_due(UpdateSchedule::Monthly, Some(t), (false, (t.0 + 30 * 86_400 + 1) as u64, 0)));
    assert!(!update_due(UpdateSchedule::Never, None, (false, 0, 0)));
    assert!(update_due(UpdateSchedule::Daily, None, (true, 5, 0)));
}

#[test]
fn leap_second_instants_count_from_the_second_before() {
    let leap = (1_483_228_799i64, 1_500_000_000u32);
    assert!(!update_due(UpdateSchedule::Daily, Some(leap), (false, 1_483_228_799 + 86_400, 500_000_000)));
    assert!(update_due(UpdateSchedule::Daily, Some(leap), (false, 1_483_228_799 + 86_400, 500_000_001)));
}

#[test]
fn checked_update_refuses_unrepresentable_deadlines() {
    let far = cfg_with(UpdateSchedule::Monthly, Some("+262142-12-20T00:00:00Z"));
    assert_eq!(should_update_checked(&far), None);
    let cfg = cfg_with(UpdateSchedule::Daily, Some("2000-01-01T00:00:00Z"));
    assert_eq!(should_update_checked(&cfg), Some(true));
    assert_eq!(should_update_checked(&cfg_with(UpdateSchedule::Never, None)), Some(false));
}

#[test]
fn an_update_once_due_stays_due() {
    let t = (1_700_000_000i64, 0u32);
    let mut due_before = false;
    for offset in [0i64, 86_399, 86_400, 86_401, 90_000, 1_000_000] {
        let due = update_due(UpdateSchedule::Daily, Some(t), (false, (t.0 + offset) as u64, 0));
        assert!(!due_before || due);
        due_before = due;
    }
    assert!(due_before);
}

#[test]
fn clocks_before_the_epoch_count_backwards() {
    let t = (-100i64, 0u32);
    // The deadline is one day after -100 s: 86 300 s after the epoch.
    assert!(!update_due(UpdateSchedule::Daily, Some(t), (true, 1, 0)));
    assert!(update_due(UpdateSchedule::Daily, Some(t), (false, 86_300, 1)));
    let old = (-200_000i64, 0u32);
    // The deadline is -113 600 s; 113 599.5 s before the epoch is after it.
    assert!(update_due(UpdateSchedule::Daily, Some(old), (true, 113_599, 500_000_000)));
    assert!(!update_due(UpdateSchedule::Daily, Some(old), (true, 113_600, 0)));
    assert!(!update_due(UpdateSchedule::Daily, Some(old), (true, 113_600, 1)));
}
