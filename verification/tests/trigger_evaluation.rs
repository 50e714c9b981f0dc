use pet_scheduler::evaluator::{compute_next_run, CRON_HORIZON_MS};

fn next(kind: &str, config: &str, from_ms: i64) -> Option<i64> {
    compute_next_run(&kind.to_string(), &config.to_string(), from_ms)
}

#[test]
fn interval_sixty_seconds_adds_sixty_thousand_ms() {
    let cfg = r#"{"type":"interval","seconds":60}"#;
    assert_eq!(next("interval", cfg, 1000), Some(61000));
    assert_eq!(next("interval", cfg, 1_700_000_000_000), Some(1_700_000_000_000 + 60_000));
}

#[test]
fn interval_one_second() {
    let cfg = r#"{"type":"interval","seconds":1}"#;
    assert_eq!(next("interval", cfg, 5000), Some(6000));
}

#[test]
fn interval_zero_seconds_has_no_next_run() {
    let cfg = r#"{"type":"interval","seconds":0}"#;
    assert_eq!(next("interval", cfg, 1000), None);
}

#[test]
fn interval_negative_seconds_has_no_next_run() {
    let cfg = r#"{"type":"interval","seconds":-5}"#;
    assert_eq!(next("interval", cfg, 1000), None);
}

#[test]
fn interval_overflow_has_no_next_run() {
    let cfg = r#"{"type":"interval","seconds":9223372036854775807}"#;
    assert_eq!(next("interval", cfg, 0), None);
}

#[test]
fn interval_malformed_config_has_no_next_run() {
    assert_eq!(next("interval", "not json", 1000), None);
    assert_eq!(next("interval", r#"{"type":"interval"}"#, 1000), None);
    assert_eq!(next("interval", r#"{"type":"interval","seconds":"x"}"#, 1000), None);
    assert_eq!(next("interval", r#"{"seconds":60}"#, 1000), None);
}

#[test]
fn cron_nine_am_daily_before_nine_fires_same_day() {
    // 2021-01-01T00:00:00Z
    let midnight_ms: i64 = 1_609_459_200_000;
    let nine_am_ms: i64 = midnight_ms + 9 * 3600 * 1000;
    let cfg = r#"{"type":"cron","expression":"0 9 * * *"}"#;
    assert_eq!(next("cron", cfg, midnight_ms), Some(nine_am_ms));
}

#[test]
fn cron_nine_am_daily_after_nine_fires_next_day() {
    let midnight_ms: i64 = 1_609_459_200_000;
    let ten_am_ms: i64 = midnight_ms + 10 * 3600 * 1000;
    let nine_am_next_day_ms: i64 = midnight_ms + 9 * 3600 * 1000 + 86_400_000;
    let cfg = r#"{"type":"cron","expression":"0 9 * * *"}"#;
    assert_eq!(next("cron", cfg, ten_am_ms), Some(nine_am_next_day_ms));
}

#[test]
fn cron_exactly_at_nine_is_strictly_after() {
    let midnight_ms: i64 = 1_609_459_200_000;
    let nine_am_ms: i64 = midnight_ms + 9 * 3600 * 1000;
    let cfg = r#"{"type":"cron","expression":"0 9 * * *"}"#;
    assert_eq!(next("cron", cfg, nine_am_ms), Some(nine_am_ms + 86_400_000));
}

#[test]
fn cron_unparsable_expression_has_no_next_run() {
    let cfg = r#"{"type":"cron","expression":"not a cron"}"#;
    assert_eq!(next("cron", cfg, 1000), None);
}

#[test]
fn cron_malformed_config_has_no_next_run() {
    assert_eq!(next("cron", "{}", 1000), None);
    assert_eq!(next("cron", "not json", 1000), None);
}

#[test]
fn cron_beyond_the_schedule_horizon_has_no_next_run() {
    let cfg = r#"{"type":"cron","expression":"0 9 * * *"}"#;
    // cron schedules end with the year 2100: nothing fires after its last second
    assert_eq!(next("cron", cfg, CRON_HORIZON_MS), None);
    assert_eq!(next("cron", cfg, CRON_HORIZON_MS + 1), None);
    assert_eq!(next("cron", cfg, i64::MAX), None);
}

#[test]
fn manual_event_and_unknown_kinds_never_schedule() {
    let cfg = r#"{"type":"manual"}"#;
    assert_eq!(next("manual", cfg, 1000), None);
    assert_eq!(next("event", cfg, 1000), None);
    assert_eq!(next("something_else", r#"{"type":"interval","seconds":60}"#, 1000), None);
}
