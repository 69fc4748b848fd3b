use agent_core::duration::Duration;
use agent_core::scheduling::active_hours::{
    is_active_at, is_active_hours, parse_hhmm, parse_hours, parse_interval, parse_target_account,
    parse_target_channel,
};
use agent_core::time::UtcInstant;

#[test]
fn parse_interval_minutes() {
    assert_eq!(parse_interval("30m"), Some(Duration::from_secs(30 * 60)));
    assert_eq!(parse_interval("5m"), Some(Duration::from_secs(5 * 60)));
}

#[test]
fn parse_interval_hours() {
    assert_eq!(parse_interval("1h"), Some(Duration::from_secs(3600)));
    assert_eq!(parse_interval("2h"), Some(Duration::from_secs(7200)));
}

#[test]
fn parse_interval_seconds() {
    assert_eq!(parse_interval("30s"), Some(Duration::from_secs(30)));
}

#[test]
fn parse_interval_zero_disables() {
    assert_eq!(parse_interval("0"), None);
}

#[test]
fn parse_interval_invalid() {
    assert_eq!(parse_interval("abc"), None);
}

#[test]
fn parse_interval_edges() {
    assert_eq!(parse_interval(" 7 "), Some(Duration::from_secs(420)));
    assert_eq!(parse_interval("+5m"), Some(Duration::from_secs(300)));
    assert_eq!(parse_interval(""), None);
    assert_eq!(parse_interval("m"), None);
    assert_eq!(parse_interval("0s"), Some(Duration::from_secs(0)));
    assert_eq!(parse_interval("18446744073709551615s"), Some(Duration::from_secs(u64::MAX)));
    assert_eq!(parse_interval("18446744073709551615m"), None);
}

#[test]
fn parse_hours_valid() {
    assert_eq!(parse_hhmm("08:00"), Some(480));
    assert_eq!(parse_hhmm("24:00"), Some(1440));
    assert_eq!(parse_hhmm("13:30"), Some(810));
}

#[test]
fn parse_hours_range_and_limits() {
    assert_eq!(parse_hours("08:00-24:00"), Some((480, 1440)));
    assert_eq!(parse_hours(" 8:5 - 9 : 7 "), Some((485, 547)));
    assert_eq!(parse_hours("25:00-26:00"), None);
    assert_eq!(parse_hhmm("24:01"), None);
    assert_eq!(parse_hhmm("12:60"), None);
    assert_eq!(parse_hhmm("12"), None);
}

#[test]
fn is_active_hours_no_restriction() {
    assert!(is_active_hours(&None, "Asia/Shanghai"));
}

#[test]
fn is_active_hours_invalid_format_always_active() {
    assert!(is_active_hours(&Some("bad".to_string()), "Asia/Shanghai"));
}

#[test]
fn active_hours_follow_the_zone() {
    // 1970-01-01 00:30 UTC is 08:30 in Shanghai.
    let at = UtcInstant { secs: 1800, nanos: 0 };
    let hours = Some("08:00-09:00".to_string());
    assert!(is_active_at(&hours, "Asia/Shanghai", &at));
    assert!(!is_active_at(&hours, "UTC", &at));
    // An unknown zone is read as UTC.
    assert!(is_active_at(&Some("00:00-01:00".to_string()), "No/Where", &at));
    // The end of the range is not part of it.
    assert!(!is_active_at(&Some("00:00-00:30".to_string()), "UTC", &at));
}

#[test]
fn targets_have_channel_and_account() {
    assert_eq!(parse_target_channel("telegram:bot1"), Some("telegram".to_string()));
    assert_eq!(parse_target_account("telegram:bot1"), Some("bot1".to_string()));
    assert_eq!(parse_target_channel("telegram"), Some("telegram".to_string()));
    assert_eq!(parse_target_account("telegram"), None);
    for t in ["last", "none", ""] {
        assert_eq!(parse_target_channel(t), None);
        assert_eq!(parse_target_account(t), None);
    }
    assert_eq!(parse_target_account("a:b:c"), Some("b:c".to_string()));
}
