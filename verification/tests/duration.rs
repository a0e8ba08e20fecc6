use vaultwarden_operator::duration::{duration_readable, parse_duration, Duration, MAX_NANOS};

#[test]
fn test_parse_duration_5m() {
    assert_eq!(parse_duration("5m").unwrap(), Duration::from_secs(300));
}

#[test]
fn test_parse_duration_1h() {
    assert_eq!(parse_duration("1h").unwrap(), Duration::from_secs(3600));
}

#[test]
fn test_parse_duration_1h30m() {
    assert_eq!(parse_duration("1h30m").unwrap(), Duration::from_secs(5400));
}

#[test]
fn test_parse_duration_30s() {
    assert_eq!(parse_duration("30s").unwrap(), Duration::from_secs(30));
}

#[test]
fn test_parse_duration_empty_is_error() {
    assert!(parse_duration("").is_err());
}

#[test]
fn test_parse_duration_invalid() {
    assert!(parse_duration("abc").is_err());
    assert!(parse_duration("5x").is_err());
}

#[test]
fn every_unit_has_its_seconds() {
    let secs = |s: &str| parse_duration(s).unwrap().as_secs();
    assert_eq!(secs("7s"), 7);
    assert_eq!(secs("7m"), 420);
    assert_eq!(secs("7h"), 25200);
    assert_eq!(secs("999ms"), 0);
    assert_eq!(secs("1000ms"), 1);
    assert_eq!(secs("  2m \n"), 120);
    assert_eq!(secs("0005s"), 5);
}

#[test]
fn units_below_a_second_count() {
    let nanos = |s: &str| parse_duration(s).unwrap().as_nanos();
    assert_eq!(nanos("7ns"), 7);
    assert_eq!(nanos("7us"), 7_000);
    assert_eq!(nanos("7\u{b5}s"), 7_000);
    assert_eq!(nanos("7ms"), 7_000_000);
    assert_eq!(nanos("7s"), 7_000_000_000);
    assert_eq!(nanos("1500ms"), 1_500_000_000);
    assert_eq!(
        parse_duration("1500ms").unwrap(),
        Duration {
            secs: 1,
            nanos: 500_000_000
        }
    );
    assert_eq!(
        parse_duration("1500ms").unwrap(),
        Duration::from_nanos(1_500_000_000)
    );
    assert_eq!(nanos("1s1ms1us1ns"), 1_001_001_001);
    assert_eq!(nanos("18446744073709551615ns"), u64::MAX as u128);
}

#[test]
fn terms_add_up() {
    let secs = |s: &str| parse_duration(s).unwrap().as_secs();
    assert_eq!(secs("1h30m") + secs("15s500ms"), secs("1h30m15s500ms"));
    assert_eq!(secs("1s1s1s"), 3);
    assert_eq!(secs("18446744073709551615s1s"), u64::MAX);
    assert_eq!(
        parse_duration("18446744073709551615s1s").unwrap(),
        Duration::from_secs(u64::MAX)
    );
    assert_eq!(
        parse_duration("1s18446744073709551615s").unwrap(),
        Duration::from_secs(u64::MAX)
    );
    assert_eq!(
        parse_duration("18446744073709551615s999ms1ms5ns").unwrap(),
        Duration::from_secs(u64::MAX)
    );
    assert_eq!(
        parse_duration("18446744073709551615s999ms").unwrap().as_nanos(),
        MAX_NANOS - 999_999
    );
}

#[test]
fn every_fault_has_its_message() {
    let message = |s: &str| parse_duration(s).unwrap_err();
    assert_eq!(message(" "), "empty duration string");
    assert_eq!(message("abc"), "unexpected char in duration \"abc\"");
    assert_eq!(message(" m5 "), "unexpected char in duration \"m5\"");
    assert_eq!(
        message("18446744073709551616s"),
        "invalid number in duration \"18446744073709551616s\""
    );
    assert_eq!(message("1h5"), "missing unit in duration \"1h5\"");
    assert_eq!(message("5x"), "unknown unit in duration \"5x\": \"x\"");
    assert_eq!(message("5\"m"), "unknown unit in duration \"5\\\"m\": \"\\\"\"");
}

#[test]
fn what_cannot_be_read_is_told_apart() {
    assert!(duration_readable("1h30m"));
    assert!(duration_readable(""));
    assert!(duration_readable("5x"));
    assert!(duration_readable("18446744073709551615s"));
    assert!(duration_readable("18446744073709551615ms"));
    assert!(duration_readable("307445734561825860m"));
    assert!(!duration_readable("307445734561825861m"));
    assert!(duration_readable("5124095576030431h"));
    assert!(!duration_readable("5124095576030432h"));
    assert!(!duration_readable("18446744073709551615m"));
    assert!(!duration_readable("18446744073709551615h"));
    assert!(!duration_readable("5\u{e9}"));
}

#[test]
fn only_no_time_is_zero() {
    assert!(Duration::from_secs(0).is_zero());
    assert!(!Duration::from_nanos(1).is_zero());
    assert!(!Duration::from_secs(1).is_zero());
}
