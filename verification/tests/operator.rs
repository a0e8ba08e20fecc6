use vaultwarden_operator::config::{
    interval_env, optional_env, refresh_interval_env, VAULT_CACHE_MIN_REFRESH_INTERVAL, VAULT_CACHE_REFRESH_INTERVAL,
};
use vaultwarden_operator::duration::Duration;
use vaultwarden_operator::health::{
    handle_request, headers_over, NOT_FOUND_RESPONSE, OK_RESPONSE,
};
use vaultwarden_operator::leader::{
    acquire_step, error_threshold, AcquireStep, LeaderConfig, LeaseReply, Renewal,
};
use vaultwarden_operator::string_map::StringMap;

// ---------------------------------------------------------------------------
// Health
// ---------------------------------------------------------------------------

#[test]
fn probes_are_answered_and_nothing_else() {
    assert_eq!(handle_request("GET /healthz HTTP/1.1\r\n"), OK_RESPONSE);
    assert_eq!(handle_request("GET /readyz HTTP/1.1\r\n"), OK_RESPONSE);
    assert_eq!(handle_request("  GET\t/readyz"), OK_RESPONSE);
    assert_eq!(handle_request("GET /healthz/ HTTP/1.1"), NOT_FOUND_RESPONSE);
    assert_eq!(handle_request("GET / HTTP/1.1"), NOT_FOUND_RESPONSE);
    assert_eq!(handle_request("GET"), NOT_FOUND_RESPONSE);
    assert_eq!(handle_request(""), NOT_FOUND_RESPONSE);
    assert!(OK_RESPONSE.ends_with("Content-Length: 2\r\nContent-Type: text/plain\r\n\r\nOK"));
    assert!(NOT_FOUND_RESPONSE.starts_with("HTTP/1.1 404 Not Found\r\n"));
}

#[test]
fn headers_end_with_a_blank_line() {
    assert!(headers_over(None, "Host: x\r\n"));
    assert!(headers_over(Some(0), ""));
    assert!(headers_over(Some(2), "\r\n"));
    assert!(headers_over(Some(1), "\n"));
    assert!(!headers_over(Some(9), "Host: x\r\n"));
}

// ---------------------------------------------------------------------------
// Leader election
// ---------------------------------------------------------------------------

#[test]
fn a_leader_configuration_has_its_fallbacks() {
    let set = LeaderConfig::from_env(
        Some("lease".to_string()),
        "ns".to_string(),
        Some("pod-0".to_string()),
    );
    assert_eq!(set.lease_name, "lease");
    assert_eq!(set.namespace, "ns");
    assert_eq!(set.holder_id, "pod-0");
    let unset = LeaderConfig::from_env(None, "ns".to_string(), Some(String::new()));
    assert_eq!(unset.lease_name, "vaultwarden-operator-leader");
    assert!(uuid::Uuid::parse_str(&unset.holder_id).is_ok());
    let other = LeaderConfig::from_env(None, "ns".to_string(), None);
    assert_ne!(unset.holder_id, other.holder_id);
}

#[test]
fn a_candidate_waits_until_it_holds_the_lease() {
    let wait = AcquireStep::Wait(Duration::from_secs(5));
    assert_eq!(acquire_step(LeaseReply::HeldByOther), wait);
    assert_eq!(acquire_step(LeaseReply::Error), wait);
    assert_eq!(acquire_step(LeaseReply::Held), AcquireStep::Leading);
}

#[test]
fn a_leader_gives_up_after_three_errors_in_a_row() {
    assert_eq!(error_threshold(), 3);
    let mut renewal = Renewal::new();
    for _ in 0..5 {
        assert!(renewal.keep_renewing(LeaseReply::Error));
        assert!(renewal.keep_renewing(LeaseReply::Error));
        assert!(renewal.keep_renewing(LeaseReply::Held));
    }
    assert!(renewal.keep_renewing(LeaseReply::Error));
    assert!(renewal.keep_renewing(LeaseReply::Error));
    assert!(!renewal.keep_renewing(LeaseReply::Error));
}

#[test]
fn a_leader_gives_up_when_another_holds_the_lease() {
    let mut renewal = Renewal::new();
    assert!(renewal.keep_renewing(LeaseReply::Held));
    assert!(!renewal.keep_renewing(LeaseReply::HeldByOther));
}

// ---------------------------------------------------------------------------
// Settings
// ---------------------------------------------------------------------------

#[test]
fn empty_settings_count_as_left_out() {
    assert_eq!(optional_env(None), None);
    assert_eq!(optional_env(Some(String::new())), None);
    assert_eq!(optional_env(Some(" ".to_string())), Some(" ".to_string()));
}

#[test]
fn intervals_have_defaults() {
    let read = |value: Option<&str>| {
        interval_env(
            "VAULT_CACHE_REFRESH_INTERVAL",
            value.map(str::to_string),
            VAULT_CACHE_REFRESH_INTERVAL,
        )
    };
    assert_eq!(read(None).unwrap(), Duration::from_secs(300));
    assert_eq!(read(Some("")).unwrap(), Duration::from_secs(300));
    assert_eq!(read(Some("90s")).unwrap(), Duration::from_secs(90));
    assert_eq!(
        read(Some("1500ms")).unwrap(),
        Duration::from_nanos(1_500_000_000)
    );
    assert_eq!(
        read(Some("often")).unwrap_err(),
        "VAULT_CACHE_REFRESH_INTERVAL: unexpected char in duration \"often\""
    );
    assert_eq!(VAULT_CACHE_MIN_REFRESH_INTERVAL, 30);
}

#[test]
fn the_refresh_interval_has_to_be_positive() {
    let read = |value: &str| refresh_interval_env(Some(value.to_string()));
    assert_eq!(refresh_interval_env(None).unwrap(), Duration::from_secs(300));
    assert_eq!(read("1ns").unwrap(), Duration::from_nanos(1));
    assert_eq!(
        read("0s").unwrap_err(),
        "VAULT_CACHE_REFRESH_INTERVAL must be positive"
    );
    assert_eq!(
        read("5").unwrap_err(),
        "VAULT_CACHE_REFRESH_INTERVAL: missing unit in duration \"5\""
    );
}

// ---------------------------------------------------------------------------
// Maps
// ---------------------------------------------------------------------------

#[test]
fn a_map_keeps_its_keys_distinct_and_in_order() {
    let mut map: StringMap<String> = StringMap::new();
    map.insert("b".to_string(), "1".to_string());
    map.insert("a".to_string(), "2".to_string());
    map.insert("b".to_string(), "3".to_string());
    assert_eq!(map.len(), 2);
    assert_eq!(map.get("b"), Some(&"3".to_string()));
    assert_eq!(map.get("c"), None);
    assert!(map.contains_key("a"));
    assert_eq!(map.entry(0).0, "b");
    let copy = map.clone();
    assert_eq!(copy.len(), 2);
    assert_eq!(copy.entry(0), (&"b".to_string(), &"3".to_string()));
    assert_eq!(copy.entry(1), (&"a".to_string(), &"2".to_string()));
}
