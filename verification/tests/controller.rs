use vaultwarden_operator::controller::{
    build_secret, error_policy, failed_status_at, humantime_parse, parse_sync_interval,
    ready_status_at, reconcile, reconcile_apply, resource_namespace, secret_requests, secret_write,
    secret_written, secrets_fetched, set_failed_status, set_ready_status, status_reported,
    upsert_condition, Action, ApplyStep, ReconcileError, ReconcileEvent, SecretWrite,
    DEFAULT_SYNC_INTERVAL, FINALIZER_NAME,
};
use vaultwarden_operator::crd::{
    StatusCondition, VaultwardenSecret, VaultwardenSecretDataItem, VaultwardenSecretSpec,
    VaultwardenSecretStatus,
};
use vaultwarden_operator::duration::Duration;
use vaultwarden_operator::string_map::StringMap;
use vaultwarden_operator::vault::auth::Credentials;
use vaultwarden_operator::vault::crypto::SymmetricKey;
use vaultwarden_operator::vault::sync::{
    index_orgs, DecryptedItem, LookupError, SyncOrganization, VaultCache,
};
use vaultwarden_operator::vault::{Moment, Session, VaultError};

#[test]
fn test_parse_sync_interval_empty() {
    assert_eq!(
        parse_sync_interval("").unwrap(),
        Duration::from_secs(DEFAULT_SYNC_INTERVAL)
    );
}

#[test]
fn test_parse_sync_interval_5m() {
    assert_eq!(parse_sync_interval("5m").unwrap(), Duration::from_secs(300));
}

#[test]
fn test_parse_sync_interval_1h() {
    assert_eq!(
        parse_sync_interval("1h").unwrap(),
        Duration::from_secs(3600)
    );
}

#[test]
fn test_parse_sync_interval_1h30m() {
    assert_eq!(
        parse_sync_interval("1h30m").unwrap(),
        Duration::from_secs(5400)
    );
}

#[test]
fn test_parse_sync_interval_30s() {
    assert_eq!(parse_sync_interval("30s").unwrap(), Duration::from_secs(30));
}

#[test]
fn test_parse_sync_interval_invalid() {
    assert!(parse_sync_interval("abc").is_err());
    assert!(parse_sync_interval("5x").is_err());
}

#[test]
fn an_interval_has_to_be_positive() {
    assert_eq!(
        parse_sync_interval("0s").unwrap_err(),
        "syncInterval must be positive"
    );
    assert_eq!(
        parse_sync_interval("500ms").unwrap(),
        Duration::from_nanos(500_000_000)
    );
    assert_eq!(
        parse_sync_interval("18446744073709551615s1h").unwrap(),
        Duration::from_secs(u64::MAX)
    );
    assert_eq!(
        parse_sync_interval("0ms").unwrap_err(),
        "syncInterval must be positive"
    );
    assert_eq!(
        parse_sync_interval("  ").unwrap_err(),
        "syncInterval must be positive"
    );
    assert_eq!(humantime_parse("  ").unwrap(), Duration::from_secs(0));
    assert_eq!(
        parse_sync_interval("5x").unwrap_err(),
        "unknown unit in duration \"5x\": \"x\""
    );
    assert_eq!(DEFAULT_SYNC_INTERVAL, 300);
}

fn entry(key: &str, name: Option<&str>, legacy: Option<&str>, vault: Option<&str>) -> VaultwardenSecretDataItem {
    VaultwardenSecretDataItem {
        key: key.to_string(),
        secret_name: name.map(str::to_string),
        vaultwarden_secret: legacy.map(str::to_string),
        vault: vault.map(str::to_string),
    }
}

fn resource(interval: &str, default_vault: Option<&str>, data: Vec<VaultwardenSecretDataItem>) -> VaultwardenSecret {
    VaultwardenSecret {
        name: "my-app-secrets".to_string(),
        namespace: Some("my-app".to_string()),
        generation: Some(7),
        spec: VaultwardenSecretSpec {
            sync_interval: interval.to_string(),
            default_vault: default_vault.map(str::to_string),
            data,
        },
        status: None,
    }
}

#[test]
fn each_entry_asks_in_its_own_vault_or_the_default() {
    let vws = resource(
        "5m",
        Some("Kubernetes - Common"),
        vec![
            entry("DATABASE_PASSWORD", Some("Prod DB"), None, Some("Kubernetes Secrets")),
            entry("API_KEY", Some("My API Key"), Some("ignored"), None),
            entry("OLD", Some(""), Some("legacy"), None),
        ],
    );
    let requests = secret_requests(&vws.spec).unwrap();
    assert_eq!(requests.len(), 3);
    assert_eq!(requests[0].name, "Prod DB");
    assert_eq!(requests[0].vault.as_deref(), Some("Kubernetes Secrets"));
    assert_eq!(requests[1].name, "My API Key");
    assert_eq!(requests[1].vault.as_deref(), Some("Kubernetes - Common"));
    assert_eq!(requests[2].name, "legacy");
    let unscoped = resource("5m", None, vec![entry("a", Some("n"), None, None)]);
    assert_eq!(secret_requests(&unscoped.spec).unwrap()[0].vault, None);
}

#[test]
fn an_entry_without_a_name_is_reported() {
    let vws = resource(
        "10m",
        None,
        vec![entry("a", Some("n"), None, None), entry("b", None, Some(""), None)],
    );
    match reconcile_apply(&vws) {
        ApplyStep::ReportFailure { message, requeue } => {
            assert_eq!(message, "data entry \"b\" names no item: secretName is not set");
            assert_eq!(requeue, Duration::from_secs(600));
        }
        other => panic!("{other:?}"),
    }
}

#[test]
fn a_reconcile_fetches_writes_and_reports() {
    let vws = resource(
        "1h",
        None,
        vec![
            entry("A", Some("item-a"), None, None),
            entry("B", Some("item-b"), None, None),
            entry("A", Some("item-c"), None, None),
        ],
    );
    let interval = match reconcile(&vws, ReconcileEvent::Apply) {
        ApplyStep::Fetch { requests, interval } => {
            assert_eq!(requests.len(), 3);
            interval
        }
        other => panic!("{other:?}"),
    };
    assert_eq!(interval, Duration::from_secs(3600));
    let values = vec!["1".to_string(), "2".to_string(), "3".to_string()];
    let secret = match secrets_fetched(&vws, interval, Ok(values)) {
        ApplyStep::Write { secret, .. } => secret,
        other => panic!("{other:?}"),
    };
    assert_eq!(secret.name, "my-app-secrets");
    assert_eq!(secret.namespace, "my-app");
    assert_eq!(secret.managed_by, "vaultwarden-operator");
    assert_eq!(secret.secret_type, "Opaque");
    assert_eq!(secret.string_data.len(), 2);
    assert_eq!(secret.string_data.get("A"), Some(&"3".to_string()));
    assert_eq!(secret.string_data.get("B"), Some(&"2".to_string()));
    assert!(matches!(
        secret_written(interval),
        ApplyStep::ReportReady { requeue } if requeue == interval
    ));
    assert!(matches!(
        status_reported(interval),
        ApplyStep::Done(Action::Requeue(d)) if d == interval
    ));
}

#[test]
fn a_secret_holds_what_the_vault_holds() {
    let org = SyncOrganization {
        id: "o".to_string(),
        name: "Team".to_string(),
        key: String::new(),
    };
    let item = |name: &str, owner: Option<&str>, password: &str| DecryptedItem {
        id: name.to_string(),
        cipher_type: 1,
        organization_id: owner.map(str::to_string),
        name: name.to_string(),
        username: String::new(),
        password: password.to_string(),
        notes: String::new(),
        uri: String::new(),
        fields: StringMap::new(),
    };
    let mut session = Session::new(
        Credentials {
            access_token: "a".to_string(),
            refresh_token: "r".to_string(),
            expires_in: 3600,
            sym_key: SymmetricKey::default(),
        },
        Moment { nanos: 0 },
    );
    session.vault = Some(VaultCache {
        items: vec![item("Prod DB", None, "mine"), item("Prod DB", Some("o"), "ours")],
        orgs_by_name: index_orgs(&[org]),
    });
    let vws = resource(
        "5m",
        Some("team"),
        vec![entry("DB", Some("prod db"), None, None), entry("DB2", None, Some("prod"), None)],
    );
    let (requests, interval) = match reconcile_apply(&vws) {
        ApplyStep::Fetch { requests, interval } => (requests, interval),
        other => panic!("{other:?}"),
    };
    let values = session.try_fetch_secrets(&requests);
    match secrets_fetched(&vws, interval, values) {
        ApplyStep::Write { secret, .. } => {
            assert_eq!(secret.string_data.get("DB"), Some(&"ours".to_string()));
            assert_eq!(secret.string_data.get("DB2"), Some(&"ours".to_string()));
        }
        other => panic!("{other:?}"),
    }
}

#[test]
fn a_failed_fetch_writes_nothing() {
    let vws = resource("2m", None, vec![entry("A", Some("x"), None, None)]);
    let miss = VaultError::Lookup(LookupError::NotFound {
        name: "x".to_string(),
        searched: 4,
    });
    match secrets_fetched(&vws, Duration::from_secs(120), Err(miss)) {
        ApplyStep::ReportFailure { message, requeue } => {
            assert_eq!(
                message,
                "failed to fetch Vaultwarden secrets: \
                 secret \"x\" not found in vault cache (4 items searched)"
            );
            assert_eq!(requeue, Duration::from_secs(120));
        }
        other => panic!("{other:?}"),
    }
}

#[test]
fn a_bad_interval_is_reported_at_the_default_pace() {
    let vws = resource("soon", None, vec![]);
    match reconcile(&vws, ReconcileEvent::Apply) {
        ApplyStep::ReportFailure { message, requeue } => {
            assert_eq!(message, "unexpected char in duration \"soon\"");
            assert_eq!(requeue, Duration::from_secs(300));
        }
        other => panic!("{other:?}"),
    }
}

#[test]
fn a_deletion_asks_for_nothing() {
    let vws = resource("soon", None, vec![]);
    assert!(matches!(
        reconcile(&vws, ReconcileEvent::Cleanup),
        ApplyStep::Done(Action::AwaitChange)
    ));
    assert_eq!(FINALIZER_NAME, "secrets.vaultwarden.io/finalizer");
}

#[test]
fn a_secret_is_created_once_and_then_patched() {
    assert_eq!(secret_write(false), SecretWrite::Create);
    assert_eq!(secret_write(true), SecretWrite::Patch);
}

#[test]
fn errors_are_requeued_and_described() {
    let err = ReconcileError::Kube("gone".to_string());
    assert_eq!(error_policy(&err), Action::Requeue(Duration::from_secs(300)));
    assert_eq!(err.message(), "kubernetes API error: gone");
    assert_eq!(
        ReconcileError::Vault(VaultError::NotInitialized).message(),
        "vault error: vault not yet initialized"
    );
    assert_eq!(
        ReconcileError::Finalizer("x".to_string()).message(),
        "finalizer error: x"
    );
}

#[test]
fn the_namespace_defaults() {
    let mut vws = resource("5m", None, vec![]);
    assert_eq!(resource_namespace(&vws), "my-app");
    vws.namespace = None;
    assert_eq!(resource_namespace(&vws), "default");
    assert_eq!(build_secret(&vws, &vec![]).namespace, "default");
}

// ---------------------------------------------------------------------------
// Status
// ---------------------------------------------------------------------------

fn named(type_: &str, status: &str) -> StatusCondition {
    StatusCondition {
        type_: type_.to_string(),
        status: status.to_string(),
        ..StatusCondition::default()
    }
}

fn shown(conditions: &[StatusCondition]) -> Vec<(String, String)> {
    conditions
        .iter()
        .map(|c| (c.type_.clone(), c.status.clone()))
        .collect()
}

fn pairs(expected: &[(&str, &str)]) -> Vec<(String, String)> {
    expected
        .iter()
        .map(|(a, b)| (a.to_string(), b.to_string()))
        .collect()
}

#[test]
fn upserting_replaces_in_place_or_appends() {
    let mut conditions = vec![named("A", "1"), named("B", "2")];
    upsert_condition(&mut conditions, named("A", "3"));
    assert_eq!(shown(&conditions), pairs(&[("A", "3"), ("B", "2")]));
    upsert_condition(&mut conditions, named("C", "4"));
    upsert_condition(&mut conditions, named("C", "4"));
    assert_eq!(
        shown(&conditions),
        pairs(&[("A", "3"), ("B", "2"), ("C", "4")])
    );
}

#[test]
fn a_ready_status_forgets_the_failure() {
    let mut vws = resource("5m", None, vec![]);
    vws.status = Some(VaultwardenSecretStatus {
        ready: false,
        last_sync_time: Some("yesterday".to_string()),
        last_sync_error: "broken".to_string(),
        observed_generation: Some(6),
        conditions: vec![
            named("SyncFailed", "True"),
            named("Other", "Unknown"),
            named("Ready", "False"),
        ],
    });
    let status = ready_status_at(&vws, "now");
    assert!(status.ready);
    assert_eq!(status.last_sync_time.as_deref(), Some("now"));
    assert_eq!(status.last_sync_error, "");
    assert_eq!(status.observed_generation, Some(7));
    assert_eq!(
        shown(&status.conditions),
        pairs(&[("Other", "Unknown"), ("Ready", "True")])
    );
    let ready = &status.conditions[1];
    assert_eq!(ready.reason, "SyncSucceeded");
    assert_eq!(ready.message, "Vault secrets synced successfully");
    assert_eq!(ready.last_transition_time, "now");
    assert_eq!(ready.observed_generation, Some(7));
}

#[test]
fn a_failed_status_carries_the_message() {
    let mut vws = resource("5m", None, vec![]);
    vws.generation = None;
    vws.status = Some(VaultwardenSecretStatus {
        ready: true,
        last_sync_time: Some("yesterday".to_string()),
        last_sync_error: String::new(),
        observed_generation: Some(6),
        conditions: vec![named("Ready", "True")],
    });
    let status = failed_status_at(&vws, "no such item", "now");
    assert!(!status.ready);
    assert_eq!(status.last_sync_time.as_deref(), Some("yesterday"));
    assert_eq!(status.last_sync_error, "no such item");
    assert_eq!(status.observed_generation, Some(0));
    assert_eq!(
        shown(&status.conditions),
        pairs(&[("Ready", "False"), ("SyncFailed", "True")])
    );
    for condition in &status.conditions {
        assert_eq!(condition.reason, "SyncFailed");
        assert_eq!(condition.message, "no such item");
        assert_eq!(condition.last_transition_time, "now");
    }
}

fn since(type_: &str, status: &str, time: &str) -> StatusCondition {
    StatusCondition {
        last_transition_time: time.to_string(),
        ..named(type_, status)
    }
}

fn known(conditions: Vec<StatusCondition>) -> VaultwardenSecret {
    let mut vws = resource("5m", None, vec![]);
    vws.status = Some(VaultwardenSecretStatus {
        conditions,
        ..VaultwardenSecretStatus::default()
    });
    vws
}

#[test]
fn staying_ready_is_no_transition() {
    let vws = known(vec![since("Other", "True", "t1"), since("Ready", "True", "t0")]);
    let status = ready_status_at(&vws, "now");
    assert_eq!(status.last_sync_time.as_deref(), Some("now"));
    assert_eq!(status.conditions[1].type_, "Ready");
    assert_eq!(status.conditions[1].last_transition_time, "t0");
    assert_eq!(status.conditions[1].reason, "SyncSucceeded");
    assert_eq!(status.conditions[0].last_transition_time, "t1");
    let mut next = resource("5m", None, vec![]);
    next.status = Some(status);
    let again = ready_status_at(&next, "later");
    assert_eq!(again.conditions[1].last_transition_time, "t0");
    assert_eq!(again.last_sync_time.as_deref(), Some("later"));
}

#[test]
fn staying_failed_is_no_transition() {
    let vws = known(vec![since("Ready", "False", "t0"), since("SyncFailed", "True", "t1")]);
    let status = failed_status_at(&vws, "another reason", "now");
    assert_eq!(status.conditions[0].last_transition_time, "t0");
    assert_eq!(status.conditions[1].last_transition_time, "t1");
    assert_eq!(status.conditions[0].message, "another reason");
    assert_eq!(status.conditions[1].message, "another reason");
}

#[test]
fn a_changed_status_is_a_transition() {
    let vws = known(vec![since("Ready", "True", "t0"), since("SyncFailed", "False", "t1")]);
    let status = failed_status_at(&vws, "m", "now");
    assert_eq!(status.conditions[0].last_transition_time, "now");
    assert_eq!(status.conditions[1].last_transition_time, "now");
    let vws = known(vec![since("Ready", "Unknown", "t0")]);
    assert_eq!(
        ready_status_at(&vws, "now").conditions[0].last_transition_time,
        "now"
    );
}

#[test]
fn a_first_status_is_made_from_nothing() {
    let vws = resource("5m", None, vec![]);
    assert_eq!(
        shown(&failed_status_at(&vws, "m", "now").conditions),
        pairs(&[("Ready", "False"), ("SyncFailed", "True")])
    );
    assert_eq!(failed_status_at(&vws, "m", "now").last_sync_time, None);
}

#[test]
fn reported_times_are_of_today() {
    let vws = resource("5m", None, vec![]);
    let before = chrono::Utc::now();
    let ready = set_ready_status(&vws);
    let failed = set_failed_status(&vws, "m");
    let after = chrono::Utc::now();
    for time in [
        ready.last_sync_time.as_deref().unwrap(),
        ready.conditions[0].last_transition_time.as_str(),
        failed.conditions[0].last_transition_time.as_str(),
        failed.conditions[1].last_transition_time.as_str(),
    ] {
        let shown = chrono::DateTime::parse_from_rfc3339(time).unwrap();
        assert!(before <= shown && shown <= after);
        assert!(time.ends_with("+00:00"));
        assert_eq!(&time[10..11], "T");
    }
}
