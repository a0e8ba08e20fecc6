use serde_yaml::Value;
use vaultwarden_operator::crd::{
    default_sync_interval, StatusCondition, VaultwardenSecretDataItem, VaultwardenSecretSpec,
    VaultwardenSecretStatus,
};

fn text(value: &Value, name: &str) -> Option<String> {
    value.get(name).map(|v| v.as_str().unwrap().to_string())
}

fn item_of(value: &Value) -> VaultwardenSecretDataItem {
    VaultwardenSecretDataItem {
        key: text(value, "key").unwrap(),
        secret_name: text(value, "secretName"),
        vaultwarden_secret: text(value, "vaultwardenSecret"),
        vault: text(value, "vault"),
    }
}

fn item(yaml: &str) -> VaultwardenSecretDataItem {
    let value: Value = serde_yaml::from_str(yaml).expect("valid data item yaml");
    item_of(&value)
}

fn spec(yaml: &str) -> VaultwardenSecretSpec {
    let value: Value = serde_yaml::from_str(yaml).expect("valid spec yaml");
    VaultwardenSecretSpec {
        sync_interval: text(&value, "syncInterval").unwrap_or_else(default_sync_interval),
        default_vault: text(&value, "defaultVault"),
        data: value
            .get("data")
            .unwrap()
            .as_sequence()
            .unwrap()
            .iter()
            .map(item_of)
            .collect(),
    }
}

#[test]
fn test_resolved_secret_name_secret_name_only() {
    let i = item("key: k\nsecretName: my-item");
    assert_eq!(i.resolved_secret_name(), Some("my-item"));
}

#[test]
fn test_resolved_secret_name_legacy_only() {
    let i = item("key: k\nvaultwardenSecret: legacy-item");
    assert_eq!(i.resolved_secret_name(), Some("legacy-item"));
}

#[test]
fn test_resolved_secret_name_prefers_secret_name() {
    let i = item("key: k\nsecretName: new\nvaultwardenSecret: old");
    assert_eq!(i.resolved_secret_name(), Some("new"));
}

#[test]
fn test_resolved_secret_name_neither() {
    let i = item("key: k");
    assert_eq!(i.resolved_secret_name(), None);
}

#[test]
fn test_resolved_secret_name_empty_falls_back() {
    let i = item("key: k\nsecretName: \"\"\nvaultwardenSecret: old");
    assert_eq!(i.resolved_secret_name(), Some("old"));
}

#[test]
fn test_spec_default_vault_and_entry_vault() {
    let spec = spec(
        "defaultVault: Kubernetes - Common\n\
         data:\n\
         - key: a\n  secretName: item-a\n  vault: Kubernetes - Apollo\n\
         - key: b\n  secretName: item-b\n",
    );
    assert_eq!(spec.default_vault.as_deref(), Some("Kubernetes - Common"));
    assert_eq!(spec.data[0].vault.as_deref(), Some("Kubernetes - Apollo"));
    assert_eq!(spec.data[1].vault, None);
}

#[test]
fn test_spec_default_vault_absent() {
    let spec = spec("data:\n- key: a\n  secretName: item-a\n");
    assert_eq!(spec.default_vault, None);
}

#[test]
fn empty_names_count_as_unset() {
    let i = item("key: k\nsecretName: \"\"\nvaultwardenSecret: \"\"");
    assert_eq!(i.resolved_secret_name(), None);
}

#[test]
fn the_interval_defaults_to_five_minutes() {
    assert_eq!(spec("data: []").sync_interval, "5m");
}

#[test]
fn a_default_status_says_nothing() {
    let status = VaultwardenSecretStatus::default();
    assert!(!status.ready);
    assert_eq!(status.last_sync_time, None);
    assert_eq!(status.last_sync_error, "");
    assert_eq!(status.observed_generation, None);
    assert!(status.conditions.is_empty());
    let condition = StatusCondition::default();
    assert_eq!(condition.type_, "");
    assert_eq!(condition.observed_generation, None);
    assert_eq!(condition.clone().message, "");
}
