//! The `VaultwardenSecret` resource: what it asks for and what is reported of it.
use vstd::prelude::*;
use vstd::string::*;

use crate::text;

verus! {

/// Maps a Kubernetes Secret key to a Vaultwarden item name.
#[derive(Debug, Clone)]
pub struct VaultwardenSecretDataItem {
    /// Key name in the resulting Kubernetes Secret.
    pub key: String,
    /// Item name to look up in Vaultwarden (case-insensitive, supports partial match).
    pub secret_name: Option<String>,
    /// Deprecated: legacy alias for `secretName`. Ignored when `secretName` is set.
    pub vaultwarden_secret: Option<String>,
    /// Vault (Vaultwarden organization name) to search for this item.
    /// Overrides `spec.defaultVault`. When set, the lookup fails if the item
    /// is not found within that organization.
    pub vault: Option<String>,
}

/// The mathematical form of a [`VaultwardenSecretDataItem`].
pub struct DataItemView {
    pub key: Seq<char>,
    pub secret_name: Option<Seq<char>>,
    pub vaultwarden_secret: Option<Seq<char>>,
    pub vault: Option<Seq<char>>,
}

impl View for VaultwardenSecretDataItem {
    type V = DataItemView;

    open spec fn view(&self) -> DataItemView {
        DataItemView {
            key: self.key@,
            secret_name: text::opt_text(self.secret_name),
            vaultwarden_secret: text::opt_text(self.vaultwarden_secret),
            vault: text::opt_text(self.vault),
        }
    }
}

/// A text that is set and not empty.
pub open spec fn filled(s: Option<Seq<char>>) -> Option<Seq<char>> {
    match s {
        Some(t) => if t.len() > 0 {
            Some(t)
        } else {
            None
        },
        None => None,
    }
}

impl DataItemView {
    /// The effective item name.
    pub open spec fn resolved_secret_name(self) -> Option<Seq<char>> {
        match filled(self.secret_name) {
            Some(name) => Some(name),
            None => filled(self.vaultwarden_secret),
        }
    }
}

/// A text that is set and not empty.
fn filled_text(s: &Option<String>) -> (r: Option<&str>)
    ensures
        text::opt_str(r) == filled(text::opt_text(*s)),
{
    match s {
        Some(t) => if t.as_str().is_empty() {
            None
        } else {
            Some(t.as_str())
        },
        None => None,
    }
}

impl VaultwardenSecretDataItem {
    /// Effective item name: `secretName` preferred, `vaultwardenSecret` fallback.
    /// Empty strings are treated as unset.
    pub fn resolved_secret_name(&self) -> (r: Option<&str>)
        ensures
            text::opt_str(r) == self@.resolved_secret_name(),
    {
        match filled_text(&self.secret_name) {
            Some(name) => Some(name),
            None => filled_text(&self.vaultwarden_secret),
        }
    }
}

/// A resolved name is never empty, `secretName` wins over the legacy name, and
/// the legacy name counts only where `secretName` is unset or empty.
pub proof fn law_secret_name_wins(item: DataItemView)
    ensures
        item.resolved_secret_name() matches Some(name) ==> name.len() > 0,
        item.secret_name matches Some(name) && name.len() > 0 ==> item.resolved_secret_name()
            == item.secret_name,
        filled(item.secret_name) is None ==> item.resolved_secret_name() == filled(
            item.vaultwarden_secret,
        ),
        item.resolved_secret_name() is None <==> filled(item.secret_name) is None && filled(
            item.vaultwarden_secret,
        ) is None,
{
}

/// VaultwardenSecret syncs secrets from Vaultwarden into a Kubernetes Secret.
///
/// Create a VaultwardenSecret to have the operator pull the listed vault items
/// and write them as a native Kubernetes Secret with the same name and namespace.
#[derive(Debug, Clone)]
pub struct VaultwardenSecretSpec {
    /// How often to re-sync from Vaultwarden. Must be a valid duration string
    /// (e.g. "5m", "1h"). Defaults to "5m".
    pub sync_interval: String,
    /// Default vault (Vaultwarden organization name) to search for all data
    /// entries; each entry may override this with its own `vault`.
    /// Unset = search the whole account (personal + all organizations).
    pub default_vault: Option<String>,
    /// List of Vaultwarden items to fetch.
    pub data: Vec<VaultwardenSecretDataItem>,
}

/// The mathematical form of a [`VaultwardenSecretSpec`].
pub struct SpecView {
    pub sync_interval: Seq<char>,
    pub default_vault: Option<Seq<char>>,
    pub data: Seq<DataItemView>,
}

impl View for VaultwardenSecretSpec {
    type V = SpecView;

    open spec fn view(&self) -> SpecView {
        SpecView {
            sync_interval: self.sync_interval@,
            default_vault: text::opt_text(self.default_vault),
            data: self.data@.map_values(|d: VaultwardenSecretDataItem| d@),
        }
    }
}

/// The sync interval of a resource that names none.
pub fn default_sync_interval() -> (r: String)
    ensures
        r@ == "5m"@,
{
    "5m".to_owned()
}

/// A standard Kubernetes status condition.
#[derive(Debug)]
pub struct StatusCondition {
    /// Type of the condition (e.g. "Ready", "SyncFailed").
    pub type_: String,
    /// Status of the condition: "True", "False", or "Unknown".
    pub status: String,
    /// CamelCase reason code for the condition.
    pub reason: String,
    /// Human-readable message.
    pub message: String,
    /// Generation of the object the condition was set on.
    pub observed_generation: Option<i64>,
    /// When this condition last transitioned (RFC3339).
    pub last_transition_time: String,
}

/// The mathematical form of a [`StatusCondition`].
pub struct ConditionView {
    pub type_: Seq<char>,
    pub status: Seq<char>,
    pub reason: Seq<char>,
    pub message: Seq<char>,
    pub observed_generation: Option<i64>,
    pub last_transition_time: Seq<char>,
}

impl View for StatusCondition {
    type V = ConditionView;

    open spec fn view(&self) -> ConditionView {
        ConditionView {
            type_: self.type_@,
            status: self.status@,
            reason: self.reason@,
            message: self.message@,
            observed_generation: self.observed_generation,
            last_transition_time: self.last_transition_time@,
        }
    }
}

impl Default for StatusCondition {
    fn default() -> (r: Self)
        ensures
            r@ == (ConditionView {
                type_: seq![],
                status: seq![],
                reason: seq![],
                message: seq![],
                observed_generation: None,
                last_transition_time: seq![],
            }),
    {
        StatusCondition {
            type_: String::new(),
            status: String::new(),
            reason: String::new(),
            message: String::new(),
            observed_generation: None,
            last_transition_time: String::new(),
        }
    }
}

impl Clone for StatusCondition {
    fn clone(&self) -> (r: Self)
        ensures
            r@ == self@,
    {
        StatusCondition {
            type_: self.type_.clone(),
            status: self.status.clone(),
            reason: self.reason.clone(),
            message: self.message.clone(),
            observed_generation: self.observed_generation,
            last_transition_time: self.last_transition_time.clone(),
        }
    }
}

/// The views of a list of conditions.
pub open spec fn condition_views(conditions: Seq<StatusCondition>) -> Seq<ConditionView> {
    conditions.map_values(|c: StatusCondition| c@)
}

/// VaultwardenSecretStatus reflects the observed state.
#[derive(Debug, Clone)]
pub struct VaultwardenSecretStatus {
    /// Whether the secret has been successfully synced.
    pub ready: bool,
    /// Timestamp of the last successful sync (RFC3339).
    pub last_sync_time: Option<String>,
    /// Error message from the last failed sync.
    pub last_sync_error: String,
    /// Most recent generation observed by the controller.
    pub observed_generation: Option<i64>,
    /// Latest available observations of the resource state.
    pub conditions: Vec<StatusCondition>,
}

/// The mathematical form of a [`VaultwardenSecretStatus`].
pub struct StatusView {
    pub ready: bool,
    pub last_sync_time: Option<Seq<char>>,
    pub last_sync_error: Seq<char>,
    pub observed_generation: Option<i64>,
    pub conditions: Seq<ConditionView>,
}

impl View for VaultwardenSecretStatus {
    type V = StatusView;

    open spec fn view(&self) -> StatusView {
        StatusView {
            ready: self.ready,
            last_sync_time: text::opt_text(self.last_sync_time),
            last_sync_error: self.last_sync_error@,
            observed_generation: self.observed_generation,
            conditions: condition_views(self.conditions@),
        }
    }
}

impl Default for VaultwardenSecretStatus {
    fn default() -> (r: Self)
        ensures
            r@ == (StatusView {
                ready: false,
                last_sync_time: None,
                last_sync_error: seq![],
                observed_generation: None,
                conditions: seq![],
            }),
    {
        let r = VaultwardenSecretStatus {
            ready: false,
            last_sync_time: None,
            last_sync_error: String::new(),
            observed_generation: None,
            conditions: Vec::new(),
        };
        proof {
            assert(r@.conditions =~= seq![]);
        }
        r
    }
}

/// A resource as the controller sees it.
#[derive(Debug, Clone)]
pub struct VaultwardenSecret {
    pub name: String,
    pub namespace: Option<String>,
    /// The generation of the resource, which grows with every change of its spec.
    pub generation: Option<i64>,
    pub spec: VaultwardenSecretSpec,
    pub status: Option<VaultwardenSecretStatus>,
}

/// The mathematical form of a [`VaultwardenSecret`].
pub struct ResourceView {
    pub name: Seq<char>,
    pub namespace: Option<Seq<char>>,
    pub generation: Option<i64>,
    pub spec: SpecView,
    pub status: Option<StatusView>,
}

impl View for VaultwardenSecret {
    type V = ResourceView;

    open spec fn view(&self) -> ResourceView {
        ResourceView {
            name: self.name@,
            namespace: text::opt_text(self.namespace),
            generation: self.generation,
            spec: self.spec@,
            status: match self.status {
                Some(s) => Some(s@),
                None => None,
            },
        }
    }
}

/// The name of an item is its `secretName` where that is not empty, and else its
/// older `vaultwardenSecret` where that is not; an empty text names nothing.
pub proof fn law_name_or_its_older_alias(item: DataItemView, name: Seq<char>, alias: Seq<char>)
    ensures
        item.secret_name == Some(name) && name.len() > 0 ==> item.resolved_secret_name() == Some(
            name,
        ),
        (item.secret_name is None || item.secret_name->0.len() == 0) && item.vaultwarden_secret
            == Some(alias) && alias.len() > 0 ==> item.resolved_secret_name() == Some(alias),
        (item.secret_name is None || item.secret_name->0.len() == 0) && (
        item.vaultwarden_secret is None || item.vaultwarden_secret->0.len() == 0)
            ==> item.resolved_secret_name() is None,
{
}

/// An empty text counts as none at all; any other stands as it is.
pub proof fn law_empty_counts_as_none(t: Seq<char>)
    ensures
        filled(None) is None,
        t.len() == 0 ==> filled(Some(t)) is None,
        t.len() > 0 ==> filled(Some(t)) == Some(t),
{
}

/// A resource, its entries and its status are seen as their fields are.
pub proof fn law_resource_is_its_fields(
    v: VaultwardenSecret,
    status: VaultwardenSecretStatus,
    i: int,
)
    ensures
        v@.name == v.name@,
        v@.namespace == text::opt_text(v.namespace),
        v@.generation == v.generation,
        v@.spec.sync_interval == v.spec.sync_interval@,
        v@.spec.default_vault == text::opt_text(v.spec.default_vault),
        v@.spec.data.len() == v.spec.data@.len(),
        0 <= i < v.spec.data@.len() ==> {
            let seen = v@.spec.data[i];
            let entry = v.spec.data@[i];
            &&& seen.key == entry.key@
            &&& seen.secret_name == text::opt_text(entry.secret_name)
            &&& seen.vaultwarden_secret == text::opt_text(entry.vaultwarden_secret)
            &&& seen.vault == text::opt_text(entry.vault)
        },
        v.status matches Some(s) ==> v@.status == Some(s@),
        v.status is None ==> v@.status is None,
        status@.ready == status.ready,
        status@.last_sync_time == text::opt_text(status.last_sync_time),
        status@.last_sync_error == status.last_sync_error@,
        status@.observed_generation == status.observed_generation,
        status@.conditions.len() == status.conditions@.len(),
        0 <= i < status.conditions@.len() ==> {
            let seen = status@.conditions[i];
            let c = status.conditions@[i];
            &&& seen.type_ == c.type_@
            &&& seen.status == c.status@
            &&& seen.reason == c.reason@
            &&& seen.message == c.message@
            &&& seen.observed_generation == c.observed_generation
            &&& seen.last_transition_time == c.last_transition_time@
        },
{
}

} // verus!
