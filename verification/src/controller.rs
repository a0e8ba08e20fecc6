//! VaultwardenSecret reconciler.
//!
//! - One owned `Secret` per resource (same name/namespace)
//! - All-or-nothing vault fetch, so no partial Secret is ever written
//! - `Ready` / `SyncFailed` status conditions
//! - Per-resource `spec.syncInterval` requeue
//!
//! A reconcile is a sequence of [`ApplyStep`]s: each names what to do against
//! the vault or the cluster, and the outcome gives the step after it.
use vstd::prelude::*;
use vstd::string::*;

use crate::crd;
use crate::crd::{
    ConditionView, DataItemView, ResourceView, SpecView, StatusCondition, StatusView,
    VaultwardenSecret, VaultwardenSecretSpec, VaultwardenSecretStatus,
};
use crate::duration;
use crate::duration::{sum_terms, Duration};
use crate::outside;
use crate::outside::now_rfc3339;
use crate::string_map;
use crate::string_map::StringMap;
use crate::text;
use crate::text::{join, quote, same_text, trim};
use crate::vault;
use crate::vault::{clone_opt, RequestView, SecretRequest, VaultError, VaultFault};

verus! {

/// The finalizer that the controller puts on its resources.
pub const FINALIZER_NAME: &'static str = "secrets.vaultwarden.io/finalizer";

/// The value of the managed-by label on the Secrets of the controller.
pub const MANAGED_BY_LABEL: &'static str = "vaultwarden-operator";

/// The interval at which a resource that names none is synced, and at which a
/// failed reconcile is tried again, in seconds.
pub const DEFAULT_SYNC_INTERVAL: u64 = 300;

pub const CONDITION_READY: &'static str = "Ready";

pub const CONDITION_SYNC_FAILED: &'static str = "SyncFailed";

// ---------------------------------------------------------------------------
// Interval parsing
// ---------------------------------------------------------------------------

/// The default interval, as a span of time.
pub open spec fn default_pace() -> Duration {
    Duration { secs: DEFAULT_SYNC_INTERVAL, nanos: 0 }
}

/// What the `syncInterval` of a resource stands for.
pub open spec fn sync_interval_of(s: Seq<char>) -> Result<Duration, Seq<char>> {
    if s.len() == 0 {
        Ok(default_pace())
    } else {
        match duration::terms_result(text::trimmed(s)) {
            Err(m) => Err(m),
            Ok(d) => if d.total() == 0 {
                Err("syncInterval must be positive"@)
            } else {
                Ok(d)
            },
        }
    }
}

/// Duration parser for intervals, in which a blank string stands for no time
/// at all.
pub fn humantime_parse(s: &str) -> (r: Result<Duration, String>)
    requires
        duration::readable(text::trimmed(s@), 0),
    ensures
        duration::duration_view(r) == duration::terms_result(text::trimmed(s@)),
{
    let t = trim(s);
    sum_terms(t.as_str())
}

/// Parse a Go-style duration string (`"5m"`, `"1h30m"`, etc.) into a `Duration`.
///
/// An empty string stands for the default of 5 minutes. Must be positive.
pub fn parse_sync_interval(s: &str) -> (r: Result<Duration, String>)
    requires
        duration::readable(text::trimmed(s@), 0),
    ensures
        duration::duration_view(r) == sync_interval_of(s@),
        r matches Ok(d) ==> d.total() > 0 && d.wf(),
{
    if s.is_empty() {
        return Ok(Duration::from_secs(DEFAULT_SYNC_INTERVAL));
    }
    match humantime_parse(s) {
        Ok(d) => if d.is_zero() {
            Err("syncInterval must be positive".to_owned())
        } else {
            Ok(d)
        },
        Err(m) => Err(m),
    }
}

// ---------------------------------------------------------------------------
// Errors and actions
// ---------------------------------------------------------------------------

/// What can go wrong in a reconcile.
#[derive(Debug)]
pub enum ReconcileError {
    Kube(String),
    Vault(VaultError),
    Finalizer(String),
}

impl ReconcileError {
    /// What is reported to a reader.
    pub open spec fn text(self) -> Seq<char> {
        match self {
            ReconcileError::Kube(m) => "kubernetes API error: "@ + m@,
            ReconcileError::Vault(e) => "vault error: "@ + e@.message(),
            ReconcileError::Finalizer(m) => "finalizer error: "@ + m@,
        }
    }

    /// What is reported to a reader.
    pub fn message(&self) -> (r: String)
        ensures
            r@ == self.text(),
    {
        match self {
            ReconcileError::Kube(m) => join("kubernetes API error: ", m.as_str()),
            ReconcileError::Vault(e) => join("vault error: ", e.message().as_str()),
            ReconcileError::Finalizer(m) => join("finalizer error: ", m.as_str()),
        }
    }
}

/// What the controller does with a resource after a reconcile.
#[derive(Debug, Clone, Copy, PartialEq, Eq, Structural)]
pub enum Action {
    /// Reconcile again after this time.
    Requeue(Duration),
    /// Reconcile again when something changes.
    AwaitChange,
}

/// Handle controller errors: requeue after the default interval.
pub fn error_policy(_err: &ReconcileError) -> (r: Action)
    ensures
        r == Action::Requeue(default_pace()),
{
    Action::Requeue(Duration::from_secs(DEFAULT_SYNC_INTERVAL))
}

// ---------------------------------------------------------------------------
// Requests
// ---------------------------------------------------------------------------

/// The lookup that a data entry asks for; none when it names no item. The
/// entry's own vault overrides the default one.
pub open spec fn request_of(spec: SpecView, item: DataItemView) -> Option<RequestView> {
    match item.resolved_secret_name() {
        Some(name) => Some(
            RequestView {
                name,
                vault: match item.vault {
                    Some(v) => Some(v),
                    None => spec.default_vault,
                },
            },
        ),
        None => None,
    }
}

/// What is reported of a data entry that names no item.
pub open spec fn unnamed_entry(key: Seq<char>) -> Seq<char> {
    "data entry "@ + text::quoted(key) + " names no item: secretName is not set"@
}

/// The lookups that the first `n` data entries ask for, or what is reported of
/// the first that names no item.
pub open spec fn requests_from(spec: SpecView, n: nat) -> Result<Seq<RequestView>, Seq<char>>
    decreases n,
{
    if n == 0 {
        Ok(seq![])
    } else {
        match requests_from(spec, (n - 1) as nat) {
            Err(m) => Err(m),
            Ok(before) => match request_of(spec, spec.data[n - 1]) {
                Some(request) => Ok(before.push(request)),
                None => Err(unnamed_entry(spec.data[n - 1].key)),
            },
        }
    }
}

proof fn lemma_requests_stop(spec: SpecView, n: nat, m: nat)
    requires
        n <= m,
        requests_from(spec, n) is Err,
    ensures
        requests_from(spec, m) == requests_from(spec, n),
    decreases m,
{
    if n < m {
        lemma_requests_stop(spec, n, (m - 1) as nat);
    }
}

/// The view of the lookups of a resource.
pub open spec fn requests_view(r: Result<Vec<SecretRequest>, String>) -> Result<
    Seq<RequestView>,
    Seq<char>,
> {
    match r {
        Ok(v) => Ok(vault::request_views(v@)),
        Err(m) => Err(m@),
    }
}

/// Collects the vault lookups of a resource, one for each data entry.
pub fn secret_requests(spec: &VaultwardenSecretSpec) -> (r: Result<Vec<SecretRequest>, String>)
    ensures
        requests_view(r) == requests_from(spec@, spec@.data.len()),
        r matches Ok(v) ==> v@.len() == spec@.data.len(),
{
    let ghost view = spec@;
    let mut requests: Vec<SecretRequest> = Vec::new();
    let mut i: usize = 0;
    proof {
        assert(vault::request_views(requests@) =~= seq![]);
    }
    while i < spec.data.len()
        invariant
            i <= spec.data@.len(),
            view == spec@,
            requests@.len() == i,
            requests_from(view, i as nat) == Ok::<Seq<RequestView>, Seq<char>>(
                vault::request_views(requests@),
            ),
        decreases spec.data@.len() - i,
    {
        let item = &spec.data[i];
        proof {
            assert(view.data[i as int] == item@);
        }
        let name = match item.resolved_secret_name() {
            Some(name) => name.to_owned(),
            None => {
                let mut message = join("data entry ", quote(item.key.as_str()).as_str());
                message.append(" names no item: secretName is not set");
                proof {
                    lemma_requests_stop(view, (i + 1) as nat, view.data.len());
                }
                return Err(message);
            },
        };
        let scope = match &item.vault {
            Some(v) => Some(v.clone()),
            None => clone_opt(&spec.default_vault),
        };
        let ghost before = requests@;
        let request = SecretRequest { name, vault: scope };
        let ghost asked = request@;
        requests.push(request);
        proof {
            assert(request_of(view, item@) == Some(asked));
            assert(vault::request_views(requests@) =~= vault::request_views(before).push(asked));
        }
        i = i + 1;
    }
    Ok(requests)
}

/// The lookups of a resource are index-aligned with its data entries, and each
/// goes to the entry's own vault where it names one, else to the default.
pub proof fn law_requests_match_entries(spec: SpecView, n: nat)
    requires
        n <= spec.data.len(),
    ensures
        requests_from(spec, n) is Ok <==> forall|i: int|
            0 <= i < n ==> (#[trigger] spec.data[i]).resolved_secret_name() is Some,
        requests_from(spec, n) matches Ok(requests) ==> requests.len() == n && forall|i: int|
            0 <= i < n ==> {
                &&& Some((#[trigger] requests[i]).name) == spec.data[i].resolved_secret_name()
                &&& requests[i].vault == (if spec.data[i].vault is Some {
                    spec.data[i].vault
                } else {
                    spec.default_vault
                })
            },
    decreases n,
{
    if n > 0 {
        law_requests_match_entries(spec, (n - 1) as nat);
        assert(spec.data[n - 1] == spec.data[n - 1]);
    }
}

// ---------------------------------------------------------------------------
// The managed Secret
// ---------------------------------------------------------------------------

/// The Secret that the controller keeps for a resource.
#[derive(Debug)]
pub struct ManagedSecret {
    pub name: String,
    pub namespace: String,
    /// The value of the managed-by label.
    pub managed_by: String,
    pub secret_type: String,
    pub string_data: StringMap<String>,
}

/// The mathematical form of a [`ManagedSecret`].
pub struct ManagedView {
    pub name: Seq<char>,
    pub namespace: Seq<char>,
    pub managed_by: Seq<char>,
    pub secret_type: Seq<char>,
    pub string_data: Seq<(Seq<char>, Seq<char>)>,
}

impl View for ManagedSecret {
    type V = ManagedView;

    open spec fn view(&self) -> ManagedView {
        ManagedView {
            name: self.name@,
            namespace: self.namespace@,
            managed_by: self.managed_by@,
            secret_type: self.secret_type@,
            string_data: self.string_data.entries(),
        }
    }
}

/// The namespace of a resource.
pub open spec fn namespace_of(v: ResourceView) -> Seq<char> {
    match v.namespace {
        Some(ns) => ns,
        None => "default"@,
    }
}

/// The namespace of a resource.
pub fn resource_namespace(vws: &VaultwardenSecret) -> (r: String)
    ensures
        r@ == namespace_of(vws@),
{
    match &vws.namespace {
        Some(ns) => ns.clone(),
        None => "default".to_owned(),
    }
}

/// The data of a Secret with the values of the first `n` entries; of two
/// entries with one key the later counts.
pub open spec fn secret_data(
    items: Seq<DataItemView>,
    values: Seq<Seq<char>>,
    n: nat,
) -> Seq<(Seq<char>, Seq<char>)>
    decreases n,
{
    if n == 0 {
        seq![]
    } else {
        string_map::stored(
            secret_data(items, values, (n - 1) as nat),
            items[n - 1].key,
            values[n - 1],
        )
    }
}

/// The Secret of a resource: it has the resource's name and namespace, and a
/// value for each data entry.
pub open spec fn managed_secret(v: ResourceView, values: Seq<Seq<char>>) -> ManagedView {
    ManagedView {
        name: v.name,
        namespace: namespace_of(v),
        managed_by: MANAGED_BY_LABEL@,
        secret_type: "Opaque"@,
        string_data: secret_data(v.spec.data, values, v.spec.data.len()),
    }
}

/// Builds the Secret of a resource from the values of its data entries.
pub fn build_secret(vws: &VaultwardenSecret, values: &Vec<String>) -> (r: ManagedSecret)
    requires
        values@.len() == vws@.spec.data.len(),
    ensures
        r@ == managed_secret(vws@, text::texts(values@)),
{
    let ghost items = vws@.spec.data;
    let ghost views = text::texts(values@);
    let mut string_data: StringMap<String> = StringMap::new();
    let mut i: usize = 0;
    while i < vws.spec.data.len()
        invariant
            i <= vws.spec.data@.len(),
            items == vws@.spec.data,
            views == text::texts(values@),
            values@.len() == items.len(),
            string_data.entries() == secret_data(items, views, i as nat),
        decreases vws.spec.data@.len() - i,
    {
        proof {
            assert(items[i as int].key == vws.spec.data@[i as int].key@);
            assert(views[i as int] == values@[i as int]@);
        }
        string_data.insert(vws.spec.data[i].key.clone(), values[i].clone());
        i = i + 1;
    }
    ManagedSecret {
        name: vws.name.clone(),
        namespace: resource_namespace(vws),
        managed_by: MANAGED_BY_LABEL.to_owned(),
        secret_type: "Opaque".to_owned(),
        string_data,
    }
}

/// No Secret is partial: it holds, for the key of every data entry, the value
/// of the last entry with that key, and it holds no other key.
pub proof fn law_secret_holds_every_entry(
    items: Seq<DataItemView>,
    values: Seq<Seq<char>>,
    n: nat,
    key: Seq<char>,
)
    requires
        n <= items.len(),
        items.len() == values.len(),
    ensures
        match string_map::lookup(secret_data(items, values, n), key) {
            Some(v) => exists|i: int|
                0 <= i < n && (#[trigger] items[i]).key == key && values[i] == v && forall|j: int|
                    i < j < n ==> (#[trigger] items[j]).key != key,
            None => forall|i: int| 0 <= i < n ==> (#[trigger] items[i]).key != key,
        },
    decreases n,
{
    if n > 0 {
        let m = (n - 1) as nat;
        let before = secret_data(items, values, m);
        law_secret_holds_every_entry(items, values, m, key);
        string_map::law_lookup_of_stored(before, items[n - 1].key, values[n - 1], key);
        if items[n - 1].key == key {
            assert(items[n - 1].key == key && values[n - 1] == values[n - 1]);
        } else if string_map::lookup(before, key) is Some {
            let v = string_map::lookup(before, key)->0;
            let i = choose|i: int|
                0 <= i < m && (#[trigger] items[i]).key == key && values[i] == v && forall|j: int|
                    i < j < m ==> (#[trigger] items[j]).key != key;
            assert(items[i].key == key && values[i] == v);
            assert forall|j: int| i < j < n implies (#[trigger] items[j]).key != key by {}
        }
    }
}

// ---------------------------------------------------------------------------
// Reconciling
// ---------------------------------------------------------------------------

/// Why a resource is reconciled.
#[derive(Debug, Clone, Copy, PartialEq, Eq, Structural)]
pub enum ReconcileEvent {
    /// The resource exists and is not being deleted.
    Apply,
    /// The resource is being deleted.
    Cleanup,
}

/// What a reconcile asks for next.
#[derive(Debug)]
pub enum ApplyStep {
    /// Fetch these secrets, then [`secrets_fetched`].
    Fetch { requests: Vec<SecretRequest>, interval: Duration },
    /// Create or patch this Secret (see [`secret_write`]), then [`secret_written`].
    Write { secret: ManagedSecret, interval: Duration },
    /// Report the failure with [`set_failed_status`], then requeue.
    ReportFailure { message: String, requeue: Duration },
    /// Report the success with [`set_ready_status`], then requeue.
    ReportReady { requeue: Duration },
    /// The reconcile is over.
    Done(Action),
}

/// The mathematical form of an [`ApplyStep`].
pub enum ApplyStepView {
    Fetch { requests: Seq<RequestView>, interval: Duration },
    Write { secret: ManagedView, interval: Duration },
    ReportFailure { message: Seq<char>, requeue: Duration },
    ReportReady { requeue: Duration },
    Done(Action),
}

impl View for ApplyStep {
    type V = ApplyStepView;

    open spec fn view(&self) -> ApplyStepView {
        match *self {
            ApplyStep::Fetch { requests, interval } => ApplyStepView::Fetch {
                requests: vault::request_views(requests@),
                interval,
            },
            ApplyStep::Write { secret, interval } => ApplyStepView::Write {
                secret: secret@,
                interval,
            },
            ApplyStep::ReportFailure { message, requeue } => ApplyStepView::ReportFailure {
                message: message@,
                requeue,
            },
            ApplyStep::ReportReady { requeue } => ApplyStepView::ReportReady {
                requeue,
            },
            ApplyStep::Done(action) => ApplyStepView::Done(action),
        }
    }
}

/// The first step of applying a resource: its secrets are fetched, unless its
/// interval or one of its data entries makes no sense.
pub open spec fn apply_start(v: ResourceView) -> ApplyStepView {
    match sync_interval_of(v.spec.sync_interval) {
        Err(message) => ApplyStepView::ReportFailure { message, requeue: default_pace() },
        Ok(interval) => match requests_from(v.spec, v.spec.data.len()) {
            Err(message) => ApplyStepView::ReportFailure { message, requeue: interval },
            Ok(requests) => ApplyStepView::Fetch { requests, interval },
        },
    }
}

/// The step after a fetch: the Secret is written where all values came, and
/// else the failure is reported.
pub open spec fn apply_fetched(
    v: ResourceView,
    interval: Duration,
    values: Result<Seq<Seq<char>>, VaultFault>,
) -> ApplyStepView {
    match values {
        Ok(values) => ApplyStepView::Write { secret: managed_secret(v, values), interval },
        Err(e) => ApplyStepView::ReportFailure {
            message: "failed to fetch Vaultwarden secrets: "@ + e.message(),
            requeue: interval,
        },
    }
}

/// Begins to apply a resource that exists and is not being deleted.
pub fn reconcile_apply(vws: &VaultwardenSecret) -> (r: ApplyStep)
    requires
        duration::readable(text::trimmed(vws@.spec.sync_interval), 0),
    ensures
        r@ == apply_start(vws@),
        r matches ApplyStep::Fetch { requests, .. } ==> requests@.len() == vws@.spec.data.len(),
{
    let interval = match parse_sync_interval(vws.spec.sync_interval.as_str()) {
        Ok(d) => d,
        Err(message) => {
            return ApplyStep::ReportFailure {
                message,
                requeue: Duration::from_secs(DEFAULT_SYNC_INTERVAL),
            };
        },
    };
    match secret_requests(&vws.spec) {
        Ok(requests) => ApplyStep::Fetch { requests, interval },
        Err(message) => ApplyStep::ReportFailure { message, requeue: interval },
    }
}

/// Begins to reconcile a resource. The owner reference on a managed Secret
/// deletes it along with its resource, so a deletion asks for nothing.
pub fn reconcile(vws: &VaultwardenSecret, event: ReconcileEvent) -> (r: ApplyStep)
    requires
        event == ReconcileEvent::Apply ==> duration::readable(
            text::trimmed(vws@.spec.sync_interval),
            0,
        ),
    ensures
        r@ == (match event {
            ReconcileEvent::Apply => apply_start(vws@),
            ReconcileEvent::Cleanup => ApplyStepView::Done(Action::AwaitChange),
        }),
{
    match event {
        ReconcileEvent::Apply => reconcile_apply(vws),
        ReconcileEvent::Cleanup => ApplyStep::Done(Action::AwaitChange),
    }
}

/// Goes on with the result of a fetch.
pub fn secrets_fetched(
    vws: &VaultwardenSecret,
    interval: Duration,
    values: Result<Vec<String>, VaultError>,
) -> (r: ApplyStep)
    requires
        values matches Ok(v) ==> v@.len() == vws@.spec.data.len(),
    ensures
        r@ == apply_fetched(vws@, interval, vault::fetch_view(values)),
{
    match values {
        Ok(values) => ApplyStep::Write { secret: build_secret(vws, &values), interval },
        Err(e) => ApplyStep::ReportFailure {
            message: join("failed to fetch Vaultwarden secrets: ", e.message().as_str()),
            requeue: interval,
        },
    }
}

/// How a managed Secret is written.
#[derive(Debug, Clone, Copy, PartialEq, Eq, Structural)]
pub enum SecretWrite {
    Create,
    Patch,
}

/// A Secret that is not there is created; one that is there is patched.
pub fn secret_write(exists: bool) -> (r: SecretWrite)
    ensures
        r == (if exists {
            SecretWrite::Patch
        } else {
            SecretWrite::Create
        }),
{
    if exists {
        SecretWrite::Patch
    } else {
        SecretWrite::Create
    }
}

/// Goes on once the Secret is written.
pub fn secret_written(interval: Duration) -> (r: ApplyStep)
    ensures
        r@ == (ApplyStepView::ReportReady { requeue: interval }),
{
    ApplyStep::ReportReady { requeue: interval }
}

/// Goes on once the status is reported.
pub fn status_reported(requeue: Duration) -> (r: ApplyStep)
    ensures
        r@ == ApplyStepView::Done(Action::Requeue(requeue)),
{
    ApplyStep::Done(Action::Requeue(requeue))
}

/// A Secret is written only with every value that its resource asks for: a
/// fetch that fails, for whatever reason, writes nothing and is reported.
pub proof fn law_no_partial_secret(
    v: ResourceView,
    session: vault::SessionView,
    interval: Duration,
    requests: Seq<RequestView>,
)
    requires
        apply_start(v) == (ApplyStepView::Fetch { requests, interval }),
    ensures
        apply_fetched(v, interval, vault::fetched(session, requests)) is Write
            <==> vault::fetched(session, requests) is Ok,
        vault::fetched(session, requests) is Err ==> apply_fetched(
            v,
            interval,
            vault::fetched(session, requests),
        ) is ReportFailure,
        vault::fetched(session, requests) matches Ok(values) ==> values.len() == v.spec.data.len(),
{
    law_requests_match_entries(v.spec, v.spec.data.len());
    if let Some(cache) = session.vault {
        vault::law_fetch_is_all_or_nothing(cache, requests, requests.len());
    }
}

/// What a Secret holds under a key is the secret of the vault item that the
/// entry with that key names, looked up in the vault that the entry is scoped
/// to. (Of several entries with one key, the last counts.)
pub proof fn law_secret_holds_the_vault_values(
    v: ResourceView,
    cache: vault::sync::CacheView,
    requests: Seq<RequestView>,
    i: int,
)
    requires
        requests_from(v.spec, v.spec.data.len()) == Ok::<Seq<RequestView>, Seq<char>>(requests),
        vault::fetched_from(cache, requests, requests.len()) is Ok,
        0 <= i < v.spec.data.len(),
        forall|j: int|
            i < j < v.spec.data.len() ==> (#[trigger] v.spec.data[j]).key != v.spec.data[i].key,
    ensures
        ({
            let values = vault::fetched_from(cache, requests, requests.len())->Ok_0;
            let scope = if v.spec.data[i].vault is Some {
                v.spec.data[i].vault
            } else {
                v.spec.default_vault
            };
            let name = v.spec.data[i].resolved_secret_name()->0;
            &&& vault::sync::lookup_at(cache, name, scope) is Ok
            &&& string_map::lookup(
                managed_secret(v, values).string_data,
                v.spec.data[i].key,
            ) == Some(
                vault::sync::secret_of(
                    cache.items[vault::sync::lookup_at(cache, name, scope)->Ok_0],
                ),
            )
        }),
{
    let n = v.spec.data.len();
    let values = vault::fetched_from(cache, requests, requests.len())->Ok_0;
    law_requests_match_entries(v.spec, n);
    vault::law_fetch_is_all_or_nothing(cache, requests, requests.len());
    assert(requests[i].name == v.spec.data[i].resolved_secret_name()->0);
    let key = v.spec.data[i].key;
    law_secret_holds_every_entry(v.spec.data, values, n, key);
    let held = string_map::lookup(secret_data(v.spec.data, values, n), key)->0;
    let k = choose|k: int|
        0 <= k < n && (#[trigger] v.spec.data[k]).key == key && values[k] == held && forall|j: int|
            k < j < n ==> (#[trigger] v.spec.data[j]).key != key;
    assert(v.spec.data[i].key == key);
    assert(k == i);
}

/// A resource is always reconciled again: what it is fetched for is requeued
/// after an interval that is never zero, and what fails is requeued too.
pub proof fn law_requeue_is_positive(v: ResourceView)
    ensures
        match apply_start(v) {
            ApplyStepView::Fetch { interval, .. } => interval.total() > 0,
            ApplyStepView::ReportFailure { requeue, .. } => requeue.total() > 0,
            _ => false,
        },
{
}

// ---------------------------------------------------------------------------
// Status
// ---------------------------------------------------------------------------

/// The first position at or after `i` that holds a condition of type `t`, or
/// the length of `conditions` when there is none.
pub open spec fn condition_from(conditions: Seq<ConditionView>, t: Seq<char>, i: int) -> int
    decreases conditions.len() - i,
{
    if i >= conditions.len() {
        conditions.len() as int
    } else if conditions[i].type_ == t {
        i
    } else {
        condition_from(conditions, t, i + 1)
    }
}

/// `conditions` with `new` in the place of the condition of its type, or at
/// the end when there is none.
pub open spec fn upserted(conditions: Seq<ConditionView>, new: ConditionView) -> Seq<
    ConditionView,
> {
    let i = condition_from(conditions, new.type_, 0);
    if i < conditions.len() {
        conditions.update(i, new)
    } else {
        conditions.push(new)
    }
}

/// The first `n` conditions, without those of type `t`.
pub open spec fn without_type(conditions: Seq<ConditionView>, t: Seq<char>, n: nat) -> Seq<
    ConditionView,
>
    decreases n,
{
    if n == 0 {
        seq![]
    } else {
        let before = without_type(conditions, t, (n - 1) as nat);
        if conditions[n - 1].type_ == t {
            before
        } else {
            before.push(conditions[n - 1])
        }
    }
}

/// No two conditions have one type.
pub open spec fn distinct_types(conditions: Seq<ConditionView>) -> bool {
    forall|i: int, j: int|
        0 <= i < j < conditions.len() ==> (#[trigger] conditions[i]).type_ != (
        #[trigger] conditions[j]).type_
}

/// The conditions that a resource has so far.
pub open spec fn known_conditions(v: ResourceView) -> Seq<ConditionView> {
    match v.status {
        Some(s) => s.conditions,
        None => seq![],
    }
}

/// The generation of a resource.
pub open spec fn generation_of(v: ResourceView) -> i64 {
    match v.generation {
        Some(g) => g,
        None => 0,
    }
}

/// When a condition of this type and status last transitioned: where the known
/// condition of its type has the same status, when that one did, else now.
pub open spec fn transition_time(
    known: Seq<ConditionView>,
    type_: Seq<char>,
    status: Seq<char>,
    now: Seq<char>,
) -> Seq<char> {
    let i = condition_from(known, type_, 0);
    if i < known.len() && known[i].status == status {
        known[i].last_transition_time
    } else {
        now
    }
}

/// A condition set at `now` on the current generation of a resource.
pub open spec fn condition(
    v: ResourceView,
    type_: Seq<char>,
    status: Seq<char>,
    reason: Seq<char>,
    message: Seq<char>,
    now: Seq<char>,
) -> ConditionView {
    ConditionView {
        type_,
        status,
        reason,
        message,
        observed_generation: Some(generation_of(v)),
        last_transition_time: transition_time(known_conditions(v), type_, status, now),
    }
}

/// The status after a successful sync at `now`: `Ready` is true, and
/// `SyncFailed` is gone.
pub open spec fn ready_status(v: ResourceView, now: Seq<char>) -> StatusView {
    let known = known_conditions(v);
    let kept = without_type(known, CONDITION_SYNC_FAILED@, known.len());
    StatusView {
        ready: true,
        last_sync_time: Some(now),
        last_sync_error: seq![],
        observed_generation: Some(generation_of(v)),
        conditions: upserted(
            kept,
            condition(
                v,
                CONDITION_READY@,
                "True"@,
                "SyncSucceeded"@,
                "Vault secrets synced successfully"@,
                now,
            ),
        ),
    }
}

/// The status after a failed sync at `now`: `Ready` is false, `SyncFailed` is
/// true, and the time of the last successful sync stays.
pub open spec fn failed_status(v: ResourceView, message: Seq<char>, now: Seq<char>) -> StatusView {
    let not_ready = upserted(
        known_conditions(v),
        condition(v, CONDITION_READY@, "False"@, "SyncFailed"@, message, now),
    );
    StatusView {
        ready: false,
        last_sync_time: match v.status {
            Some(s) => s.last_sync_time,
            None => None,
        },
        last_sync_error: message,
        observed_generation: Some(generation_of(v)),
        conditions: upserted(
            not_ready,
            condition(v, CONDITION_SYNC_FAILED@, "True"@, "SyncFailed"@, message, now),
        ),
    }
}

/// Insert or replace a condition in the list (keyed by `type_`).
pub fn upsert_condition(conditions: &mut Vec<StatusCondition>, new: StatusCondition)
    ensures
        crd::condition_views(final(conditions)@) == upserted(
            crd::condition_views(old(conditions)@),
            new@,
        ),
{
    let ghost views = crd::condition_views(conditions@);
    let ghost added = new@;
    let mut i: usize = 0;
    while i < conditions.len() && !same_text(conditions[i].type_.as_str(), new.type_.as_str())
        invariant
            i <= conditions@.len(),
            *conditions == *old(conditions),
            views == crd::condition_views(conditions@),
            added == new@,
            condition_from(views, added.type_, 0) == condition_from(views, added.type_, i as int),
        decreases conditions@.len() - i,
    {
        i = i + 1;
    }
    if i < conditions.len() {
        conditions.set(i, new);
    } else {
        conditions.push(new);
    }
    proof {
        assert(crd::condition_views(conditions@) =~= upserted(views, added));
    }
}

/// Copies the conditions of a resource, without those of type `t`.
fn conditions_without(conditions: &Vec<StatusCondition>, t: &str) -> (r: Vec<StatusCondition>)
    ensures
        crd::condition_views(r@) == without_type(
            crd::condition_views(conditions@),
            t@,
            conditions@.len(),
        ),
{
    let ghost views = crd::condition_views(conditions@);
    let mut kept: Vec<StatusCondition> = Vec::new();
    let mut i: usize = 0;
    proof {
        assert(crd::condition_views(kept@) =~= seq![]);
    }
    while i < conditions.len()
        invariant
            i <= conditions@.len(),
            views == crd::condition_views(conditions@),
            crd::condition_views(kept@) == without_type(views, t@, i as nat),
        decreases conditions@.len() - i,
    {
        if !same_text(conditions[i].type_.as_str(), t) {
            let ghost before = kept@;
            let copy = conditions[i].clone();
            let ghost seen = copy@;
            kept.push(copy);
            proof {
                assert(crd::condition_views(kept@) =~= crd::condition_views(before).push(seen));
            }
        }
        i = i + 1;
    }
    kept
}

/// Copies the conditions of a resource.
fn copy_conditions(conditions: &Vec<StatusCondition>) -> (r: Vec<StatusCondition>)
    ensures
        crd::condition_views(r@) == crd::condition_views(conditions@),
{
    let mut out: Vec<StatusCondition> = Vec::new();
    let mut i: usize = 0;
    while i < conditions.len()
        invariant
            i <= conditions@.len(),
            out@.len() == i,
            forall|k: int| 0 <= k < i ==> (#[trigger] out@[k])@ == conditions@[k]@,
        decreases conditions@.len() - i,
    {
        out.push(conditions[i].clone());
        i = i + 1;
    }
    proof {
        assert(crd::condition_views(out@) =~= crd::condition_views(conditions@));
    }
    out
}

/// Tells when a condition of this type and status last transitioned.
fn last_transition(
    conditions: &Vec<StatusCondition>,
    type_: &str,
    status: &str,
    now: &str,
) -> (r: String)
    ensures
        r@ == transition_time(crd::condition_views(conditions@), type_@, status@, now@),
{
    let ghost views = crd::condition_views(conditions@);
    let mut i: usize = 0;
    while i < conditions.len()
        invariant
            i <= conditions@.len(),
            views == crd::condition_views(conditions@),
            condition_from(views, type_@, 0) == condition_from(views, type_@, i as int),
        decreases conditions@.len() - i,
    {
        proof {
            assert(views[i as int] == conditions@[i as int]@);
        }
        if same_text(conditions[i].type_.as_str(), type_) {
            if same_text(conditions[i].status.as_str(), status) {
                return conditions[i].last_transition_time.clone();
            }
            return now.to_owned();
        }
        i = i + 1;
    }
    now.to_owned()
}

/// Makes a condition set at `now` on the current generation of a resource.
fn make_condition(
    vws: &VaultwardenSecret,
    type_: &str,
    status: &str,
    reason: &str,
    message: &str,
    now: &str,
) -> (r: StatusCondition)
    ensures
        r@ == condition(vws@, type_@, status@, reason@, message@, now@),
{
    let last_transition_time = match &vws.status {
        Some(s) => last_transition(&s.conditions, type_, status, now),
        None => now.to_owned(),
    };
    StatusCondition {
        type_: type_.to_owned(),
        status: status.to_owned(),
        reason: reason.to_owned(),
        message: message.to_owned(),
        observed_generation: Some(vws.generation.unwrap_or(0)),
        last_transition_time,
    }
}

/// The status of a resource that was synced at `now`.
pub fn ready_status_at(vws: &VaultwardenSecret, now: &str) -> (r: VaultwardenSecretStatus)
    ensures
        r@ == ready_status(vws@, now@),
{
    let mut conditions = match &vws.status {
        Some(s) => conditions_without(&s.conditions, CONDITION_SYNC_FAILED),
        None => {
            let none: Vec<StatusCondition> = Vec::new();
            proof {
                assert(crd::condition_views(none@) =~= seq![]);
            }
            none
        },
    };
    upsert_condition(
        &mut conditions,
        make_condition(
            vws,
            CONDITION_READY,
            "True",
            "SyncSucceeded",
            "Vault secrets synced successfully",
            now,
        ),
    );
    VaultwardenSecretStatus {
        ready: true,
        last_sync_time: Some(now.to_owned()),
        last_sync_error: String::new(),
        observed_generation: Some(vws.generation.unwrap_or(0)),
        conditions,
    }
}

/// The status of a resource whose sync failed at `now`.
pub fn failed_status_at(vws: &VaultwardenSecret, message: &str, now: &str) -> (r:
    VaultwardenSecretStatus)
    ensures
        r@ == failed_status(vws@, message@, now@),
{
    let mut conditions = match &vws.status {
        Some(s) => copy_conditions(&s.conditions),
        None => {
            let none: Vec<StatusCondition> = Vec::new();
            proof {
                assert(crd::condition_views(none@) =~= seq![]);
            }
            none
        },
    };
    upsert_condition(
        &mut conditions,
        make_condition(vws, CONDITION_READY, "False", "SyncFailed", message, now),
    );
    upsert_condition(
        &mut conditions,
        make_condition(vws, CONDITION_SYNC_FAILED, "True", "SyncFailed", message, now),
    );
    let last_sync_time = match &vws.status {
        Some(s) => clone_opt(&s.last_sync_time),
        None => None,
    };
    VaultwardenSecretStatus {
        ready: false,
        last_sync_time,
        last_sync_error: message.to_owned(),
        observed_generation: Some(vws.generation.unwrap_or(0)),
        conditions,
    }
}

/// The status to report after a successful sync, as of now.
pub fn set_ready_status(vws: &VaultwardenSecret) -> (r: VaultwardenSecretStatus)
    ensures
        r@.last_sync_time matches Some(now) && outside::is_rfc3339_utc(now) && r@ == ready_status(
            vws@,
            now,
        ),
{
    let now = now_rfc3339();
    ready_status_at(vws, now.as_str())
}

/// The status to report after a failed sync, as of now.
pub fn set_failed_status(vws: &VaultwardenSecret, message: &str) -> (r: VaultwardenSecretStatus)
    ensures
        exists|now: Seq<char>|
            outside::is_rfc3339_utc(now) && r@ == #[trigger] failed_status(vws@, message@, now),
{
    let now = now_rfc3339();
    failed_status_at(vws, message, now.as_str())
}

// ---------------------------------------------------------------------------
// Laws on the status
// ---------------------------------------------------------------------------

proof fn lemma_condition_from(conditions: Seq<ConditionView>, t: Seq<char>, i: int)
    requires
        0 <= i <= conditions.len(),
    ensures
        i <= condition_from(conditions, t, i) <= conditions.len(),
        condition_from(conditions, t, i) < conditions.len() ==> conditions[condition_from(
            conditions,
            t,
            i,
        )].type_ == t,
        forall|k: int|
            i <= k < condition_from(conditions, t, i) ==> (#[trigger] conditions[k]).type_ != t,
    decreases conditions.len() - i,
{
    if i < conditions.len() && conditions[i].type_ != t {
        lemma_condition_from(conditions, t, i + 1);
    }
}

/// The transition time of a condition moves only with its status: a condition
/// that is set again with the status it has keeps its time, and one that is
/// new or changes its status takes the time at hand.
pub proof fn law_transition_time_follows_status(
    v: ResourceView,
    type_: Seq<char>,
    status: Seq<char>,
    reason: Seq<char>,
    message: Seq<char>,
    now: Seq<char>,
)
    requires
        distinct_types(known_conditions(v)),
    ensures
        forall|k: int|
            0 <= k < known_conditions(v).len() && (#[trigger] known_conditions(v)[k]).type_ == type_
                ==> condition(v, type_, status, reason, message, now).last_transition_time == (if
            known_conditions(v)[k].status == status {
                known_conditions(v)[k].last_transition_time
            } else {
                now
            }),
        (forall|k: int|
            0 <= k < known_conditions(v).len() ==> (#[trigger] known_conditions(v)[k]).type_
                != type_) ==> condition(
            v,
            type_,
            status,
            reason,
            message,
            now,
        ).last_transition_time == now,
{
    lemma_condition_from(known_conditions(v), type_, 0);
}

/// A resource that stays ready, sync after sync, keeps the time at which it
/// became ready, while its last sync is that of the latest.
pub proof fn law_staying_ready_keeps_its_time(v: ResourceView, now: Seq<char>, later: Seq<char>)
    requires
        distinct_types(known_conditions(v)),
    ensures
        ({
            let first = ready_status(v, now);
            let again = ready_status(ResourceView { status: Some(first), ..v }, later);
            &&& again.conditions == first.conditions
            &&& again.last_sync_time == Some(later)
        }),
{
    let known = known_conditions(v);
    let kept = without_type(known, CONDITION_SYNC_FAILED@, known.len());
    let ready = condition(
        v,
        CONDITION_READY@,
        "True"@,
        "SyncSucceeded"@,
        "Vault secrets synced successfully"@,
        now,
    );
    let first = ready_status(v, now);
    let next = ResourceView { status: Some(first), ..v };
    law_ready_status_is_ready(v, now);
    let all = first.conditions;
    lemma_without_absent_type(all, CONDITION_SYNC_FAILED@, all.len());
    assert(all.take(all.len() as int) =~= all);
    let k = choose|k: int| 0 <= k < all.len() && all[k] == ready;
    lemma_condition_from(all, CONDITION_READY@, 0);
    assert(condition_from(all, CONDITION_READY@, 0) == k);
    assert(upserted(all, ready) =~= all);
}

proof fn lemma_without_absent_type(conditions: Seq<ConditionView>, t: Seq<char>, n: nat)
    requires
        n <= conditions.len(),
        forall|k: int| 0 <= k < conditions.len() ==> (#[trigger] conditions[k]).type_ != t,
    ensures
        without_type(conditions, t, n) == conditions.take(n as int),
    decreases n,
{
    if n > 0 {
        lemma_without_absent_type(conditions, t, (n - 1) as nat);
        assert(conditions.take(n as int) =~= conditions.take(n - 1).push(conditions[n - 1]));
    } else {
        assert(conditions.take(0) =~= seq![]);
    }
}

/// Upserting keeps one condition per type; the new condition is there
/// afterwards, and every condition of another type is as it was.
pub proof fn law_upsert_keeps_one_per_type(conditions: Seq<ConditionView>, new: ConditionView)
    requires
        distinct_types(conditions),
    ensures
        distinct_types(upserted(conditions, new)),
        upserted(conditions, new).contains(new),
        forall|c: ConditionView|
            c.type_ != new.type_ ==> (#[trigger] upserted(conditions, new).contains(c)
                <==> conditions.contains(c)),
{
    let after = upserted(conditions, new);
    let p = condition_from(conditions, new.type_, 0);
    lemma_condition_from(conditions, new.type_, 0);
    assert(after[p] == new);
    assert forall|c: ConditionView| c.type_ != new.type_ implies (
    #[trigger] after.contains(c) <==> conditions.contains(c)) by {
        if after.contains(c) {
            let k = choose|k: int| 0 <= k < after.len() && after[k] == c;
            assert(k != p);
            assert(conditions[k] == c);
        }
        if conditions.contains(c) {
            let k = choose|k: int| 0 <= k < conditions.len() && conditions[k] == c;
            assert(after[k] == c);
        }
    }
}

/// Upserting a condition a second time changes nothing.
pub proof fn law_upsert_is_idempotent(conditions: Seq<ConditionView>, new: ConditionView)
    ensures
        upserted(upserted(conditions, new), new) == upserted(conditions, new),
{
    let after = upserted(conditions, new);
    let p = condition_from(conditions, new.type_, 0);
    lemma_condition_from(conditions, new.type_, 0);
    lemma_condition_from(after, new.type_, 0);
    let q = condition_from(after, new.type_, 0);
    if q < p {
        assert(after[q] == conditions[q]);
    }
    assert(after[p].type_ == new.type_);
    assert(q == p);
    assert(upserted(after, new) =~= after);
}

proof fn lemma_without_type(conditions: Seq<ConditionView>, t: Seq<char>, n: nat)
    requires
        n <= conditions.len(),
    ensures
        forall|k: int|
            0 <= k < without_type(conditions, t, n).len() ==> (#[trigger] without_type(
                conditions,
                t,
                n,
            )[k]).type_ != t,
        forall|k: int|
            0 <= k < without_type(conditions, t, n).len() ==> exists|j: int|
                0 <= j < n && #[trigger] conditions[j] == #[trigger] without_type(
                    conditions,
                    t,
                    n,
                )[k],
        distinct_types(conditions) ==> distinct_types(without_type(conditions, t, n)),
    decreases n,
{
    if n > 0 {
        let m = (n - 1) as nat;
        let before = without_type(conditions, t, m);
        let after = without_type(conditions, t, n);
        lemma_without_type(conditions, t, m);
        assert forall|k: int| 0 <= k < after.len() implies exists|j: int|
            0 <= j < n && #[trigger] conditions[j] == #[trigger] after[k] by {
            if k < before.len() {
                assert(after[k] == before[k]);
                let j = choose|j: int| 0 <= j < m && conditions[j] == before[k];
                assert(conditions[j] == after[k]);
            } else {
                assert(conditions[n - 1] == after[k]);
            }
        }
        if distinct_types(conditions) {
            assert forall|a: int, b: int| 0 <= a < b < after.len() implies (
            #[trigger] after[a]).type_ != (#[trigger] after[b]).type_ by {
                assert(after[a] == before[a]);
                if b < before.len() {
                    assert(after[b] == before[b]);
                } else {
                    let j = choose|j: int| 0 <= j < m && conditions[j] == before[a];
                    assert(conditions[j].type_ != conditions[n - 1].type_);
                }
            }
        }
    }
}

/// The status after a successful sync says so and nothing else: it is ready
/// without an error, its `Ready` condition is true, it has no `SyncFailed`
/// condition, and one condition per type stays one per type.
pub proof fn law_ready_status_is_ready(v: ResourceView, now: Seq<char>)
    requires
        distinct_types(known_conditions(v)),
    ensures
        ready_status(v, now).ready,
        ready_status(v, now).last_sync_error.len() == 0,
        distinct_types(ready_status(v, now).conditions),
        ready_status(v, now).conditions.contains(
            condition(
                v,
                CONDITION_READY@,
                "True"@,
                "SyncSucceeded"@,
                "Vault secrets synced successfully"@,
                now,
            ),
        ),
        forall|k: int|
            0 <= k < ready_status(v, now).conditions.len() ==> (#[trigger] ready_status(
                v,
                now,
            ).conditions[k]).type_ != CONDITION_SYNC_FAILED@,
{
    let known = known_conditions(v);
    let kept = without_type(known, CONDITION_SYNC_FAILED@, known.len());
    let ready = condition(
        v,
        CONDITION_READY@,
        "True"@,
        "SyncSucceeded"@,
        "Vault secrets synced successfully"@,
        now,
    );
    lemma_without_type(known, CONDITION_SYNC_FAILED@, known.len());
    law_upsert_keeps_one_per_type(kept, ready);
    lemma_condition_from(kept, CONDITION_READY@, 0);
    lemma_condition_names_differ();
    let after = upserted(kept, ready);
    assert forall|k: int| 0 <= k < after.len() implies (#[trigger] after[k]).type_
        != CONDITION_SYNC_FAILED@ by {
        if after[k].type_ != ready.type_ {
            assert(after[k] == kept[k]);
        }
    }
}

proof fn lemma_condition_names_differ()
    ensures
        CONDITION_READY@ != CONDITION_SYNC_FAILED@,
{
    reveal_strlit("Ready");
    reveal_strlit("SyncFailed");
    assert(CONDITION_READY@.len() != CONDITION_SYNC_FAILED@.len());
}

/// The status after a failed sync carries the error: it is not ready, `Ready`
/// is false and `SyncFailed` true with the same message, the time of the last
/// successful sync stays, and one condition per type stays one per type.
pub proof fn law_failed_status_carries_the_error(
    v: ResourceView,
    message: Seq<char>,
    now: Seq<char>,
)
    requires
        distinct_types(known_conditions(v)),
    ensures
        !failed_status(v, message, now).ready,
        failed_status(v, message, now).last_sync_error == message,
        v.status matches Some(s) ==> failed_status(v, message, now).last_sync_time
            == s.last_sync_time,
        distinct_types(failed_status(v, message, now).conditions),
        failed_status(v, message, now).conditions.contains(
            condition(v, CONDITION_READY@, "False"@, "SyncFailed"@, message, now),
        ),
        failed_status(v, message, now).conditions.contains(
            condition(v, CONDITION_SYNC_FAILED@, "True"@, "SyncFailed"@, message, now),
        ),
{
    let known = known_conditions(v);
    let not_ready = condition(v, CONDITION_READY@, "False"@, "SyncFailed"@, message, now);
    let failed = condition(v, CONDITION_SYNC_FAILED@, "True"@, "SyncFailed"@, message, now);
    law_upsert_keeps_one_per_type(known, not_ready);
    law_upsert_keeps_one_per_type(upserted(known, not_ready), failed);
    lemma_condition_names_differ();
    assert(upserted(known, not_ready).contains(not_ready));
}

// ---------------------------------------------------------------------------
// Laws on what is synced
// ---------------------------------------------------------------------------

/// A resource that names no interval is synced every five minutes; one that
/// does, every so often as its terms add up to, which has to be some time.
pub proof fn law_sync_interval_is_its_terms(s: Seq<char>)
    ensures
        default_pace() == (Duration { secs: 300, nanos: 0 }),
        s.len() == 0 ==> sync_interval_of(s) == Ok::<Duration, Seq<char>>(
            Duration { secs: 300, nanos: 0 },
        ),
        s.len() > 0 ==> match duration::span(text::trimmed(s), 0) {
            Ok(n) => if n == 0 {
                sync_interval_of(s) is Err
            } else {
                sync_interval_of(s) == Ok::<Duration, Seq<char>>(duration::saturated(n))
            },
            Err(_) => sync_interval_of(s) is Err,
        },
{
    if let Ok(n) = duration::span(text::trimmed(s), 0) {
        duration::law_spans_saturate(n);
        duration::law_duration_is_its_terms(s);
    }
}

/// Every entry asks for the item that it names, by `secretName` before the older
/// name, in its own vault or else the default one.
pub proof fn law_request_is_what_its_entry_names(
    spec: SpecView,
    requests: Seq<RequestView>,
    i: int,
)
    requires
        requests_from(spec, spec.data.len()) == Ok::<Seq<RequestView>, Seq<char>>(requests),
        0 <= i < spec.data.len(),
    ensures
        requests.len() == spec.data.len(),
        ({
            let entry = spec.data[i];
            let named = entry.secret_name matches Some(name) && name.len() > 0;
            &&& named ==> Some(requests[i].name) == entry.secret_name
            &&& !named ==> Some(requests[i].name) == entry.vaultwarden_secret
            &&& requests[i].name.len() > 0
            &&& entry.vault is Some ==> requests[i].vault == entry.vault
            &&& entry.vault is None ==> requests[i].vault == spec.default_vault
        }),
{
    law_requests_match_entries(spec, spec.data.len());
    assert(requests[i] == requests[i]);
    let entry = spec.data[i];
    crd::law_secret_name_wins(entry);
    assert(entry.resolved_secret_name() == Some(requests[i].name));
}

/// The first entry that names nothing is the one reported, by its key.
pub proof fn law_first_unnamed_entry_is_reported(spec: SpecView, i: int)
    requires
        0 <= i < spec.data.len(),
        forall|k: int| 0 <= k < i ==> (#[trigger] spec.data[k]).resolved_secret_name() is Some,
        spec.data[i].resolved_secret_name() is None,
    ensures
        requests_from(spec, spec.data.len()) matches Err(m) && text::holds_within(
            m,
            text::quoted(spec.data[i].key),
        ),
{
    law_requests_match_entries(spec, i as nat);
    let m = unnamed_entry(spec.data[i].key);
    assert(requests_from(spec, (i + 1) as nat) == Err::<Seq<RequestView>, Seq<char>>(m));
    lemma_requests_stop(spec, (i + 1) as nat, spec.data.len());
    assert(m =~= "data entry "@ + text::quoted(spec.data[i].key)
        + " names no item: secretName is not set"@);
}

proof fn lemma_secret_keys(items: Seq<DataItemView>, values: Seq<Seq<char>>, n: nat)
    requires
        n <= items.len(),
        items.len() == values.len(),
    ensures
        string_map::distinct_keys(secret_data(items, values, n)),
    decreases n,
{
    if n > 0 {
        lemma_secret_keys(items, values, (n - 1) as nat);
        string_map::law_stored_keeps_keys_distinct(
            secret_data(items, values, (n - 1) as nat),
            items[n - 1].key,
            values[n - 1],
        );
    }
}

/// The Secret of a resource bears its name, stands in its namespace, is marked
/// as the operator's, and holds under each key the value of the last entry of
/// that key, each key once, and no other key.
pub proof fn law_secret_is_the_resources_own(
    v: ResourceView,
    values: Seq<Seq<char>>,
    key: Seq<char>,
)
    requires
        values.len() == v.spec.data.len(),
    ensures
        ({
            let secret = managed_secret(v, values);
            &&& secret.name == v.name
            &&& v.namespace matches Some(ns) ==> secret.namespace == ns
            &&& v.namespace is None ==> secret.namespace == "default"@
            &&& secret.managed_by == "vaultwarden-operator"@
            &&& secret.secret_type == "Opaque"@
            &&& string_map::distinct_keys(secret.string_data)
            &&& match string_map::lookup(secret.string_data, key) {
                Some(value) => exists|i: int|
                    0 <= i < v.spec.data.len() && (#[trigger] v.spec.data[i]).key == key
                        && values[i] == value && forall|j: int|
                        i < j < v.spec.data.len() ==> (#[trigger] v.spec.data[j]).key != key,
                None => forall|i: int|
                    0 <= i < v.spec.data.len() ==> (#[trigger] v.spec.data[i]).key != key,
            }
        }),
{
    lemma_secret_keys(v.spec.data, values, v.spec.data.len());
    law_secret_holds_every_entry(v.spec.data, values, v.spec.data.len(), key);
}

/// A resource whose interval or entries cannot be read is reported with the
/// reason, and tried again in five minutes, or after its interval where that
/// can be read; else its requests are fetched, all at once.
pub proof fn law_sync_starts_or_says_why(v: ResourceView)
    ensures
        match (
            sync_interval_of(v.spec.sync_interval),
            requests_from(v.spec, v.spec.data.len()),
        ) {
            (Err(m), _) => apply_start(v) == (ApplyStepView::ReportFailure {
                message: m,
                requeue: Duration { secs: 300, nanos: 0 },
            }),
            (Ok(interval), Err(m)) => apply_start(v) == (ApplyStepView::ReportFailure {
                message: m,
                requeue: interval,
            }),
            (Ok(interval), Ok(requests)) => apply_start(v) == (ApplyStepView::Fetch {
                requests,
                interval,
            }),
        },
{
}

/// What was fetched is written, all of it, and nothing where the fetch failed:
/// then its error is reported. Either way the resource keeps its interval.
pub proof fn law_fetched_values_are_written(
    v: ResourceView,
    interval: Duration,
    values: Seq<Seq<char>>,
    e: VaultFault,
)
    ensures
        apply_fetched(v, interval, Ok(values)) == (ApplyStepView::Write {
            secret: managed_secret(v, values),
            interval,
        }),
        apply_fetched(v, interval, Err(e)) matches ApplyStepView::ReportFailure {
            message,
            requeue,
        } && requeue == interval && vault::crypto::ends_in(message, e.message()),
{
    vault::crypto::lemma_ends_in("failed to fetch Vaultwarden secrets: "@, e.message());
}

/// A condition takes the place of the first one of its type, or the end where
/// there is none; every other stays where it is.
pub proof fn law_upsert_takes_its_place(conditions: Seq<ConditionView>, new: ConditionView)
    ensures
        ({
            let after = upserted(conditions, new);
            &&& forall|i: int|
                0 <= i < conditions.len() && (#[trigger] conditions[i]).type_ == new.type_ && (
                forall|k: int| 0 <= k < i ==> (#[trigger] conditions[k]).type_ != new.type_)
                    ==> after == conditions.update(i, new)
            &&& (forall|k: int|
                0 <= k < conditions.len() ==> (#[trigger] conditions[k]).type_ != new.type_)
                ==> after == conditions.push(new)
        }),
{
    lemma_condition_from(conditions, new.type_, 0);
    let at = condition_from(conditions, new.type_, 0);
    assert forall|i: int|
        0 <= i < conditions.len() && (#[trigger] conditions[i]).type_ == new.type_ && (forall|
            k: int,
        |
            0 <= k < i ==> (#[trigger] conditions[k]).type_ != new.type_) implies i == at by {
        if at < i {
            assert(conditions[at].type_ == new.type_);
        }
    }
}

proof fn lemma_without_type_filter(conditions: Seq<ConditionView>, t: Seq<char>, n: nat)
    requires
        n <= conditions.len(),
    ensures
        without_type(conditions, t, n) == conditions.take(n as int).filter(
            |c: ConditionView| c.type_ != t,
        ),
    decreases n,
{
    reveal(Seq::filter);
    let now = conditions.take(n as int);
    if n > 0 {
        lemma_without_type_filter(conditions, t, (n - 1) as nat);
        assert(now.drop_last() =~= conditions.take(n - 1));
    } else {
        assert(now =~= seq![]);
    }
}

/// Taking a type of condition out keeps all others, in their order.
pub proof fn law_without_type_keeps_the_rest(conditions: Seq<ConditionView>, t: Seq<char>)
    ensures
        without_type(conditions, t, conditions.len()) == conditions.filter(
            |c: ConditionView| c.type_ != t,
        ),
{
    lemma_without_type_filter(conditions, t, conditions.len());
    assert(conditions.take(conditions.len() as int) =~= conditions);
}

/// The time of a condition that is set to `status` among known ones, of which no
/// two share a type: the one it had where its status is the same, else `now`.
pub open spec fn holds_since(
    known: Seq<ConditionView>,
    type_: Seq<char>,
    status: Seq<char>,
    now: Seq<char>,
    time: Seq<char>,
) -> bool {
    &&& forall|k: int|
        0 <= k < known.len() && (#[trigger] known[k]).type_ == type_ && known[k].status == status
            ==> time == known[k].last_transition_time
    &&& (forall|k: int|
        0 <= k < known.len() && (#[trigger] known[k]).type_ == type_ ==> known[k].status != status)
        ==> time == now
}

proof fn lemma_holds_since(
    known: Seq<ConditionView>,
    type_: Seq<char>,
    status: Seq<char>,
    now: Seq<char>,
)
    requires
        distinct_types(known),
    ensures
        holds_since(known, type_, status, now, transition_time(known, type_, status, now)),
{
    lemma_condition_from(known, type_, 0);
    let at = condition_from(known, type_, 0);
    assert forall|k: int| 0 <= k < known.len() && (#[trigger] known[k]).type_ == type_ implies k
        == at by {
        if at < k {
            assert(known[at].type_ == type_);
        }
    }
}

/// After a sync that went well a resource is ready since it was first so: the
/// status tells the time and the generation, holds one condition `Ready` of
/// status `True` and none of `SyncFailed`, and keeps all others.
pub proof fn law_ready_status_in_full(v: ResourceView, now: Seq<char>)
    requires
        distinct_types(known_conditions(v)),
    ensures
        ({
            let s = ready_status(v, now);
            let known = match v.status {
                Some(before) => before.conditions,
                None => seq![],
            };
            let generation = match v.generation {
                Some(g) => g,
                None => 0i64,
            };
            &&& s.ready
            &&& s.last_sync_time == Some(now)
            &&& s.last_sync_error.len() == 0
            &&& s.observed_generation == Some(generation)
            &&& exists|k: int|
                0 <= k < s.conditions.len() && ({
                    let c = #[trigger] s.conditions[k];
                    &&& c.type_ == "Ready"@
                    &&& c.status == "True"@
                    &&& c.reason == "SyncSucceeded"@
                    &&& c.message == "Vault secrets synced successfully"@
                    &&& c.observed_generation == Some(generation)
                    &&& holds_since(known, "Ready"@, "True"@, now, c.last_transition_time)
                })
            &&& forall|k: int|
                0 <= k < s.conditions.len() ==> (#[trigger] s.conditions[k]).type_ != "SyncFailed"@
            &&& distinct_types(s.conditions)
            &&& forall|c: ConditionView|
                c.type_ != "Ready"@ && c.type_ != "SyncFailed"@ ==> (
                #[trigger] s.conditions.contains(c) <==> known.contains(c))
        }),
{
    let known = known_conditions(v);
    let s = ready_status(v, now);
    law_ready_status_is_ready(v, now);
    lemma_holds_since(known, "Ready"@, "True"@, now);
    let kept = without_type(known, CONDITION_SYNC_FAILED@, known.len());
    lemma_without_type(known, CONDITION_SYNC_FAILED@, known.len());
    let new = condition(
        v,
        CONDITION_READY@,
        "True"@,
        "SyncSucceeded"@,
        "Vault secrets synced successfully"@,
        now,
    );
    law_upsert_keeps_one_per_type(kept, new);
    let k = choose|k: int| 0 <= k < s.conditions.len() && s.conditions[k] == new;
    assert(s.conditions[k].type_ == "Ready"@);
    law_without_type_keeps_the_rest(known, CONDITION_SYNC_FAILED@);
    let other = |c: ConditionView| c.type_ != CONDITION_SYNC_FAILED@;
    assert forall|c: ConditionView|
        c.type_ != "Ready"@ && c.type_ != "SyncFailed"@ implies (
    #[trigger] s.conditions.contains(c) <==> known.contains(c)) by {
        assert(s.conditions.contains(c) <==> kept.contains(c));
        if known.contains(c) {
            let j = choose|j: int| 0 <= j < known.len() && known[j] == c;
            known.lemma_filter_contains(other, j);
        }
        if kept.contains(c) {
            known.lemma_filter_contains_rev(other, c);
        }
    }
}

/// After a sync that failed a resource is not ready: the status tells the error
/// and the generation, keeps the time of the last sync that went well, holds
/// `Ready` of status `False` and `SyncFailed` of status `True` with the error,
/// and keeps all other conditions.
pub proof fn law_failed_status_in_full(v: ResourceView, message: Seq<char>, now: Seq<char>)
    requires
        distinct_types(known_conditions(v)),
    ensures
        ({
            let s = failed_status(v, message, now);
            let known = match v.status {
                Some(before) => before.conditions,
                None => seq![],
            };
            let generation = match v.generation {
                Some(g) => g,
                None => 0i64,
            };
            &&& !s.ready
            &&& v.status matches Some(before) ==> s.last_sync_time == before.last_sync_time
            &&& v.status is None ==> s.last_sync_time is None
            &&& s.last_sync_error == message
            &&& s.observed_generation == Some(generation)
            &&& exists|k: int|
                0 <= k < s.conditions.len() && ({
                    let c = #[trigger] s.conditions[k];
                    &&& c.type_ == "Ready"@
                    &&& c.status == "False"@
                    &&& c.reason == "SyncFailed"@
                    &&& c.message == message
                    &&& c.observed_generation == Some(generation)
                    &&& holds_since(known, "Ready"@, "False"@, now, c.last_transition_time)
                })
            &&& exists|k: int|
                0 <= k < s.conditions.len() && ({
                    let c = #[trigger] s.conditions[k];
                    &&& c.type_ == "SyncFailed"@
                    &&& c.status == "True"@
                    &&& c.reason == "SyncFailed"@
                    &&& c.message == message
                    &&& c.observed_generation == Some(generation)
                    &&& holds_since(known, "SyncFailed"@, "True"@, now, c.last_transition_time)
                })
            &&& distinct_types(s.conditions)
            &&& forall|c: ConditionView|
                c.type_ != "Ready"@ && c.type_ != "SyncFailed"@ ==> (
                #[trigger] s.conditions.contains(c) <==> known.contains(c))
        }),
{
    let known = known_conditions(v);
    let s = failed_status(v, message, now);
    law_failed_status_carries_the_error(v, message, now);
    lemma_holds_since(known, "Ready"@, "False"@, now);
    lemma_holds_since(known, "SyncFailed"@, "True"@, now);
    let ready = condition(v, CONDITION_READY@, "False"@, "SyncFailed"@, message, now);
    let failed = condition(v, CONDITION_SYNC_FAILED@, "True"@, "SyncFailed"@, message, now);
    let middle = upserted(known, ready);
    law_upsert_keeps_one_per_type(known, ready);
    law_upsert_keeps_one_per_type(middle, failed);
    let k = choose|k: int| 0 <= k < s.conditions.len() && s.conditions[k] == ready;
    assert(s.conditions[k].type_ == "Ready"@);
    let m = choose|m: int| 0 <= m < s.conditions.len() && s.conditions[m] == failed;
    assert(s.conditions[m].type_ == "SyncFailed"@);
    assert forall|c: ConditionView|
        c.type_ != "Ready"@ && c.type_ != "SyncFailed"@ implies (
    #[trigger] s.conditions.contains(c) <==> known.contains(c)) by {
        assert(s.conditions.contains(c) <==> middle.contains(c));
        assert(middle.contains(c) <==> known.contains(c));
    }
}

/// What a reader is told of each fault, word for word.
pub proof fn law_controller_messages_read(
    m: String,
    e: VaultError,
    v: ResourceView,
    interval: Duration,
    s: Seq<char>,
)
    ensures
        ReconcileError::Kube(m).text() == "kubernetes API error: "@ + m@,
        ReconcileError::Vault(e).text() == "vault error: "@ + e@.message(),
        ReconcileError::Finalizer(m).text() == "finalizer error: "@ + m@,
        unnamed_entry(s) == "data entry "@ + text::quoted(s)
            + " names no item: secretName is not set"@,
        apply_fetched(v, interval, Err(e@)) == (ApplyStepView::ReportFailure {
            message: "failed to fetch Vaultwarden secrets: "@ + e@.message(),
            requeue: interval,
        }),
        s.len() > 0 && duration::span(text::trimmed(s), 0) == Ok::<nat, duration::DurationFault>(0)
            ==> sync_interval_of(s) == Err::<Duration, Seq<char>>(
            "syncInterval must be positive"@,
        ),
        s.len() > 0 ==> (duration::terms_result(text::trimmed(s)) matches Err(fault)
            ==> sync_interval_of(s) == Err::<Duration, Seq<char>>(fault)),
{
}

/// A Secret is seen as its fields are.
pub proof fn law_managed_secret_is_its_fields(s: ManagedSecret)
    ensures
        s@.name == s.name@,
        s@.namespace == s.namespace@,
        s@.managed_by == s.managed_by@,
        s@.secret_type == s.secret_type@,
        s@.string_data == s.string_data.entries(),
{
}

} // verus!
