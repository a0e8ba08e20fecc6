//! Vaultwarden client: authentication, cached vault sync, and secret lookup.
//!
//! [`Session`] is the shared state: the tokens, the symmetric key and a cache
//! of decrypted vault items. Lookups read the cache alone. A refresh is a
//! sequence of [`RefreshStep`]s: each names a request to make, and its reply
//! is handed to the method that gives the step after it.
use vstd::prelude::*;
use vstd::string::*;

pub mod auth;
pub mod crypto;
pub mod sync;

use crate::duration::Duration;
pub use crate::duration::NANOS_PER_SEC;
use crate::outside;
use crate::outside::random_id;
use crate::text;
use crate::text::{join, text_and, trim_end_char};

use auth::{
    refresh_form, refreshed_token, AuthError, AuthFault, Credentials, CredentialsView,
    TokenResponse,
};
use crypto::{KeyView, SymmetricKey};
use sync::{
    decrypt_vault, extract_secret, lookup_item, CacheView, DecryptSkips, LookupError, LookupFault,
    SyncError, SyncFault, SyncResponse, VaultCache,
};

verus! {

// ---------------------------------------------------------------------------
// Errors and requests
// ---------------------------------------------------------------------------

/// What can go wrong in the vault client.
#[derive(Debug)]
pub enum VaultError {
    Auth(AuthError),
    Sync(SyncError),
    Lookup(LookupError),
    NotInitialized,
}

/// The mathematical form of a [`VaultError`].
pub enum VaultFault {
    Auth(AuthFault),
    Sync(SyncFault),
    Lookup(LookupFault),
    NotInitialized,
}

impl View for VaultError {
    type V = VaultFault;

    open spec fn view(&self) -> VaultFault {
        match *self {
            VaultError::Auth(e) => VaultFault::Auth(e@),
            VaultError::Sync(e) => VaultFault::Sync(e@),
            VaultError::Lookup(e) => VaultFault::Lookup(e@),
            VaultError::NotInitialized => VaultFault::NotInitialized,
        }
    }
}

impl VaultFault {
    /// What is reported to a reader.
    pub open spec fn message(self) -> Seq<char> {
        match self {
            VaultFault::Auth(e) => "auth error: "@ + e.message(),
            VaultFault::Sync(e) => "sync error: "@ + e.message(),
            VaultFault::Lookup(e) => e.message(),
            VaultFault::NotInitialized => "vault not yet initialized"@,
        }
    }
}

impl VaultFault {
    /// The messages of the errors beneath this one, outermost first.
    pub open spec fn sources(self) -> Seq<Seq<char>> {
        match self {
            VaultFault::Auth(e) => seq![e.message()] + e.sources(),
            VaultFault::Sync(e) => seq![e.message()] + e.sources(),
            VaultFault::Lookup(e) => seq![e.message()],
            VaultFault::NotInitialized => seq![],
        }
    }
}

impl VaultError {
    /// The messages of the errors beneath this one, outermost first. What lies
    /// beneath an HTTP error is known to the one who made the request.
    pub fn sources(&self) -> (r: Vec<String>)
        ensures
            text::texts(r@) == self@.sources(),
    {
        match self {
            VaultError::Auth(e) => text_and(e.message(), e.sources()),
            VaultError::Sync(e) => text_and(e.message(), e.sources()),
            VaultError::Lookup(e) => text_and(e.message(), Vec::new()),
            VaultError::NotInitialized => {
                let none: Vec<String> = Vec::new();
                proof {
                    assert(text::texts(none@) =~= seq![]);
                }
                none
            },
        }
    }

    /// What is reported to a reader.
    pub fn message(&self) -> (r: String)
        ensures
            r@ == self@.message(),
    {
        match self {
            VaultError::Auth(e) => join("auth error: ", e.message().as_str()),
            VaultError::Sync(e) => join("sync error: ", e.message().as_str()),
            VaultError::Lookup(e) => e.message(),
            VaultError::NotInitialized => "vault not yet initialized".to_owned(),
        }
    }
}

/// One vault lookup: an item name plus an optional vault (organization) scope.
#[derive(Debug)]
pub struct SecretRequest {
    pub name: String,
    /// Organization name to scope the search to; `None` = whole account.
    pub vault: Option<String>,
}

/// The mathematical form of a [`SecretRequest`].
pub struct RequestView {
    pub name: Seq<char>,
    pub vault: Option<Seq<char>>,
}

impl View for SecretRequest {
    type V = RequestView;

    open spec fn view(&self) -> RequestView {
        RequestView { name: self.name@, vault: text::opt_text(self.vault) }
    }
}

/// A copy of an optional text.
pub(crate) fn clone_opt(s: &Option<String>) -> (r: Option<String>)
    ensures
        text::opt_text(r) == text::opt_text(*s),
{
    match s {
        Some(t) => Some(t.clone()),
        None => None,
    }
}

impl Clone for SecretRequest {
    fn clone(&self) -> (r: Self)
        ensures
            r@ == self@,
    {
        SecretRequest { name: self.name.clone(), vault: clone_opt(&self.vault) }
    }
}

/// The views of a list of requests.
pub open spec fn request_views(requests: Seq<SecretRequest>) -> Seq<RequestView> {
    requests.map_values(|r: SecretRequest| r@)
}

// ---------------------------------------------------------------------------
// Time
// ---------------------------------------------------------------------------

/// A point in time, in nanoseconds since the client was started.
#[derive(Debug, Clone, Copy, PartialEq, Eq, Structural)]
pub struct Moment {
    pub nanos: u128,
}

/// The latest moment a clock can show: more seconds than 64 bits can count.
pub const LATEST_NANOS: u128 = 0x1_0000_0000_0000_0000_0000_0000;

/// How long before it expires a token is renewed, in seconds.
pub const RENEWAL_MARGIN_SECS: u64 = 60;

/// How long a failed background renewal of the token is backed off, in seconds.
pub const RENEWAL_BACKOFF_SECS: u64 = 30;

impl Moment {
    /// Whether a clock can show this moment.
    pub open spec fn valid(self) -> bool {
        self.nanos <= LATEST_NANOS
    }

    /// The moment `secs` seconds later, in nanoseconds.
    pub open spec fn later(self, secs: u64) -> int {
        self.nanos + secs * 1_000_000_000
    }

    /// The moment `secs` seconds later.
    pub fn plus_secs(self, secs: u64) -> (r: Moment)
        requires
            self.valid(),
        ensures
            r.nanos == self.later(secs),
    {
        Moment { nanos: self.nanos + secs as u128 * NANOS_PER_SEC }
    }
}

// ---------------------------------------------------------------------------
// Session
// ---------------------------------------------------------------------------

/// Shared session state.
#[derive(Debug)]
pub struct Session {
    pub access_token: String,
    pub refresh_token: String,
    /// When the access token expires.
    pub token_expires_at: Moment,
    pub sym_key: SymmetricKey,
    /// The decrypted vault cache. `None` until the first successful sync.
    pub vault: Option<VaultCache>,
    /// When the vault cache was last successfully refreshed (by either the
    /// background timer or an on-demand refresh-on-miss).
    pub last_refresh_at: Moment,
}

/// The mathematical form of a [`Session`].
pub struct SessionView {
    pub access_token: Seq<char>,
    pub refresh_token: Seq<char>,
    pub token_expires_at: Moment,
    pub sym_key: KeyView,
    pub vault: Option<CacheView>,
    pub last_refresh_at: Moment,
}

impl View for Session {
    type V = SessionView;

    open spec fn view(&self) -> SessionView {
        SessionView {
            access_token: self.access_token@,
            refresh_token: self.refresh_token@,
            token_expires_at: self.token_expires_at,
            sym_key: self.sym_key@,
            vault: match self.vault {
                Some(cache) => Some(cache@),
                None => None,
            },
            last_refresh_at: self.last_refresh_at,
        }
    }
}

impl SessionView {
    /// The cache of a session, if there is one, is well formed.
    pub open spec fn wf(self) -> bool {
        self.vault matches Some(cache) ==> cache.wf()
    }
}

/// What the lookups of the first `n` requests give: all their values, or the
/// error of the first that fails.
pub open spec fn fetched_from(cache: CacheView, requests: Seq<RequestView>, n: nat) -> Result<
    Seq<Seq<char>>,
    LookupFault,
>
    decreases n,
{
    if n == 0 {
        Ok(seq![])
    } else {
        match fetched_from(cache, requests, (n - 1) as nat) {
            Err(e) => Err(e),
            Ok(values) => {
                let request = requests[n - 1];
                match sync::lookup_at(cache, request.name, request.vault) {
                    Err(e) => Err(e),
                    Ok(i) => Ok(values.push(sync::secret_of(cache.items[i]))),
                }
            },
        }
    }
}

/// What a session gives for some requests.
pub open spec fn fetched(session: SessionView, requests: Seq<RequestView>) -> Result<
    Seq<Seq<char>>,
    VaultFault,
> {
    match session.vault {
        None => Err(VaultFault::NotInitialized),
        Some(cache) => match fetched_from(cache, requests, requests.len()) {
            Ok(values) => Ok(values),
            Err(e) => Err(VaultFault::Lookup(e)),
        },
    }
}

/// The view of a fetch result.
pub open spec fn fetch_view(r: Result<Vec<String>, VaultError>) -> Result<
    Seq<Seq<char>>,
    VaultFault,
> {
    match r {
        Ok(values) => Ok(text::texts(values@)),
        Err(e) => Err(e@),
    }
}

/// What a fetch asks for next.
#[derive(Debug)]
pub enum FetchStep {
    /// The fetch is over.
    Done(Result<Vec<String>, VaultError>),
    /// A lookup missed in a cache that may be stale: refresh it if that is due,
    /// then [`Session::retry_fetch`].
    Refresh(LookupError),
}

/// The mathematical form of a [`FetchStep`].
pub enum FetchStepView {
    Done(Result<Seq<Seq<char>>, VaultFault>),
    Refresh(LookupFault),
}

impl View for FetchStep {
    type V = FetchStepView;

    open spec fn view(&self) -> FetchStepView {
        match *self {
            FetchStep::Done(r) => FetchStepView::Done(fetch_view(r)),
            FetchStep::Refresh(e) => FetchStepView::Refresh(e@),
        }
    }
}

/// What a fetch asks for after its first round of lookups.
pub open spec fn fetch_step(first: Result<Seq<Seq<char>>, VaultFault>) -> FetchStepView {
    match first {
        Err(VaultFault::Lookup(e)) => if e is VaultAmbiguous {
            FetchStepView::Done(first)
        } else {
            FetchStepView::Refresh(e)
        },
        _ => FetchStepView::Done(first),
    }
}

impl Session {
    /// The session of a fresh login, with no vault yet.
    pub fn new(credentials: Credentials, now: Moment) -> (r: Self)
        requires
            now.valid(),
        ensures
            r@.access_token == credentials@.access_token,
            r@.refresh_token == credentials@.refresh_token,
            r@.token_expires_at.nanos == now.later(credentials@.expires_in),
            r@.sym_key == credentials@.sym_key,
            r@.vault is None,
            r@.last_refresh_at == now,
            r@.wf(),
    {
        Session {
            access_token: credentials.access_token,
            refresh_token: credentials.refresh_token,
            token_expires_at: now.plus_secs(credentials.expires_in),
            sym_key: credentials.sym_key,
            vault: None,
            last_refresh_at: now,
        }
    }

    /// Looks all requests up in the cache, once.
    pub fn try_fetch_secrets(&self, requests: &[SecretRequest]) -> (r: Result<
        Vec<String>,
        VaultError,
    >)
        requires
            self@.wf(),
        ensures
            fetch_view(r) == fetched(self@, request_views(requests@)),
    {
        let cache = match &self.vault {
            Some(cache) => cache,
            None => return Err(VaultError::NotInitialized),
        };
        let ghost views = request_views(requests@);
        let mut result: Vec<String> = Vec::new();
        let mut i: usize = 0;
        proof {
            assert(text::texts(result@) =~= seq![]);
        }
        while i < requests.len()
            invariant
                i <= requests@.len(),
                views == request_views(requests@),
                cache@.wf(),
                self@.vault == Some(cache@),
                fetched_from(cache@, views, i as nat) == Ok::<Seq<Seq<char>>, LookupFault>(
                    text::texts(result@),
                ),
            decreases requests@.len() - i,
        {
            let request = &requests[i];
            proof {
                assert(views[i as int] == request@);
            }
            let vault = match &request.vault {
                Some(v) => Some(v.as_str()),
                None => None,
            };
            let item = match lookup_item(cache, request.name.as_str(), vault) {
                Ok(item) => item,
                Err(e) => {
                    proof {
                        lemma_fetch_stops(cache@, views, (i + 1) as nat, views.len());
                    }
                    return Err(VaultError::Lookup(e));
                },
            };
            let ghost before = result@;
            let value = extract_secret(item).to_owned();
            let ghost secret = value@;
            result.push(value);
            proof {
                assert(text::texts(result@) =~= text::texts(before).push(secret));
            }
            i = i + 1;
        }
        Ok(result)
    }

    /// Return the decrypted values for all requested lookups, index-aligned
    /// with `requests`.
    ///
    /// All-or-nothing: if any lookup fails, the entire call fails (no partial writes).
    ///
    /// On a staleness-class miss (see `LookupError::is_stale_miss`), this asks for one
    /// on-demand vault re-sync, subject to a cooldown so that a batch of resources
    /// failing at once collapses into a single re-sync, after which
    /// [`Session::retry_fetch`] tries the lookups once more.
    pub fn fetch_secrets(&self, requests: &[SecretRequest]) -> (r: FetchStep)
        requires
            self@.wf(),
        ensures
            r@ == fetch_step(fetched(self@, request_views(requests@))),
    {
        match self.try_fetch_secrets(requests) {
            Err(VaultError::Lookup(e)) => if e.is_stale_miss() {
                FetchStep::Refresh(e)
            } else {
                FetchStep::Done(Err(VaultError::Lookup(e)))
            },
            other => FetchStep::Done(other),
        }
    }

    /// Completes a fetch that missed: looks everything up again if the cache
    /// was refreshed, and else gives the miss itself.
    pub fn retry_fetch(
        &self,
        requests: &[SecretRequest],
        miss: LookupError,
        refreshed: bool,
    ) -> (r: Result<Vec<String>, VaultError>)
        requires
            self@.wf(),
        ensures
            fetch_view(r) == (if refreshed {
                fetched(self@, request_views(requests@))
            } else {
                Err(VaultFault::Lookup(miss@))
            }),
    {
        if refreshed {
            self.try_fetch_secrets(requests)
        } else {
            Err(VaultError::Lookup(miss))
        }
    }

    /// Whether the cooldown since the last refresh (background or on-demand)
    /// has elapsed, so that a miss may refresh the cache.
    pub fn refresh_due(&self, now: Moment, min_refresh_interval: Duration) -> (r: bool)
        ensures
            r == on_demand_due(self@, now, min_refresh_interval),
    {
        let since_last: u128 = if now.nanos > self.last_refresh_at.nanos {
            now.nanos - self.last_refresh_at.nanos
        } else {
            0
        };
        since_last >= min_refresh_interval.as_nanos()
    }
}

proof fn lemma_fetch_stops(cache: CacheView, requests: Seq<RequestView>, n: nat, m: nat)
    requires
        n <= m,
        fetched_from(cache, requests, n) is Err,
    ensures
        fetched_from(cache, requests, m) == fetched_from(cache, requests, n),
    decreases m,
{
    if n < m {
        lemma_fetch_stops(cache, requests, n, (m - 1) as nat);
    }
}

/// Whether the time since the last refresh has reached the cooldown; a clock
/// that stands still or runs back counts as no time.
pub open spec fn on_demand_due(
    session: SessionView,
    now: Moment,
    min_refresh_interval: Duration,
) -> bool {
    let since_last = now.nanos - session.last_refresh_at.nanos;
    (if since_last > 0 {
        since_last
    } else {
        0
    }) >= min_refresh_interval.total()
}

/// A fetch is all-or-nothing and index-aligned: it succeeds exactly when every
/// request is found, and then each value is the secret of the item that its
/// own request finds.
pub proof fn law_fetch_is_all_or_nothing(
    cache: CacheView,
    requests: Seq<RequestView>,
    n: nat,
)
    requires
        n <= requests.len(),
    ensures
        fetched_from(cache, requests, n) is Ok <==> forall|i: int|
            0 <= i < n ==> sync::lookup_at(
                cache,
                (#[trigger] requests[i]).name,
                requests[i].vault,
            ) is Ok,
        fetched_from(cache, requests, n) matches Ok(values) ==> values.len() == n && forall|i: int|
            0 <= i < n ==> #[trigger] values[i] == sync::secret_of(
                cache.items[sync::lookup_at(cache, requests[i].name, requests[i].vault)->Ok_0],
            ),
    decreases n,
{
    if n > 0 {
        law_fetch_is_all_or_nothing(cache, requests, (n - 1) as nat);
        assert(requests[n - 1] == requests[n - 1]);
    }
}

/// Only a miss that a refresh can cure asks for one: an ambiguous vault name
/// and a vault that was never synced fail at once, and a fetch that succeeds
/// needs none.
pub proof fn law_refresh_only_on_stale_miss(session: SessionView, requests: Seq<RequestView>)
    ensures
        fetch_step(fetched(session, requests)) is Refresh <==> {
            &&& session.vault is Some
            &&& fetched_from(session.vault->0, requests, requests.len()) matches Err(e)
                && !(e is VaultAmbiguous)
        },
{
}

/// On-demand refreshes collapse: once the cache was refreshed, no miss within
/// the cooldown refreshes it again.
pub proof fn law_cooldown_holds(session: SessionView, now: Moment, min_refresh_interval: Duration)
    requires
        min_refresh_interval.total() > 0,
        now.nanos < session.last_refresh_at.nanos + min_refresh_interval.total(),
    ensures
        !on_demand_due(session, now, min_refresh_interval),
{
}

// ---------------------------------------------------------------------------
// Refreshing the token and the vault
// ---------------------------------------------------------------------------

/// What is waiting for the token to be renewed.
#[derive(Debug)]
pub enum RenewStage {
    /// Nothing but the token itself.
    TokenOnly,
    /// The first fetch of the vault.
    BeforeFetch,
    /// The second fetch of the vault, after the first was refused. The vault
    /// will be decrypted with the key that the first fetch started with.
    BeforeRetry(SymmetricKey),
}

/// The mathematical form of a [`RenewStage`].
pub enum RenewStageView {
    TokenOnly,
    BeforeFetch,
    BeforeRetry(KeyView),
}

impl View for RenewStage {
    type V = RenewStageView;

    open spec fn view(&self) -> RenewStageView {
        match *self {
            RenewStage::TokenOnly => RenewStageView::TokenOnly,
            RenewStage::BeforeFetch => RenewStageView::BeforeFetch,
            RenewStage::BeforeRetry(key) => RenewStageView::BeforeRetry(key@),
        }
    }
}

/// Whether a fetch of the vault is the first or the second.
#[derive(Debug, Clone, Copy, PartialEq, Eq, Structural)]
pub enum FetchStage {
    First,
    Second,
}

/// What a refresh asks for next.
#[derive(Debug)]
pub enum RefreshStep {
    /// Send this form to the token endpoint, then [`Session::after_token`].
    RequestToken { form: Vec<(String, String)>, stage: RenewStage },
    /// Run the full authentication flow, then [`Session::after_authenticate`].
    Authenticate { stage: RenewStage },
    /// Fetch the vault with this token, then [`Session::after_fetch`].
    FetchSync { access_token: String, sym_key: SymmetricKey, stage: FetchStage },
    /// The token is valid.
    TokenReady,
    /// The vault was refreshed; what was dropped from it.
    Refreshed(DecryptSkips),
    /// The refresh failed.
    Failed(VaultError),
}

/// The mathematical form of a [`RefreshStep`].
pub enum RefreshStepView {
    RequestToken { form: Seq<(Seq<char>, Seq<char>)>, stage: RenewStageView },
    Authenticate { stage: RenewStageView },
    FetchSync { access_token: Seq<char>, sym_key: KeyView, stage: FetchStage },
    TokenReady,
    Refreshed(DecryptSkips),
    Failed(VaultFault),
}

impl View for RefreshStep {
    type V = RefreshStepView;

    open spec fn view(&self) -> RefreshStepView {
        match *self {
            RefreshStep::RequestToken { form, stage } => RefreshStepView::RequestToken {
                form: auth::form_view(form@),
                stage: stage@,
            },
            RefreshStep::Authenticate { stage } => RefreshStepView::Authenticate { stage: stage@ },
            RefreshStep::FetchSync { access_token, sym_key, stage } => {
                RefreshStepView::FetchSync {
                    access_token: access_token@,
                    sym_key: sym_key@,
                    stage,
                }
            },
            RefreshStep::TokenReady => RefreshStepView::TokenReady,
            RefreshStep::Refreshed(skips) => RefreshStepView::Refreshed(skips),
            RefreshStep::Failed(e) => RefreshStepView::Failed(e@),
        }
    }
}

/// Whether the access token expires within the renewal margin.
pub open spec fn token_expiring(session: SessionView, now: Moment) -> bool {
    now.later(RENEWAL_MARGIN_SECS) >= session.token_expires_at.nanos
}

/// How the token is renewed: by its refresh token, or by logging in anew where
/// there is none.
pub open spec fn renewal(session: SessionView, stage: RenewStageView) -> RefreshStepView {
    if session.refresh_token.len() == 0 {
        RefreshStepView::Authenticate { stage }
    } else {
        RefreshStepView::RequestToken { form: auth::refresh_grant(session.refresh_token), stage }
    }
}

/// What goes on once the token is valid.
pub open spec fn resumption(session: SessionView, stage: RenewStageView) -> RefreshStepView {
    match stage {
        RenewStageView::TokenOnly => RefreshStepView::TokenReady,
        RenewStageView::BeforeFetch => RefreshStepView::FetchSync {
            access_token: session.access_token,
            sym_key: session.sym_key,
            stage: FetchStage::First,
        },
        RenewStageView::BeforeRetry(key) => RefreshStepView::FetchSync {
            access_token: session.access_token,
            sym_key: key,
            stage: FetchStage::Second,
        },
    }
}

/// The session once a token response has renewed its token. A refresh token
/// that was not rotated stays.
pub open spec fn with_token(session: SessionView, token: TokenResponse, now: Moment) -> SessionView {
    SessionView {
        access_token: token.access_token@,
        refresh_token: if token.refresh_token@.len() == 0 {
            session.refresh_token
        } else {
            token.refresh_token@
        },
        token_expires_at: Moment { nanos: now.later(token.expires_in) as u128 },
        ..session
    }
}

/// The session once a login has replaced its tokens and its key.
pub open spec fn with_credentials(
    session: SessionView,
    credentials: CredentialsView,
    now: Moment,
) -> SessionView {
    SessionView {
        access_token: credentials.access_token,
        refresh_token: credentials.refresh_token,
        token_expires_at: Moment { nanos: now.later(credentials.expires_in) as u128 },
        sym_key: credentials.sym_key,
        ..session
    }
}

/// The step after a failed fetch of the vault: a refused token is renewed, but
/// only once.
pub open spec fn after_failed_fetch(
    session: SessionView,
    stage: FetchStage,
    sym_key: KeyView,
    fault: SyncFault,
) -> RefreshStepView {
    if fault is Unauthorized && stage == FetchStage::First {
        renewal(session, RenewStageView::BeforeRetry(sym_key))
    } else {
        RefreshStepView::Failed(VaultFault::Sync(fault))
    }
}

/// What a cache holds once a sync response was decrypted into it.
pub open spec fn caches(cache: CacheView, response: SyncResponse, sym_key: KeyView) -> bool {
    let orgs = response.profile.organizations@;
    &&& cache.items == sync::kept_items(
        sync::vault_outcomes(response, sym_key),
        response.ciphers@.len(),
    )
    &&& sync::indexes_orgs(cache.orgs_by_name, orgs, orgs.len())
    &&& cache.wf()
}

/// The counts of what a sync response loses when it is decrypted.
pub open spec fn counts_skips(skips: DecryptSkips, response: SyncResponse, sym_key: KeyView) -> bool {
    let outcomes = sync::vault_outcomes(response, sym_key);
    &&& skips.no_org_key == sync::count_no_org_key(outcomes, response.ciphers@.len())
    &&& skips.decrypt_failed == sync::count_failed(outcomes, response.ciphers@.len())
}

impl Session {
    /// Whether the access token has to be renewed before it is used.
    pub fn needs_token(&self, now: Moment) -> (r: bool)
        requires
            now.valid(),
        ensures
            r == token_expiring(self@, now),
    {
        now.plus_secs(RENEWAL_MARGIN_SECS).nanos >= self.token_expires_at.nanos
    }

    /// How long the background renewal sleeps before it looks at the token
    /// again, in nanoseconds: until the renewal margin begins.
    pub fn token_refresh_delay(&self, now: Moment) -> (r: u128)
        ensures
            r == (if self@.token_expires_at.nanos > now.later(RENEWAL_MARGIN_SECS) {
                self@.token_expires_at.nanos - now.later(RENEWAL_MARGIN_SECS)
            } else {
                0
            }),
    {
        let margin: u128 = RENEWAL_MARGIN_SECS as u128 * NANOS_PER_SEC;
        let refresh_at: u128 = if self.token_expires_at.nanos >= margin {
            self.token_expires_at.nanos - margin
        } else {
            now.nanos
        };
        if refresh_at > now.nanos {
            refresh_at - now.nanos
        } else {
            0
        }
    }

    /// Renews the token: by the refresh token, or by logging in anew where
    /// there is none.
    fn do_refresh_or_reauth(&self, stage: RenewStage) -> (r: RefreshStep)
        ensures
            r@ == renewal(self@, stage@),
    {
        match refresh_form(self.refresh_token.as_str()) {
            Ok(form) => RefreshStep::RequestToken { form, stage },
            Err(_) => RefreshStep::Authenticate { stage },
        }
    }

    /// Goes on with what the renewed token was waited for.
    fn resume(&self, stage: RenewStage) -> (r: RefreshStep)
        ensures
            r@ == resumption(self@, stage@),
    {
        match stage {
            RenewStage::TokenOnly => RefreshStep::TokenReady,
            RenewStage::BeforeFetch => RefreshStep::FetchSync {
                access_token: self.access_token.clone(),
                sym_key: self.sym_key.clone(),
                stage: FetchStage::First,
            },
            RenewStage::BeforeRetry(key) => RefreshStep::FetchSync {
                access_token: self.access_token.clone(),
                sym_key: key,
                stage: FetchStage::Second,
            },
        }
    }

    /// Makes sure that the access token is valid.
    pub fn ensure_valid_token(&self, now: Moment) -> (r: RefreshStep)
        requires
            now.valid(),
        ensures
            r@ == (if token_expiring(self@, now) {
                renewal(self@, RenewStageView::TokenOnly)
            } else {
                RefreshStepView::TokenReady
            }),
    {
        if self.needs_token(now) {
            self.do_refresh_or_reauth(RenewStage::TokenOnly)
        } else {
            RefreshStep::TokenReady
        }
    }

    /// Begins to re-sync the entire vault: makes sure that the token is valid,
    /// then fetches.
    pub fn refresh_vault_cache(&self, now: Moment) -> (r: RefreshStep)
        requires
            now.valid(),
        ensures
            r@ == (if token_expiring(self@, now) {
                renewal(self@, RenewStageView::BeforeFetch)
            } else {
                resumption(self@, RenewStageView::BeforeFetch)
            }),
    {
        if self.needs_token(now) {
            self.do_refresh_or_reauth(RenewStage::BeforeFetch)
        } else {
            self.resume(RenewStage::BeforeFetch)
        }
    }

    /// Takes the reply to a refresh-token grant. Where the grant was refused,
    /// logs in anew.
    pub fn after_token(
        &mut self,
        stage: RenewStage,
        reply: Result<TokenResponse, AuthError>,
        now: Moment,
    ) -> (r: RefreshStep)
        requires
            now.valid(),
        ensures
            match reply {
                Ok(token) => {
                    &&& final(self)@ == with_token(old(self)@, token, now)
                    &&& r@ == resumption(final(self)@, stage@)
                },
                Err(_) => {
                    &&& *final(self) == *old(self)
                    &&& r@ == (RefreshStepView::Authenticate { stage: stage@ })
                },
            },
            old(self)@.wf() ==> final(self)@.wf(),
    {
        match reply {
            Ok(token) => {
                let (access_token, rotated, expires_in) = refreshed_token(token);
                self.access_token = access_token;
                match rotated {
                    Some(refresh_token) => {
                        self.refresh_token = refresh_token;
                    },
                    None => {},
                }
                self.token_expires_at = now.plus_secs(expires_in);
                self.resume(stage)
            },
            Err(_) => RefreshStep::Authenticate { stage },
        }
    }

    /// Takes the result of the full authentication flow.
    pub fn after_authenticate(
        &mut self,
        stage: RenewStage,
        reply: Result<Credentials, AuthError>,
        now: Moment,
    ) -> (r: RefreshStep)
        requires
            now.valid(),
        ensures
            match reply {
                Ok(credentials) => {
                    &&& final(self)@ == with_credentials(old(self)@, credentials@, now)
                    &&& r@ == resumption(final(self)@, stage@)
                },
                Err(e) => {
                    &&& *final(self) == *old(self)
                    &&& r@ == RefreshStepView::Failed(VaultFault::Auth(e@))
                },
            },
            old(self)@.wf() ==> final(self)@.wf(),
    {
        match reply {
            Ok(credentials) => {
                self.access_token = credentials.access_token;
                self.refresh_token = credentials.refresh_token;
                self.token_expires_at = now.plus_secs(credentials.expires_in);
                self.sym_key = credentials.sym_key;
                self.resume(stage)
            },
            Err(e) => RefreshStep::Failed(VaultError::Auth(e)),
        }
    }

    /// Takes the reply to a fetch of the vault. A refused token is renewed and
    /// the fetch retried, once.
    pub fn after_fetch(
        &mut self,
        stage: FetchStage,
        sym_key: SymmetricKey,
        reply: Result<SyncResponse, SyncError>,
        now: Moment,
    ) -> (r: RefreshStep)
        ensures
            match reply {
                Ok(response) => {
                    &&& final(self)@.vault matches Some(cache) && caches(cache, response, sym_key@)
                    &&& final(self)@ == (SessionView {
                        vault: final(self)@.vault,
                        last_refresh_at: now,
                        ..old(self)@
                    })
                    &&& r matches RefreshStep::Refreshed(skips) && counts_skips(
                        skips,
                        response,
                        sym_key@,
                    )
                },
                Err(e) => {
                    &&& *final(self) == *old(self)
                    &&& r@ == after_failed_fetch(old(self)@, stage, sym_key@, e@)
                },
            },
            old(self)@.wf() ==> final(self)@.wf(),
    {
        match reply {
            Ok(response) => {
                let (cache, skips) = decrypt_vault(&response, &sym_key);
                self.vault = Some(cache);
                self.last_refresh_at = now;
                RefreshStep::Refreshed(skips)
            },
            Err(SyncError::Unauthorized) => match stage {
                FetchStage::First => self.do_refresh_or_reauth(RenewStage::BeforeRetry(sym_key)),
                FetchStage::Second => {
                    RefreshStep::Failed(VaultError::Sync(SyncError::Unauthorized))
                },
            },
            Err(e) => RefreshStep::Failed(VaultError::Sync(e)),
        }
    }
}

/// How many more steps a refresh can take at most.
pub open spec fn steps_left(step: RefreshStepView) -> nat {
    match step {
        RefreshStepView::RequestToken { stage, .. } => match stage {
            RenewStageView::TokenOnly => 2,
            RenewStageView::BeforeFetch => 6,
            RenewStageView::BeforeRetry(_) => 3,
        },
        RefreshStepView::Authenticate { stage } => match stage {
            RenewStageView::TokenOnly => 1,
            RenewStageView::BeforeFetch => 5,
            RenewStageView::BeforeRetry(_) => 2,
        },
        RefreshStepView::FetchSync { stage, .. } => match stage {
            FetchStage::First => 4,
            FetchStage::Second => 1,
        },
        _ => 0,
    }
}

/// Every refresh comes to an end: whatever is replied, each step leaves fewer
/// to take than the one before, and a refused token is renewed and
/// retried only once.
pub proof fn law_refresh_ends(
    session: SessionView,
    stage: RenewStageView,
    form: Seq<(Seq<char>, Seq<char>)>,
    access_token: Seq<char>,
    fetch: FetchStage,
    sym_key: KeyView,
    fault: SyncFault,
)
    ensures
        steps_left(renewal(session, RenewStageView::BeforeFetch)) <= 6,
        steps_left(RefreshStepView::Authenticate { stage }) < steps_left(
            RefreshStepView::RequestToken { form, stage },
        ),
        steps_left(resumption(session, stage)) < steps_left(
            RefreshStepView::Authenticate { stage },
        ),
        steps_left(after_failed_fetch(session, fetch, sym_key, fault)) < steps_left(
            RefreshStepView::FetchSync { access_token, sym_key, stage: fetch },
        ),
        after_failed_fetch(session, FetchStage::Second, sym_key, fault)
            == RefreshStepView::Failed(VaultFault::Sync(fault)),
{
}

/// A fetch reports an uninitialized vault exactly while no refresh has stored
/// one.
pub proof fn law_stored_vault_answers(session: SessionView, requests: Seq<RequestView>)
    ensures
        fetched(session, requests) == Err::<Seq<Seq<char>>, VaultFault>(VaultFault::NotInitialized)
            <==> session.vault is None,
{
}

/// A token that was just renewed for longer than the margin needs no renewal.
pub proof fn law_renewed_token_is_valid(session: SessionView, token: TokenResponse, now: Moment)
    requires
        now.valid(),
        token.expires_in > RENEWAL_MARGIN_SECS,
    ensures
        !token_expiring(with_token(session, token, now), now),
{
}

// ---------------------------------------------------------------------------
// Client
// ---------------------------------------------------------------------------

/// What a client needs to know of its account and its server.
#[derive(Debug)]
pub struct VaultConfig {
    /// The address of the server, without a slash at its end.
    pub base_url: String,
    pub email: String,
    pub password: String,
    pub client_id: Option<String>,
    pub client_secret: Option<String>,
    /// What this client calls itself towards the server.
    pub device_id: String,
    /// Minimum time between on-demand refreshes. The background timer is
    /// unaffected by this.
    pub min_refresh_interval: Duration,
}

impl VaultConfig {
    /// The configuration of a new client, under a device id of its own.
    pub fn new(
        base_url: &str,
        email: &str,
        password: &str,
        client_id: Option<String>,
        client_secret: Option<String>,
        min_refresh_interval: Duration,
    ) -> (r: Self)
        ensures
            r.base_url@ == text::strip_end(base_url@, '/'),
            r.email@ == email@,
            r.password@ == password@,
            r.client_id == client_id,
            r.client_secret == client_secret,
            outside::is_uuid_v4(r.device_id@),
            r.min_refresh_interval == min_refresh_interval,
    {
        VaultConfig {
            base_url: trim_end_char(base_url, '/'),
            email: email.to_owned(),
            password: password.to_owned(),
            client_id,
            client_secret,
            device_id: random_id(),
            min_refresh_interval,
        }
    }
}

/// How often the initialization of a client is attempted.
pub const MAX_INIT_ATTEMPTS: u64 = 3;

/// What follows a failed attempt to initialize a client, the first being
/// attempt 1: how long to wait before the next, with quadratic backoff, or
/// `None` when there is no further attempt.
pub fn init_backoff(attempt: u64) -> (r: Option<Duration>)
    ensures
        match r {
            Some(wait) => attempt < MAX_INIT_ATTEMPTS && wait == (Duration {
                secs: ((attempt + 1) * (attempt + 1) * 5) as u64,
                nanos: 0,
            }),
            None => attempt >= MAX_INIT_ATTEMPTS,
        },
        r is Some <==> attempt < 3,
{
    if attempt >= MAX_INIT_ATTEMPTS {
        return None;
    }
    let next: u64 = attempt + 1;
    proof {
        assert(next * next <= 9) by (nonlinear_arith)
            requires
                next <= 3,
        ;
    }
    Some(Duration::from_secs(next * next * 5))
}

/// The first `n` links of a chain of error messages, outermost first.
pub open spec fn chain_of(outermost: Seq<char>, sources: Seq<Seq<char>>, n: nat) -> Seq<char>
    decreases n,
{
    if n == 0 {
        outermost
    } else {
        chain_of(outermost, sources, (n - 1) as nat) + " -> "@ + sources[n - 1]
    }
}

/// Writes an error and its sources as a single string.
///
/// This produces a message like `"outer: ... -> inner: ... -> root cause"`.
pub fn error_chain(outermost: &str, sources: &[String]) -> (r: String)
    ensures
        r@ == chain_of(outermost@, text::texts(sources@), sources@.len()),
{
    let mut out = outermost.to_owned();
    let mut i: usize = 0;
    while i < sources.len()
        invariant
            i <= sources@.len(),
            out@ == chain_of(outermost@, text::texts(sources@), i as nat),
        decreases sources@.len() - i,
    {
        out.append(" -> ");
        out.append(sources[i].as_str());
        i = i + 1;
    }
    out
}

// ---------------------------------------------------------------------------
// Laws: fetching
// ---------------------------------------------------------------------------

/// A session with a vault gives, for requests that are all found, the secret of
/// the item that each finds, one for one.
pub proof fn law_fetch_gives_each_secret(
    session: SessionView,
    requests: Seq<RequestView>,
    found: Seq<int>,
)
    requires
        session.vault is Some,
        found.len() == requests.len(),
        forall|k: int|
            0 <= k < requests.len() ==> sync::lookup_at(
                session.vault->0,
                (#[trigger] requests[k]).name,
                requests[k].vault,
            ) == Ok::<int, LookupFault>(found[k]),
    ensures
        fetched(session, requests) == Ok::<Seq<Seq<char>>, VaultFault>(
            Seq::new(
                requests.len(),
                |k: int| sync::secret_of(session.vault->0.items[found[k]]),
            ),
        ),
{
    let cache = session.vault->0;
    law_fetch_is_all_or_nothing(cache, requests, requests.len());
    let values = fetched_from(cache, requests, requests.len())->Ok_0;
    assert(values =~= Seq::new(
        requests.len(),
        |k: int| sync::secret_of(session.vault->0.items[found[k]]),
    ));
}

/// It fails with the reason of the first request that is not found, and gives
/// no values then.
pub proof fn law_fetch_fails_with_the_first_miss(
    session: SessionView,
    requests: Seq<RequestView>,
    i: int,
    e: LookupFault,
)
    requires
        session.vault is Some,
        0 <= i < requests.len(),
        forall|k: int|
            0 <= k < i ==> sync::lookup_at(
                session.vault->0,
                (#[trigger] requests[k]).name,
                requests[k].vault,
            ) is Ok,
        sync::lookup_at(session.vault->0, requests[i].name, requests[i].vault) == Err::<
            int,
            LookupFault,
        >(e),
    ensures
        fetched(session, requests) == Err::<Seq<Seq<char>>, VaultFault>(VaultFault::Lookup(e)),
{
    let cache = session.vault->0;
    law_fetch_is_all_or_nothing(cache, requests, i as nat);
    assert(fetched_from(cache, requests, (i + 1) as nat) == Err::<Seq<Seq<char>>, LookupFault>(e));
    lemma_fetch_stops(cache, requests, (i + 1) as nat, requests.len());
}

/// The first round of a fetch ends it with its own result, values or error,
/// unless it missed what a refresh may bring; then the miss is kept.
pub proof fn law_fetch_ends_with_its_result(values: Seq<Seq<char>>, e: VaultFault)
    ensures
        fetch_step(Ok(values)) == FetchStepView::Done(Ok(values)),
        match e {
            VaultFault::Lookup(LookupFault::VaultAmbiguous(_)) => fetch_step(Err(e))
                == FetchStepView::Done(Err(e)),
            VaultFault::Lookup(miss) => fetch_step(Err(e)) == FetchStepView::Refresh(miss),
            _ => fetch_step(Err(e)) == FetchStepView::Done(Err(e)),
        },
{
}

/// A miss may refresh the cache from the end of the cooldown on, to the
/// nanosecond, and at any time where there is no cooldown.
pub proof fn law_cooldown_ends(session: SessionView, now: Moment, min_refresh_interval: Duration)
    ensures
        min_refresh_interval.secs > 0 || min_refresh_interval.nanos > 0 ==> (on_demand_due(
            session,
            now,
            min_refresh_interval,
        ) <==> now.nanos >= session.last_refresh_at.nanos + min_refresh_interval.secs
            * 1_000_000_000 + min_refresh_interval.nanos),
        min_refresh_interval.secs == 0 && min_refresh_interval.nanos == 0 ==> on_demand_due(
            session,
            now,
            min_refresh_interval,
        ),
{
}

// ---------------------------------------------------------------------------
// Laws: refreshing
// ---------------------------------------------------------------------------

/// A token is renewed from one minute before it expires on.
pub proof fn law_token_is_renewed_a_minute_early(session: SessionView, now: Moment)
    ensures
        token_expiring(session, now) <==> session.token_expires_at.nanos <= now.nanos
            + 60_000_000_000,
{
}

/// A session with a refresh token renews by it; one without logs in anew. What
/// waits for the token waits on.
pub proof fn law_renewal_by_refresh_token(session: SessionView, stage: RenewStageView)
    ensures
        session.refresh_token.len() == 0 ==> renewal(session, stage)
            == (RefreshStepView::Authenticate { stage }),
        session.refresh_token.len() > 0 ==> (renewal(session, stage) matches
            RefreshStepView::RequestToken { form, stage: waiting } && {
            &&& waiting == stage
            &&& form.contains(("grant_type"@, "refresh_token"@))
            &&& form.contains(("refresh_token"@, session.refresh_token))
            &&& form.contains(("client_id"@, "web"@))
        }),
{
    let form = auth::refresh_grant(session.refresh_token);
    assert(form[0] == ("grant_type"@, "refresh_token"@));
    assert(form[1] == ("refresh_token"@, session.refresh_token));
    assert(form[2] == ("client_id"@, "web"@));
}

/// A renewed token is the one that the vault is fetched with, under the key
/// that the session had all along.
pub proof fn law_renewed_token_is_used(
    session: SessionView,
    token: TokenResponse,
    now: Moment,
    key: KeyView,
)
    ensures
        resumption(with_token(session, token, now), RenewStageView::BeforeFetch)
            == (RefreshStepView::FetchSync {
            access_token: token.access_token@,
            sym_key: session.sym_key,
            stage: FetchStage::First,
        }),
        resumption(with_token(session, token, now), RenewStageView::BeforeRetry(key))
            == (RefreshStepView::FetchSync {
            access_token: token.access_token@,
            sym_key: key,
            stage: FetchStage::Second,
        }),
        resumption(session, RenewStageView::TokenOnly) == RefreshStepView::TokenReady,
{
}

/// A login anew is fetched with too, by its own token and key; but a second
/// fetch is decrypted with the key of the first.
pub proof fn law_new_login_is_used(
    session: SessionView,
    credentials: CredentialsView,
    now: Moment,
    key: KeyView,
)
    ensures
        resumption(with_credentials(session, credentials, now), RenewStageView::BeforeFetch)
            == (RefreshStepView::FetchSync {
            access_token: credentials.access_token,
            sym_key: credentials.sym_key,
            stage: FetchStage::First,
        }),
        resumption(with_credentials(session, credentials, now), RenewStageView::BeforeRetry(key))
            == (RefreshStepView::FetchSync {
            access_token: credentials.access_token,
            sym_key: key,
            stage: FetchStage::Second,
        }),
{
}

/// Renewing a token changes the tokens and the time of expiry and nothing else:
/// the key, the cache and the time of its refresh stay. A refresh token stays
/// unless a new one came.
pub proof fn law_renewal_changes_only_tokens(
    session: SessionView,
    token: TokenResponse,
    credentials: CredentialsView,
    now: Moment,
)
    requires
        now.valid(),
    ensures
        ({
            let after = with_token(session, token, now);
            &&& after.access_token == token.access_token@
            &&& token.refresh_token@.len() > 0 ==> after.refresh_token == token.refresh_token@
            &&& token.refresh_token@.len() == 0 ==> after.refresh_token == session.refresh_token
            &&& after.token_expires_at.nanos == now.nanos + token.expires_in * 1_000_000_000
            &&& after.sym_key == session.sym_key
            &&& after.vault == session.vault
            &&& after.last_refresh_at == session.last_refresh_at
        }),
        ({
            let after = with_credentials(session, credentials, now);
            &&& after.access_token == credentials.access_token
            &&& after.refresh_token == credentials.refresh_token
            &&& after.token_expires_at.nanos == now.nanos + credentials.expires_in * 1_000_000_000
            &&& after.sym_key == credentials.sym_key
            &&& after.vault == session.vault
            &&& after.last_refresh_at == session.last_refresh_at
        }),
{
}

/// A first fetch that is refused for its token renews the token and tries again
/// with the same key; one that fails otherwise, or a second one, fails the
/// refresh with its own reason.
pub proof fn law_refused_fetch_is_retried_once(
    session: SessionView,
    sym_key: KeyView,
    fault: SyncFault,
    stage: FetchStage,
)
    ensures
        fault is Unauthorized && stage == FetchStage::First ==> {
            ||| after_failed_fetch(session, stage, sym_key, fault) == (
            RefreshStepView::Authenticate { stage: RenewStageView::BeforeRetry(sym_key) })
                && session.refresh_token.len() == 0
            ||| session.refresh_token.len() > 0 && (after_failed_fetch(
                session,
                stage,
                sym_key,
                fault,
            ) matches RefreshStepView::RequestToken { stage: waiting, form } && waiting
                == RenewStageView::BeforeRetry(sym_key) && form.contains(
                ("refresh_token"@, session.refresh_token),
            ))
        },
        !(fault is Unauthorized && stage == FetchStage::First) ==> after_failed_fetch(
            session,
            stage,
            sym_key,
            fault,
        ) == RefreshStepView::Failed(VaultFault::Sync(fault)),
{
    law_renewal_by_refresh_token(session, RenewStageView::BeforeRetry(sym_key));
}

/// What the user keeps under a name is found by that name once the vault was
/// refreshed: a lookup across the account finds an item of the same name,
/// whatever the case.
pub proof fn law_refreshed_item_is_found(
    cache: CacheView,
    response: SyncResponse,
    sym_key: KeyView,
    c: int,
    name: Seq<char>,
)
    requires
        caches(cache, response, sym_key),
        0 <= c < response.ciphers@.len(),
        response.ciphers@[c].organization_id is None,
        crypto::decrypted_text(response.ciphers@[c].name@, sym_key) == Ok::<
            Seq<char>,
            crypto::CryptoFault,
        >(name),
    ensures
        sync::lookup_at(cache, name, None) matches Ok(i) && 0 <= i < cache.items.len()
            && text::lowercase(cache.items[i].name) == text::lowercase(name),
{
    sync::law_personal_item_is_in_the_vault(response, sym_key, c, name);
    let items = cache.items;
    let m = choose|m: int|
        0 <= m < items.len() && ({
            let item = #[trigger] items[m];
            item.id == response.ciphers@[c].id@ && item.name == name && item.organization_id is None
        });
    lemma_named_item_is_found(items, name, None, m);
    sync::law_lookup_searches_its_vault(cache, name, seq![], seq![]);
}

proof fn lemma_named_item_is_found(
    items: Seq<sync::ItemView>,
    name: Seq<char>,
    org_id: Option<Seq<char>>,
    m: int,
)
    requires
        0 <= m < items.len(),
        items[m].name == name,
        org_id is None || items[m].organization_id == org_id,
    ensures
        sync::found_at(items, name, org_id) matches Some(i) && 0 <= i < items.len()
            && text::lowercase(items[i].name) == text::lowercase(name) && (org_id is None
            || items[i].organization_id == org_id),
{
    let key = text::lowercase(name);
    if sync::found_at(items, name, org_id) is None {
        sync::law_missing_item_is_nowhere(items, name, org_id);
        assert(key =~= Seq::<char>::empty() + key + Seq::<char>::empty());
        assert(text::holds_within(text::lowercase(items[m].name), key));
    } else {
        sync::law_found_item_is_the_one(items, name, org_id);
        let scoped = |k: int| org_id is None || items[k].organization_id == org_id;
        assert(scoped(m));
    }
}

/// An item of an organization is found by its own name in the vault of that
/// organization's name, where no other organization shares the name.
pub proof fn law_refreshed_org_item_is_found(
    cache: CacheView,
    response: SyncResponse,
    sym_key: KeyView,
    der: Seq<u8>,
    o: int,
    key: KeyView,
    c: int,
    name: Seq<char>,
)
    requires
        caches(cache, response, sym_key),
        response.profile.private_key@.len() > 0,
        crypto::private_key_of(response.profile.private_key@, sym_key) == Ok::<
            Seq<u8>,
            crypto::CryptoFault,
        >(der),
        0 <= o < response.profile.organizations@.len(),
        response.profile.organizations@[o].id@.len() > 0,
        crypto::org_key_of(response.profile.organizations@[o].key@, der) == Ok::<
            KeyView,
            crypto::CryptoFault,
        >(key),
        forall|j: int|
            0 <= j < response.profile.organizations@.len() && j != o ==> {
                &&& #[trigger] response.profile.organizations@[j].id@
                    != response.profile.organizations@[o].id@
                &&& text::lowercase(response.profile.organizations@[j].name@) != text::lowercase(
                    response.profile.organizations@[o].name@,
                )
            },
        0 <= c < response.ciphers@.len(),
        response.ciphers@[c].organization_id matches Some(id) && id@
            == response.profile.organizations@[o].id@,
        crypto::decrypted_text(response.ciphers@[c].name@, key) == Ok::<
            Seq<char>,
            crypto::CryptoFault,
        >(name),
    ensures
        sync::lookup_at(
            cache,
            name,
            Some(response.profile.organizations@[o].name@),
        ) matches Ok(i) && 0 <= i < cache.items.len() && text::lowercase(cache.items[i].name)
            == text::lowercase(name) && cache.items[i].organization_id == Some(
            response.profile.organizations@[o].id@,
        ),
{
    let orgs = response.profile.organizations@;
    let org = orgs[o];
    let vault = org.name@;
    sync::law_org_item_is_in_the_vault(response, sym_key, der, o, key, c, name);
    let items = cache.items;
    let m = choose|m: int|
        0 <= m < items.len() && ({
            let item = #[trigger] items[m];
            item.id == response.ciphers@[c].id@ && item.name == name && item.organization_id
                == Some(org.id@)
        });
    lemma_named_item_is_found(items, name, Some(org.id@), m);
    assert forall|j: int| 0 <= j < orgs.len() && j != o implies text::lowercase(
        (#[trigger] orgs[j]).name@,
    ) != text::lowercase(org.name@) by {
        assert(orgs[j].id@ != org.id@);
    }
    sync::lemma_one_org_of_its_name(orgs, o);
    sync::law_index_holds_just_the_named(cache.orgs_by_name, orgs, text::lowercase(vault));
    sync::law_lookup_searches_its_vault(cache, name, vault, org.id@);
}

/// A chain of messages grows by an arrow and the next message, from the
/// outermost on.
pub proof fn law_error_chain_links(outermost: Seq<char>, sources: Seq<Seq<char>>, next: Seq<char>)
    ensures
        chain_of(outermost, seq![], 0) == outermost,
        chain_of(outermost, sources.push(next), sources.len() + 1) == chain_of(
            outermost,
            sources,
            sources.len(),
        ) + " -> "@ + next,
{
    lemma_chain_prefix(outermost, sources, next, sources.len());
}

proof fn lemma_chain_prefix(
    outermost: Seq<char>,
    sources: Seq<Seq<char>>,
    next: Seq<char>,
    n: nat,
)
    requires
        n <= sources.len(),
    ensures
        chain_of(outermost, sources.push(next), n) == chain_of(outermost, sources, n),
    decreases n,
{
    if n > 0 {
        lemma_chain_prefix(outermost, sources, next, (n - 1) as nat);
    }
}

/// A message of the client ends in that of the error beneath, which is also the
/// first of its sources; a lookup error speaks for itself.
pub proof fn law_vault_messages_tell_their_detail(a: AuthFault, s: SyncFault, l: LookupFault)
    ensures
        crypto::ends_in(VaultFault::Auth(a).message(), a.message()),
        crypto::ends_in(VaultFault::Sync(s).message(), s.message()),
        VaultFault::Lookup(l).message() == l.message(),
        VaultFault::Auth(a).sources() == seq![a.message()] + a.sources(),
        VaultFault::Sync(s).sources() == seq![s.message()] + s.sources(),
        VaultFault::Lookup(l).sources() == seq![l.message()],
        VaultFault::NotInitialized.sources().len() == 0,
{
    crypto::lemma_ends_in("auth error: "@, a.message());
    crypto::lemma_ends_in("sync error: "@, s.message());
}

/// What a reader is told of each fault, word for word.
pub proof fn law_vault_messages_read(a: AuthFault, s: SyncFault)
    ensures
        VaultFault::Auth(a).message() == "auth error: "@ + a.message(),
        VaultFault::Sync(s).message() == "sync error: "@ + s.message(),
        VaultFault::NotInitialized.message() == "vault not yet initialized"@,
{
}

/// A clock of seconds in 64 bits shows none but valid moments.
pub proof fn law_clock_has_room(secs: u64, nanos: u32)
    requires
        nanos < 1_000_000_000,
    ensures
        (Moment { nanos: (secs * 1_000_000_000 + nanos) as u128 }).valid(),
{
}

/// A refreshed cache holds the items that the ciphers of the response became,
/// in their order; the counts are of those that came to grief in each way, and
/// together they make up all the ciphers.
pub proof fn law_refreshed_cache_is_the_response(
    cache: CacheView,
    skips: DecryptSkips,
    response: SyncResponse,
    sym_key: KeyView,
)
    requires
        caches(cache, response, sym_key),
        counts_skips(skips, response, sym_key),
    ensures
        ({
            let outcomes = sync::vault_outcomes(response, sym_key);
            &&& cache.items == outcomes.filter(
                |o: sync::OutcomeView| o is Item,
            ).map_values(|o: sync::OutcomeView| o->Item_0)
            &&& skips.no_org_key == outcomes.filter(|o: sync::OutcomeView| o is NoOrgKey).len()
            &&& skips.decrypt_failed == outcomes.filter(|o: sync::OutcomeView| o is Failed).len()
            &&& cache.items.len() + skips.no_org_key + skips.decrypt_failed
                == response.ciphers@.len()
        }),
{
    let outcomes = sync::vault_outcomes(response, sym_key);
    sync::law_vault_keeps_all_items_in_order(outcomes);
    sync::law_every_cipher_is_counted(outcomes, outcomes.len());
}

/// A vault name finds, in a refreshed cache, the organizations of that name,
/// whatever the case: it is unknown where there is none and ambiguous where
/// there are several.
pub proof fn law_refreshed_vault_names(
    cache: CacheView,
    response: SyncResponse,
    sym_key: KeyView,
    name: Seq<char>,
    vault: Seq<char>,
)
    requires
        caches(cache, response, sym_key),
    ensures
        ({
            let ids = response.profile.organizations@.filter(
                |o: sync::SyncOrganization| text::lowercase(o.name@) == text::lowercase(vault),
            ).map_values(|o: sync::SyncOrganization| o.id@);
            &&& ids.len() == 0 ==> sync::lookup_at(cache, name, Some(vault)) == Err::<
                int,
                LookupFault,
            >(LookupFault::VaultNotFound(vault))
            &&& ids.len() > 1 ==> sync::lookup_at(cache, name, Some(vault)) == Err::<
                int,
                LookupFault,
            >(LookupFault::VaultAmbiguous(vault))
        }),
{
    let orgs = response.profile.organizations@;
    sync::law_index_holds_just_the_named(cache.orgs_by_name, orgs, text::lowercase(vault));
    sync::law_lookup_searches_its_vault(cache, name, vault, seq![]);
}

/// Requests and what they give are seen one by one, as they are.
pub proof fn law_fetches_are_seen_as_they_are(
    requests: Seq<SecretRequest>,
    values: Vec<String>,
    e: VaultError,
    i: int,
)
    ensures
        request_views(requests).len() == requests.len(),
        0 <= i < requests.len() ==> request_views(requests)[i].name == requests[i].name@
            && request_views(requests)[i].vault == text::opt_text(requests[i].vault),
        fetch_view(Ok(values)) == Ok::<Seq<Seq<char>>, VaultFault>(text::texts(values@)),
        fetch_view(Err(e)) == Err::<Seq<Seq<char>>, VaultFault>(e@),
{
}

/// A session is seen as its fields are.
pub proof fn law_session_is_its_fields(s: Session)
    ensures
        s@.access_token == s.access_token@,
        s@.refresh_token == s.refresh_token@,
        s@.token_expires_at == s.token_expires_at,
        s@.sym_key == s.sym_key@,
        s@.last_refresh_at == s.last_refresh_at,
        s.vault is None <==> s@.vault is None,
        s.vault matches Some(cache) ==> s@.vault == Some(cache@),
{
}

} // verus!
