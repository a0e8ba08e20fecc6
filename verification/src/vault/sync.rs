//! Vaultwarden `/api/sync` model, decryption, and item-lookup logic.
use vstd::prelude::*;
use vstd::string::*;

use super::crypto;
use super::crypto::{
    decrypt_org_key, decrypt_private_key, decrypt_str, CryptoError, CryptoFault, KeyView,
    SymmetricKey,
};
use crate::string_map;
use crate::string_map::StringMap;
use crate::text;
use crate::text::{contains_text, decimal_text, join, quote, same_text, text_and, to_lowercase};

verus! {

// ---------------------------------------------------------------------------
// Errors
// ---------------------------------------------------------------------------

/// What can go wrong while fetching and decrypting the vault.
#[derive(Debug)]
pub enum SyncError {
    Http(String),
    Server { status: u16, body: String },
    Crypto(CryptoError),
    NotFound(String),
    Unauthorized,
}

/// The mathematical form of a [`SyncError`].
pub enum SyncFault {
    Http(Seq<char>),
    Server { status: u16, body: Seq<char> },
    Crypto(CryptoFault),
    NotFound(Seq<char>),
    Unauthorized,
}

impl View for SyncError {
    type V = SyncFault;

    open spec fn view(&self) -> SyncFault {
        match *self {
            SyncError::Http(m) => SyncFault::Http(m@),
            SyncError::Server { status, body } => SyncFault::Server { status, body: body@ },
            SyncError::Crypto(e) => SyncFault::Crypto(e@),
            SyncError::NotFound(name) => SyncFault::NotFound(name@),
            SyncError::Unauthorized => SyncFault::Unauthorized,
        }
    }
}

impl SyncFault {
    /// What is reported to a reader.
    pub open spec fn message(self) -> Seq<char> {
        match self {
            SyncFault::Http(m) => "HTTP error: "@ + m,
            SyncFault::Server { status, body } => "server returned "@ + text::decimal(
                status as nat,
            ) + ": "@ + body,
            SyncFault::Crypto(e) => "crypto error: "@ + e.message(),
            SyncFault::NotFound(name) => "secret "@ + text::quoted(name) + " not found in vault"@,
            SyncFault::Unauthorized => "unauthorized (401); caller should refresh and retry"@,
        }
    }
}

impl SyncFault {
    /// The messages of the errors beneath this one, outermost first.
    pub open spec fn sources(self) -> Seq<Seq<char>> {
        match self {
            SyncFault::Http(m) => seq![m],
            SyncFault::Crypto(e) => seq![e.message()] + e.sources(),
            _ => seq![],
        }
    }
}

impl SyncError {
    /// The messages of the errors beneath this one, outermost first.
    pub fn sources(&self) -> (r: Vec<String>)
        ensures
            text::texts(r@) == self@.sources(),
    {
        match self {
            SyncError::Http(m) => text_and(m.clone(), Vec::new()),
            SyncError::Crypto(e) => text_and(e.message(), e.sources()),
            _ => {
                let none: Vec<String> = Vec::new();
                proof {
                    assert(text::texts(none@) =~= seq![]);
                }
                none
            },
        }
    }

    /// What is reported to a reader.
    pub fn message(&self) -> (r: String)
        ensures
            r@ == self@.message(),
    {
        match self {
            SyncError::Http(m) => join("HTTP error: ", m.as_str()),
            SyncError::Server { status, body } => {
                let mut out = join("server returned ", decimal_text(*status as u64).as_str());
                out.append(": ");
                out.append(body.as_str());
                out
            },
            SyncError::Crypto(e) => join("crypto error: ", e.message().as_str()),
            SyncError::NotFound(name) => {
                let mut out = join("secret ", quote(name.as_str()).as_str());
                out.append(" not found in vault");
                out
            },
            SyncError::Unauthorized => {
                "unauthorized (401); caller should refresh and retry".to_owned()
            },
        }
    }
}

// ---------------------------------------------------------------------------
// Bitwarden sync API types
// ---------------------------------------------------------------------------

/// Full response from `GET /api/sync`.
#[derive(Debug)]
pub struct SyncResponse {
    pub profile: SyncProfile,
    pub ciphers: Vec<SyncCipher>,
}

/// The account that a sync response belongs to.
#[derive(Debug)]
pub struct SyncProfile {
    pub id: String,
    pub email: String,
    pub key: String,
    pub private_key: String,
    pub organizations: Vec<SyncOrganization>,
}

/// An organization of the account.
#[derive(Debug)]
pub struct SyncOrganization {
    pub id: String,
    pub name: String,
    pub key: String,
}

/// Bitwarden cipher types.
pub const CIPHER_TYPE_LOGIN: u8 = 1;

pub const CIPHER_TYPE_SECURE_NOTE: u8 = 2;

pub const CIPHER_TYPE_CARD: u8 = 3;

pub const CIPHER_TYPE_IDENTITY: u8 = 4;

/// An encrypted vault item.
#[derive(Debug)]
pub struct SyncCipher {
    pub id: String,
    pub cipher_type: u8,
    pub organization_id: Option<String>,
    pub name: String,
    pub notes: Option<String>,
    pub login: Option<SyncLogin>,
    pub card: Option<SyncCard>,
    pub fields: Vec<SyncField>,
}

/// The login part of an encrypted vault item.
#[derive(Debug)]
pub struct SyncLogin {
    pub username: Option<String>,
    pub password: Option<String>,
    pub uri: Option<String>,
    pub uris: Vec<SyncUri>,
}

/// One of the addresses of a login.
#[derive(Debug)]
pub struct SyncUri {
    pub uri: Option<String>,
}

/// The card part of an encrypted vault item.
#[derive(Debug)]
pub struct SyncCard {
    pub cardholder_name: Option<String>,
    pub number: Option<String>,
    pub code: Option<String>,
}

/// A custom field of an encrypted vault item.
#[derive(Debug)]
pub struct SyncField {
    pub name: Option<String>,
    pub value: Option<String>,
    pub field_type: u8,
}

// ---------------------------------------------------------------------------
// Decrypted items
// ---------------------------------------------------------------------------

/// A vault item after decryption.
#[derive(Debug, Clone)]
pub struct DecryptedItem {
    pub id: String,
    pub cipher_type: u8,
    /// Owning organization id; `None` for personal-vault items.
    pub organization_id: Option<String>,
    pub name: String,
    pub username: String,
    pub password: String,
    pub notes: String,
    pub uri: String,
    /// Custom fields by decrypted field name.
    pub fields: StringMap<String>,
}

/// The mathematical form of a [`DecryptedItem`].
pub struct ItemView {
    pub id: Seq<char>,
    pub cipher_type: u8,
    pub organization_id: Option<Seq<char>>,
    pub name: Seq<char>,
    pub username: Seq<char>,
    pub password: Seq<char>,
    pub notes: Seq<char>,
    pub uri: Seq<char>,
    pub fields: Seq<(Seq<char>, Seq<char>)>,
}

impl View for DecryptedItem {
    type V = ItemView;

    open spec fn view(&self) -> ItemView {
        ItemView {
            id: self.id@,
            cipher_type: self.cipher_type,
            organization_id: text::opt_text(self.organization_id),
            name: self.name@,
            username: self.username@,
            password: self.password@,
            notes: self.notes@,
            uri: self.uri@,
            fields: self.fields.entries(),
        }
    }
}

/// The views of a list of items.
pub open spec fn item_views(items: Seq<DecryptedItem>) -> Seq<ItemView> {
    items.map_values(|item: DecryptedItem| item@)
}

/// A decrypted vault snapshot: items plus an organization-name index.
#[derive(Debug, Clone)]
pub struct VaultCache {
    pub items: Vec<DecryptedItem>,
    /// Lowercased organization name -> org ids. More than one id means the
    /// name is ambiguous. Includes orgs whose key failed to decrypt (their
    /// items are absent, so scoped lookups report "not found in vault").
    pub orgs_by_name: StringMap<Vec<String>>,
}

/// The mathematical form of a [`VaultCache`].
pub struct CacheView {
    pub items: Seq<ItemView>,
    pub orgs_by_name: Seq<(Seq<char>, Seq<Seq<char>>)>,
}

impl View for VaultCache {
    type V = CacheView;

    open spec fn view(&self) -> CacheView {
        CacheView { items: item_views(self.items@), orgs_by_name: self.orgs_by_name.entries() }
    }
}

/// Every name in an organization index stands for at least one id.
pub open spec fn names_have_ids(index: Seq<(Seq<char>, Seq<Seq<char>>)>) -> bool {
    forall|name: Seq<char>|
        (#[trigger] string_map::lookup(index, name)) matches Some(ids) ==> ids.len() > 0
}

impl CacheView {
    /// Every organization name in the index stands for at least one id.
    pub open spec fn wf(self) -> bool {
        names_have_ids(self.orgs_by_name)
    }
}

impl Default for VaultCache {
    fn default() -> (r: Self)
        ensures
            r@.items == Seq::<ItemView>::empty(),
            r@.orgs_by_name == Seq::<(Seq<char>, Seq<Seq<char>>)>::empty(),
            r@.wf(),
    {
        let r = VaultCache { items: Vec::new(), orgs_by_name: StringMap::new() };
        proof {
            assert(r@.items =~= Seq::<ItemView>::empty());
        }
        r
    }
}

/// Counts of ciphers dropped while decrypting a sync response, for diagnostics.
///
/// Neither case is visible to a scoped or unscoped lookup: the org still resolves
/// by name (`VaultCache::orgs_by_name`), it just has no items. So a caller logs
/// this alongside the decrypted item count to distinguish "cache is broken" from
/// "the name is simply wrong".
#[derive(Debug, Clone, Copy, PartialEq, Eq, Structural)]
pub struct DecryptSkips {
    /// Ciphers skipped because their organization's key was missing or failed to decrypt.
    pub no_org_key: usize,
    /// Ciphers skipped because the cipher itself failed to decrypt (e.g. bad name field).
    pub decrypt_failed: usize,
}

impl Default for DecryptSkips {
    fn default() -> (r: Self)
        ensures
            r.no_org_key == 0,
            r.decrypt_failed == 0,
    {
        DecryptSkips { no_org_key: 0, decrypt_failed: 0 }
    }
}

impl DecryptSkips {
    /// The number of ciphers dropped for either reason.
    pub fn total(&self) -> (r: usize)
        requires
            self.no_org_key + self.decrypt_failed <= usize::MAX,
        ensures
            r == self.no_org_key + self.decrypt_failed,
    {
        self.no_org_key + self.decrypt_failed
    }
}

/// Errors from a vault-scoped item lookup.
#[derive(Debug)]
pub enum LookupError {
    VaultNotFound(String),
    VaultAmbiguous(String),
    NotFoundInVault { name: String, vault: String, searched: usize },
    NotFound { name: String, searched: usize },
}

/// The mathematical form of a [`LookupError`].
pub enum LookupFault {
    VaultNotFound(Seq<char>),
    VaultAmbiguous(Seq<char>),
    NotFoundInVault { name: Seq<char>, vault: Seq<char>, searched: nat },
    NotFound { name: Seq<char>, searched: nat },
}

impl View for LookupError {
    type V = LookupFault;

    open spec fn view(&self) -> LookupFault {
        match *self {
            LookupError::VaultNotFound(v) => LookupFault::VaultNotFound(v@),
            LookupError::VaultAmbiguous(v) => LookupFault::VaultAmbiguous(v@),
            LookupError::NotFoundInVault { name, vault, searched } => {
                LookupFault::NotFoundInVault {
                    name: name@,
                    vault: vault@,
                    searched: searched as nat,
                }
            },
            LookupError::NotFound { name, searched } => LookupFault::NotFound {
                name: name@,
                searched: searched as nat,
            },
        }
    }
}

impl LookupFault {
    /// What is reported to a reader.
    pub open spec fn message(self) -> Seq<char> {
        match self {
            LookupFault::VaultNotFound(v) => "vault (organization) "@ + text::quoted(v)
                + " not found"@,
            LookupFault::VaultAmbiguous(v) => "vault name "@ + text::quoted(v)
                + " matches multiple organizations; use a unique name"@,
            LookupFault::NotFoundInVault { name, vault, searched } => "secret "@ + text::quoted(
                name,
            ) + " not found in vault "@ + text::quoted(vault) + " ("@ + text::decimal(searched)
                + " items searched)"@,
            LookupFault::NotFound { name, searched } => "secret "@ + text::quoted(name)
                + " not found in vault cache ("@ + text::decimal(searched) + " items searched)"@,
        }
    }
}

impl LookupError {
    /// Whether this error indicates the cache may simply be stale (item recently
    /// created/moved, organization recently added) rather than a permanent
    /// configuration problem. Staleness-class errors are worth retrying after an
    /// on-demand re-sync; `VaultAmbiguous` is a naming conflict that a re-sync
    /// cannot fix.
    pub fn is_stale_miss(&self) -> (r: bool)
        ensures
            r == !(self is VaultAmbiguous),
    {
        match self {
            LookupError::VaultAmbiguous(_) => false,
            _ => true,
        }
    }

    /// What is reported to a reader.
    pub fn message(&self) -> (r: String)
        ensures
            r@ == self@.message(),
    {
        match self {
            LookupError::VaultNotFound(v) => {
                let mut out = join("vault (organization) ", quote(v.as_str()).as_str());
                out.append(" not found");
                out
            },
            LookupError::VaultAmbiguous(v) => {
                let mut out = join("vault name ", quote(v.as_str()).as_str());
                out.append(" matches multiple organizations; use a unique name");
                out
            },
            LookupError::NotFoundInVault { name, vault, searched } => {
                let mut out = join("secret ", quote(name.as_str()).as_str());
                out.append(" not found in vault ");
                out.append(quote(vault.as_str()).as_str());
                out.append(" (");
                out.append(decimal_text(*searched as u64).as_str());
                out.append(" items searched)");
                out
            },
            LookupError::NotFound { name, searched } => {
                let mut out = join("secret ", quote(name.as_str()).as_str());
                out.append(" not found in vault cache (");
                out.append(decimal_text(*searched as u64).as_str());
                out.append(" items searched)");
                out
            },
        }
    }
}

// ---------------------------------------------------------------------------
// Fetching
// ---------------------------------------------------------------------------

/// The address from which the vault is fetched.
pub fn sync_url(base_url: &str) -> (r: String)
    ensures
        r@ == base_url@ + "/api/sync"@,
{
    join(base_url, "/api/sync")
}

/// What the status of a sync response asks for.
#[derive(Debug, Clone, Copy, PartialEq, Eq, Structural)]
pub enum SyncStatus {
    /// The token was refused: refresh it and retry.
    Unauthorized,
    /// The body is an error text.
    Failure,
    /// The body is a sync response.
    Success,
}

/// The meaning of the status of a sync response: 401 is a refused token, and
/// of the others only 200 to 299 are successes.
pub open spec fn sync_status_of(status: u16) -> SyncStatus {
    if status == 401 {
        SyncStatus::Unauthorized
    } else if 200 <= status <= 299 {
        SyncStatus::Success
    } else {
        SyncStatus::Failure
    }
}

/// Classifies the status of a sync response.
pub fn sync_status(status: u16) -> (r: SyncStatus)
    ensures
        r == sync_status_of(status),
{
    if status == 401 {
        SyncStatus::Unauthorized
    } else if 200 <= status && status <= 299 {
        SyncStatus::Success
    } else {
        SyncStatus::Failure
    }
}

/// The result of a fetch, from the status of the response, the text of its
/// body and what its body parsed to.
pub fn sync_result(
    status: u16,
    body: String,
    parsed: Result<SyncResponse, String>,
) -> (r: Result<SyncResponse, SyncError>)
    ensures
        match sync_status_of(status) {
            SyncStatus::Unauthorized => r matches Err(e) && e@ == SyncFault::Unauthorized,
            SyncStatus::Failure => r matches Err(e) && e@ == (SyncFault::Server {
                status,
                body: body@,
            }),
            SyncStatus::Success => match parsed {
                Ok(v) => r == Ok::<SyncResponse, SyncError>(v),
                Err(m) => r matches Err(e) && e@ == SyncFault::Http(m@),
            },
        },
{
    match sync_status(status) {
        SyncStatus::Unauthorized => Err(SyncError::Unauthorized),
        SyncStatus::Failure => Err(SyncError::Server { status, body }),
        SyncStatus::Success => match parsed {
            Ok(v) => Ok(v),
            Err(m) => Err(SyncError::Http(m)),
        },
    }
}

// ---------------------------------------------------------------------------
// Organizations
// ---------------------------------------------------------------------------

/// The ids of the first `n` organizations whose lowercased name is `key`, in
/// order.
pub open spec fn ids_named(orgs: Seq<SyncOrganization>, key: Seq<char>, n: nat) -> Seq<Seq<char>>
    decreases n,
{
    if n == 0 {
        seq![]
    } else {
        let before = ids_named(orgs, key, (n - 1) as nat);
        let org = orgs[n - 1];
        if text::lowercase(org.name@) == key {
            before.push(org.id@)
        } else {
            before
        }
    }
}

/// What a name index of the first `n` organizations holds for `key`.
pub open spec fn org_ids(orgs: Seq<SyncOrganization>, key: Seq<char>, n: nat) -> Option<
    Seq<Seq<char>>,
> {
    let ids = ids_named(orgs, key, n);
    if ids.len() == 0 {
        None
    } else {
        Some(ids)
    }
}

/// Under every key, the index holds the ids of the organizations with that
/// lowercased name, and nothing where there is none.
pub open spec fn indexes_orgs(
    index: Seq<(Seq<char>, Seq<Seq<char>>)>,
    orgs: Seq<SyncOrganization>,
    n: nat,
) -> bool {
    forall|key: Seq<char>|
        #[trigger] string_map::lookup(index, key) == org_ids(orgs, key, n)
}

/// A copy of a list of texts, with one more at its end.
fn with_text(ids: &Vec<String>, id: &String) -> (r: Vec<String>)
    ensures
        r.deep_view() == ids.deep_view().push(id@),
{
    let mut out: Vec<String> = Vec::new();
    let mut i: usize = 0;
    while i < ids.len()
        invariant
            i <= ids@.len(),
            out@.len() == i,
            forall|k: int| 0 <= k < i ==> (#[trigger] out@[k])@ == ids@[k]@,
        decreases ids@.len() - i,
    {
        out.push(ids[i].clone());
        i = i + 1;
    }
    out.push(id.clone());
    proof {
        assert(out.deep_view() =~= ids.deep_view().push(id@));
    }
    out
}

/// Build the case-insensitive organization-name index for a vault cache.
pub fn index_orgs(orgs: &[SyncOrganization]) -> (r: StringMap<Vec<String>>)
    ensures
        indexes_orgs(r.entries(), orgs@, orgs@.len()),
        names_have_ids(r.entries()),
{
    let mut by_name: StringMap<Vec<String>> = StringMap::new();
    let mut i: usize = 0;
    while i < orgs.len()
        invariant
            i <= orgs@.len(),
            indexes_orgs(by_name.entries(), orgs@, i as nat),
        decreases orgs@.len() - i,
    {
        let ghost before = by_name.entries();
        let key = to_lowercase(orgs[i].name.as_str());
        let ghost k = key@;
        let none: Vec<String> = Vec::new();
        let ids = match by_name.get(key.as_str()) {
            Some(known) => with_text(known, &orgs[i].id),
            None => {
                proof {
                    assert(none.deep_view() =~= seq![]);
                }
                with_text(&none, &orgs[i].id)
            },
        };
        proof {
            assert(string_map::lookup(before, k) == org_ids(orgs@, k, i as nat));
            assert(ids.deep_view() == ids_named(orgs@, k, (i + 1) as nat));
        }
        let ghost held = ids.deep_view();
        by_name.insert(key, ids);
        proof {
            assert forall|other: Seq<char>|
                #[trigger] string_map::lookup(by_name.entries(), other) == org_ids(
                orgs@,
                other,
                (i + 1) as nat,
            ) by {
                string_map::law_lookup_of_stored(before, k, held, other);
                assert(string_map::lookup(before, other) == org_ids(orgs@, other, i as nat));
            }
        }
        i = i + 1;
    }
    proof {
        law_index_has_ids(orgs@, by_name.entries());
    }
    by_name
}

/// An index of organizations names no organization without an id.
pub proof fn law_index_has_ids(
    orgs: Seq<SyncOrganization>,
    index: Seq<(Seq<char>, Seq<Seq<char>>)>,
)
    requires
        indexes_orgs(index, orgs, orgs.len()),
    ensures
        names_have_ids(index),
{
    assert forall|name: Seq<char>|
        (#[trigger] string_map::lookup(index, name)) matches Some(ids) implies (
    string_map::lookup(index, name)->0).len() > 0 by {
        assert(string_map::lookup(index, name) == org_ids(orgs, name, orgs.len()));
    }
}

proof fn lemma_ids_named_holds(orgs: Seq<SyncOrganization>, i: int, n: nat)
    requires
        0 <= i < n <= orgs.len(),
    ensures
        ids_named(orgs, text::lowercase(orgs[i].name@), n).contains(orgs[i].id@),
    decreases n,
{
    let key = text::lowercase(orgs[i].name@);
    let ids = ids_named(orgs, key, n);
    if i == n - 1 {
        assert(ids.last() == orgs[i].id@);
    } else {
        lemma_ids_named_holds(orgs, i, (n - 1) as nat);
        let before = ids_named(orgs, key, (n - 1) as nat);
        let k = choose|k: int| 0 <= k < before.len() && before[k] == orgs[i].id@;
        assert(ids[k] == orgs[i].id@);
    }
}

/// Every organization resolves by its name, whatever the case, and whether or
/// not its key could be decrypted.
pub proof fn law_every_org_resolves(
    index: Seq<(Seq<char>, Seq<Seq<char>>)>,
    orgs: Seq<SyncOrganization>,
    i: int,
    name: Seq<char>,
)
    requires
        indexes_orgs(index, orgs, orgs.len()),
        0 <= i < orgs.len(),
        text::lowercase(name) == text::lowercase(orgs[i].name@),
    ensures
        string_map::lookup(index, text::lowercase(name)) matches Some(ids) && ids.contains(
            orgs[i].id@,
        ),
{
    lemma_ids_named_holds(orgs, i, orgs.len());
    assert(string_map::lookup(index, text::lowercase(name)) == org_ids(
        orgs,
        text::lowercase(name),
        orgs.len(),
    ));
}

// ---------------------------------------------------------------------------
// Decrypting one cipher
// ---------------------------------------------------------------------------

/// The decrypted texts of a cipher; a text that is absent or that cannot be
/// decrypted is empty.
#[derive(Debug)]
pub struct CipherTexts {
    pub name: String,
    pub notes: String,
    pub username: String,
    pub password: String,
    pub uri: String,
    /// The first of the login's list of addresses.
    pub first_uri: String,
    /// Names and values of the custom fields.
    pub fields: Vec<(String, String)>,
}

/// The mathematical form of [`CipherTexts`].
pub struct TextsView {
    pub name: Seq<char>,
    pub notes: Seq<char>,
    pub username: Seq<char>,
    pub password: Seq<char>,
    pub uri: Seq<char>,
    pub first_uri: Seq<char>,
    pub fields: Seq<(Seq<char>, Seq<char>)>,
}

impl View for CipherTexts {
    type V = TextsView;

    open spec fn view(&self) -> TextsView {
        TextsView {
            name: self.name@,
            notes: self.notes@,
            username: self.username@,
            password: self.password@,
            uri: self.uri@,
            first_uri: self.first_uri@,
            fields: self.fields@.map_values(|f: (String, String)| (f.0@, f.1@)),
        }
    }
}

/// An optional cipher string, decrypted; empty when it is absent or cannot be
/// decrypted.
pub open spec fn lenient_text(s: Option<Seq<char>>, key: KeyView) -> Seq<char> {
    match s {
        None => seq![],
        Some(t) => match crypto::decrypted_text(t, key) {
            Ok(plain) => plain,
            Err(_) => seq![],
        },
    }
}

/// The first address of a login's list.
pub open spec fn first_uri_of(login: SyncLogin) -> Option<Seq<char>> {
    if login.uris@.len() == 0 {
        None
    } else {
        text::opt_text(login.uris@[0].uri)
    }
}

/// The decrypted texts of a cipher whose decrypted name is `name`.
pub open spec fn texts_of(c: SyncCipher, name: Seq<char>, key: KeyView) -> TextsView {
    let from_login = |pick: spec_fn(SyncLogin) -> Option<Seq<char>>|
        match c.login {
            Some(login) => lenient_text(pick(login), key),
            None => seq![],
        };
    TextsView {
        name,
        notes: lenient_text(text::opt_text(c.notes), key),
        username: from_login(|l: SyncLogin| text::opt_text(l.username)),
        password: from_login(|l: SyncLogin| text::opt_text(l.password)),
        uri: from_login(|l: SyncLogin| text::opt_text(l.uri)),
        first_uri: from_login(|l: SyncLogin| first_uri_of(l)),
        fields: c.fields@.map_values(
            |f: SyncField|
                (
                    lenient_text(text::opt_text(f.name), key),
                    lenient_text(text::opt_text(f.value), key),
                ),
        ),
    }
}

/// The first `n` fields by name: a field without a name is left out, and a
/// later field replaces an earlier one of the same name.
pub open spec fn fields_by_name(fields: Seq<(Seq<char>, Seq<char>)>, n: nat) -> Seq<
    (Seq<char>, Seq<char>),
>
    decreases n,
{
    if n == 0 {
        seq![]
    } else {
        let before = fields_by_name(fields, (n - 1) as nat);
        let f = fields[n - 1];
        if f.0.len() == 0 {
            before
        } else {
            string_map::stored(before, f.0, f.1)
        }
    }
}

/// The organization that owns a cipher; an empty id stands for none.
pub open spec fn owner(c: SyncCipher) -> Option<Seq<char>> {
    match c.organization_id {
        Some(id) => if id@.len() == 0 {
            None
        } else {
            Some(id@)
        },
        None => None,
    }
}

/// The item that a cipher and its decrypted texts make.
pub open spec fn item_of(c: SyncCipher, t: TextsView) -> ItemView {
    ItemView {
        id: c.id@,
        cipher_type: c.cipher_type,
        organization_id: owner(c),
        name: t.name,
        username: t.username,
        password: t.password,
        notes: t.notes,
        uri: if t.uri.len() == 0 {
            t.first_uri
        } else {
            t.uri
        },
        fields: fields_by_name(t.fields, t.fields.len()),
    }
}

/// The item that a cipher decrypts to. Only its name has to decrypt.
pub open spec fn decrypted_item(c: SyncCipher, key: KeyView) -> Result<ItemView, CryptoFault> {
    match crypto::decrypted_text(c.name@, key) {
        Ok(name) => Ok(item_of(c, texts_of(c, name, key))),
        Err(e) => Err(e),
    }
}

/// Decrypts an optional cipher string; an absent or undecryptable one is empty.
fn decrypt_lenient(s: &Option<String>, key: &SymmetricKey) -> (r: String)
    ensures
        r@ == lenient_text(text::opt_text(*s), key@),
{
    match s {
        Some(t) => match decrypt_str(t.as_str(), key) {
            Ok(plain) => plain,
            Err(_) => String::new(),
        },
        None => String::new(),
    }
}

/// Decrypts the custom fields of a cipher, in order.
fn decrypt_fields(fields: &Vec<SyncField>, key: &SymmetricKey) -> (r: Vec<(String, String)>)
    ensures
        r@.map_values(|f: (String, String)| (f.0@, f.1@)) == fields@.map_values(
            |f: SyncField|
                (
                    lenient_text(text::opt_text(f.name), key@),
                    lenient_text(text::opt_text(f.value), key@),
                ),
        ),
{
    let mut out: Vec<(String, String)> = Vec::new();
    let mut i: usize = 0;
    while i < fields.len()
        invariant
            i <= fields@.len(),
            out@.len() == i,
            forall|k: int|
                0 <= k < i ==> {
                    &&& (#[trigger] out@[k]).0@ == lenient_text(
                        text::opt_text(fields@[k].name),
                        key@,
                    )
                    &&& out@[k].1@ == lenient_text(text::opt_text(fields@[k].value), key@)
                },
        decreases fields@.len() - i,
    {
        let name = decrypt_lenient(&fields[i].name, key);
        let value = decrypt_lenient(&fields[i].value, key);
        out.push((name, value));
        i = i + 1;
    }
    proof {
        assert(out@.map_values(|f: (String, String)| (f.0@, f.1@)) =~= fields@.map_values(
            |f: SyncField|
                (
                    lenient_text(text::opt_text(f.name), key@),
                    lenient_text(text::opt_text(f.value), key@),
                ),
        ));
    }
    out
}

/// Makes the item of a cipher and its decrypted texts.
pub fn assemble_item(cipher: &SyncCipher, texts: CipherTexts) -> (r: DecryptedItem)
    ensures
        r@ == item_of(*cipher, texts@),
{
    let ghost views = texts@.fields;
    let mut fields: StringMap<String> = StringMap::new();
    let mut i: usize = 0;
    while i < texts.fields.len()
        invariant
            i <= texts.fields@.len(),
            views == texts.fields@.map_values(|f: (String, String)| (f.0@, f.1@)),
            fields.entries() == fields_by_name(views, i as nat),
        decreases texts.fields@.len() - i,
    {
        let name = texts.fields[i].0.clone();
        if !name.as_str().is_empty() {
            fields.insert(name, texts.fields[i].1.clone());
        }
        i = i + 1;
    }
    let organization_id = match &cipher.organization_id {
        Some(id) => if id.as_str().is_empty() {
            None
        } else {
            Some(id.clone())
        },
        None => None,
    };
    let uri = if texts.uri.as_str().is_empty() {
        texts.first_uri
    } else {
        texts.uri
    };
    DecryptedItem {
        id: cipher.id.clone(),
        cipher_type: cipher.cipher_type,
        organization_id,
        name: texts.name,
        username: texts.username,
        password: texts.password,
        notes: texts.notes,
        uri,
        fields,
    }
}

/// Decrypt a single cipher into a `DecryptedItem`.
pub fn decrypt_cipher(cipher: &SyncCipher, key: &SymmetricKey) -> (r: Result<
    DecryptedItem,
    CryptoError,
>)
    ensures
        crypto::outcome(r) == decrypted_item(*cipher, key@),
{
    let name = match decrypt_str(cipher.name.as_str(), key) {
        Ok(name) => name,
        Err(e) => return Err(e),
    };
    let notes = decrypt_lenient(&cipher.notes, key);
    let mut username = String::new();
    let mut password = String::new();
    let mut uri = String::new();
    let mut first_uri = String::new();
    match &cipher.login {
        Some(login) => {
            username = decrypt_lenient(&login.username, key);
            password = decrypt_lenient(&login.password, key);
            uri = decrypt_lenient(&login.uri, key);
            if login.uris.len() > 0 {
                first_uri = decrypt_lenient(&login.uris[0].uri, key);
            }
        },
        None => {},
    }
    let fields = decrypt_fields(&cipher.fields, key);
    let ghost plain = name@;
    let texts = CipherTexts { name, notes, username, password, uri, first_uri, fields };
    proof {
        assert(texts@ == texts_of(*cipher, plain, key@));
    }
    Ok(assemble_item(cipher, texts))
}

// ---------------------------------------------------------------------------
// Decrypting the vault
// ---------------------------------------------------------------------------

/// The keys of the first `n` organizations that a private key decrypts, by
/// organization id.
pub open spec fn org_keys_with(orgs: Seq<SyncOrganization>, der: Seq<u8>, n: nat) -> Seq<
    (Seq<char>, KeyView),
>
    decreases n,
{
    if n == 0 {
        seq![]
    } else {
        let before = org_keys_with(orgs, der, (n - 1) as nat);
        let org = orgs[n - 1];
        match crypto::org_key_of(org.key@, der) {
            Ok(key) => string_map::stored(before, org.id@, key),
            Err(_) => before,
        }
    }
}

/// The organization keys of an account. Without organizations, or without a
/// private key that can be decrypted, there are none.
pub open spec fn org_keys_of(profile: SyncProfile, sym_key: KeyView) -> Seq<(Seq<char>, KeyView)> {
    let orgs = profile.organizations@;
    if orgs.len() == 0 || profile.private_key@.len() == 0 {
        seq![]
    } else {
        match crypto::private_key_of(profile.private_key@, sym_key) {
            Ok(der) => org_keys_with(orgs, der, orgs.len()),
            Err(_) => seq![],
        }
    }
}

/// The key of a cipher: that of the organization that owns it, or else the
/// user's own.
pub open spec fn key_of(
    c: SyncCipher,
    org_keys: Seq<(Seq<char>, KeyView)>,
    sym_key: KeyView,
) -> Option<KeyView> {
    match owner(c) {
        Some(id) => string_map::lookup(org_keys, id),
        None => Some(sym_key),
    }
}

/// What became of a cipher.
#[derive(Debug)]
pub enum CipherOutcome {
    /// Its organization's key was missing or failed to decrypt.
    NoOrgKey,
    /// The cipher itself failed to decrypt.
    Failed(CryptoError),
    /// It decrypted to an item.
    Item(DecryptedItem),
}

/// The mathematical form of a [`CipherOutcome`].
pub enum OutcomeView {
    NoOrgKey,
    Failed(CryptoFault),
    Item(ItemView),
}

impl View for CipherOutcome {
    type V = OutcomeView;

    open spec fn view(&self) -> OutcomeView {
        match *self {
            CipherOutcome::NoOrgKey => OutcomeView::NoOrgKey,
            CipherOutcome::Failed(e) => OutcomeView::Failed(e@),
            CipherOutcome::Item(item) => OutcomeView::Item(item@),
        }
    }
}

/// What becomes of a cipher.
pub open spec fn outcome_of(
    c: SyncCipher,
    org_keys: Seq<(Seq<char>, KeyView)>,
    sym_key: KeyView,
) -> OutcomeView {
    match key_of(c, org_keys, sym_key) {
        None => OutcomeView::NoOrgKey,
        Some(key) => match decrypted_item(c, key) {
            Ok(item) => OutcomeView::Item(item),
            Err(e) => OutcomeView::Failed(e),
        },
    }
}

/// What becomes of the ciphers of a sync response.
pub open spec fn vault_outcomes(sync: SyncResponse, sym_key: KeyView) -> Seq<OutcomeView> {
    let keys = org_keys_of(sync.profile, sym_key);
    sync.ciphers@.map_values(|c: SyncCipher| outcome_of(c, keys, sym_key))
}

/// The views of a list of outcomes.
pub open spec fn outcome_views(outcomes: Seq<CipherOutcome>) -> Seq<OutcomeView> {
    outcomes.map_values(|o: CipherOutcome| o@)
}

/// The items among the first `n` outcomes, in order.
pub open spec fn kept_items(outcomes: Seq<OutcomeView>, n: nat) -> Seq<ItemView>
    decreases n,
{
    if n == 0 {
        seq![]
    } else {
        let before = kept_items(outcomes, (n - 1) as nat);
        match outcomes[n - 1] {
            OutcomeView::Item(item) => before.push(item),
            _ => before,
        }
    }
}

/// The number of ciphers without an organization key among the first `n`.
pub open spec fn count_no_org_key(outcomes: Seq<OutcomeView>, n: nat) -> nat
    decreases n,
{
    if n == 0 {
        0
    } else {
        count_no_org_key(outcomes, (n - 1) as nat) + if outcomes[n - 1] is NoOrgKey {
            1nat
        } else {
            0
        }
    }
}

/// The number of ciphers among the first `n` that failed to decrypt.
pub open spec fn count_failed(outcomes: Seq<OutcomeView>, n: nat) -> nat
    decreases n,
{
    if n == 0 {
        0
    } else {
        count_failed(outcomes, (n - 1) as nat) + if outcomes[n - 1] is Failed {
            1nat
        } else {
            0
        }
    }
}

/// Every cipher is accounted for: it is an item of the vault or it is counted
/// as skipped, and not both.
pub proof fn law_every_cipher_is_counted(outcomes: Seq<OutcomeView>, n: nat)
    requires
        n <= outcomes.len(),
    ensures
        kept_items(outcomes, n).len() + count_no_org_key(outcomes, n) + count_failed(outcomes, n)
            == n,
    decreases n,
{
    if n > 0 {
        law_every_cipher_is_counted(outcomes, (n - 1) as nat);
    }
}

/// Decrypts the organization keys of an account.
pub fn decrypt_org_keys(profile: &SyncProfile, sym_key: &SymmetricKey) -> (r: StringMap<
    SymmetricKey,
>)
    ensures
        r.entries() == org_keys_of(*profile, sym_key@),
{
    let mut org_keys: StringMap<SymmetricKey> = StringMap::new();
    if profile.organizations.len() == 0 || profile.private_key.as_str().is_empty() {
        return org_keys;
    }
    let private_key = match decrypt_private_key(profile.private_key.as_str(), sym_key) {
        Ok(key) => key,
        Err(_) => return org_keys,
    };
    let ghost der = private_key@;
    let mut i: usize = 0;
    while i < profile.organizations.len()
        invariant
            i <= profile.organizations@.len(),
            der == private_key@,
            org_keys.entries() == org_keys_with(profile.organizations@, der, i as nat),
        decreases profile.organizations@.len() - i,
    {
        match decrypt_org_key(profile.organizations[i].key.as_str(), &private_key) {
            Ok(key) => org_keys.insert(profile.organizations[i].id.clone(), key),
            Err(_) => {},
        }
        i = i + 1;
    }
    org_keys
}

/// Picks the key of a cipher; `None` when its organization has none.
pub fn key_for_cipher<'a>(
    cipher: &SyncCipher,
    org_keys: &'a StringMap<SymmetricKey>,
    sym_key: &'a SymmetricKey,
) -> (r: Option<&'a SymmetricKey>)
    ensures
        match r {
            Some(key) => key_of(*cipher, org_keys.entries(), sym_key@) == Some(key@),
            None => key_of(*cipher, org_keys.entries(), sym_key@) is None,
        },
{
    match &cipher.organization_id {
        Some(id) => if id.as_str().is_empty() {
            Some(sym_key)
        } else {
            org_keys.get(id.as_str())
        },
        None => Some(sym_key),
    }
}

/// Sorts the outcomes into the items and the counts of what was dropped.
pub fn collect_items(outcomes: Vec<CipherOutcome>) -> (r: (Vec<DecryptedItem>, DecryptSkips))
    ensures
        item_views(r.0@) == kept_items(outcome_views(outcomes@), outcomes@.len()),
        r.1.no_org_key == count_no_org_key(outcome_views(outcomes@), outcomes@.len()),
        r.1.decrypt_failed == count_failed(outcome_views(outcomes@), outcomes@.len()),
{
    let ghost views = outcome_views(outcomes@);
    let total: usize = outcomes.len();
    let mut items: Vec<DecryptedItem> = Vec::new();
    let mut skips = DecryptSkips::default();
    let mut n: usize = 0;
    proof {
        assert(item_views(items@) =~= seq![]);
    }
    for outcome in it: outcomes
        invariant
            n == it.index(),
            it.seq() == outcomes@,
            total == outcomes@.len(),
            views == outcome_views(outcomes@),
            item_views(items@) == kept_items(views, n as nat),
            skips.no_org_key == count_no_org_key(views, n as nat),
            skips.decrypt_failed == count_failed(views, n as nat),
    {
        let ghost at = n as int;
        proof {
            law_every_cipher_is_counted(views, n as nat);
            assert(views[at] == outcome@);
        }
        match outcome {
            CipherOutcome::NoOrgKey => {
                skips = DecryptSkips {
                    no_org_key: skips.no_org_key + 1,
                    decrypt_failed: skips.decrypt_failed,
                };
            },
            CipherOutcome::Failed(_) => {
                skips = DecryptSkips {
                    no_org_key: skips.no_org_key,
                    decrypt_failed: skips.decrypt_failed + 1,
                };
            },
            CipherOutcome::Item(item) => {
                let ghost before = items@;
                items.push(item);
                proof {
                    assert(item_views(items@) =~= item_views(before).push(item@));
                }
            },
        }
        n = n + 1;
    }
    (items, skips)
}

/// Decrypt all ciphers in a sync response using the user's symmetric key
/// and any organisation keys derived from the user's RSA private key.
///
/// Returns the cache alongside counts of ciphers that were silently dropped, so
/// callers can log a summary instead of leaving misses undiagnosable.
pub fn decrypt_vault(sync: &SyncResponse, sym_key: &SymmetricKey) -> (r: (
    VaultCache,
    DecryptSkips,
))
    ensures
        r.0@.items == kept_items(vault_outcomes(*sync, sym_key@), sync.ciphers@.len()),
        indexes_orgs(
            r.0@.orgs_by_name,
            sync.profile.organizations@,
            sync.profile.organizations@.len(),
        ),
        r.0@.wf(),
        r.1.no_org_key == count_no_org_key(
            vault_outcomes(*sync, sym_key@),
            sync.ciphers@.len(),
        ),
        r.1.decrypt_failed == count_failed(vault_outcomes(*sync, sym_key@), sync.ciphers@.len()),
        r.0@.items.len() + r.1.no_org_key + r.1.decrypt_failed == sync.ciphers@.len(),
{
    let org_keys = decrypt_org_keys(&sync.profile, sym_key);
    let ghost keys = org_keys.entries();
    let mut outcomes: Vec<CipherOutcome> = Vec::new();
    let mut i: usize = 0;
    while i < sync.ciphers.len()
        invariant
            i <= sync.ciphers@.len(),
            keys == org_keys.entries(),
            outcomes@.len() == i,
            forall|k: int|
                0 <= k < i ==> (#[trigger] outcomes@[k])@ == outcome_of(
                    sync.ciphers@[k],
                    keys,
                    sym_key@,
                ),
        decreases sync.ciphers@.len() - i,
    {
        let cipher = &sync.ciphers[i];
        let outcome = match key_for_cipher(cipher, &org_keys, sym_key) {
            None => CipherOutcome::NoOrgKey,
            Some(key) => match decrypt_cipher(cipher, key) {
                Ok(item) => CipherOutcome::Item(item),
                Err(e) => CipherOutcome::Failed(e),
            },
        };
        outcomes.push(outcome);
        i = i + 1;
    }
    proof {
        assert(outcome_views(outcomes@) =~= vault_outcomes(*sync, sym_key@));
        law_every_cipher_is_counted(vault_outcomes(*sync, sym_key@), sync.ciphers@.len());
    }
    let (items, skips) = collect_items(outcomes);
    let orgs_by_name = index_orgs(sync.profile.organizations.as_slice());
    (VaultCache { items, orgs_by_name }, skips)
}

// ---------------------------------------------------------------------------
// Lookup
// ---------------------------------------------------------------------------

/// The first position at or after `i` whose item is picked, or the length of
/// `items` when there is none.
pub open spec fn first_where(
    items: Seq<ItemView>,
    picked: spec_fn(ItemView) -> bool,
    i: int,
) -> int
    decreases items.len() - i,
{
    if i >= items.len() {
        items.len() as int
    } else if picked(items[i]) {
        i
    } else {
        first_where(items, picked, i + 1)
    }
}

/// `first_where` is a position at or after `i`, is picked if it is not the
/// end, and no position before it is.
pub proof fn lemma_first_where(items: Seq<ItemView>, picked: spec_fn(ItemView) -> bool, i: int)
    requires
        0 <= i <= items.len(),
    ensures
        i <= first_where(items, picked, i) <= items.len(),
        first_where(items, picked, i) < items.len() ==> picked(
            items[first_where(items, picked, i)],
        ),
        forall|k: int| i <= k < first_where(items, picked, i) ==> !picked(#[trigger] items[k]),
    decreases items.len() - i,
{
    if i < items.len() && !picked(items[i]) {
        lemma_first_where(items, picked, i + 1);
    }
}

/// Whether an item can be found with the given organization scope: any item
/// without one, only that organization's items with one.
pub open spec fn in_scope(item: ItemView, org_id: Option<Seq<char>>) -> bool {
    match org_id {
        None => true,
        Some(id) => item.organization_id == Some(id),
    }
}

/// The items in scope that have the name, whatever the case.
pub open spec fn exact_match(name: Seq<char>, org_id: Option<Seq<char>>) -> spec_fn(
    ItemView,
) -> bool {
    |item: ItemView|
        in_scope(item, org_id) && text::lowercase(item.name) == text::lowercase(name)
}

/// The items in scope whose name contains the name, whatever the case.
pub open spec fn partial_match(name: Seq<char>, org_id: Option<Seq<char>>) -> spec_fn(
    ItemView,
) -> bool {
    |item: ItemView|
        in_scope(item, org_id) && text::is_infix(text::lowercase(name), text::lowercase(item.name))
}

/// Where the item of a name is found: the first exact match, or else the first
/// partial one.
pub open spec fn found_at(
    items: Seq<ItemView>,
    name: Seq<char>,
    org_id: Option<Seq<char>>,
) -> Option<int> {
    let exact = first_where(items, exact_match(name, org_id), 0);
    let partial = first_where(items, partial_match(name, org_id), 0);
    if exact < items.len() {
        Some(exact)
    } else if partial < items.len() {
        Some(partial)
    } else {
        None
    }
}

/// Whether an item can be found with the given organization scope.
fn item_in_scope(item: &DecryptedItem, org_id: Option<&str>) -> (r: bool)
    ensures
        r == in_scope(item@, text::opt_str(org_id)),
{
    match org_id {
        None => true,
        Some(id) => match &item.organization_id {
            Some(owner) => same_text(owner.as_str(), id),
            None => false,
        },
    }
}

/// Search `items` for `name`, optionally restricted to one organization.
///
/// Priority:
/// 1. Exact case-insensitive match.
/// 2. Substring (partial) match.
///
/// With `org_id = None`, items from the personal vault and all organizations
/// match. With `org_id = Some(..)`, only items owned by that organization match.
pub fn find_item<'a>(items: &'a [DecryptedItem], name: &str, org_id: Option<&str>) -> (r: Option<
    &'a DecryptedItem,
>)
    ensures
        match (r, found_at(item_views(items@), name@, text::opt_str(org_id))) {
            (Some(item), Some(i)) => 0 <= i < items@.len() && *item == items@[i],
            (None, None) => true,
            _ => false,
        },
{
    let ghost views = item_views(items@);
    let ghost scope = text::opt_str(org_id);
    let ghost exact = exact_match(name@, scope);
    let ghost partial = partial_match(name@, scope);
    let key = to_lowercase(name);
    let mut i: usize = 0;
    while i < items.len()
        invariant
            i <= items@.len(),
            views == item_views(items@),
            scope == text::opt_str(org_id),
            exact == exact_match(name@, scope),
            key@ == text::lowercase(name@),
            first_where(views, exact, 0) == first_where(views, exact, i as int),
        decreases items@.len() - i,
    {
        let item = &items[i];
        proof {
            assert(views[i as int] == item@);
        }
        if item_in_scope(item, org_id) {
            let lowered = to_lowercase(item.name.as_str());
            if same_text(lowered.as_str(), key.as_str()) {
                return Some(item);
            }
        }
        i = i + 1;
    }
    let mut j: usize = 0;
    while j < items.len()
        invariant
            j <= items@.len(),
            views == item_views(items@),
            scope == text::opt_str(org_id),
            exact == exact_match(name@, scope),
            partial == partial_match(name@, scope),
            key@ == text::lowercase(name@),
            first_where(views, exact, 0) == views.len(),
            first_where(views, partial, 0) == first_where(views, partial, j as int),
        decreases items@.len() - j,
    {
        let item = &items[j];
        proof {
            assert(views[j as int] == item@);
        }
        if item_in_scope(item, org_id) {
            let lowered = to_lowercase(item.name.as_str());
            if contains_text(lowered.as_str(), key.as_str()) {
                return Some(item);
            }
        }
        j = j + 1;
    }
    None
}

/// Where a lookup finds its item, or why it finds none.
pub open spec fn lookup_at(
    cache: CacheView,
    name: Seq<char>,
    vault: Option<Seq<char>>,
) -> Result<int, LookupFault> {
    let searched = cache.items.len();
    match vault {
        Some(v) => match string_map::lookup(cache.orgs_by_name, text::lowercase(v)) {
            None => Err(LookupFault::VaultNotFound(v)),
            Some(ids) => if ids.len() > 1 {
                Err(LookupFault::VaultAmbiguous(v))
            } else {
                match found_at(cache.items, name, Some(ids[0])) {
                    Some(i) => Ok(i),
                    None => Err(LookupFault::NotFoundInVault { name, vault: v, searched }),
                }
            },
        },
        None => match found_at(cache.items, name, None) {
            Some(i) => Ok(i),
            None => Err(LookupFault::NotFound { name, searched }),
        },
    }
}

/// Look up `name` in the cache, scoped to `vault` (an organization name,
/// case-insensitive) when given.
///
/// A scoped lookup never falls back to other vaults or the personal vault:
/// a miss inside the named organization is an error. Note that an
/// organization whose key failed to decrypt still resolves by name; its
/// items are simply absent, so lookups report `NotFoundInVault`.
pub fn lookup_item<'a>(cache: &'a VaultCache, name: &str, vault: Option<&str>) -> (r: Result<
    &'a DecryptedItem,
    LookupError,
>)
    requires
        cache@.wf(),
    ensures
        match (r, lookup_at(cache@, name@, text::opt_str(vault))) {
            (Ok(item), Ok(i)) => 0 <= i < cache@.items.len() && item@ == cache@.items[i],
            (Err(e), Err(fault)) => e@ == fault,
            _ => false,
        },
{
    match vault {
        Some(v) => {
            let key = to_lowercase(v);
            let org_ids = match cache.orgs_by_name.get(key.as_str()) {
                Some(ids) => ids,
                None => return Err(LookupError::VaultNotFound(v.to_owned())),
            };
            if org_ids.len() > 1 {
                return Err(LookupError::VaultAmbiguous(v.to_owned()));
            }
            proof {
                assert(org_ids.deep_view().len() > 0);
                assert(org_ids.deep_view()[0] == org_ids@[0]@);
            }
            match find_item(cache.items.as_slice(), name, Some(org_ids[0].as_str())) {
                Some(item) => Ok(item),
                None => Err(
                    LookupError::NotFoundInVault {
                        name: name.to_owned(),
                        vault: v.to_owned(),
                        searched: cache.items.len(),
                    },
                ),
            }
        },
        None => match find_item(cache.items.as_slice(), name, None) {
            Some(item) => Ok(item),
            None => Err(
                LookupError::NotFound { name: name.to_owned(), searched: cache.items.len() },
            ),
        },
    }
}

/// A scoped lookup never leaves its vault: what it finds belongs to the one
/// organization of that name, so neither a personal item nor an item of
/// another organization is ever returned.
pub proof fn law_scoped_lookup_stays_in_vault(cache: CacheView, name: Seq<char>, vault: Seq<char>)
    requires
        cache.wf(),
        lookup_at(cache, name, Some(vault)) is Ok,
    ensures
        string_map::lookup(cache.orgs_by_name, text::lowercase(vault)) matches Some(ids)
            && ids.len() == 1 && cache.items[lookup_at(
            cache,
            name,
            Some(vault),
        )->Ok_0].organization_id == Some(ids[0]),
{
    let ids = string_map::lookup(cache.orgs_by_name, text::lowercase(vault))->0;
    lemma_first_where(cache.items, exact_match(name, Some(ids[0])), 0);
    lemma_first_where(cache.items, partial_match(name, Some(ids[0])), 0);
}

/// Exact beats partial: whenever some item in scope has the name, whatever the
/// case, the item that is found has it too.
pub proof fn law_exact_match_wins(
    items: Seq<ItemView>,
    name: Seq<char>,
    org_id: Option<Seq<char>>,
    k: int,
)
    requires
        0 <= k < items.len(),
        in_scope(items[k], org_id),
        text::lowercase(items[k].name) == text::lowercase(name),
    ensures
        found_at(items, name, org_id) matches Some(i) && 0 <= i <= k && text::lowercase(
            items[i].name,
        ) == text::lowercase(name) && in_scope(items[i], org_id),
{
    let exact = exact_match(name, org_id);
    lemma_first_where(items, exact, 0);
    assert(exact(items[k]));
}

/// A search succeeds exactly when the name of some item in scope contains what
/// is searched for, whatever the case.
pub proof fn law_search_is_complete(
    items: Seq<ItemView>,
    name: Seq<char>,
    org_id: Option<Seq<char>>,
)
    ensures
        found_at(items, name, org_id) is Some <==> exists|k: int|
            0 <= k < items.len() && in_scope(#[trigger] items[k], org_id) && text::is_infix(
                text::lowercase(name),
                text::lowercase(items[k].name),
            ),
{
    let exact = exact_match(name, org_id);
    let partial = partial_match(name, org_id);
    lemma_first_where(items, exact, 0);
    lemma_first_where(items, partial, 0);
    let e = first_where(items, exact, 0);
    if e < items.len() {
        let key = text::lowercase(name);
        assert(text::occurs_at(key, key, 0)) by {
            assert(key.subrange(0, key.len() as int) =~= key);
        }
        assert(in_scope(items[e], org_id) && text::is_infix(key, text::lowercase(items[e].name)));
    }
    if exists|k: int|
        0 <= k < items.len() && in_scope(#[trigger] items[k], org_id) && text::is_infix(
            text::lowercase(name),
            text::lowercase(items[k].name),
        ) {
        let k = choose|k: int|
            0 <= k < items.len() && in_scope(#[trigger] items[k], org_id) && text::is_infix(
                text::lowercase(name),
                text::lowercase(items[k].name),
            );
        assert(partial(items[k]));
    }
}

/// Names and vault names are compared without regard to case: a lookup finds
/// the same item under every spelling of either.
pub proof fn law_lookup_ignores_case(
    cache: CacheView,
    name: Seq<char>,
    other_name: Seq<char>,
    vault: Option<Seq<char>>,
    other_vault: Option<Seq<char>>,
)
    requires
        text::lowercase(name) == text::lowercase(other_name),
        match (vault, other_vault) {
            (None, None) => true,
            (Some(a), Some(b)) => text::lowercase(a) == text::lowercase(b),
            _ => false,
        },
    ensures
        lookup_at(cache, name, vault) is Ok <==> lookup_at(cache, other_name, other_vault) is Ok,
        lookup_at(cache, name, vault) is Ok ==> lookup_at(cache, name, vault) == lookup_at(
            cache,
            other_name,
            other_vault,
        ),
{
    assert forall|org_id: Option<Seq<char>>|
        found_at(cache.items, name, org_id) == #[trigger] found_at(
            cache.items,
            other_name,
            org_id,
        ) by {
        assert(exact_match(name, org_id) =~= exact_match(other_name, org_id));
        assert(partial_match(name, org_id) =~= partial_match(other_name, org_id));
    }
}

/// A name that stands for several organizations is always refused as
/// ambiguous, and no other lookup is.
pub proof fn law_ambiguous_vault_is_refused(
    cache: CacheView,
    name: Seq<char>,
    vault: Option<Seq<char>>,
)
    ensures
        (lookup_at(cache, name, vault) matches Err(e) && e is VaultAmbiguous) <==> (
        vault matches Some(v) && string_map::lookup(
            cache.orgs_by_name,
            text::lowercase(v),
        ) matches Some(ids) && ids.len() > 1),
{
}

// ---------------------------------------------------------------------------
// Secret values
// ---------------------------------------------------------------------------

/// The value of the field `name` when it is not empty, else `otherwise`.
pub open spec fn field_or(
    fields: Seq<(Seq<char>, Seq<char>)>,
    name: Seq<char>,
    otherwise: Seq<char>,
) -> Seq<char> {
    match string_map::lookup(fields, name) {
        Some(v) => if v.len() > 0 {
            v
        } else {
            otherwise
        },
        None => otherwise,
    }
}

/// The first non-empty field value from position `i` on; empty when there is
/// none.
pub open spec fn first_value(fields: Seq<(Seq<char>, Seq<char>)>, i: int) -> Seq<char>
    decreases fields.len() - i,
{
    if i < 0 || i >= fields.len() {
        seq![]
    } else if fields[i].1.len() > 0 {
        fields[i].1
    } else {
        first_value(fields, i + 1)
    }
}

/// The most relevant secret value of an item: its password; else the field
/// `value`, `secret`, `api_key`, `apikey` or `token`; else its notes; else its
/// first non-empty field value. Empty values are passed over throughout.
pub open spec fn secret_of(item: ItemView) -> Seq<char> {
    let by_notes = if item.notes.len() > 0 {
        item.notes
    } else {
        first_value(item.fields, 0)
    };
    let by_token = field_or(item.fields, "token"@, by_notes);
    let by_apikey = field_or(item.fields, "apikey"@, by_token);
    let by_api_key = field_or(item.fields, "api_key"@, by_apikey);
    let by_secret = field_or(item.fields, "secret"@, by_api_key);
    let by_value = field_or(item.fields, "value"@, by_secret);
    if item.password.len() > 0 {
        item.password
    } else {
        by_value
    }
}

/// The value of the field `name`, when it is there and not empty.
fn filled_field<'a>(item: &'a DecryptedItem, name: &str) -> (r: Option<&'a str>)
    ensures
        match r {
            Some(v) => string_map::lookup(item@.fields, name@) == Some(v@) && v@.len() > 0,
            None => match string_map::lookup(item@.fields, name@) {
                Some(v) => v.len() == 0,
                None => true,
            },
        },
{
    match item.fields.get(name) {
        Some(v) => if v.as_str().is_empty() {
            None
        } else {
            Some(v.as_str())
        },
        None => None,
    }
}

/// Extract the most relevant secret value from a decrypted item.
///
/// Priority:
/// 1. `login.password`
/// 2. Custom field named `value`, `secret`, `api_key`, `apikey`, or `token`
/// 3. `notes`
/// 4. First non-empty field value
pub fn extract_secret(item: &DecryptedItem) -> (r: &str)
    ensures
        r@ == secret_of(item@),
{
    if !item.password.as_str().is_empty() {
        return item.password.as_str();
    }
    match filled_field(item, "value") {
        Some(v) => return v,
        None => {},
    }
    match filled_field(item, "secret") {
        Some(v) => return v,
        None => {},
    }
    match filled_field(item, "api_key") {
        Some(v) => return v,
        None => {},
    }
    match filled_field(item, "apikey") {
        Some(v) => return v,
        None => {},
    }
    match filled_field(item, "token") {
        Some(v) => return v,
        None => {},
    }
    if !item.notes.as_str().is_empty() {
        return item.notes.as_str();
    }
    let ghost fields = item@.fields;
    let total: usize = item.fields.len();
    let mut i: usize = 0;
    while i < total
        invariant
            i <= total,
            total == fields.len(),
            fields == item.fields.entries(),
            first_value(fields, 0) == first_value(fields, i as int),
            first_value(fields, 0) == secret_of(item@),
        decreases total - i,
    {
        let (_, v) = item.fields.entry(i);
        if !v.as_str().is_empty() {
            return v.as_str();
        }
        i = i + 1;
    }
    proof {
        reveal_strlit("");
        assert(""@ =~= seq![]);
    }
    ""
}

/// An extracted value is empty only where the item has nothing to give: no
/// password, no notes and no field with a value.
pub proof fn law_secret_is_empty_only_without_values(item: ItemView)
    ensures
        secret_of(item).len() == 0 <==> {
            &&& item.password.len() == 0
            &&& item.notes.len() == 0
            &&& forall|k: int|
                0 <= k < item.fields.len() ==> (#[trigger] item.fields[k]).1.len() == 0
        },
{
    lemma_first_value(item.fields, 0);
    string_map::lemma_key_from(item.fields, "value"@, 0);
    string_map::lemma_key_from(item.fields, "secret"@, 0);
    string_map::lemma_key_from(item.fields, "api_key"@, 0);
    string_map::lemma_key_from(item.fields, "apikey"@, 0);
    string_map::lemma_key_from(item.fields, "token"@, 0);
}

proof fn lemma_first_value(fields: Seq<(Seq<char>, Seq<char>)>, i: int)
    requires
        0 <= i <= fields.len(),
    ensures
        first_value(fields, i).len() == 0 <==> forall|k: int|
            i <= k < fields.len() ==> (#[trigger] fields[k]).1.len() == 0,
    decreases fields.len() - i,
{
    if i < fields.len() && fields[i].1.len() == 0 {
        lemma_first_value(fields, i + 1);
        assert forall|k: int|
            first_value(fields, i + 1).len() == 0 && i <= k < fields.len() implies (
        #[trigger] fields[k]).1.len() == 0 by {}
    }
}

/// What was sealed in the vault is what comes out of it: a login whose name and
/// password decrypt to some texts becomes an item of that name, whose secret
/// is that password.
pub proof fn law_sealed_password_comes_out(
    c: SyncCipher,
    key: KeyView,
    name: Seq<char>,
    password: Seq<char>,
)
    requires
        crypto::decrypted_text(c.name@, key) == Ok::<Seq<char>, CryptoFault>(name),
        c.login matches Some(login) && login.password matches Some(sealed)
            && crypto::decrypted_text(sealed@, key) == Ok::<Seq<char>, CryptoFault>(password),
        password.len() > 0,
    ensures
        decrypted_item(c, key) matches Ok(item) && item.name == name && secret_of(item)
            == password && item.organization_id == owner(c),
{
}

/// A password is what is extracted, whatever else the item holds.
pub proof fn law_password_comes_first(item: ItemView)
    requires
        item.password.len() > 0,
    ensures
        secret_of(item) == item.password,
{
}

// ---------------------------------------------------------------------------
// Laws: the organization keys
// ---------------------------------------------------------------------------

proof fn lemma_org_key_kept(
    orgs: Seq<SyncOrganization>,
    der: Seq<u8>,
    n: nat,
    i: int,
    key: KeyView,
)
    requires
        0 <= i < n <= orgs.len(),
        crypto::org_key_of(orgs[i].key@, der) == Ok::<KeyView, CryptoFault>(key),
        forall|j: int|
            i < j < n && #[trigger] orgs[j].id@ == orgs[i].id@ ==> crypto::org_key_of(
                orgs[j].key@,
                der,
            ) is Err,
    ensures
        string_map::lookup(org_keys_with(orgs, der, n), orgs[i].id@) == Some(key),
    decreases n,
{
    let before = org_keys_with(orgs, der, (n - 1) as nat);
    let org = orgs[n - 1];
    let opened = crypto::org_key_of(org.key@, der);
    if i < n - 1 {
        lemma_org_key_kept(orgs, der, (n - 1) as nat, i, key);
    }
    if opened is Ok {
        assert(orgs[n - 1].id@ == org.id@);
        string_map::law_lookup_of_stored(before, org.id@, opened->Ok_0, orgs[i].id@);
    }
}

proof fn lemma_org_key_source(
    orgs: Seq<SyncOrganization>,
    der: Seq<u8>,
    n: nat,
    id: Seq<char>,
) -> (i: int)
    requires
        n <= orgs.len(),
        string_map::lookup(org_keys_with(orgs, der, n), id) is Some,
    ensures
        0 <= i < n,
        orgs[i].id@ == id,
        crypto::org_key_of(orgs[i].key@, der) == Ok::<KeyView, CryptoFault>(
            string_map::lookup(org_keys_with(orgs, der, n), id)->0,
        ),
    decreases n,
{
    if n == 0 {
        assert(string_map::lookup(Seq::<(Seq<char>, KeyView)>::empty(), id) is None);
        0
    } else {
        let before = org_keys_with(orgs, der, (n - 1) as nat);
        let org = orgs[n - 1];
        let opened = crypto::org_key_of(org.key@, der);
        if opened is Ok {
            string_map::law_lookup_of_stored(before, org.id@, opened->Ok_0, id);
        }
        if opened is Ok && org.id@ == id {
            n - 1
        } else {
            lemma_org_key_source(orgs, der, (n - 1) as nat, id)
        }
    }
}

/// Every organization whose key the account's private key opens has that very
/// key under its id, however many organizations there are. (Of several with
/// one id, the last whose key opens counts.)
pub proof fn law_every_org_key_is_kept(
    profile: SyncProfile,
    sym_key: KeyView,
    der: Seq<u8>,
    i: int,
    key: KeyView,
)
    requires
        profile.private_key@.len() > 0,
        crypto::private_key_of(profile.private_key@, sym_key) == Ok::<Seq<u8>, CryptoFault>(der),
        0 <= i < profile.organizations@.len(),
        crypto::org_key_of(profile.organizations@[i].key@, der) == Ok::<KeyView, CryptoFault>(key),
        forall|j: int|
            i < j < profile.organizations@.len() && #[trigger] profile.organizations@[j].id@
                == profile.organizations@[i].id@ ==> crypto::org_key_of(
                profile.organizations@[j].key@,
                der,
            ) is Err,
    ensures
        string_map::lookup(org_keys_of(profile, sym_key), profile.organizations@[i].id@) == Some(
            key,
        ),
{
    lemma_org_key_kept(profile.organizations@, der, profile.organizations@.len(), i, key);
}

/// An id has a key only where the account has a private key that opens, and an
/// organization of that id whose own key this private key opens to just that.
pub proof fn law_no_foreign_org_key(profile: SyncProfile, sym_key: KeyView, id: Seq<char>)
    requires
        string_map::lookup(org_keys_of(profile, sym_key), id) is Some,
    ensures
        profile.private_key@.len() > 0,
        crypto::private_key_of(profile.private_key@, sym_key) is Ok,
        exists|i: int|
            0 <= i < profile.organizations@.len() && #[trigger] profile.organizations@[i].id@ == id
                && crypto::org_key_of(
                profile.organizations@[i].key@,
                crypto::private_key_of(profile.private_key@, sym_key)->Ok_0,
            ) == Ok::<KeyView, CryptoFault>(
                string_map::lookup(org_keys_of(profile, sym_key), id)->0,
            ),
{
    let orgs = profile.organizations@;
    let none = Seq::<(Seq<char>, KeyView)>::empty();
    assert(string_map::lookup(none, id) is None);
    assert(orgs.len() > 0);
    let der = crypto::private_key_of(profile.private_key@, sym_key)->Ok_0;
    let i = lemma_org_key_source(orgs, der, orgs.len(), id);
    assert(profile.organizations@[i].id@ == id);
}

/// The key of a cipher that belongs to no organization is the user's own; that
/// of one that does is the organization's, and never the user's in its stead.
pub proof fn law_cipher_key_is_its_owners(
    c: SyncCipher,
    org_keys: Seq<(Seq<char>, KeyView)>,
    sym_key: KeyView,
)
    ensures
        c.organization_id is None ==> key_of(c, org_keys, sym_key) == Some(sym_key),
        c.organization_id matches Some(id) ==> (if id@.len() == 0 {
            key_of(c, org_keys, sym_key) == Some(sym_key)
        } else {
            key_of(c, org_keys, sym_key) == string_map::lookup(org_keys, id@)
        }),
{
}

// ---------------------------------------------------------------------------
// Laws: the items of the vault
// ---------------------------------------------------------------------------

proof fn lemma_kept_items(outcomes: Seq<OutcomeView>, n: nat)
    requires
        n <= outcomes.len(),
    ensures
        kept_items(outcomes, n) == outcomes.take(n as int).filter(
            |o: OutcomeView| o is Item,
        ).map_values(|o: OutcomeView| o->Item_0),
        count_no_org_key(outcomes, n) == outcomes.take(n as int).filter(
            |o: OutcomeView| o is NoOrgKey,
        ).len(),
        count_failed(outcomes, n) == outcomes.take(n as int).filter(
            |o: OutcomeView| o is Failed,
        ).len(),
    decreases n,
{
    reveal(Seq::filter);
    let is_item = |o: OutcomeView| o is Item;
    let pick = |o: OutcomeView| o->Item_0;
    let now = outcomes.take(n as int);
    if n > 0 {
        lemma_kept_items(outcomes, (n - 1) as nat);
        let before = outcomes.take(n - 1);
        assert(now.drop_last() =~= before);
        assert(now.last() == outcomes[n - 1]);
        if now.last() is Item {
            assert(now.filter(is_item) =~= before.filter(is_item).push(now.last()));
            assert(now.filter(is_item).map_values(pick) =~= before.filter(is_item).map_values(
                pick,
            ).push(now.last()->Item_0));
        } else {
            assert(now.filter(is_item) =~= before.filter(is_item));
        }
    } else {
        assert(now =~= seq![]);
        assert(kept_items(outcomes, 0) =~= now.filter(is_item).map_values(pick));
    }
}

/// The vault holds the ciphers that became items, all of them, in their order,
/// and the two counts are those of the ciphers that came to grief in each way.
pub proof fn law_vault_keeps_all_items_in_order(outcomes: Seq<OutcomeView>)
    ensures
        kept_items(outcomes, outcomes.len()) == outcomes.filter(
            |o: OutcomeView| o is Item,
        ).map_values(|o: OutcomeView| o->Item_0),
        count_no_org_key(outcomes, outcomes.len()) == outcomes.filter(
            |o: OutcomeView| o is NoOrgKey,
        ).len(),
        count_failed(outcomes, outcomes.len()) == outcomes.filter(
            |o: OutcomeView| o is Failed,
        ).len(),
{
    lemma_kept_items(outcomes, outcomes.len());
    assert(outcomes.take(outcomes.len() as int) =~= outcomes);
}

proof fn lemma_kept_item_at(outcomes: Seq<OutcomeView>, i: int, n: nat)
    requires
        0 <= i < n <= outcomes.len(),
        outcomes[i] is Item,
    ensures
        kept_items(outcomes, i as nat).len() < kept_items(outcomes, n).len(),
        kept_items(outcomes, n)[kept_items(outcomes, i as nat).len() as int]
            == outcomes[i]->Item_0,
    decreases n,
{
    if i < n - 1 {
        lemma_kept_item_at(outcomes, i, (n - 1) as nat);
    }
}

/// What becomes of each cipher of a sync response: without a key for its owner
/// it is skipped; with one, it is skipped where its name does not decrypt under
/// that key, and else is the item that it decrypts to.
pub proof fn law_outcome_of_each_cipher(sync: SyncResponse, sym_key: KeyView, i: int)
    requires
        0 <= i < sync.ciphers@.len(),
    ensures
        vault_outcomes(sync, sym_key).len() == sync.ciphers@.len(),
        ({
            let c = sync.ciphers@[i];
            let owned = c.organization_id matches Some(id) && id@.len() > 0;
            let key = if owned {
                string_map::lookup(org_keys_of(sync.profile, sym_key), c.organization_id->0@)
            } else {
                Some(sym_key)
            };
            match key {
                None => vault_outcomes(sync, sym_key)[i] is NoOrgKey,
                Some(k) => match crypto::decrypted_text(c.name@, k) {
                    Ok(_) => decrypted_item(c, k) is Ok && vault_outcomes(sync, sym_key)[i]
                        == OutcomeView::Item(decrypted_item(c, k)->Ok_0),
                    Err(e) => vault_outcomes(sync, sym_key)[i] == OutcomeView::Failed(e),
                },
            }
        }),
{
}

/// An item of an organization whose key opens is in the vault, under its own
/// name and its organization's id.
pub proof fn law_org_item_is_in_the_vault(
    sync: SyncResponse,
    sym_key: KeyView,
    der: Seq<u8>,
    i: int,
    key: KeyView,
    c: int,
    name: Seq<char>,
)
    requires
        sync.profile.private_key@.len() > 0,
        crypto::private_key_of(sync.profile.private_key@, sym_key) == Ok::<Seq<u8>, CryptoFault>(
            der,
        ),
        0 <= i < sync.profile.organizations@.len(),
        sync.profile.organizations@[i].id@.len() > 0,
        crypto::org_key_of(sync.profile.organizations@[i].key@, der) == Ok::<KeyView, CryptoFault>(
            key,
        ),
        forall|j: int|
            i < j < sync.profile.organizations@.len()
                && #[trigger] sync.profile.organizations@[j].id@
                == sync.profile.organizations@[i].id@ ==> crypto::org_key_of(
                sync.profile.organizations@[j].key@,
                der,
            ) is Err,
        0 <= c < sync.ciphers@.len(),
        sync.ciphers@[c].organization_id matches Some(id) && id@
            == sync.profile.organizations@[i].id@,
        crypto::decrypted_text(sync.ciphers@[c].name@, key) == Ok::<Seq<char>, CryptoFault>(name),
    ensures
        exists|m: int|
            0 <= m < kept_items(vault_outcomes(sync, sym_key), sync.ciphers@.len()).len() && ({
                let item = #[trigger] kept_items(
                    vault_outcomes(sync, sym_key),
                    sync.ciphers@.len(),
                )[m];
                item.id == sync.ciphers@[c].id@ && item.name == name && item.organization_id
                    == Some(sync.profile.organizations@[i].id@)
            }),
{
    let outcomes = vault_outcomes(sync, sym_key);
    law_every_org_key_is_kept(sync.profile, sym_key, der, i, key);
    law_outcome_of_each_cipher(sync, sym_key, c);
    lemma_kept_item_at(outcomes, c, sync.ciphers@.len());
    let m = kept_items(outcomes, c as nat).len() as int;
    let item = kept_items(outcomes, sync.ciphers@.len())[m];
    assert(item.id == sync.ciphers@[c].id@);
}

/// A personal item whose name decrypts under the user's own key is in the
/// vault, under its own name and no organization's.
pub proof fn law_personal_item_is_in_the_vault(
    sync: SyncResponse,
    sym_key: KeyView,
    c: int,
    name: Seq<char>,
)
    requires
        0 <= c < sync.ciphers@.len(),
        sync.ciphers@[c].organization_id is None || sync.ciphers@[c].organization_id->0@.len() == 0,
        crypto::decrypted_text(sync.ciphers@[c].name@, sym_key) == Ok::<Seq<char>, CryptoFault>(
            name,
        ),
    ensures
        exists|m: int|
            0 <= m < kept_items(vault_outcomes(sync, sym_key), sync.ciphers@.len()).len() && ({
                let item = #[trigger] kept_items(
                    vault_outcomes(sync, sym_key),
                    sync.ciphers@.len(),
                )[m];
                item.id == sync.ciphers@[c].id@ && item.name == name && item.organization_id is None
            }),
{
    let outcomes = vault_outcomes(sync, sym_key);
    law_outcome_of_each_cipher(sync, sym_key, c);
    lemma_kept_item_at(outcomes, c, sync.ciphers@.len());
    let m = kept_items(outcomes, c as nat).len() as int;
    let item = kept_items(outcomes, sync.ciphers@.len())[m];
    assert(item.id == sync.ciphers@[c].id@);
}

proof fn lemma_kept_item_source(outcomes: Seq<OutcomeView>, n: nat, m: int)
    requires
        n <= outcomes.len(),
        0 <= m < kept_items(outcomes, n).len(),
    ensures
        exists|i: int|
            0 <= i < n && #[trigger] outcomes[i] == OutcomeView::Item(kept_items(outcomes, n)[m]),
    decreases n,
{
    let before = kept_items(outcomes, (n - 1) as nat);
    if outcomes[n - 1] is Item && m == before.len() {
        assert(outcomes[n - 1] == OutcomeView::Item(kept_items(outcomes, n)[m]));
    } else {
        lemma_kept_item_source(outcomes, (n - 1) as nat, m);
        let i = choose|i: int|
            0 <= i < n - 1 && #[trigger] outcomes[i] == OutcomeView::Item(before[m]);
        assert(outcomes[i] == OutcomeView::Item(kept_items(outcomes, n)[m]));
    }
}

/// Nothing is in the vault but what came with the sync response: every item is
/// that of a cipher, with the cipher's id and owner, and with the name that the
/// cipher's own has under the key of its owner.
pub proof fn law_every_item_comes_from_a_cipher(sync: SyncResponse, sym_key: KeyView, m: int)
    requires
        0 <= m < kept_items(vault_outcomes(sync, sym_key), sync.ciphers@.len()).len(),
    ensures
        exists|c: int|
            0 <= c < sync.ciphers@.len() && ({
                let cipher = #[trigger] sync.ciphers@[c];
                let item = kept_items(vault_outcomes(sync, sym_key), sync.ciphers@.len())[m];
                let owned = cipher.organization_id matches Some(id) && id@.len() > 0;
                let key = if owned {
                    string_map::lookup(
                        org_keys_of(sync.profile, sym_key),
                        cipher.organization_id->0@,
                    )
                } else {
                    Some(sym_key)
                };
                &&& item.id == cipher.id@
                &&& item.organization_id == (if owned {
                    Some(cipher.organization_id->0@)
                } else {
                    None
                })
                &&& key is Some
                &&& crypto::decrypted_text(cipher.name@, key->0) == Ok::<Seq<char>, CryptoFault>(
                    item.name,
                )
            }),
{
    let outcomes = vault_outcomes(sync, sym_key);
    lemma_kept_item_source(outcomes, sync.ciphers@.len(), m);
    let c = choose|c: int|
        0 <= c < sync.ciphers@.len() && #[trigger] outcomes[c] == OutcomeView::Item(
            kept_items(outcomes, sync.ciphers@.len())[m],
        );
    law_outcome_of_each_cipher(sync, sym_key, c);
    let cipher = sync.ciphers@[c];
    assert(cipher.id == sync.ciphers@[c].id);
}

proof fn lemma_ids_named_filter(orgs: Seq<SyncOrganization>, key: Seq<char>, n: nat)
    requires
        n <= orgs.len(),
    ensures
        ids_named(orgs, key, n) == orgs.take(n as int).filter(
            |o: SyncOrganization| text::lowercase(o.name@) == key,
        ).map_values(|o: SyncOrganization| o.id@),
    decreases n,
{
    reveal(Seq::filter);
    let named = |o: SyncOrganization| text::lowercase(o.name@) == key;
    let id = |o: SyncOrganization| o.id@;
    let now = orgs.take(n as int);
    if n > 0 {
        lemma_ids_named_filter(orgs, key, (n - 1) as nat);
        let before = orgs.take(n - 1);
        assert(now.drop_last() =~= before);
        if named(now.last()) {
            assert(now.filter(named) =~= before.filter(named).push(now.last()));
            assert(now.filter(named).map_values(id) =~= before.filter(named).map_values(id).push(
                now.last().id@,
            ));
        } else {
            assert(now.filter(named) =~= before.filter(named));
        }
    } else {
        assert(now =~= seq![]);
        assert(ids_named(orgs, key, 0) =~= now.filter(named).map_values(id));
    }
}

/// The index holds under a key the ids of just those organizations whose name
/// is the key in lowercase, in their order, and nothing where there is none.
pub proof fn law_index_holds_just_the_named(
    index: Seq<(Seq<char>, Seq<Seq<char>>)>,
    orgs: Seq<SyncOrganization>,
    key: Seq<char>,
)
    requires
        indexes_orgs(index, orgs, orgs.len()),
    ensures
        ({
            let ids = orgs.filter(
                |o: SyncOrganization| text::lowercase(o.name@) == key,
            ).map_values(|o: SyncOrganization| o.id@);
            string_map::lookup(index, key) == (if ids.len() == 0 {
                None
            } else {
                Some(ids)
            })
        }),
{
    lemma_ids_named_filter(orgs, key, orgs.len());
    assert(orgs.take(orgs.len() as int) =~= orgs);
    assert(string_map::lookup(index, key) == org_ids(orgs, key, orgs.len()));
}

proof fn lemma_none_named(orgs: Seq<SyncOrganization>, key: Seq<char>)
    requires
        forall|j: int| 0 <= j < orgs.len() ==> text::lowercase((#[trigger] orgs[j]).name@) != key,
    ensures
        orgs.filter(|o: SyncOrganization| text::lowercase(o.name@) == key).len() == 0,
    decreases orgs.len(),
{
    reveal(Seq::filter);
    if orgs.len() > 0 {
        lemma_none_named(orgs.drop_last(), key);
        assert(orgs.last() == orgs[orgs.len() - 1]);
    }
}

/// An organization whose name no other shares is the only one of its name.
pub proof fn lemma_one_org_of_its_name(orgs: Seq<SyncOrganization>, o: int)
    requires
        0 <= o < orgs.len(),
        forall|j: int|
            0 <= j < orgs.len() && j != o ==> text::lowercase((#[trigger] orgs[j]).name@)
                != text::lowercase(orgs[o].name@),
    ensures
        orgs.filter(
            |x: SyncOrganization| text::lowercase(x.name@) == text::lowercase(orgs[o].name@),
        ).map_values(|x: SyncOrganization| x.id@) == seq![orgs[o].id@],
    decreases orgs.len(),
{
    reveal(Seq::filter);
    let key = text::lowercase(orgs[o].name@);
    let named = |x: SyncOrganization| text::lowercase(x.name@) == key;
    let rest = orgs.drop_last();
    let last = orgs.last();
    assert(last == orgs[orgs.len() - 1]);
    if o == orgs.len() - 1 {
        lemma_none_named(rest, key);
        assert(orgs.filter(named) =~= seq![last]);
    } else {
        lemma_one_org_of_its_name(rest, o);
        assert(rest[o] == orgs[o]);
        assert(orgs.filter(named) =~= rest.filter(named));
    }
    assert(orgs.filter(named).map_values(|x: SyncOrganization| x.id@) =~= seq![orgs[o].id@]);
}

// ---------------------------------------------------------------------------
// Laws: one item
// ---------------------------------------------------------------------------

/// What an optional cipher string opens to: nothing where it is left out or
/// does not decrypt, and else the text that it decrypts to.
pub open spec fn opens_to(sealed: Option<String>, key: KeyView, plain: Seq<char>) -> bool {
    &&& sealed is None ==> plain.len() == 0
    &&& sealed matches Some(t) ==> match crypto::decrypted_text(t@, key) {
        Ok(text) => plain == text,
        Err(_) => plain.len() == 0,
    }
}

/// Each text of an item is what the text of the cipher in the same place opens
/// to: its notes whatever its login, and the texts of its login where it has
/// one. The uri is the login's own, or else the first of its list.
pub proof fn law_item_holds_each_text(c: SyncCipher, key: KeyView)
    requires
        crypto::decrypted_text(c.name@, key) is Ok,
    ensures
        decrypted_item(c, key) is Ok,
        ({
            let item = decrypted_item(c, key)->Ok_0;
            &&& item.id == c.id@
            &&& item.cipher_type == c.cipher_type
            &&& crypto::decrypted_text(c.name@, key) == Ok::<Seq<char>, CryptoFault>(item.name)
            &&& opens_to(c.notes, key, item.notes)
            &&& c.login is None ==> item.username.len() == 0 && item.password.len() == 0
                && item.uri.len() == 0
            &&& c.login matches Some(login) ==> {
                &&& opens_to(login.username, key, item.username)
                &&& opens_to(login.password, key, item.password)
                &&& if !opens_to(login.uri, key, seq![]) {
                    opens_to(login.uri, key, item.uri)
                } else if login.uris@.len() > 0 {
                    opens_to(login.uris@[0].uri, key, item.uri)
                } else {
                    item.uri.len() == 0
                }
            }
            &&& match c.organization_id {
                Some(id) => if id@.len() == 0 {
                    item.organization_id is None
                } else {
                    item.organization_id == Some(id@)
                },
                None => item.organization_id is None,
            }
        }),
{
    if c.login is Some {
        let login = c.login->0;
        let own = lenient_text(text::opt_text(login.uri), key);
        assert(opens_to(login.uri, key, own));
        if own.len() == 0 {
            assert(own =~= seq![]);
        }
    }
}

/// A cipher whose name does not decrypt is no item, and says why.
pub proof fn law_unnamed_cipher_is_no_item(c: SyncCipher, key: KeyView)
    ensures
        crypto::decrypted_text(c.name@, key) matches Err(e) ==> decrypted_item(c, key) == Err::<
            ItemView,
            CryptoFault,
        >(e),
{
}

proof fn lemma_fields_by_name(
    fields: Seq<(Seq<char>, Seq<char>)>,
    n: nat,
    name: Seq<char>,
)
    requires
        n <= fields.len(),
        name.len() > 0,
    ensures
        match string_map::lookup(fields_by_name(fields, n), name) {
            Some(v) => exists|i: int|
                0 <= i < n && #[trigger] fields[i] == (name, v) && forall|j: int|
                    i < j < n ==> (#[trigger] fields[j]).0 != name,
            None => forall|i: int| 0 <= i < n ==> (#[trigger] fields[i]).0 != name,
        },
        forall|k: int|
            0 <= k < fields_by_name(fields, n).len() ==> (#[trigger] fields_by_name(
                fields,
                n,
            )[k]).0.len() > 0,
        string_map::distinct_keys(fields_by_name(fields, n)),
    decreases n,
{
    if n > 0 {
        let m = (n - 1) as nat;
        let before = fields_by_name(fields, m);
        let f = fields[n - 1];
        lemma_fields_by_name(fields, m, name);
        if f.0.len() > 0 {
            string_map::law_lookup_of_stored(before, f.0, f.1, name);
            string_map::law_stored_keeps_keys_distinct(before, f.0, f.1);
            string_map::law_stored_keeps_places(before, f.0, f.1);
            let after = fields_by_name(fields, n);
            assert forall|k: int| 0 <= k < after.len() implies (#[trigger] after[k]).0.len()
                > 0 by {
                if k < before.len() {
                    assert(after[k].0 == before[k].0);
                }
            }
        }
        if f.0 == name {
            assert(fields[n - 1] == (name, f.1));
        } else if string_map::lookup(before, name) is Some {
            let v = string_map::lookup(before, name)->0;
            let i = choose|i: int|
                0 <= i < m && #[trigger] fields[i] == (name, v) && forall|j: int|
                    i < j < m ==> (#[trigger] fields[j]).0 != name;
            assert(fields[i] == (name, v));
            assert forall|j: int| i < j < n implies (#[trigger] fields[j]).0 != name by {}
        }
    }
}

/// What an item holds in a custom field is what the cipher's last field of that
/// decrypted name opens to; a name that no field of the cipher has is not
/// there, and no name is empty or there twice.
pub proof fn law_item_holds_each_field(c: SyncCipher, key: KeyView, name: Seq<char>)
    requires
        crypto::decrypted_text(c.name@, key) is Ok,
        name.len() > 0,
    ensures
        ({
            let item = decrypted_item(c, key)->Ok_0;
            &&& match string_map::lookup(item.fields, name) {
                Some(v) => exists|i: int|
                    0 <= i < c.fields@.len() && opens_to((#[trigger] c.fields@[i]).name, key, name)
                        && opens_to(c.fields@[i].value, key, v) && forall|j: int|
                        i < j < c.fields@.len() ==> !opens_to(
                            (#[trigger] c.fields@[j]).name,
                            key,
                            name,
                        ),
                None => forall|i: int|
                    0 <= i < c.fields@.len() ==> !opens_to(
                        (#[trigger] c.fields@[i]).name,
                        key,
                        name,
                    ),
            }
            &&& string_map::distinct_keys(item.fields)
            &&& forall|k: int|
                0 <= k < item.fields.len() ==> (#[trigger] item.fields[k]).0.len() > 0
        }),
{
    let plain = crypto::decrypted_text(c.name@, key)->Ok_0;
    let fields = texts_of(c, plain, key).fields;
    lemma_fields_by_name(fields, fields.len(), name);
    assert forall|i: int| 0 <= i < fields.len() implies opens_to(
        (#[trigger] c.fields@[i]).name,
        key,
        fields[i].0,
    ) && opens_to(c.fields@[i].value, key, fields[i].1) by {}
    assert forall|i: int| 0 <= i < fields.len() && opens_to(
        (#[trigger] c.fields@[i]).name,
        key,
        name,
    ) implies fields[i].0 == name by {
        assert(opens_to(c.fields@[i].name, key, fields[i].0));
    }
    let item = decrypted_item(c, key)->Ok_0;
    if string_map::lookup(item.fields, name) is Some {
        let v = string_map::lookup(item.fields, name)->0;
        let i = choose|i: int|
            0 <= i < fields.len() && #[trigger] fields[i] == (name, v) && forall|j: int|
                i < j < fields.len() ==> (#[trigger] fields[j]).0 != name;
        assert(opens_to(c.fields@[i].name, key, name));
    } else {
        assert forall|i: int| 0 <= i < c.fields@.len() implies !opens_to(
            (#[trigger] c.fields@[i]).name,
            key,
            name,
        ) by {
            assert(fields[i].0 != name);
        }
    }
}

proof fn lemma_fields_in_order(fields: Seq<(Seq<char>, Seq<char>)>, n: nat)
    requires
        n <= fields.len(),
        forall|k: int| 0 <= k < fields.len() ==> (#[trigger] fields[k]).0.len() > 0,
        string_map::distinct_keys(fields),
    ensures
        fields_by_name(fields, n) == fields.take(n as int),
    decreases n,
{
    if n > 0 {
        let before = fields_by_name(fields, (n - 1) as nat);
        let f = fields[n - 1];
        lemma_fields_in_order(fields, (n - 1) as nat);
        string_map::law_stored_keeps_places(before, f.0, f.1);
        assert forall|k: int| 0 <= k < before.len() implies (#[trigger] before[k]).0 != f.0 by {
            assert(before[k] == fields[k]);
        }
        assert(fields_by_name(fields, n) =~= fields.take(n as int));
    } else {
        assert(fields_by_name(fields, 0) =~= fields.take(0));
    }
}

/// The fields of an item stand in the order that they have in the cipher, where
/// each has a name of its own.
pub proof fn law_item_keeps_the_order_of_fields(
    c: SyncCipher,
    key: KeyView,
    fields: Seq<(Seq<char>, Seq<char>)>,
)
    requires
        crypto::decrypted_text(c.name@, key) is Ok,
        fields.len() == c.fields@.len(),
        forall|k: int|
            0 <= k < fields.len() ==> (#[trigger] fields[k]).0.len() > 0 && opens_to(
                c.fields@[k].name,
                key,
                fields[k].0,
            ) && opens_to(c.fields@[k].value, key, fields[k].1),
        string_map::distinct_keys(fields),
    ensures
        decrypted_item(c, key) matches Ok(item) && item.fields == fields,
{
    let plain = crypto::decrypted_text(c.name@, key)->Ok_0;
    let own = texts_of(c, plain, key).fields;
    assert forall|k: int| 0 <= k < fields.len() implies own[k] == #[trigger] fields[k] by {
        assert(own[k].0 =~= fields[k].0);
        assert(own[k].1 =~= fields[k].1);
    }
    assert(own =~= fields);
    lemma_fields_in_order(fields, fields.len());
    assert(fields.take(fields.len() as int) =~= fields);
}

/// A secure note comes out of the vault: an item without a login and without
/// fields gives its notes.
pub proof fn law_sealed_note_comes_out(c: SyncCipher, key: KeyView, plain: Seq<char>)
    requires
        crypto::decrypted_text(c.name@, key) is Ok,
        c.notes matches Some(t) && crypto::decrypted_text(t@, key) == Ok::<Seq<char>, CryptoFault>(
            plain,
        ),
        c.login is None,
        c.fields@.len() == 0,
    ensures
        decrypted_item(c, key) matches Ok(item) && item.notes == plain && secret_of(item) == plain,
{
    let item = decrypted_item(c, key)->Ok_0;
    assert(item.fields.len() == 0);
    if plain.len() == 0 {
        assert(secret_of(item) =~= plain);
    }
}

// ---------------------------------------------------------------------------
// Laws: lookup
// ---------------------------------------------------------------------------

/// What a search finds is in scope and its name contains what was searched for,
/// whatever the case. It is the first item in scope of exactly that name; where
/// there is none, it is the first in scope whose name contains it.
pub proof fn law_found_item_is_the_one(
    items: Seq<ItemView>,
    name: Seq<char>,
    org_id: Option<Seq<char>>,
)
    requires
        found_at(items, name, org_id) is Some,
    ensures
        ({
            let i = found_at(items, name, org_id)->0;
            let key = text::lowercase(name);
            let scoped = |k: int| org_id is None || items[k].organization_id == org_id;
            &&& 0 <= i < items.len()
            &&& scoped(i)
            &&& text::holds_within(text::lowercase(items[i].name), key)
            &&& text::lowercase(items[i].name) == key ==> forall|k: int|
                0 <= k < i && #[trigger] scoped(k) ==> text::lowercase(items[k].name) != key
            &&& text::lowercase(items[i].name) != key ==> {
                &&& forall|k: int|
                    0 <= k < items.len() && #[trigger] scoped(k) ==> text::lowercase(items[k].name)
                        != key
                &&& forall|k: int|
                    0 <= k < i && #[trigger] scoped(k) ==> !text::holds_within(
                        text::lowercase(items[k].name),
                        key,
                    )
            }
        }),
{
    let i = found_at(items, name, org_id)->0;
    let key = text::lowercase(name);
    let exact = exact_match(name, org_id);
    let partial = partial_match(name, org_id);
    lemma_first_where(items, exact, 0);
    lemma_first_where(items, partial, 0);
    let low = text::lowercase(items[i].name);
    let scoped = |k: int| org_id is None || items[k].organization_id == org_id;
    assert forall|k: int| 0 <= k < items.len() && #[trigger] scoped(k) && text::lowercase(
        items[k].name,
    ) == key implies exact(items[k]) by {}
    assert forall|k: int|
        0 <= k < items.len() && #[trigger] scoped(k) && text::holds_within(
            text::lowercase(items[k].name),
            key,
        ) implies partial(items[k]) by {
        text::law_infix_is_within(key, text::lowercase(items[k].name));
    }
    text::law_infix_is_within(key, low);
    if first_where(items, exact, 0) < items.len() {
        assert(exact(items[i]));
        assert(low =~= Seq::<char>::empty() + key + Seq::<char>::empty());
    } else {
        assert(partial(items[i]));
        assert(!exact(items[i]));
    }
    assert(scoped(i));
}

/// A search finds nothing only where no item in scope contains the name.
pub proof fn law_missing_item_is_nowhere(
    items: Seq<ItemView>,
    name: Seq<char>,
    org_id: Option<Seq<char>>,
)
    requires
        found_at(items, name, org_id) is None,
    ensures
        forall|k: int|
            0 <= k < items.len() && (org_id is None || (#[trigger] items[k]).organization_id
                == org_id) ==> !text::holds_within(
                text::lowercase(items[k].name),
                text::lowercase(name),
            ),
{
    let key = text::lowercase(name);
    let partial = partial_match(name, org_id);
    lemma_first_where(items, partial, 0);
    assert forall|k: int|
        0 <= k < items.len() && (org_id is None || (#[trigger] items[k]).organization_id
            == org_id) implies !text::holds_within(text::lowercase(items[k].name), key) by {
        text::law_infix_is_within(key, text::lowercase(items[k].name));
        assert(!partial(items[k]));
    }
}

/// A lookup is a search of the whole cache without a vault, and of the one
/// organization of the vault's name with one; what it cannot find it names,
/// with the vault and the number of items that were searched.
pub proof fn law_lookup_searches_its_vault(
    cache: CacheView,
    name: Seq<char>,
    vault: Seq<char>,
    id: Seq<char>,
)
    ensures
        match found_at(cache.items, name, None) {
            Some(i) => lookup_at(cache, name, None) == Ok::<int, LookupFault>(i),
            None => lookup_at(cache, name, None) == Err::<int, LookupFault>(
                LookupFault::NotFound { name, searched: cache.items.len() },
            ),
        },
        string_map::lookup(cache.orgs_by_name, text::lowercase(vault)) is None ==> lookup_at(
            cache,
            name,
            Some(vault),
        ) == Err::<int, LookupFault>(LookupFault::VaultNotFound(vault)),
        string_map::lookup(cache.orgs_by_name, text::lowercase(vault)) == Some(seq![id]) ==> match
        found_at(cache.items, name, Some(id)) {
            Some(i) => lookup_at(cache, name, Some(vault)) == Ok::<int, LookupFault>(i),
            None => lookup_at(cache, name, Some(vault)) == Err::<int, LookupFault>(
                LookupFault::NotFoundInVault { name, vault, searched: cache.items.len() },
            ),
        },
        string_map::lookup(cache.orgs_by_name, text::lowercase(vault)) matches Some(ids)
            && ids.len() > 1 ==> lookup_at(cache, name, Some(vault)) == Err::<int, LookupFault>(
            LookupFault::VaultAmbiguous(vault),
        ),
{
}

// ---------------------------------------------------------------------------
// Laws: secret values
// ---------------------------------------------------------------------------

/// The fields that hold a secret by their name, the foremost first.
pub open spec fn secret_field_names() -> Seq<Seq<char>> {
    seq!["value"@, "secret"@, "api_key"@, "apikey"@, "token"@]
}

/// The secret of an item without a password is that of the foremost of the
/// fields named for secrets that is not empty; where all are, its notes; where
/// these are empty too, the first of its field values that is not; and nothing
/// only where all of these are empty.
pub proof fn law_secret_by_priority(item: ItemView)
    requires
        item.password.len() == 0,
    ensures
        ({
            let names = secret_field_names();
            let filled = |j: int|
                string_map::lookup(item.fields, names[j]) matches Some(v) && v.len() > 0;
            &&& forall|j: int|
                0 <= j < names.len() && #[trigger] filled(j) && (forall|k: int|
                    0 <= k < j ==> !#[trigger] filled(k)) ==> Some(secret_of(item))
                    == string_map::lookup(item.fields, names[j])
            &&& (forall|j: int| 0 <= j < names.len() ==> !#[trigger] filled(j)) ==> {
                &&& item.notes.len() > 0 ==> secret_of(item) == item.notes
                &&& item.notes.len() == 0 ==> {
                    &&& forall|i: int|
                        0 <= i < item.fields.len() && (#[trigger] item.fields[i]).1.len() > 0 && (
                        forall|k: int|
                            0 <= k < i ==> (#[trigger] item.fields[k]).1.len() == 0) ==> secret_of(
                            item,
                        ) == item.fields[i].1
                    &&& (forall|i: int|
                        0 <= i < item.fields.len() ==> (#[trigger] item.fields[i]).1.len() == 0)
                        ==> secret_of(item).len() == 0
                }
            }
        }),
{
    let names = secret_field_names();
    let filled = |j: int|
        string_map::lookup(item.fields, names[j]) matches Some(v) && v.len() > 0;
    assert(names.len() == 5);
    assert(names[0] == "value"@ && names[1] == "secret"@ && names[2] == "api_key"@ && names[3]
        == "apikey"@ && names[4] == "token"@);
    assert(filled(0) == (string_map::lookup(item.fields, "value"@) matches Some(v) && v.len() > 0));
    assert(filled(1) == (string_map::lookup(item.fields, "secret"@) matches Some(v) && v.len()
        > 0));
    assert(filled(2) == (string_map::lookup(item.fields, "api_key"@) matches Some(v) && v.len()
        > 0));
    assert(filled(3) == (string_map::lookup(item.fields, "apikey"@) matches Some(v) && v.len()
        > 0));
    assert(filled(4) == (string_map::lookup(item.fields, "token"@) matches Some(v) && v.len() > 0));
    assert forall|j: int|
        0 <= j < names.len() && #[trigger] filled(j) && (forall|k: int|
            0 <= k < j ==> !#[trigger] filled(k)) implies Some(secret_of(item))
        == string_map::lookup(item.fields, names[j]) by {
        assert(j == 0 || j == 1 || j == 2 || j == 3 || j == 4);
    }
    assert forall|i: int|
        0 <= i < item.fields.len() && (#[trigger] item.fields[i]).1.len() > 0 && (forall|k: int|
            0 <= k < i ==> (#[trigger] item.fields[k]).1.len() == 0) implies first_value(
        item.fields,
        0,
    ) == item.fields[i].1 by {
        lemma_first_value_is(item.fields, 0, i);
    }
    lemma_first_value(item.fields, 0);
}

proof fn lemma_first_value_is(fields: Seq<(Seq<char>, Seq<char>)>, i: int, j: int)
    requires
        0 <= i <= j < fields.len(),
        fields[j].1.len() > 0,
        forall|k: int| i <= k < j ==> (#[trigger] fields[k]).1.len() == 0,
    ensures
        first_value(fields, i) == fields[j].1,
    decreases j - i,
{
    if i < j {
        lemma_first_value_is(fields, i + 1, j);
    }
}

/// The secret of an item rests on its password, its notes and its fields alone:
/// its username, uri, name, id, type and owner never enter it.
pub proof fn law_secret_ignores_the_rest(item: ItemView, other: ItemView)
    requires
        item.password == other.password,
        item.notes == other.notes,
        item.fields == other.fields,
    ensures
        secret_of(item) == secret_of(other),
{
}

/// A secret is always one of the item's own values, or nothing at all.
pub proof fn law_secret_is_a_value_of_the_item(item: ItemView)
    requires
        secret_of(item).len() > 0,
    ensures
        secret_of(item) == item.password || secret_of(item) == item.notes || exists|i: int|
            0 <= i < item.fields.len() && (#[trigger] item.fields[i]).1 == secret_of(item),
{
    string_map::law_lookup_finds_the_first(item.fields, "value"@);
    string_map::law_lookup_finds_the_first(item.fields, "secret"@);
    string_map::law_lookup_finds_the_first(item.fields, "api_key"@);
    string_map::law_lookup_finds_the_first(item.fields, "apikey"@);
    string_map::law_lookup_finds_the_first(item.fields, "token"@);
    lemma_first_value_held(item.fields, 0);
}

proof fn lemma_first_value_held(fields: Seq<(Seq<char>, Seq<char>)>, i: int)
    requires
        0 <= i,
    ensures
        first_value(fields, i).len() > 0 ==> exists|k: int|
            0 <= k < fields.len() && (#[trigger] fields[k]).1 == first_value(fields, i),
    decreases fields.len() - i,
{
    if i < fields.len() {
        if fields[i].1.len() > 0 {
            assert(fields[i].1 == first_value(fields, i));
        } else {
            lemma_first_value_held(fields, i + 1);
        }
    }
}

// ---------------------------------------------------------------------------
// Laws: replies and messages
// ---------------------------------------------------------------------------

/// Only a status of 401 asks for a new token; the statuses of success are those
/// from 200 up to 299, and every other is a failure.
pub proof fn law_statuses_are_told_apart(status: u16)
    ensures
        sync_status_of(status) == SyncStatus::Unauthorized <==> status == 401,
        sync_status_of(status) == SyncStatus::Success <==> status / 100 == 2,
        sync_status_of(status) == SyncStatus::Failure <==> status != 401 && status / 100 != 2,
{
}

/// A lookup error names the vault, the item and the number of items searched,
/// as far as it has them.
pub proof fn law_lookup_messages_name_what_is_missing(
    name: Seq<char>,
    vault: Seq<char>,
    searched: nat,
)
    ensures
        text::holds_within(LookupFault::VaultNotFound(vault).message(), text::quoted(vault)),
        text::holds_within(LookupFault::VaultAmbiguous(vault).message(), text::quoted(vault)),
        text::holds_within(
            (LookupFault::NotFound { name, searched }).message(),
            text::quoted(name),
        ),
        text::holds_within(
            (LookupFault::NotFound { name, searched }).message(),
            text::decimal(searched),
        ),
        text::holds_within(
            (LookupFault::NotFoundInVault { name, vault, searched }).message(),
            text::quoted(name),
        ),
        text::holds_within(
            (LookupFault::NotFoundInVault { name, vault, searched }).message(),
            text::quoted(vault),
        ),
        text::holds_within(
            (LookupFault::NotFoundInVault { name, vault, searched }).message(),
            text::decimal(searched),
        ),
{
    let n = text::quoted(name);
    let v = text::quoted(vault);
    let d = text::decimal(searched);
    let m = (LookupFault::NotFound { name, searched }).message();
    assert(m =~= "secret "@ + n + (" not found in vault cache ("@ + d + " items searched)"@));
    assert(m =~= ("secret "@ + n + " not found in vault cache ("@) + d + " items searched)"@);
    let w = (LookupFault::NotFoundInVault { name, vault, searched }).message();
    assert(w =~= "secret "@ + n + (" not found in vault "@ + v + " ("@ + d
        + " items searched)"@));
    assert(w =~= ("secret "@ + n + " not found in vault "@) + v + (" ("@ + d
        + " items searched)"@));
    assert(w =~= ("secret "@ + n + " not found in vault "@ + v + " ("@) + d
        + " items searched)"@);
}

/// A sync error tells what it was made from.
pub proof fn law_sync_messages_tell_their_detail(m: Seq<char>, status: u16, e: CryptoFault)
    ensures
        crypto::ends_in(SyncFault::Http(m).message(), m),
        crypto::ends_in((SyncFault::Server { status, body: m }).message(), m),
        text::holds_within(
            (SyncFault::Server { status, body: m }).message(),
            text::decimal(status as nat),
        ),
        crypto::ends_in(SyncFault::Crypto(e).message(), e.message()),
        text::holds_within(SyncFault::NotFound(m).message(), text::quoted(m)),
        SyncFault::Http(m).sources() == seq![m],
        SyncFault::Crypto(e).sources() == seq![e.message()] + e.sources(),
{
    crypto::lemma_ends_in("HTTP error: "@, m);
    crypto::lemma_ends_in("crypto error: "@, e.message());
    let number = text::decimal(status as nat);
    crypto::lemma_ends_in("server returned "@ + number + ": "@, m);
    let whole = (SyncFault::Server { status, body: m }).message();
    assert(whole =~= "server returned "@ + number + (": "@ + m));
}

/// What a reader is told of each fault, word for word.
pub proof fn law_sync_messages_read(
    m: Seq<char>,
    status: u16,
    e: CryptoFault,
    vault: Seq<char>,
    searched: nat,
)
    ensures
        SyncFault::Http(m).message() == "HTTP error: "@ + m,
        (SyncFault::Server { status, body: m }).message() == "server returned "@ + text::decimal(
            status as nat,
        ) + ": "@ + m,
        SyncFault::Crypto(e).message() == "crypto error: "@ + e.message(),
        SyncFault::NotFound(m).message() == "secret "@ + text::quoted(m) + " not found in vault"@,
        SyncFault::Unauthorized.message()
            == "unauthorized (401); caller should refresh and retry"@,
        (SyncFault::Server { status, body: m }).sources().len() == 0,
        SyncFault::NotFound(m).sources().len() == 0,
        SyncFault::Unauthorized.sources().len() == 0,
        LookupFault::VaultNotFound(vault).message() == "vault (organization) "@ + text::quoted(
            vault,
        ) + " not found"@,
        LookupFault::VaultAmbiguous(vault).message() == "vault name "@ + text::quoted(vault)
            + " matches multiple organizations; use a unique name"@,
        (LookupFault::NotFoundInVault { name: m, vault, searched }).message() == "secret "@
            + text::quoted(m) + " not found in vault "@ + text::quoted(vault) + " ("@
            + text::decimal(searched) + " items searched)"@,
        (LookupFault::NotFound { name: m, searched }).message() == "secret "@ + text::quoted(m)
            + " not found in vault cache ("@ + text::decimal(searched) + " items searched)"@,
{
}

/// Items and a cache of them are seen as they are, field by field.
pub proof fn law_items_are_their_fields(items: Seq<DecryptedItem>, cache: VaultCache, i: int)
    ensures
        item_views(items).len() == items.len(),
        0 <= i < items.len() ==> {
            let seen = item_views(items)[i];
            let item = items[i];
            &&& seen.id == item.id@
            &&& seen.cipher_type == item.cipher_type
            &&& seen.organization_id == text::opt_text(item.organization_id)
            &&& seen.name == item.name@
            &&& seen.username == item.username@
            &&& seen.password == item.password@
            &&& seen.notes == item.notes@
            &&& seen.uri == item.uri@
            &&& seen.fields == item.fields.entries()
        },
        cache@.items == item_views(cache.items@),
        cache@.orgs_by_name == cache.orgs_by_name.entries(),
{
}

} // verus!
