use vaultwarden_operator::duration::Duration;
use vaultwarden_operator::string_map::StringMap;
use vaultwarden_operator::vault::auth::{AuthError, Credentials, TokenResponse};
use vaultwarden_operator::vault::crypto::{CryptoError, SymmetricKey};
use vaultwarden_operator::vault::sync::{
    index_orgs, DecryptedItem, LookupError, SyncError, SyncOrganization, SyncProfile, SyncResponse,
    VaultCache,
};
use vaultwarden_operator::vault::{
    error_chain, init_backoff, FetchStage, FetchStep, Moment, RefreshStep, RenewStage,
    SecretRequest, Session, VaultConfig, VaultError, MAX_INIT_ATTEMPTS, NANOS_PER_SEC,
};

fn at(secs: u128) -> Moment {
    Moment {
        nanos: secs * NANOS_PER_SEC,
    }
}

fn key(byte: u8) -> SymmetricKey {
    SymmetricKey {
        enc_key: vec![byte; 32],
        mac_key: vec![byte; 32],
    }
}

fn session(refresh_token: &str) -> Session {
    Session::new(
        Credentials {
            access_token: "access".to_string(),
            refresh_token: refresh_token.to_string(),
            expires_in: 3600,
            sym_key: key(1),
        },
        at(100),
    )
}

fn item(name: &str, org: Option<&str>, password: &str) -> DecryptedItem {
    DecryptedItem {
        id: name.to_string(),
        cipher_type: 1,
        organization_id: org.map(str::to_string),
        name: name.to_string(),
        username: String::new(),
        password: password.to_string(),
        notes: String::new(),
        uri: String::new(),
        fields: StringMap::new(),
    }
}

fn org(id: &str, name: &str) -> SyncOrganization {
    SyncOrganization {
        id: id.to_string(),
        name: name.to_string(),
        key: String::new(),
    }
}

fn synced() -> Session {
    let mut s = session("refresh");
    s.vault = Some(VaultCache {
        items: vec![
            item("one", None, "p1"),
            item("two", Some("o"), "p2"),
            item("one", Some("o"), "p3"),
        ],
        orgs_by_name: index_orgs(&[org("o", "Org"), org("d1", "Dup"), org("d2", "dup")]),
    });
    s
}

fn request(name: &str, vault: Option<&str>) -> SecretRequest {
    SecretRequest {
        name: name.to_string(),
        vault: vault.map(str::to_string),
    }
}

// ---------------------------------------------------------------------------
// Fetching secrets
// ---------------------------------------------------------------------------

#[test]
fn values_are_aligned_with_their_requests() {
    let s = synced();
    let requests = [
        request("two", None),
        request("ONE", None),
        request("one", Some("oRG")),
        request("two", None),
    ];
    assert_eq!(
        s.try_fetch_secrets(&requests).unwrap(),
        vec!["p2", "p1", "p3", "p2"]
    );
    assert!(matches!(s.fetch_secrets(&requests), FetchStep::Done(Ok(v)) if v.len() == 4));
    assert_eq!(requests[2].clone().vault.as_deref(), Some("oRG"));
}

#[test]
fn one_miss_fails_the_whole_fetch() {
    let s = synced();
    let requests = [request("one", None), request("absent", None), request("gone", None)];
    match s.try_fetch_secrets(&requests) {
        Err(VaultError::Lookup(LookupError::NotFound { name, searched })) => {
            assert_eq!(name, "absent");
            assert_eq!(searched, 3);
        }
        other => panic!("{other:?}"),
    }
}

#[test]
fn a_stale_miss_asks_for_one_refresh() {
    let s = synced();
    let requests = [request("absent", Some("org"))];
    let miss = match s.fetch_secrets(&requests) {
        FetchStep::Refresh(miss) => miss,
        other => panic!("{other:?}"),
    };
    let mut refreshed = synced();
    refreshed.vault = Some(VaultCache {
        items: vec![item("absent", Some("o"), "here now")],
        orgs_by_name: index_orgs(&[org("o", "Org")]),
    });
    assert_eq!(
        refreshed.retry_fetch(&requests, miss, true).unwrap(),
        vec!["here now"]
    );
    let miss = LookupError::VaultNotFound("v".to_string());
    assert_eq!(
        refreshed
            .retry_fetch(&requests, miss, false)
            .unwrap_err()
            .message(),
        "vault (organization) \"v\" not found"
    );
}

#[test]
fn an_ambiguous_vault_fails_at_once() {
    let s = synced();
    assert!(matches!(
        s.fetch_secrets(&[request("one", Some("DUP"))]),
        FetchStep::Done(Err(VaultError::Lookup(LookupError::VaultAmbiguous(_))))
    ));
}

#[test]
fn without_a_vault_nothing_is_fetched() {
    let s = session("refresh");
    assert!(matches!(
        s.fetch_secrets(&[]),
        FetchStep::Done(Err(VaultError::NotInitialized))
    ));
    assert_eq!(
        VaultError::NotInitialized.message(),
        "vault not yet initialized"
    );
}

#[test]
fn misses_refresh_only_after_the_cooldown() {
    let s = synced();
    let cooldown = Duration::from_secs(30);
    assert!(!s.refresh_due(at(100), cooldown));
    assert!(!s.refresh_due(at(129), cooldown));
    assert!(s.refresh_due(at(130), cooldown));
    assert!(!s.refresh_due(at(50), cooldown));
    assert!(s.refresh_due(at(50), Duration::from_secs(0)));
    let short = Duration::from_nanos(1_500_000_000);
    assert!(!s.refresh_due(at(101), short));
    assert!(s.refresh_due(at(102), short));
}

// ---------------------------------------------------------------------------
// Refreshing
// ---------------------------------------------------------------------------

fn response() -> SyncResponse {
    SyncResponse {
        profile: SyncProfile {
            id: "u".to_string(),
            email: "u@example.com".to_string(),
            key: String::new(),
            private_key: String::new(),
            organizations: vec![org("o", "Org")],
        },
        ciphers: vec![],
    }
}

fn token(access: &str, refresh: &str) -> TokenResponse {
    TokenResponse {
        access_token: access.to_string(),
        expires_in: 7200,
        refresh_token: refresh.to_string(),
        key: String::new(),
    }
}

#[test]
fn a_valid_token_is_used_as_it_is() {
    let s = session("refresh");
    assert!(!s.needs_token(at(3639)));
    assert!(s.needs_token(at(3640)));
    assert!(matches!(
        s.ensure_valid_token(at(200)),
        RefreshStep::TokenReady
    ));
    match s.refresh_vault_cache(at(200)) {
        RefreshStep::FetchSync {
            access_token,
            sym_key,
            stage,
        } => {
            assert_eq!(access_token, "access");
            assert_eq!(sym_key.enc_key, vec![1; 32]);
            assert_eq!(stage, FetchStage::First);
        }
        other => panic!("{other:?}"),
    }
}

#[test]
fn an_expiring_token_is_renewed_first() {
    let mut s = session("refresh");
    let form = match s.ensure_valid_token(at(3640)) {
        RefreshStep::RequestToken { form, .. } => form,
        other => panic!("{other:?}"),
    };
    assert_eq!(form[1], ("refresh_token".to_string(), "refresh".to_string()));
    let step = s.after_token(RenewStage::BeforeFetch, Ok(token("new", "")), at(3640));
    assert!(matches!(
        step,
        RefreshStep::FetchSync { access_token, stage: FetchStage::First, .. } if access_token == "new"
    ));
    assert_eq!(s.refresh_token, "refresh");
    assert_eq!(s.token_expires_at, at(3640 + 7200));
    s.after_token(RenewStage::TokenOnly, Ok(token("newer", "rotated")), at(3650));
    assert_eq!(s.refresh_token, "rotated");
    assert_eq!(s.access_token, "newer");
}

#[test]
fn a_renewed_token_needs_no_renewal() {
    let mut s = session("refresh");
    s.after_token(RenewStage::TokenOnly, Ok(token("new", "")), at(4000));
    assert!(!s.needs_token(at(4000)));
    assert!(matches!(
        s.ensure_valid_token(at(4000)),
        RefreshStep::TokenReady
    ));
}

#[test]
fn without_a_refresh_token_the_client_logs_in_anew() {
    let mut s = session("");
    assert!(matches!(
        s.refresh_vault_cache(at(4000)),
        RefreshStep::Authenticate {
            stage: RenewStage::BeforeFetch
        }
    ));
    let step = s.after_authenticate(
        RenewStage::TokenOnly,
        Ok(Credentials {
            access_token: "a2".to_string(),
            refresh_token: "r2".to_string(),
            expires_in: 60,
            sym_key: key(2),
        }),
        at(4000),
    );
    assert!(matches!(step, RefreshStep::TokenReady));
    assert_eq!(s.access_token, "a2");
    assert_eq!(s.refresh_token, "r2");
    assert_eq!(s.sym_key.enc_key, vec![2; 32]);
    assert_eq!(s.token_expires_at, at(4060));
}

#[test]
fn a_refused_refresh_token_leads_to_a_login() {
    let mut s = session("refresh");
    let refused = AuthError::Server {
        status: 400,
        body: "invalid_grant".to_string(),
    };
    let step = s.after_token(RenewStage::TokenOnly, Err(refused), at(4000));
    assert!(matches!(
        step,
        RefreshStep::Authenticate {
            stage: RenewStage::TokenOnly
        }
    ));
    assert_eq!(s.access_token, "access");
    let step = s.after_authenticate(
        RenewStage::TokenOnly,
        Err(AuthError::EmptyProfileKey),
        at(4000),
    );
    match step {
        RefreshStep::Failed(e) => assert_eq!(e.message(), "auth error: profile key is empty"),
        other => panic!("{other:?}"),
    }
    assert_eq!(s.token_expires_at, at(3700));
}

#[test]
fn a_refused_fetch_is_retried_once() {
    let mut s = session("refresh");
    let step = s.after_fetch(
        FetchStage::First,
        key(1),
        Err(SyncError::Unauthorized),
        at(200),
    );
    let stage = match step {
        RefreshStep::RequestToken { stage, .. } => stage,
        other => panic!("{other:?}"),
    };
    s.sym_key = key(9);
    let (sym_key, stage) = match s.after_token(stage, Ok(token("new", "")), at(201)) {
        RefreshStep::FetchSync {
            access_token,
            sym_key,
            stage,
        } => {
            assert_eq!(access_token, "new");
            (sym_key, stage)
        }
        other => panic!("{other:?}"),
    };
    assert_eq!(sym_key.enc_key, vec![1; 32]);
    assert_eq!(stage, FetchStage::Second);
    match s.after_fetch(stage, sym_key, Err(SyncError::Unauthorized), at(202)) {
        RefreshStep::Failed(e) => assert_eq!(
            e.message(),
            "sync error: unauthorized (401); caller should refresh and retry"
        ),
        other => panic!("{other:?}"),
    }
    assert!(s.vault.is_none());
    assert_eq!(s.last_refresh_at, at(100));
}

#[test]
fn other_failures_are_not_retried() {
    let mut s = session("refresh");
    let failed = SyncError::Server {
        status: 500,
        body: "oops".to_string(),
    };
    assert!(matches!(
        s.after_fetch(FetchStage::First, key(1), Err(failed), at(200)),
        RefreshStep::Failed(VaultError::Sync(SyncError::Server { status: 500, .. }))
    ));
}

#[test]
fn a_fetched_vault_is_cached() {
    let mut s = session("refresh");
    match s.after_fetch(FetchStage::First, key(1), Ok(response()), at(300)) {
        RefreshStep::Refreshed(skips) => assert_eq!(skips.total(), 0),
        other => panic!("{other:?}"),
    }
    assert_eq!(s.last_refresh_at, at(300));
    assert!(s.vault.as_ref().unwrap().orgs_by_name.contains_key("org"));
    assert!(matches!(s.fetch_secrets(&[]), FetchStep::Done(Ok(_))));
    assert!(!s.refresh_due(at(329), Duration::from_secs(30)));
}

#[test]
fn the_background_renewal_sleeps_until_the_margin() {
    let s = session("refresh");
    assert_eq!(s.token_refresh_delay(at(100)), 3540 * NANOS_PER_SEC);
    assert_eq!(s.token_refresh_delay(at(3640)), 0);
    assert_eq!(s.token_refresh_delay(at(9999)), 0);
    let mut short = session("refresh");
    short.token_expires_at = at(10);
    assert_eq!(short.token_refresh_delay(at(0)), 0);
}

// ---------------------------------------------------------------------------
// Client
// ---------------------------------------------------------------------------

#[test]
fn the_address_loses_its_slashes() {
    let config = VaultConfig::new(
        "https://vault.example.com//",
        "e",
        "p",
        None,
        Some("s".to_string()),
        Duration::from_secs(30),
    );
    assert_eq!(config.base_url, "https://vault.example.com");
    assert_eq!(config.client_secret.as_deref(), Some("s"));
    let other = VaultConfig::new("x", "e", "p", None, None, Duration::from_secs(30));
    assert_ne!(config.device_id, other.device_id);
    let parsed = uuid::Uuid::parse_str(&config.device_id).unwrap();
    assert_eq!(parsed.get_version_num(), 4);
    assert_eq!(parsed.to_string(), config.device_id);
}

#[test]
fn initialization_backs_off_and_gives_up() {
    assert_eq!(init_backoff(1), Some(Duration::from_secs(20)));
    assert_eq!(init_backoff(2), Some(Duration::from_secs(45)));
    assert_eq!(init_backoff(3), None);
    assert_eq!(init_backoff(u64::MAX), None);
    assert_eq!(MAX_INIT_ATTEMPTS, 3);
}

#[test]
fn an_error_is_shown_with_its_sources() {
    assert_eq!(error_chain("outer", &[]), "outer");
    assert_eq!(
        error_chain("outer", &["inner".to_string(), "root".to_string()]),
        "outer -> inner -> root"
    );
}

#[test]
fn an_error_knows_the_errors_beneath_it() {
    let http = VaultError::Auth(AuthError::Http("refused".to_string()));
    assert_eq!(http.sources(), vec!["HTTP error: refused", "refused"]);
    let mut sources = http.sources();
    sources.push("dns error".to_string());
    assert_eq!(
        error_chain(&http.message(), &sources),
        "auth error: HTTP error: refused -> HTTP error: refused -> refused -> dns error"
    );
    let key = VaultError::Sync(SyncError::Crypto(CryptoError::Rsa("bad".to_string())));
    assert_eq!(
        key.sources(),
        vec![
            "crypto error: RSA decrypt error: bad",
            "RSA decrypt error: bad",
            "bad"
        ]
    );
    let miss = VaultError::Lookup(LookupError::VaultNotFound("v".to_string()));
    assert_eq!(miss.sources(), vec![miss.message()]);
    assert!(VaultError::NotInitialized.sources().is_empty());
    assert_eq!(
        VaultError::Auth(AuthError::NoRefreshToken).sources(),
        vec!["no refresh token available"]
    );
}
