use aes::Aes256;
use base64::{engine::general_purpose::STANDARD as BASE64, Engine};
use cbc::cipher::{BlockEncryptMut, KeyIvInit};
use hmac::{Hmac, Mac};
use rsa::pkcs8::EncodePrivateKey;
use rsa::RsaPrivateKey;
use sha1::Sha1;
use sha2::Sha256;
use vaultwarden_operator::string_map::StringMap;
use vaultwarden_operator::vault::crypto::{CryptoError, SymmetricKey};
use vaultwarden_operator::vault::sync::{
    assemble_item, collect_items, decrypt_cipher, decrypt_org_keys, decrypt_vault, extract_secret,
    find_item, index_orgs, key_for_cipher, lookup_item, sync_result, sync_status, sync_url,
    CipherOutcome, CipherTexts, DecryptSkips, DecryptedItem, LookupError, SyncCipher, SyncError,
    SyncField, SyncLogin, SyncOrganization, SyncProfile, SyncResponse, SyncStatus, SyncUri,
    VaultCache, CIPHER_TYPE_CARD, CIPHER_TYPE_IDENTITY, CIPHER_TYPE_LOGIN,
    CIPHER_TYPE_SECURE_NOTE,
};

type Aes256CbcEnc = cbc::Encryptor<Aes256>;
type HmacSha256 = Hmac<Sha256>;

fn encrypt_type2(
    enc_key: &[u8; 32],
    mac_key: &[u8; 32],
    iv: &[u8; 16],
    plaintext: &[u8],
) -> String {
    let pad_len = 16 - (plaintext.len() % 16);
    let mut padded = plaintext.to_vec();
    padded.extend(std::iter::repeat_n(pad_len as u8, pad_len));

    let mut ct = padded.clone();
    Aes256CbcEnc::new(enc_key.into(), iv.into())
        .encrypt_padded_mut::<cbc::cipher::block_padding::NoPadding>(&mut ct, padded.len())
        .unwrap();

    let mut mac = HmacSha256::new_from_slice(mac_key).unwrap();
    mac.update(iv);
    mac.update(&ct);
    let mac_bytes = mac.finalize().into_bytes();

    format!(
        "2.{}|{}|{}",
        BASE64.encode(iv),
        BASE64.encode(&ct),
        BASE64.encode(mac_bytes)
    )
}

fn make_key() -> (SymmetricKey, [u8; 32], [u8; 32]) {
    let enc_key: [u8; 32] = std::array::from_fn(|i| i as u8);
    let mac_key: [u8; 32] = std::array::from_fn(|i| (i + 32) as u8);
    let sym = SymmetricKey {
        enc_key: enc_key.to_vec(),
        mac_key: mac_key.to_vec(),
    };
    (sym, enc_key, mac_key)
}

fn make_org_key() -> (SymmetricKey, [u8; 32], [u8; 32]) {
    let enc_key: [u8; 32] = std::array::from_fn(|i| (i + 100) as u8);
    let mac_key: [u8; 32] = std::array::from_fn(|i| (i + 132) as u8);
    let sym = SymmetricKey {
        enc_key: enc_key.to_vec(),
        mac_key: mac_key.to_vec(),
    };
    (sym, enc_key, mac_key)
}

#[test]
fn test_decrypt_cipher_with_org_key() {
    let (personal_key, _, _) = make_key();
    let (org_key, org_enc, org_mac) = make_org_key();
    let iv = [50u8; 16];
    let org_id = "org-123".to_string();

    let enc_name = encrypt_type2(&org_enc, &org_mac, &iv, b"ORG_SECRET");

    let cipher = SyncCipher {
        id: "cipher-1".to_string(),
        cipher_type: CIPHER_TYPE_LOGIN,
        organization_id: Some(org_id),
        name: enc_name,
        notes: None,
        login: None,
        card: None,
        fields: vec![],
    };

    // Should fail with personal key.
    assert!(decrypt_cipher(&cipher, &personal_key).is_err());

    // Should succeed with org key.
    let item = decrypt_cipher(&cipher, &org_key).unwrap();
    assert_eq!(item.name, "ORG_SECRET");
    assert_eq!(item.organization_id.as_deref(), Some("org-123"));
}

#[test]
fn test_decrypt_cipher_empty_org_id_normalized() {
    let (key, enc_key, mac_key) = make_key();
    let iv = [0u8; 16];

    let cipher = SyncCipher {
        id: "empty-org-1".to_string(),
        cipher_type: CIPHER_TYPE_SECURE_NOTE,
        organization_id: Some(String::new()),
        name: encrypt_type2(&enc_key, &mac_key, &iv, b"X"),
        notes: None,
        login: None,
        card: None,
        fields: vec![],
    };

    let item = decrypt_cipher(&cipher, &key).unwrap();
    assert_eq!(item.organization_id, None);
}

#[test]
fn test_decrypt_cipher_personal_item() {
    let (key, enc_key, mac_key) = make_key();
    let iv = [0u8; 16];

    let enc_name = encrypt_type2(&enc_key, &mac_key, &iv, b"PERSONAL_SECRET");

    let cipher = SyncCipher {
        id: "personal-1".to_string(),
        cipher_type: CIPHER_TYPE_SECURE_NOTE,
        organization_id: None,
        name: enc_name,
        notes: None,
        login: None,
        card: None,
        fields: vec![],
    };

    let item = decrypt_cipher(&cipher, &key).unwrap();
    assert_eq!(item.name, "PERSONAL_SECRET");
    assert_eq!(item.organization_id, None);
}

fn make_item(name: &str, org_id: Option<&str>) -> DecryptedItem {
    DecryptedItem {
        id: format!("id-{name}-{}", org_id.unwrap_or("personal")),
        cipher_type: 1,
        organization_id: org_id.map(str::to_string),
        name: name.into(),
        username: String::new(),
        password: format!("pw-{name}-{}", org_id.unwrap_or("personal")),
        notes: String::new(),
        uri: String::new(),
        fields: StringMap::new(),
    }
}

#[test]
fn test_find_item_exact() {
    let items = vec![make_item("MySecret", None), make_item("OtherSecret", None)];

    let found = find_item(&items, "mysecret", None).unwrap();
    assert_eq!(found.name, "MySecret");
}

#[test]
fn test_find_item_partial() {
    let items = vec![make_item("Production API Key", None)];

    let found = find_item(&items, "api key", None).unwrap();
    assert_eq!(found.name, "Production API Key");
}

#[test]
fn test_find_item_not_found() {
    let items: Vec<DecryptedItem> = vec![];
    assert!(find_item(&items, "missing", None).is_none());
}

#[test]
fn test_find_item_org_filter_selects_right_copy() {
    let items = vec![
        make_item("shared-name", Some("org-a")),
        make_item("shared-name", Some("org-b")),
        make_item("shared-name", None),
    ];

    let found = find_item(&items, "shared-name", Some("org-b")).unwrap();
    assert_eq!(found.password, "pw-shared-name-org-b");
}

#[test]
fn test_find_item_org_filter_excludes_personal() {
    let items = vec![make_item("only-personal", None)];
    assert!(find_item(&items, "only-personal", Some("org-a")).is_none());
}

#[test]
fn test_find_item_no_filter_matches_org_items() {
    let items = vec![make_item("org-item", Some("org-a"))];
    assert!(find_item(&items, "org-item", None).is_some());
}

#[test]
fn test_find_item_exact_beats_partial_within_scope() {
    let items = vec![
        make_item("api key extended", Some("org-a")),
        make_item("api key", Some("org-a")),
    ];

    let found = find_item(&items, "api key", Some("org-a")).unwrap();
    assert_eq!(found.name, "api key");
}

fn org(id: &str, name: &str) -> SyncOrganization {
    SyncOrganization {
        id: id.into(),
        name: name.into(),
        key: String::new(),
    }
}

#[test]
fn test_index_orgs_case_insensitive() {
    let index = index_orgs(&[org("org-1", "Kubernetes - Apollo")]);
    assert_eq!(
        index.get("kubernetes - apollo"),
        Some(&vec!["org-1".to_string()])
    );
}

#[test]
fn test_index_orgs_duplicate_names() {
    let index = index_orgs(&[org("org-1", "Shared"), org("org-2", "shared")]);
    assert_eq!(index.get("shared").map(Vec::len), Some(2));
}

fn make_cache() -> VaultCache {
    VaultCache {
        items: vec![
            make_item("shared-name", Some("org-a")),
            make_item("shared-name", None),
            make_item("only-in-b", Some("org-b")),
        ],
        orgs_by_name: index_orgs(&[
            org("org-a", "Kubernetes - Apollo"),
            org("org-b", "Kubernetes - Common"),
            org("dup-1", "Duplicated"),
            org("dup-2", "Duplicated"),
        ]),
    }
}

#[test]
fn test_lookup_item_scoped_success() {
    let cache = make_cache();
    let item = lookup_item(&cache, "shared-name", Some("kubernetes - apollo")).unwrap();
    assert_eq!(item.password, "pw-shared-name-org-a");
}

#[test]
fn test_lookup_item_unscoped_success() {
    let cache = make_cache();
    assert!(lookup_item(&cache, "only-in-b", None).is_ok());
}

#[test]
fn test_lookup_item_vault_not_found() {
    let cache = make_cache();
    let err = lookup_item(&cache, "shared-name", Some("no-such-org")).unwrap_err();
    assert!(
        matches!(err, LookupError::VaultNotFound(_)),
        "{}",
        err.message()
    );
}

#[test]
fn test_lookup_item_vault_ambiguous() {
    let cache = make_cache();
    let err = lookup_item(&cache, "shared-name", Some("Duplicated")).unwrap_err();
    assert!(
        matches!(err, LookupError::VaultAmbiguous(_)),
        "{}",
        err.message()
    );
}

#[test]
fn test_lookup_item_no_fallback_across_vaults() {
    // "only-in-b" exists in org-b; a lookup scoped to org-a must fail
    // rather than fall back to another vault that has the name.
    let cache = make_cache();
    let err = lookup_item(&cache, "only-in-b", Some("Kubernetes - Apollo")).unwrap_err();
    assert!(
        matches!(err, LookupError::NotFoundInVault { .. }),
        "{}",
        err.message()
    );
}

#[test]
fn test_lookup_item_unscoped_not_found() {
    let cache = make_cache();
    let err = lookup_item(&cache, "missing", None).unwrap_err();
    assert!(
        matches!(err, LookupError::NotFound { .. }),
        "{}",
        err.message()
    );
}

#[test]
fn test_is_stale_miss_classification() {
    assert!(LookupError::NotFound {
        name: "x".into(),
        searched: 0
    }
    .is_stale_miss());
    assert!(LookupError::NotFoundInVault {
        name: "x".into(),
        vault: "v".into(),
        searched: 0
    }
    .is_stale_miss());
    assert!(LookupError::VaultNotFound("v".into()).is_stale_miss());
    assert!(!LookupError::VaultAmbiguous("v".into()).is_stale_miss());
}

#[test]
fn test_decrypt_vault_counts_missing_org_key_skips() {
    let (personal_key, _, _) = make_key();
    let iv = [7u8; 16];
    let org_id = "org-missing-key".to_string();

    let enc_name = encrypt_type2(&[9u8; 32], &[9u8; 32], &iv, b"ORPHANED");
    let cipher = SyncCipher {
        id: "cipher-orphan".to_string(),
        cipher_type: CIPHER_TYPE_LOGIN,
        organization_id: Some(org_id.clone()),
        name: enc_name,
        notes: None,
        login: None,
        card: None,
        fields: vec![],
    };

    let sync = SyncResponse {
        profile: SyncProfile {
            id: "u1".into(),
            email: "u@example.com".into(),
            key: String::new(),
            private_key: String::new(),
            organizations: vec![org(&org_id, "Orphaned Org")],
        },
        ciphers: vec![cipher],
    };

    let (cache, skips) = decrypt_vault(&sync, &personal_key);
    assert_eq!(skips.no_org_key, 1);
    assert_eq!(skips.decrypt_failed, 0);
    assert_eq!(skips.total(), 1);
    assert!(cache.items.is_empty());
    // The org still resolves by name even though its items were dropped.
    assert!(cache.orgs_by_name.contains_key("orphaned org"));
}

#[test]
fn test_extract_secret_password_priority() {
    let item = DecryptedItem {
        id: "1".into(),
        cipher_type: 1,
        organization_id: None,
        name: "Test".into(),
        username: String::new(),
        password: "thepassword".into(),
        notes: "the notes".into(),
        uri: String::new(),
        fields: {
            let mut m = StringMap::new();
            m.insert("value".into(), "field_value".into());
            m
        },
    };
    assert_eq!(extract_secret(&item), "thepassword");
}

#[test]
fn test_extract_secret_field_priority() {
    let mut fields = StringMap::new();
    fields.insert("token".into(), "mytoken".into());

    let item = DecryptedItem {
        id: "1".into(),
        cipher_type: 2,
        organization_id: None,
        name: "Test".into(),
        username: String::new(),
        password: String::new(),
        notes: "fallback notes".into(),
        uri: String::new(),
        fields,
    };
    assert_eq!(extract_secret(&item), "mytoken");
}

#[test]
fn test_extract_secret_notes_fallback() {
    let item = DecryptedItem {
        id: "1".into(),
        cipher_type: 2,
        organization_id: None,
        name: "Test".into(),
        username: String::new(),
        password: String::new(),
        notes: "secret note".into(),
        uri: String::new(),
        fields: StringMap::new(),
    };
    assert_eq!(extract_secret(&item), "secret note");
}

// ---------------------------------------------------------------------------
// Fetching
// ---------------------------------------------------------------------------

fn empty_response() -> SyncResponse {
    SyncResponse {
        profile: SyncProfile {
            id: "u1".into(),
            email: "u@example.com".into(),
            key: String::new(),
            private_key: String::new(),
            organizations: vec![],
        },
        ciphers: vec![],
    }
}

#[test]
fn the_status_of_a_sync_is_classified() {
    assert_eq!(sync_status(401), SyncStatus::Unauthorized);
    assert_eq!(sync_status(200), SyncStatus::Success);
    assert_eq!(sync_status(299), SyncStatus::Success);
    assert_eq!(sync_status(199), SyncStatus::Failure);
    assert_eq!(sync_status(300), SyncStatus::Failure);
    assert_eq!(sync_status(500), SyncStatus::Failure);
    assert_eq!(sync_url("https://vault"), "https://vault/api/sync");
}

#[test]
fn every_failed_sync_has_its_message() {
    let failed = |status: u16, body: &str, parsed: Result<SyncResponse, String>| {
        sync_result(status, body.to_string(), parsed)
            .unwrap_err()
            .message()
    };
    assert_eq!(
        failed(401, "no", Ok(empty_response())),
        "unauthorized (401); caller should refresh and retry"
    );
    assert_eq!(
        failed(503, "busy", Ok(empty_response())),
        "server returned 503: busy"
    );
    assert_eq!(
        failed(200, "", Err("bad json".to_string())),
        "HTTP error: bad json"
    );
    assert!(sync_result(200, String::new(), Ok(empty_response())).is_ok());
    assert_eq!(
        SyncError::Crypto(CryptoError::EmptyKey).message(),
        "crypto error: empty encrypted key"
    );
    assert_eq!(
        SyncError::NotFound("a\"b".to_string()).message(),
        "secret \"a\\\"b\" not found in vault"
    );
}

// ---------------------------------------------------------------------------
// Decrypting
// ---------------------------------------------------------------------------

fn blank_cipher(name: &str) -> SyncCipher {
    SyncCipher {
        id: "c".to_string(),
        cipher_type: CIPHER_TYPE_CARD,
        organization_id: None,
        name: name.to_string(),
        notes: None,
        login: None,
        card: None,
        fields: vec![],
    }
}

#[test]
fn a_cipher_is_decrypted_in_full() {
    let (key, enc, mac) = make_key();
    let sealed = |t: &str| Some(encrypt_type2(&enc, &mac, &[3; 16], t.as_bytes()));
    let mut cipher = blank_cipher(&sealed("Name").unwrap());
    cipher.notes = sealed("Notes");
    cipher.login = Some(SyncLogin {
        username: sealed("User"),
        password: sealed("Pass"),
        uri: None,
        uris: vec![
            SyncUri {
                uri: sealed("https://first"),
            },
            SyncUri {
                uri: sealed("https://second"),
            },
        ],
    });
    let field = |name: Option<String>, value: Option<String>| SyncField {
        name,
        value,
        field_type: 0,
    };
    cipher.fields = vec![
        field(sealed("b"), sealed("1")),
        field(sealed("a"), sealed("2")),
        field(None, sealed("unnamed")),
        field(Some("2.bad".to_string()), sealed("undecryptable")),
        field(sealed("b"), sealed("3")),
        field(sealed("empty"), None),
    ];
    let item = decrypt_cipher(&cipher, &key).unwrap();
    assert_eq!(item.cipher_type, CIPHER_TYPE_CARD);
    assert_eq!(item.name, "Name");
    assert_eq!(item.notes, "Notes");
    assert_eq!(item.username, "User");
    assert_eq!(item.password, "Pass");
    assert_eq!(item.uri, "https://first");
    assert_eq!(extract_secret(&item), "Pass");
    assert_eq!(item.fields.len(), 3);
    assert_eq!(item.fields.entry(0), (&"b".to_string(), &"3".to_string()));
    assert_eq!(item.fields.entry(1), (&"a".to_string(), &"2".to_string()));
    assert_eq!(item.fields.get("empty"), Some(&String::new()));
}

#[test]
fn only_the_name_has_to_decrypt() {
    let (key, enc, mac) = make_key();
    let name = encrypt_type2(&enc, &mac, &[3; 16], b"Name");
    let mut cipher = blank_cipher(&name);
    cipher.notes = Some("2.broken".to_string());
    cipher.login = Some(SyncLogin {
        username: Some("2.broken".to_string()),
        password: None,
        uri: Some("2.broken".to_string()),
        uris: vec![],
    });
    let item = decrypt_cipher(&cipher, &key).unwrap();
    assert_eq!(item.notes, "");
    assert_eq!(item.username, "");
    assert_eq!(item.uri, "");
    cipher.name = "2.broken".to_string();
    assert!(decrypt_cipher(&cipher, &key).is_err());
}

#[test]
fn an_item_is_assembled_from_its_texts() {
    let mut cipher = blank_cipher("ignored");
    cipher.cipher_type = CIPHER_TYPE_IDENTITY;
    cipher.organization_id = Some("org".to_string());
    let texts = |uri: &str| CipherTexts {
        name: "n".to_string(),
        notes: "o".to_string(),
        username: "u".to_string(),
        password: "p".to_string(),
        uri: uri.to_string(),
        first_uri: "first".to_string(),
        fields: vec![
            (String::new(), "dropped".to_string()),
            ("k".to_string(), "1".to_string()),
            ("k".to_string(), "2".to_string()),
        ],
    };
    let item = assemble_item(&cipher, texts("own"));
    assert_eq!(item.uri, "own");
    assert_eq!(item.name, "n");
    assert_eq!(item.organization_id.as_deref(), Some("org"));
    assert_eq!(item.fields.len(), 1);
    assert_eq!(item.fields.get("k"), Some(&"2".to_string()));
    assert_eq!(assemble_item(&cipher, texts("")).uri, "first");
}

#[test]
fn outcomes_are_sorted_and_counted() {
    let (items, skips) = collect_items(vec![
        CipherOutcome::Item(make_item("a", None)),
        CipherOutcome::NoOrgKey,
        CipherOutcome::Failed(CryptoError::Empty),
        CipherOutcome::Item(make_item("b", None)),
        CipherOutcome::NoOrgKey,
    ]);
    assert_eq!(
        skips,
        DecryptSkips {
            no_org_key: 2,
            decrypt_failed: 1
        }
    );
    assert_eq!(items.len() + skips.total(), 5);
    assert_eq!(items[0].name, "a");
    assert_eq!(items[1].name, "b");
    assert_eq!(DecryptSkips::default().total(), 0);
}

#[test]
fn the_key_of_a_cipher_is_that_of_its_owner() {
    let (own, _, _) = make_key();
    let (org_key, _, _) = make_org_key();
    let mut keys = StringMap::new();
    keys.insert("org".to_string(), org_key.clone());
    let mut cipher = blank_cipher("x");
    assert_eq!(
        key_for_cipher(&cipher, &keys, &own).unwrap().enc_key,
        own.enc_key
    );
    cipher.organization_id = Some(String::new());
    assert_eq!(
        key_for_cipher(&cipher, &keys, &own).unwrap().enc_key,
        own.enc_key
    );
    cipher.organization_id = Some("org".to_string());
    assert_eq!(
        key_for_cipher(&cipher, &keys, &own).unwrap().enc_key,
        org_key.enc_key
    );
    cipher.organization_id = Some("other".to_string());
    assert!(key_for_cipher(&cipher, &keys, &own).is_none());
}

#[test]
fn a_vault_with_an_organization_is_decrypted() {
    let (own, enc, mac) = make_key();
    let (org_key, org_enc, org_mac) = make_org_key();
    let mut rng = rand::thread_rng();
    let private_key = RsaPrivateKey::new(&mut rng, 2048).unwrap();
    let public_key = rsa::RsaPublicKey::from(&private_key);
    let der = private_key.to_pkcs8_der().unwrap();
    let mut org_bytes = org_enc.to_vec();
    org_bytes.extend_from_slice(&org_mac);
    let sealed = public_key
        .encrypt(&mut rng, rsa::Oaep::new::<Sha1>(), &org_bytes)
        .unwrap();

    let mut owned = blank_cipher(&encrypt_type2(&org_enc, &org_mac, &[1; 16], b"of the org"));
    owned.organization_id = Some("org-1".to_string());
    let personal = blank_cipher(&encrypt_type2(&enc, &mac, &[1; 16], b"personal"));
    let broken = blank_cipher("2.broken");
    let mut orphan = blank_cipher("2.broken");
    orphan.organization_id = Some("org-2".to_string());

    let sync = SyncResponse {
        profile: SyncProfile {
            id: "u1".into(),
            email: "u@example.com".into(),
            key: String::new(),
            private_key: encrypt_type2(&enc, &mac, &[2; 16], der.as_bytes()),
            organizations: vec![
                SyncOrganization {
                    id: "org-1".into(),
                    name: "First".into(),
                    key: format!("4.{}", BASE64.encode(&sealed)),
                },
                SyncOrganization {
                    id: "org-2".into(),
                    name: "Second".into(),
                    key: "4.broken".into(),
                },
            ],
        },
        ciphers: vec![owned, orphan, broken, personal],
    };
    let keys = decrypt_org_keys(&sync.profile, &own);
    assert_eq!(keys.len(), 1);
    assert_eq!(keys.get("org-1").unwrap().mac_key, org_key.mac_key);

    let (cache, skips) = decrypt_vault(&sync, &own);
    assert_eq!(
        skips,
        DecryptSkips {
            no_org_key: 1,
            decrypt_failed: 1
        }
    );
    assert_eq!(cache.items.len(), 2);
    assert_eq!(cache.items[0].name, "of the org");
    assert_eq!(cache.items[1].name, "personal");
    assert!(lookup_item(&cache, "of the org", Some("FIRST")).is_ok());
    assert!(matches!(
        lookup_item(&cache, "personal", Some("First")),
        Err(LookupError::NotFoundInVault { searched: 2, .. })
    ));
    assert!(matches!(
        lookup_item(&cache, "anything", Some("second")),
        Err(LookupError::NotFoundInVault { .. })
    ));
}

// ---------------------------------------------------------------------------
// Lookup
// ---------------------------------------------------------------------------

#[test]
fn every_failed_lookup_has_its_message() {
    let cache = make_cache();
    let message = |name: &str, vault: Option<&str>| {
        lookup_item(&cache, name, vault).unwrap_err().message()
    };
    assert_eq!(
        message("x", Some("nowhere")),
        "vault (organization) \"nowhere\" not found"
    );
    assert_eq!(
        message("x", Some("Duplicated")),
        "vault name \"Duplicated\" matches multiple organizations; use a unique name"
    );
    assert_eq!(
        message("x", Some("Kubernetes - Apollo")),
        "secret \"x\" not found in vault \"Kubernetes - Apollo\" (3 items searched)"
    );
    assert_eq!(
        message("x", None),
        "secret \"x\" not found in vault cache (3 items searched)"
    );
}

#[test]
fn an_exact_match_wins_wherever_it_stands() {
    let items = vec![
        make_item("db password old", None),
        make_item("DB Password", None),
        make_item("db password", None),
    ];
    assert_eq!(
        find_item(&items, "dB pAssword", None).unwrap().name,
        "DB Password"
    );
    assert_eq!(
        find_item(&items, "password", None).unwrap().name,
        "db password old"
    );
    assert_eq!(
        find_item(&items, "", None).unwrap().name,
        "db password old"
    );
}

#[test]
fn letters_beyond_ascii_ignore_case_too() {
    let items = vec![make_item("\u{c4}PFEL", None)];
    assert!(find_item(&items, "\u{e4}pfel", None).is_some());
    let index = index_orgs(&[org("o", "\u{c4}PFEL")]);
    assert!(index.contains_key("\u{e4}pfel"));
    assert!(!index.contains_key("\u{c4}PFEL"));
}

#[test]
fn organizations_of_one_name_keep_their_order() {
    let index = index_orgs(&[org("2", "x"), org("3", "y"), org("1", "X")]);
    assert_eq!(
        index.get("x"),
        Some(&vec!["2".to_string(), "1".to_string()])
    );
    assert_eq!(index.len(), 2);
}

#[test]
fn an_empty_cache_finds_nothing() {
    let cache = VaultCache::default();
    assert!(matches!(
        lookup_item(&cache, "x", None),
        Err(LookupError::NotFound { searched: 0, .. })
    ));
    assert!(matches!(
        lookup_item(&cache, "x", Some("v")),
        Err(LookupError::VaultNotFound(_))
    ));
}

// ---------------------------------------------------------------------------
// Secret values
// ---------------------------------------------------------------------------

fn with_fields(notes: &str, fields: &[(&str, &str)]) -> DecryptedItem {
    let mut item = make_item("x", None);
    item.password = String::new();
    item.notes = notes.to_string();
    for (name, value) in fields {
        item.fields.insert(name.to_string(), value.to_string());
    }
    item
}

#[test]
fn named_fields_come_in_their_order() {
    let all = [
        ("token", "5"),
        ("apikey", "4"),
        ("api_key", "3"),
        ("secret", "2"),
        ("value", "1"),
    ];
    for n in 1..=5usize {
        let item = with_fields("notes", &all[..n]);
        assert_eq!(extract_secret(&item), all[n - 1].1);
    }
}

#[test]
fn empty_values_are_passed_over() {
    let item = with_fields("", &[("value", ""), ("other", ""), ("z", "last"), ("a", "x")]);
    assert_eq!(extract_secret(&item), "last");
    assert_eq!(extract_secret(&with_fields("", &[("value", "")])), "");
    assert_eq!(extract_secret(&with_fields("n", &[("other", "v")])), "n");
}
