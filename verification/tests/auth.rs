use base64::{engine::general_purpose::STANDARD as BASE64, Engine};
use cbc::cipher::{BlockEncryptMut, KeyIvInit};
use hmac::{Hmac, Mac};
use sha2::Sha256;
use vaultwarden_operator::vault::auth::{
    after_login, after_prelogin, after_profile, authenticate, begin_login, finish_login, is_success, key_in_token, login_form, login_with_api_key,
    login_with_password, prelogin_url, profile_key, refresh_form, refreshed_token,
    response_result, token_url, AuthError, AuthStep, PreloginResponse, ProfileKeyProfile,
    ProfileKeyResponse, TokenResponse,
};
use vaultwarden_operator::vault::crypto::{
    hash_password, make_master_key, stretch_key, CryptoError,
};

fn seal(enc_key: &[u8], mac_key: &[u8], plaintext: &[u8]) -> String {
    let iv = [4u8; 16];
    let pad_len = 16 - (plaintext.len() % 16);
    let mut ct = plaintext.to_vec();
    ct.extend(std::iter::repeat_n(pad_len as u8, pad_len));
    let len = ct.len();
    cbc::Encryptor::<aes::Aes256>::new_from_slices(enc_key, &iv)
        .unwrap()
        .encrypt_padded_mut::<cbc::cipher::block_padding::NoPadding>(&mut ct, len)
        .unwrap();
    let mut mac = Hmac::<Sha256>::new_from_slice(mac_key).unwrap();
    mac.update(&iv);
    mac.update(&ct);
    format!(
        "2.{}|{}|{}",
        BASE64.encode(iv),
        BASE64.encode(&ct),
        BASE64.encode(mac.finalize().into_bytes())
    )
}

fn pairs(expected: &[(&str, &str)]) -> Vec<(String, String)> {
    expected
        .iter()
        .map(|(a, b)| (a.to_string(), b.to_string()))
        .collect()
}

fn token(key: &str, refresh: &str) -> TokenResponse {
    TokenResponse {
        access_token: "access".to_string(),
        expires_in: 3600,
        refresh_token: refresh.to_string(),
        key: key.to_string(),
    }
}

#[test]
fn the_password_grant_is_written_out() {
    assert_eq!(
        login_with_password("me@example.com", "hash", "dev"),
        pairs(&[
            ("grant_type", "password"),
            ("username", "me@example.com"),
            ("password", "hash"),
            ("scope", "api offline_access"),
            ("client_id", "web"),
            ("deviceType", "14"),
            ("deviceIdentifier", "dev"),
            ("deviceName", "vaultwarden-operator"),
        ])
    );
}

#[test]
fn the_api_key_grant_is_written_out() {
    assert_eq!(
        login_with_api_key("id", "secret", "dev"),
        pairs(&[
            ("grant_type", "client_credentials"),
            ("client_id", "id"),
            ("client_secret", "secret"),
            ("scope", "api"),
            ("deviceType", "14"),
            ("deviceIdentifier", "dev"),
            ("deviceName", "vaultwarden-operator"),
        ])
    );
}

#[test]
fn an_api_key_needs_both_halves() {
    let grant = |id: Option<&str>, secret: Option<&str>| {
        login_form("e", "h", id, secret, "d")[0].1.clone()
    };
    assert_eq!(grant(Some("i"), Some("s")), "client_credentials");
    assert_eq!(grant(Some("i"), None), "password");
    assert_eq!(grant(None, Some("s")), "password");
    assert_eq!(grant(None, None), "password");
}

#[test]
fn a_login_hashes_the_password_under_the_master_key() {
    let pre = PreloginResponse {
        kdf: 0,
        kdf_iterations: 2,
        kdf_memory: None,
        kdf_parallelism: None,
    };
    let login = begin_login("Me@Example.com", "pw", None, None, "dev", &pre).unwrap();
    let master_key = make_master_key("pw", "me@example.com", 0, 2, None, None).unwrap();
    assert_eq!(login.master_key, master_key);
    assert_eq!(login.form[2].1, hash_password("pw", &master_key));
    assert_eq!(login.form[1].1, "Me@Example.com");
}

#[test]
fn a_login_with_unknown_parameters_is_refused() {
    let pre = PreloginResponse {
        kdf: 9,
        kdf_iterations: 2,
        kdf_memory: None,
        kdf_parallelism: None,
    };
    assert_eq!(
        begin_login("e", "pw", None, None, "dev", &pre)
            .unwrap_err()
            .message(),
        "crypto error: KDF error: unsupported KDF type: 9"
    );
}

#[test]
fn the_key_comes_with_the_token_or_from_the_profile() {
    assert_eq!(key_in_token(&token("k", "")), Some("k"));
    assert_eq!(key_in_token(&token("", "")), None);
    let profile = |key: &str| ProfileKeyResponse {
        profile: ProfileKeyProfile {
            key: key.to_string(),
        },
    };
    assert_eq!(profile_key(profile("k")).unwrap(), "k");
    assert_eq!(
        profile_key(profile("")).unwrap_err().message(),
        "profile key is empty"
    );
}

#[test]
fn a_login_without_a_readable_key_fails() {
    assert!(matches!(
        finish_login(token("", ""), "", &[0; 32]),
        Err(AuthError::Crypto(CryptoError::EmptyKey))
    ));
}

#[test]
fn a_refresh_needs_a_refresh_token() {
    assert_eq!(
        refresh_form("r").unwrap(),
        pairs(&[
            ("grant_type", "refresh_token"),
            ("refresh_token", "r"),
            ("client_id", "web"),
        ])
    );
    assert_eq!(
        refresh_form("").unwrap_err().message(),
        "no refresh token available"
    );
}

#[test]
fn a_refreshed_token_may_rotate() {
    assert_eq!(
        refreshed_token(token("", "")),
        ("access".to_string(), None, 3600)
    );
    assert_eq!(
        refreshed_token(token("", "new")).1,
        Some("new".to_string())
    );
}

#[test]
fn replies_are_sorted_by_their_status() {
    assert!(is_success(200) && is_success(299));
    assert!(!is_success(199) && !is_success(300));
    assert_eq!(
        response_result(204, String::new(), Ok::<u8, String>(7)).unwrap(),
        7
    );
    assert_eq!(
        response_result(200, String::new(), Err::<u8, String>("eof".to_string()))
            .unwrap_err()
            .message(),
        "HTTP error: eof"
    );
    assert_eq!(
        response_result(400, "bad".to_string(), Ok::<u8, String>(7))
            .unwrap_err()
            .message(),
        "server returned 400: bad"
    );
}

#[test]
fn requests_go_to_the_identity_server() {
    assert_eq!(
        prelogin_url("https://v"),
        "https://v/identity/accounts/prelogin"
    );
    assert_eq!(token_url("https://v"), "https://v/identity/connect/token");
}

#[test]
fn an_authentication_asks_step_by_step() {
    assert!(matches!(authenticate(), AuthStep::Prelogin));
    let pre = PreloginResponse {
        kdf: 0,
        kdf_iterations: 1,
        kdf_memory: None,
        kdf_parallelism: None,
    };
    let login = match after_prelogin("e", "pw", Some("id"), Some("s"), "dev", Ok(pre)) {
        AuthStep::RequestToken(login) => login,
        other => panic!("{other:?}"),
    };
    assert_eq!(login.form[0].1, "client_credentials");
    let (token, master_key) = match after_login(login.master_key, Ok(token("", "r"))) {
        AuthStep::FetchProfile { token, master_key } => (token, master_key),
        other => panic!("{other:?}"),
    };
    assert_eq!(token.access_token, "access");
    let empty = ProfileKeyResponse {
        profile: ProfileKeyProfile { key: String::new() },
    };
    assert!(matches!(
        after_profile(token, master_key, Ok(empty)),
        AuthStep::Failed(AuthError::EmptyProfileKey)
    ));
}

#[test]
fn every_failed_reply_ends_the_authentication() {
    let refused = || AuthError::Server {
        status: 400,
        body: "no".to_string(),
    };
    let steps = [
        after_prelogin("e", "pw", None, None, "dev", Err(refused())),
        after_login(vec![0; 32], Err(refused())),
        after_profile(token("", ""), vec![0; 32], Err(refused())),
    ];
    for step in steps {
        match step {
            AuthStep::Failed(e) => assert_eq!(e.message(), "server returned 400: no"),
            other => panic!("{other:?}"),
        }
    }
    assert!(matches!(
        after_login(vec![0; 32], Ok(token("5.AA==", ""))),
        AuthStep::Failed(AuthError::Crypto(CryptoError::UnsupportedType(5)))
    ));
}

#[test]
fn a_completed_login_carries_the_decrypted_key() {
    let master_key: Vec<u8> = (0..32).collect();
    let stretched = stretch_key(&master_key).unwrap();
    let plain: Vec<u8> = (1..65).collect();
    let sealed = seal(&stretched.enc_key, &stretched.mac_key, &plain);
    let check = |step: AuthStep| match step {
        AuthStep::Done(c) => {
            assert_eq!(c.access_token, "access");
            assert_eq!(c.refresh_token, "r");
            assert_eq!(c.expires_in, 3600);
            assert_eq!(c.sym_key.enc_key, plain[..32]);
            assert_eq!(c.sym_key.mac_key, plain[32..]);
        }
        other => panic!("{other:?}"),
    };
    check(after_login(master_key.clone(), Ok(token(&sealed, "r"))));
    let profile = ProfileKeyResponse {
        profile: ProfileKeyProfile {
            key: sealed.clone(),
        },
    };
    check(after_profile(token("", "r"), master_key, Ok(profile)));
}
