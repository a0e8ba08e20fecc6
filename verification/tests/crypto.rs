use aes::Aes256;
use base64::{engine::general_purpose::STANDARD as BASE64, Engine};
use cbc::cipher::{BlockEncryptMut, KeyIvInit};
use hmac::{Hmac, Mac};
use rsa::pkcs8::{DecodePrivateKey, EncodePrivateKey};
use rsa::traits::PublicKeyParts;
use rsa::RsaPrivateKey;
use sha1::Sha1;
use sha2::Sha256;
use vaultwarden_operator::vault::crypto::{
    check_mac, decrypt_org_key, decrypt_private_key, decrypt_str, decrypt_symmetric_key,
    hash_password, kdf_supported, key_from_bytes, make_master_key, pkcs7_unpad, stretch_key,
    text_from_utf8, CipherString, CryptoError, PrivateKey, SymmetricKey,
    ENC_TYPE_AES_CBC256_HMAC_SHA256_B64, ENC_TYPE_RSA2048_OAEP_SHA1_B64,
    ENC_TYPE_RSA2048_OAEP_SHA256_B64, KDF_ARGON2ID, KDF_PBKDF2,
};

type Aes256CbcEnc = cbc::Encryptor<Aes256>;
type HmacSha256 = Hmac<Sha256>;

fn encrypt_cbc(enc_key: &[u8; 32], iv: &[u8; 16], plaintext: &[u8]) -> Vec<u8> {
    let pad_len = 16 - (plaintext.len() % 16);
    let mut padded = plaintext.to_vec();
    padded.extend(std::iter::repeat_n(pad_len as u8, pad_len));
    let mut ct = padded.clone();
    Aes256CbcEnc::new(enc_key.into(), iv.into())
        .encrypt_padded_mut::<cbc::cipher::block_padding::NoPadding>(&mut ct, padded.len())
        .unwrap();
    ct
}

fn make_type2_cipherstring(
    enc_key: &[u8; 32],
    mac_key: &[u8; 32],
    iv: &[u8; 16],
    plaintext: &[u8],
) -> String {
    let ct = encrypt_cbc(enc_key, iv, plaintext);
    let mut mac = HmacSha256::new_from_slice(mac_key).unwrap();
    mac.update(iv);
    mac.update(&ct);
    let mac_bytes = mac.finalize().into_bytes();
    format!(
        "2.{}|{}|{}",
        BASE64.encode(iv),
        BASE64.encode(&ct),
        BASE64.encode(mac_bytes)
    )
}

fn held(key: &RsaPrivateKey) -> PrivateKey {
    let der = key.to_pkcs8_der().unwrap();
    PrivateKey::from_pkcs8_der(der.as_bytes()).unwrap()
}

#[test]
fn test_parse_cipher_string_type2() {
    let iv = [0u8; 16];
    let ct = [0u8; 32];
    let mac = [0u8; 32];
    let s = format!(
        "2.{}|{}|{}",
        BASE64.encode(iv),
        BASE64.encode(ct),
        BASE64.encode(mac)
    );
    let cs = CipherString::parse(&s).unwrap();
    assert_eq!(cs.enc_type, 2);
    assert_eq!(cs.iv.len(), 16);
    assert_eq!(cs.ct.len(), 32);
    assert_eq!(cs.mac.len(), 32);
}

#[test]
fn test_parse_cipher_string_type0() {
    let iv = [0u8; 16];
    let ct = [0u8; 32];
    let s = format!("0.{}|{}", BASE64.encode(iv), BASE64.encode(ct));
    let cs = CipherString::parse(&s).unwrap();
    assert_eq!(cs.enc_type, 0);
    assert!(cs.mac.is_empty());
}

#[test]
fn test_parse_cipher_string_invalid() {
    assert!(CipherString::parse("").is_err());
    assert!(CipherString::parse("abcdef").is_err());
    assert!(CipherString::parse("x.abc|def|ghi").is_err());
    // type 2 missing mac
    assert!(CipherString::parse(&format!(
        "2.{}|{}",
        BASE64.encode([0u8; 16]),
        BASE64.encode([0u8; 32])
    ))
    .is_err());
    // unsupported type
    assert!(CipherString::parse(&format!(
        "5.{}|{}|{}",
        BASE64.encode([0u8; 16]),
        BASE64.encode([0u8; 32]),
        BASE64.encode([0u8; 32])
    ))
    .is_err());
}

#[test]
fn test_pkcs7_unpad_1byte() {
    let input: Vec<u8> = vec![
        0x41, 0x42, 0x43, 0x44, 0x45, 0x46, 0x47, 0x48, 0x49, 0x4A, 0x4B, 0x4C, 0x4D, 0x4E, 0x4F,
        0x01,
    ];
    let result = pkcs7_unpad(&input, 16).unwrap();
    assert_eq!(result.len(), 15);
}

#[test]
fn test_pkcs7_unpad_full_block() {
    let input = vec![0x10u8; 16];
    let result = pkcs7_unpad(&input, 16).unwrap();
    assert!(result.is_empty());
}

#[test]
fn test_pkcs7_unpad_empty() {
    assert!(pkcs7_unpad(&[], 16).is_err());
}

#[test]
fn test_pkcs7_unpad_zero_padding_byte() {
    let mut input: Vec<u8> = vec![
        0x41, 0x42, 0x43, 0x44, 0x45, 0x46, 0x47, 0x48, 0x49, 0x4A, 0x4B, 0x4C, 0x4D, 0x4E, 0x4F,
        0x00,
    ];
    input[15] = 0x00;
    assert!(pkcs7_unpad(&input, 16).is_err());
}

#[test]
fn test_decrypt_type2_round_trip() {
    let enc_key: [u8; 32] = std::array::from_fn(|i| i as u8);
    let mac_key: [u8; 32] = std::array::from_fn(|i| (i + 32) as u8);
    let iv: [u8; 16] = std::array::from_fn(|i| (i + 100) as u8);
    let key = SymmetricKey {
        enc_key: enc_key.to_vec(),
        mac_key: mac_key.to_vec(),
    };

    let s = make_type2_cipherstring(&enc_key, &mac_key, &iv, b"Hello, Vaultwarden!");
    let cs = CipherString::parse(&s).unwrap();
    let result = cs.decrypt_to_string(&key).unwrap();
    assert_eq!(result, "Hello, Vaultwarden!");
}

#[test]
fn test_decrypt_mac_verification_fails() {
    let enc_key = [0u8; 32];
    let mac_key = [0u8; 32];
    let iv = [0u8; 16];
    let wrong_mac = [0xFFu8; 32];

    let s = format!(
        "2.{}|{}|{}",
        BASE64.encode(iv),
        BASE64.encode([0u8; 16]),
        BASE64.encode(wrong_mac)
    );
    let cs = CipherString::parse(&s).unwrap();
    let key = SymmetricKey {
        enc_key: enc_key.to_vec(),
        mac_key: mac_key.to_vec(),
    };
    let err = cs.decrypt(&key).unwrap_err();
    assert!(
        matches!(err, CryptoError::MacMismatch),
        "expected MacMismatch, got {}",
        err.message()
    );
}

#[test]
fn test_make_master_key_pbkdf2() {
    let key = make_master_key(
        "password123",
        "user@example.com",
        KDF_PBKDF2,
        600000,
        None,
        None,
    )
    .unwrap();
    assert_eq!(key.len(), 32);

    let mut expected = vec![0u8; 32];
    pbkdf2::pbkdf2_hmac::<Sha256>(b"password123", b"user@example.com", 600000, &mut expected);
    assert_eq!(key, expected);
}

#[test]
fn test_make_master_key_argon2id() {
    let key = make_master_key(
        "password123",
        "user@example.com",
        KDF_ARGON2ID,
        3,
        Some(64),
        Some(4),
    )
    .unwrap();
    assert_eq!(key.len(), 32);
}

#[test]
fn test_hash_password() {
    let master_key: Vec<u8> = (0..32).collect();
    let hash = hash_password("password123", &master_key);
    assert!(!hash.is_empty());
    // Must be valid base64.
    BASE64.decode(&hash).unwrap();
}

#[test]
fn test_stretch_key() {
    let master_key: Vec<u8> = (0..32).collect();
    let sk = stretch_key(&master_key).unwrap();
    assert_eq!(sk.enc_key.len(), 32);
    assert_eq!(sk.mac_key.len(), 32);
    assert_ne!(sk.enc_key, sk.mac_key);
}

#[test]
fn test_decrypt_str_empty() {
    let key = SymmetricKey::default();
    let result = decrypt_str("", &key).unwrap();
    assert_eq!(result, "");
}

#[test]
fn test_parse_cipher_string_type3_rsa_sha256() {
    let ct = [0u8; 256]; // RSA-2048 ciphertext
    let s = format!("3.{}", BASE64.encode(ct));
    let cs = CipherString::parse(&s).unwrap();
    assert_eq!(cs.enc_type, ENC_TYPE_RSA2048_OAEP_SHA256_B64);
    assert_eq!(cs.ct.len(), 256);
    assert!(cs.iv.is_empty());
    assert!(cs.mac.is_empty());
}

#[test]
fn test_parse_cipher_string_type4_rsa_sha1() {
    let ct = [0u8; 256];
    let s = format!("4.{}", BASE64.encode(ct));
    let cs = CipherString::parse(&s).unwrap();
    assert_eq!(cs.enc_type, ENC_TYPE_RSA2048_OAEP_SHA1_B64);
    assert_eq!(cs.ct.len(), 256);
}

#[test]
fn test_decrypt_rsa_oaep_sha1_round_trip() {
    let mut rng = rand::thread_rng();
    let private_key = RsaPrivateKey::new(&mut rng, 2048).unwrap();
    let public_key = rsa::RsaPublicKey::from(&private_key);

    let org_key_plain: Vec<u8> = (0..64u8).collect();
    let padding = rsa::Oaep::new::<Sha1>();
    let ciphertext = public_key
        .encrypt(&mut rng, padding, &org_key_plain)
        .unwrap();

    let s = format!("4.{}", BASE64.encode(&ciphertext));
    let cs = CipherString::parse(&s).unwrap();
    let decrypted = cs.decrypt_rsa(&held(&private_key)).unwrap();
    assert_eq!(decrypted.len(), 64);
    assert_eq!(decrypted, org_key_plain);
}

#[test]
fn test_decrypt_rsa_oaep_sha256_round_trip() {
    let mut rng = rand::thread_rng();
    let private_key = RsaPrivateKey::new(&mut rng, 2048).unwrap();
    let public_key = rsa::RsaPublicKey::from(&private_key);

    let plaintext = b"Hello RSA-OAEP-SHA256!";
    let padding = rsa::Oaep::new::<Sha256>();
    let ciphertext = public_key.encrypt(&mut rng, padding, plaintext).unwrap();

    let s = format!("3.{}", BASE64.encode(&ciphertext));
    let cs = CipherString::parse(&s).unwrap();
    let decrypted = cs.decrypt_rsa(&held(&private_key)).unwrap();
    assert_eq!(decrypted, plaintext);
}

#[test]
fn test_decrypt_rsa_wrong_type() {
    let mut rng = rand::thread_rng();
    let private_key = RsaPrivateKey::new(&mut rng, 2048).unwrap();
    let cs = CipherString {
        enc_type: ENC_TYPE_AES_CBC256_HMAC_SHA256_B64,
        iv: vec![],
        ct: b"test".to_vec(),
        mac: vec![],
    };
    assert!(matches!(
        cs.decrypt_rsa(&held(&private_key)),
        Err(CryptoError::NotRsa(2))
    ));
}

#[test]
fn test_decrypt_private_key_round_trip() {
    let mut rng = rand::thread_rng();
    let private_key = RsaPrivateKey::new(&mut rng, 2048).unwrap();
    let der_bytes = private_key.to_pkcs8_der().unwrap();

    let enc_key: [u8; 32] = std::array::from_fn(|i| i as u8);
    let mac_key: [u8; 32] = std::array::from_fn(|i| (i + 32) as u8);
    let iv: [u8; 16] = std::array::from_fn(|i| (i + 100) as u8);
    let sym_key = SymmetricKey {
        enc_key: enc_key.to_vec(),
        mac_key: mac_key.to_vec(),
    };

    let s = make_type2_cipherstring(&enc_key, &mac_key, &iv, der_bytes.as_bytes());
    let decrypted_key = decrypt_private_key(&s, &sym_key).unwrap();
    let read_back = RsaPrivateKey::from_pkcs8_der(decrypted_key.as_der()).unwrap();
    assert_eq!(read_back.n(), private_key.n());
}

#[test]
fn test_decrypt_private_key_empty() {
    let key = SymmetricKey::default();
    assert!(matches!(
        decrypt_private_key("", &key),
        Err(CryptoError::EmptyKey)
    ));
}

#[test]
fn test_decrypt_org_key_round_trip() {
    let mut rng = rand::thread_rng();
    let private_key = RsaPrivateKey::new(&mut rng, 2048).unwrap();
    let public_key = rsa::RsaPublicKey::from(&private_key);

    // 64-byte org key: enc[0..32] + mac[32..64]
    let mut org_key_plain = vec![0u8; 64];
    for i in 0..32usize {
        org_key_plain[i] = i as u8;
        org_key_plain[32 + i] = (i + 64) as u8;
    }

    let padding = rsa::Oaep::new::<Sha1>();
    let ciphertext = public_key
        .encrypt(&mut rng, padding, &org_key_plain)
        .unwrap();
    let s = format!("4.{}", BASE64.encode(&ciphertext));

    let org_key = decrypt_org_key(&s, &held(&private_key)).unwrap();
    for i in 0..32usize {
        assert_eq!(org_key.enc_key[i], i as u8);
        assert_eq!(org_key.mac_key[i], (i + 64) as u8);
    }
}

#[test]
fn test_decrypt_org_key_empty() {
    let mut rng = rand::thread_rng();
    let private_key = RsaPrivateKey::new(&mut rng, 2048).unwrap();
    assert!(matches!(
        decrypt_org_key("", &held(&private_key)),
        Err(CryptoError::EmptyKey)
    ));
}

#[test]
fn test_decrypt_org_key_wrong_length() {
    let mut rng = rand::thread_rng();
    let private_key = RsaPrivateKey::new(&mut rng, 2048).unwrap();
    let public_key = rsa::RsaPublicKey::from(&private_key);

    // Only 32 bytes (should be 64).
    let short = vec![0u8; 32];
    let padding = rsa::Oaep::new::<Sha1>();
    let ct = public_key.encrypt(&mut rng, padding, &short).unwrap();
    let s = format!("4.{}", BASE64.encode(&ct));

    assert!(matches!(
        decrypt_org_key(&s, &held(&private_key)),
        Err(CryptoError::OrgKeyLength(32))
    ));
}

// ---------------------------------------------------------------------------
// Parsing
// ---------------------------------------------------------------------------

fn parse_error(s: &str) -> String {
    CipherString::parse(s).unwrap_err().message()
}

#[test]
fn parse_reads_every_part() {
    let s = format!(
        "2.{}|{}|{}",
        BASE64.encode([1u8; 16]),
        BASE64.encode([2u8; 32]),
        BASE64.encode([3u8; 32])
    );
    let cs = CipherString::parse(&s).unwrap();
    assert_eq!(cs.iv, vec![1u8; 16]);
    assert_eq!(cs.ct, vec![2u8; 32]);
    assert_eq!(cs.mac, vec![3u8; 32]);
    let rsa = CipherString::parse(&format!("3.{}", BASE64.encode([9u8, 8, 7]))).unwrap();
    assert_eq!(rsa.ct, vec![9u8, 8, 7]);
}

#[test]
fn parse_names_the_fault() {
    assert!(matches!(CipherString::parse(""), Err(CryptoError::Empty)));
    assert_eq!(parse_error(""), "empty cipher string");
    assert!(matches!(
        CipherString::parse("abcdef"),
        Err(CryptoError::Format(_))
    ));
    assert!(matches!(
        CipherString::parse("x.abc|def|ghi"),
        Err(CryptoError::Format(_))
    ));
    assert!(matches!(
        CipherString::parse("5.AA==|AA==|AA=="),
        Err(CryptoError::UnsupportedType(5))
    ));
    assert_eq!(
        parse_error("5.AA==|AA==|AA=="),
        "unsupported encryption type: 5"
    );
    assert!(matches!(
        CipherString::parse("0.!!!!|AA=="),
        Err(CryptoError::Base64(_))
    ));
    assert!(parse_error("0.!!!!|AA==").starts_with("base64 decode error: "));
}

// ---------------------------------------------------------------------------
// Padding
// ---------------------------------------------------------------------------

#[test]
fn unpad_gives_back_what_was_padded() {
    for n in 0..40usize {
        let data: Vec<u8> = (0..n as u8).collect();
        let pad = 16 - n % 16;
        let mut padded = data.clone();
        padded.extend(std::iter::repeat_n(pad as u8, pad));
        assert_eq!(pkcs7_unpad(&padded, 16).unwrap(), data);
    }
}

#[test]
fn unpad_names_the_fault() {
    assert_eq!(
        pkcs7_unpad(&[], 16).unwrap_err().message(),
        "PKCS7 unpad error: empty data"
    );
    assert_eq!(
        pkcs7_unpad(&[1u8; 15], 16).unwrap_err().message(),
        "PKCS7 unpad error: data not block-aligned"
    );
    assert_eq!(
        pkcs7_unpad(&[17u8; 16], 16).unwrap_err().message(),
        "PKCS7 unpad error: invalid padding length: 17"
    );
    let mut mixed = [2u8; 16];
    mixed[14] = 1;
    assert_eq!(
        pkcs7_unpad(&mixed, 16).unwrap_err().message(),
        "PKCS7 unpad error: invalid PKCS7 padding bytes"
    );
}

// ---------------------------------------------------------------------------
// Decryption
// ---------------------------------------------------------------------------

fn key_of(enc: u8, mac: u8) -> (SymmetricKey, [u8; 32], [u8; 32]) {
    let key = SymmetricKey {
        enc_key: vec![enc; 32],
        mac_key: vec![mac; 32],
    };
    (key, [enc; 32], [mac; 32])
}

#[test]
fn decrypt_checks_its_input_in_order() {
    let (key, _, _) = key_of(1, 2);
    let cs = |iv: usize, ct: usize| CipherString {
        enc_type: 2,
        iv: vec![0; iv],
        ct: vec![0; ct],
        mac: vec![0; 32],
    };
    assert!(matches!(
        cs(15, 16).decrypt(&key),
        Err(CryptoError::InvalidIv(15))
    ));
    assert!(matches!(
        cs(16, 17).decrypt(&key),
        Err(CryptoError::InvalidCiphertext(17))
    ));
    assert!(matches!(
        cs(16, 0).decrypt(&key),
        Err(CryptoError::InvalidCiphertext(0))
    ));
    let no_mac = SymmetricKey {
        enc_key: vec![1; 32],
        mac_key: vec![],
    };
    assert!(matches!(
        cs(16, 16).decrypt(&no_mac),
        Err(CryptoError::MacKeyMissing)
    ));
    assert!(matches!(
        cs(16, 16).decrypt(&key),
        Err(CryptoError::MacMismatch)
    ));
}

#[test]
fn type0_decrypts_without_a_tag() {
    let (key, enc, _) = key_of(5, 0);
    let iv = [3u8; 16];
    let ct = encrypt_cbc(&enc, &iv, b"legacy");
    let s = format!("0.{}|{}", BASE64.encode(iv), BASE64.encode(&ct));
    assert_eq!(decrypt_str(&s, &key).unwrap(), "legacy");
    let short = SymmetricKey {
        enc_key: vec![5; 31],
        mac_key: vec![],
    };
    assert_eq!(
        decrypt_str(&s, &short).unwrap_err().message(),
        "invalid cipher string format: enc_key must be 32 bytes"
    );
}

#[test]
fn a_changed_message_is_refused() {
    let (key, enc, mac) = key_of(7, 8);
    let s = make_type2_cipherstring(&enc, &mac, &[1; 16], b"attack at dawn");
    let mut cs = CipherString::parse(&s).unwrap();
    cs.ct[0] ^= 1;
    assert!(matches!(cs.decrypt(&key), Err(CryptoError::MacMismatch)));
}

#[test]
fn plaintext_that_is_no_text_is_refused() {
    let (key, enc, mac) = key_of(7, 8);
    let s = make_type2_cipherstring(&enc, &mac, &[1; 16], &[0xff, 0xfe]);
    let err = decrypt_str(&s, &key).unwrap_err();
    assert!(err
        .message()
        .starts_with("invalid cipher string format: UTF-8 decode: "));
    assert_eq!(text_from_utf8(vec![0xc3, 0xa9]).unwrap(), "\u{e9}");
    assert!(text_from_utf8(vec![0xc3]).is_err());
}

#[test]
fn tags_are_compared_in_full() {
    assert!(check_mac(&[1, 2, 3], &[1, 2, 3]).is_ok());
    assert!(check_mac(&[1, 2, 3], &[1, 2, 4]).is_err());
    assert!(check_mac(&[1, 2, 3], &[1, 2]).is_err());
    assert!(check_mac(&[], &[]).is_ok());
}

// ---------------------------------------------------------------------------
// Keys
// ---------------------------------------------------------------------------

#[test]
fn master_key_ignores_case_and_space_of_the_email() {
    let a = make_master_key("pw", "  User@Example.COM ", KDF_PBKDF2, 2, None, None).unwrap();
    let b = make_master_key("pw", "user@example.com", KDF_PBKDF2, 2, None, None).unwrap();
    assert_eq!(a, b);
    let c = make_master_key("pw", "USER@EXAMPLE.COM\u{a0}\t", KDF_PBKDF2, 2, Some(64), Some(4));
    assert_eq!(a, c.unwrap());
    let mut expected = vec![0u8; 32];
    pbkdf2::pbkdf2_hmac::<Sha256>(b"pw", b"user@example.com", 2, &mut expected);
    assert_eq!(a, expected);
}

#[test]
fn argon2id_key_is_that_of_the_crate() {
    let key =
        make_master_key("password123", "user@example.com", KDF_ARGON2ID, 1, Some(1), Some(2))
            .unwrap();
    let params = argon2::Params::new(1024, 1, 2, Some(32)).unwrap();
    let hasher =
        argon2::Argon2::new(argon2::Algorithm::Argon2id, argon2::Version::V0x13, params);
    let mut expected = vec![0u8; 32];
    hasher
        .hash_password_into(b"password123", b"user@example.com", &mut expected)
        .unwrap();
    assert_eq!(key, expected);
}

#[test]
fn key_derivation_names_the_fault() {
    let message = |kdf: u32, iterations: u32, memory: Option<u32>, lanes: Option<u32>| {
        make_master_key("pw", "user@example.com", kdf, iterations, memory, lanes)
            .unwrap_err()
            .message()
    };
    assert_eq!(
        message(KDF_PBKDF2, 0, None, None),
        "KDF error: PBKDF2 iterations must be >= 1, got 0"
    );
    assert_eq!(
        message(7, 1, None, None),
        "KDF error: unsupported KDF type: 7"
    );
    assert!(message(KDF_ARGON2ID, 0, Some(1), Some(1)).starts_with("KDF error: argon2 params: "));
    assert!(message(KDF_ARGON2ID, 1, Some(0), Some(1)).starts_with("KDF error: argon2 params: "));
    let short_salt = make_master_key("pw", "a@b", KDF_ARGON2ID, 1, Some(1), Some(1));
    assert!(short_salt
        .unwrap_err()
        .message()
        .starts_with("KDF error: argon2 hash: "));
}

#[test]
fn kdf_parameters_out_of_range_are_told_apart() {
    assert!(kdf_supported(KDF_PBKDF2, Some(u32::MAX), Some(u32::MAX)));
    assert!(kdf_supported(KDF_ARGON2ID, None, None));
    assert!(kdf_supported(KDF_ARGON2ID, Some(4_194_303), Some(4)));
    assert!(!kdf_supported(KDF_ARGON2ID, Some(4_194_304), Some(4)));
    assert!(!kdf_supported(KDF_ARGON2ID, Some(64), Some(u32::MAX)));
}

#[test]
fn hashed_password_is_one_round_over_the_master_key() {
    let master_key: Vec<u8> = (0..32).collect();
    let mut expected = vec![0u8; 32];
    pbkdf2::pbkdf2_hmac::<Sha256>(&master_key, b"password123", 1, &mut expected);
    assert_eq!(
        hash_password("password123", &master_key),
        BASE64.encode(expected)
    );
}

#[test]
fn stretched_key_is_that_of_hkdf() {
    let master_key: Vec<u8> = (0..32).collect();
    let sk = stretch_key(&master_key).unwrap();
    let hk = hkdf::Hkdf::<Sha256>::from_prk(&master_key).unwrap();
    let mut expected = vec![0u8; 32];
    hk.expand(b"enc", &mut expected).unwrap();
    assert_eq!(sk.enc_key, expected);
    hk.expand(b"mac", &mut expected).unwrap();
    assert_eq!(sk.mac_key, expected);
    assert!(matches!(
        stretch_key(&[0u8; 31]),
        Err(CryptoError::Hkdf)
    ));
}

#[test]
fn symmetric_key_is_read_with_the_stretched_key() {
    let master_key: Vec<u8> = (0..32).collect();
    let sk = stretch_key(&master_key).unwrap();
    let enc: [u8; 32] = sk.enc_key.clone().try_into().unwrap();
    let mac: [u8; 32] = sk.mac_key.clone().try_into().unwrap();
    let plain: Vec<u8> = (100..164).collect();
    let s = make_type2_cipherstring(&enc, &mac, &[4; 16], &plain);
    let key = decrypt_symmetric_key(&s, &master_key).unwrap();
    assert_eq!(key.enc_key, plain[..32]);
    assert_eq!(key.mac_key, plain[32..]);
}

#[test]
fn symmetric_key_falls_back_to_the_master_key() {
    let master_key = [6u8; 32];
    let plain = [9u8; 64];
    let iv = [2u8; 16];
    let ct = encrypt_cbc(&master_key, &iv, &plain);
    let s = format!("0.{}|{}", BASE64.encode(iv), BASE64.encode(&ct));
    let key = decrypt_symmetric_key(&s, &master_key).unwrap();
    assert_eq!(key.enc_key, vec![9u8; 32]);
    assert_eq!(key.mac_key, vec![9u8; 32]);
}

#[test]
fn symmetric_key_faults_are_told_apart() {
    let master_key = [6u8; 32];
    assert!(matches!(
        decrypt_symmetric_key("", &master_key),
        Err(CryptoError::EmptyKey)
    ));
    let iv = [2u8; 16];
    let short = encrypt_cbc(&master_key, &iv, &[9u8; 32]);
    let s = format!("0.{}|{}", BASE64.encode(iv), BASE64.encode(&short));
    assert!(matches!(
        decrypt_symmetric_key(&s, &master_key),
        Err(CryptoError::SymKeyLength(32))
    ));
    let foreign = make_type2_cipherstring(&[1; 32], &[2; 32], &iv, &[0; 64]);
    assert_eq!(
        decrypt_symmetric_key(&foreign, &master_key)
            .unwrap_err()
            .message(),
        "invalid cipher string format: decrypt symmetric key (tried stretched + legacy)"
    );
}

#[test]
fn only_64_bytes_make_a_key() {
    let bytes: Vec<u8> = (0..64).collect();
    let key = key_from_bytes(&bytes).unwrap();
    assert_eq!(key.enc_key, bytes[..32]);
    assert_eq!(key.mac_key, bytes[32..]);
    assert!(key_from_bytes(&bytes[1..]).is_none());
}

#[test]
fn bytes_that_are_no_private_key_are_refused() {
    assert!(matches!(
        PrivateKey::from_pkcs8_der(&[1, 2, 3]),
        Err(CryptoError::Pkcs8(_))
    ));
}

#[test]
fn an_rsa_ciphertext_of_the_wrong_key_is_refused() {
    let mut rng = rand::thread_rng();
    let private_key = RsaPrivateKey::new(&mut rng, 2048).unwrap();
    let cs = CipherString {
        enc_type: 4,
        iv: vec![],
        ct: vec![1; 256],
        mac: vec![],
    };
    assert!(matches!(
        cs.decrypt_rsa(&held(&private_key)),
        Err(CryptoError::Rsa(_))
    ));
    let sha256 = CipherString {
        enc_type: 3,
        iv: vec![],
        ct: vec![1; 256],
        mac: vec![],
    };
    assert!(matches!(
        sha256.decrypt_rsa(&held(&private_key)),
        Err(CryptoError::Rsa(_))
    ));
}
