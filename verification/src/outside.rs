//! Calls into cryptographic, encoding, clock and identifier crates.
//!
//! Every function here only makes the call and converts its arguments and
//! result. What the call computes is named by a spec function where it takes
//! pages to state.
use vstd::prelude::*;

use aes::Aes256;
use argon2::{Algorithm, Argon2, Params, Version};
use base64::engine::general_purpose::STANDARD as BASE64;
use base64::Engine;
use cbc::cipher::block_padding::NoPadding;
use cbc::cipher::{BlockDecryptMut, KeyIvInit};
use hkdf::Hkdf;
use hmac::{Hmac, Mac};
use pbkdf2::pbkdf2_hmac;
use pkcs8::DecodePrivateKey;
use rsa::{Oaep, RsaPrivateKey};
use sha1::Sha1;
use sha2::Sha256;
use subtle::ConstantTimeEq;

verus! {

/// The view of bytes or of the text of an error.
pub open spec fn bytes_result(r: Result<Vec<u8>, String>) -> Result<Seq<u8>, Seq<char>> {
    match r {
        Ok(bytes) => Ok(bytes@),
        Err(text) => Err(text@),
    }
}

// ---------------------------------------------------------------------------
// Base64
// ---------------------------------------------------------------------------

/// What decoding a text with the standard Base64 alphabet and padding gives:
/// the bytes, or the text of the `base64::DecodeError`.
pub uninterp spec fn base64_decoded(text: Seq<char>) -> Result<Seq<u8>, Seq<char>>;

/// What encoding bytes with the standard Base64 alphabet and padding gives.
pub uninterp spec fn base64_encoded(bytes: Seq<u8>) -> Seq<char>;

/// A character of the standard Base64 alphabet, or padding.
pub open spec fn is_base64_char(c: char) -> bool {
    ||| 'A' <= c <= 'Z'
    ||| 'a' <= c <= 'z'
    ||| '0' <= c <= '9'
    ||| c == '+'
    ||| c == '/'
    ||| c == '='
}

/// Whether a text holds such characters only.
pub open spec fn in_base64_alphabet(text: Seq<char>) -> bool {
    forall|i: int| 0 <= i < text.len() ==> is_base64_char(#[trigger] text[i])
}

/// Whether decoding a text gives these bytes.
pub open spec fn base64_decodes_to(text: Seq<char>, bytes: Seq<u8>) -> bool {
    base64_decoded(text) == Ok::<Seq<u8>, Seq<char>>(bytes)
}

/// `Engine::decode` of the `STANDARD` engine depends on the text alone.
#[verifier::external_body]
pub(crate) fn base64_decode(text: &str) -> (r: Result<Vec<u8>, String>)
    ensures
        bytes_result(r) == base64_decoded(text@),
{
    BASE64.decode(text).map_err(|e| e.to_string())
}

/// `Engine::encode` of the `STANDARD` engine depends on the bytes alone, uses
/// the characters of its alphabet only, and is undone by decoding. It panics
/// where the encoded length does not fit in `usize`.
#[verifier::external_body]
pub(crate) fn base64_encode(bytes: &[u8]) -> (r: String)
    requires
        bytes@.len() < usize::MAX / 2,
    ensures
        r@ == base64_encoded(bytes@),
        in_base64_alphabet(r@),
        base64_decodes_to(r@, bytes@),
{
    BASE64.encode(bytes)
}

// ---------------------------------------------------------------------------
// Symmetric primitives
// ---------------------------------------------------------------------------

/// The AES-256-CBC decryption of whole blocks, padding left in place.
pub uninterp spec fn aes256_cbc_plain(key: Seq<u8>, iv: Seq<u8>, ct: Seq<u8>) -> Seq<u8>;

/// `cbc::Decryptor::<Aes256>::decrypt_padded_mut` without padding decrypts in
/// place, so what comes out is as long as what went in. It refuses, or the
/// constructor panics on, other lengths than those asked for here.
#[verifier::external_body]
pub(crate) fn aes256_cbc_decrypt(key: &[u8], iv: &[u8], ct: &[u8]) -> (r: Vec<u8>)
    requires
        key@.len() == 32,
        iv@.len() == 16,
        ct@.len() > 0,
        ct@.len() % 16 == 0,
    ensures
        r@ == aes256_cbc_plain(key@, iv@, ct@),
        r@.len() == ct@.len(),
{
    let mut buf = ct.to_vec();
    cbc::Decryptor::<Aes256>::new(key.into(), iv.into())
        .decrypt_padded_mut::<NoPadding>(&mut buf)
        .expect("whole blocks");
    buf
}

/// The HMAC-SHA256 tag of a message.
pub uninterp spec fn hmac_sha256_tag(key: Seq<u8>, message: Seq<u8>) -> Seq<u8>;

/// `Hmac::<Sha256>` accepts keys of any length. Updating it with two pieces is
/// updating it with their concatenation; the tag has 32 bytes.
#[verifier::external_body]
pub(crate) fn hmac_sha256(key: &[u8], first: &[u8], second: &[u8]) -> (r: Vec<u8>)
    ensures
        r@ == hmac_sha256_tag(key@, first@ + second@),
        r@.len() == 32,
{
    let mut mac = Hmac::<Sha256>::new_from_slice(key).expect("HMAC accepts any key size");
    mac.update(first);
    mac.update(second);
    mac.finalize().into_bytes().to_vec()
}

/// `ConstantTimeEq::ct_eq` on byte slices tells whether they have the same
/// length and the same bytes.
#[verifier::external_body]
pub(crate) fn constant_time_eq(a: &[u8], b: &[u8]) -> (r: bool)
    ensures
        r == (a@ == b@),
{
    a.ct_eq(b).into()
}

// ---------------------------------------------------------------------------
// Key derivation
// ---------------------------------------------------------------------------

/// The 32 bytes that PBKDF2-HMAC-SHA256 derives.
pub uninterp spec fn pbkdf2_sha256_key(
    password: Seq<u8>,
    salt: Seq<u8>,
    rounds: u32,
) -> Seq<u8>;

/// `pbkdf2_hmac::<Sha256>` fills the buffer it is given, here 32 bytes, from
/// its other arguments alone.
#[verifier::external_body]
pub(crate) fn pbkdf2_sha256(password: &[u8], salt: &[u8], rounds: u32) -> (r: Vec<u8>)
    ensures
        r@ == pbkdf2_sha256_key(password@, salt@, rounds),
        r@.len() == 32,
{
    let mut key = vec![0u8; 32];
    pbkdf2_hmac::<Sha256>(password, salt, rounds, &mut key);
    key
}

/// Why `argon2::Params::new` refuses parameters, in the words of its error.
pub open spec fn argon2_params_fault(m_cost: u32, t_cost: u32, p_cost: u32) -> Option<Seq<char>> {
    if m_cost < 8 || m_cost < p_cost * 8 {
        Some("memory cost is too small"@)
    } else if t_cost < 1 {
        Some("time cost is too small"@)
    } else if p_cost < 1 {
        Some("not enough threads"@)
    } else if p_cost > 0xFF_FFFF {
        Some("too many threads"@)
    } else {
        None
    }
}

/// `argon2::Params::new`, for an output of 32 bytes, checks the costs in a
/// fixed order. Past the first check it multiplies the parallelism by 8, which
/// must then fit in `u32`.
#[verifier::external_body]
pub(crate) fn argon2_check_params(m_cost: u32, t_cost: u32, p_cost: u32) -> (r: Result<(), String>)
    requires
        m_cost < 8 || p_cost * 8 <= u32::MAX,
    ensures
        match r {
            Ok(_) => argon2_params_fault(m_cost, t_cost, p_cost) is None,
            Err(text) => argon2_params_fault(m_cost, t_cost, p_cost) == Some(text@),
        },
{
    Params::new(m_cost, t_cost, p_cost, Some(32)).map(|_| ()).map_err(|e| e.to_string())
}

/// Why Argon2 refuses a password or a salt, in the words of its error.
pub open spec fn argon2_input_fault(password_len: nat, salt_len: nat) -> Option<Seq<char>> {
    if password_len > 0xFFFF_FFFF {
        Some("password is too long"@)
    } else if salt_len < 8 {
        Some("salt is too short"@)
    } else if salt_len > 0xFFFF_FFFF {
        Some("salt is too long"@)
    } else {
        None
    }
}

/// The 32 bytes that Argon2id, version 0x13, derives.
pub uninterp spec fn argon2id_key(
    password: Seq<u8>,
    salt: Seq<u8>,
    m_cost: u32,
    t_cost: u32,
    p_cost: u32,
) -> Seq<u8>;

/// `Argon2::hash_password_into` with parameters that `Params::new` accepts
/// fails on a password or salt of a length out of bounds only.
#[verifier::external_body]
pub(crate) fn argon2id(
    password: &[u8],
    salt: &[u8],
    m_cost: u32,
    t_cost: u32,
    p_cost: u32,
) -> (r: Result<Vec<u8>, String>)
    requires
        argon2_params_fault(m_cost, t_cost, p_cost) is None,
    ensures
        match r {
            Ok(key) => {
                &&& argon2_input_fault(password@.len(), salt@.len()) is None
                &&& key@ == argon2id_key(password@, salt@, m_cost, t_cost, p_cost)
                &&& key@.len() == 32
            },
            Err(text) => argon2_input_fault(password@.len(), salt@.len()) == Some(text@),
        },
{
    let params = Params::new(m_cost, t_cost, p_cost, Some(32)).expect("accepted parameters");
    let mut key = vec![0u8; 32];
    Argon2::new(Algorithm::Argon2id, Version::V0x13, params)
        .hash_password_into(password, salt, &mut key)
        .map_err(|e| e.to_string())?;
    Ok(key)
}

/// The 32 bytes that HKDF-Expand-SHA256 derives.
pub uninterp spec fn hkdf_sha256_key(prk: Seq<u8>, info: Seq<u8>) -> Seq<u8>;

/// `Hkdf::<Sha256>::from_prk` refuses keys of less than 32 bytes; `expand` to
/// 32 bytes never fails.
#[verifier::external_body]
pub(crate) fn hkdf_sha256_expand(prk: &[u8], info: &[u8]) -> (r: Option<Vec<u8>>)
    ensures
        match r {
            Some(key) => {
                &&& prk@.len() >= 32
                &&& key@ == hkdf_sha256_key(prk@, info@)
                &&& key@.len() == 32
            },
            None => prk@.len() < 32,
        },
{
    let hk = Hkdf::<Sha256>::from_prk(prk).ok()?;
    let mut key = vec![0u8; 32];
    hk.expand(info, &mut key).ok()?;
    Some(key)
}

// ---------------------------------------------------------------------------
// RSA
// ---------------------------------------------------------------------------

/// Why some bytes are not the PKCS#8 DER encoding of an RSA private key, in
/// the words of the `pkcs8::Error`; `None` where they are.
pub uninterp spec fn pkcs8_rsa_fault(der: Seq<u8>) -> Option<Seq<char>>;

/// `RsaPrivateKey::from_pkcs8_der` accepts or refuses bytes by their contents
/// alone.
#[verifier::external_body]
pub(crate) fn pkcs8_rsa_check(der: &[u8]) -> (r: Result<(), String>)
    ensures
        match r {
            Ok(_) => pkcs8_rsa_fault(der@) is None,
            Err(text) => pkcs8_rsa_fault(der@) == Some(text@),
        },
{
    RsaPrivateKey::from_pkcs8_der(der).map(|_| ()).map_err(|e| e.to_string())
}

/// What RSA-OAEP decryption with SHA-256 gives: the message, or the text of
/// the `rsa::Error`.
pub uninterp spec fn rsa_oaep_sha256_plain(der: Seq<u8>, ct: Seq<u8>) -> Result<
    Seq<u8>,
    Seq<char>,
>;

/// `RsaPrivateKey::decrypt` with `Oaep::new::<Sha256>`, without blinding,
/// depends on the key and the ciphertext alone.
#[verifier::external_body]
pub(crate) fn rsa_oaep_sha256_decrypt(der: &[u8], ct: &[u8]) -> (r: Result<Vec<u8>, String>)
    requires
        pkcs8_rsa_fault(der@) is None,
    ensures
        bytes_result(r) == rsa_oaep_sha256_plain(der@, ct@),
{
    let key = RsaPrivateKey::from_pkcs8_der(der).expect("accepted key");
    key.decrypt(Oaep::new::<Sha256>(), ct).map_err(|e| e.to_string())
}

/// What RSA-OAEP decryption with SHA-1 gives: the message, or the text of the
/// `rsa::Error`.
pub uninterp spec fn rsa_oaep_sha1_plain(der: Seq<u8>, ct: Seq<u8>) -> Result<Seq<u8>, Seq<char>>;

/// `RsaPrivateKey::decrypt` with `Oaep::new::<Sha1>`, without blinding,
/// depends on the key and the ciphertext alone.
#[verifier::external_body]
pub(crate) fn rsa_oaep_sha1_decrypt(der: &[u8], ct: &[u8]) -> (r: Result<Vec<u8>, String>)
    requires
        pkcs8_rsa_fault(der@) is None,
    ensures
        bytes_result(r) == rsa_oaep_sha1_plain(der@, ct@),
{
    let key = RsaPrivateKey::from_pkcs8_der(der).expect("accepted key");
    key.decrypt(Oaep::new::<Sha1>(), ct).map_err(|e| e.to_string())
}

// ---------------------------------------------------------------------------
// Clock and identifiers
// ---------------------------------------------------------------------------

/// Whether the characters of `s` from `i` on follow `shape`, in which `0` stands
/// for any decimal digit and every other character for itself.
pub open spec fn follows(s: Seq<char>, i: int, shape: Seq<char>) -> bool {
    &&& 0 <= i
    &&& i + shape.len() <= s.len()
    &&& forall|k: int|
        0 <= k < shape.len() ==> if #[trigger] shape[k] == '0' {
            '0' <= s[i + k] <= '9'
        } else {
            s[i + k] == shape[k]
        }
}

/// The fraction of a second in `s[i..j]`: none, or a point and 3, 6 or 9 digits.
pub open spec fn is_fraction(s: Seq<char>, i: int, j: int) -> bool {
    ||| j == i
    ||| j == i + 4 && follows(s, i, ".000"@)
    ||| j == i + 7 && follows(s, i, ".000000"@)
    ||| j == i + 10 && follows(s, i, ".000000000"@)
}

/// A year in `s[0..y]`: four digits, or a plus sign and at least four digits.
pub open spec fn is_year(s: Seq<char>, y: int) -> bool {
    &&& if s.len() > 0 && s[0] == '+' {
        y >= 5
    } else {
        y == 4
    }
    &&& y <= s.len()
    &&& forall|k: int| 0 < k < y ==> '0' <= #[trigger] s[k] <= '9'
    &&& s[0] == '+' || '0' <= s[0] <= '9'
}

/// A date and time in RFC 3339 form, in UTC, with a year of `y` characters.
pub open spec fn is_rfc3339_from(s: Seq<char>, y: int) -> bool {
    &&& is_year(s, y)
    &&& follows(s, y, "-00-00T00:00:00"@)
    &&& is_fraction(s, y + 15, s.len() - 6)
    &&& s.skip(s.len() - 6) == "+00:00"@
}

/// A date and time in RFC 3339 form, in UTC.
pub open spec fn is_rfc3339_utc(s: Seq<char>) -> bool {
    exists|y: int| is_rfc3339_from(s, y)
}

/// The current time (`chrono::Utc::now`) as `chrono::DateTime::to_rfc3339`
/// writes it: a date, `T`, a time of day, a fraction of a second where there is
/// one, and the offset of UTC. A year past 9999 has a sign and more digits.
/// Which moment it is, is left to the clock. The call panics where the clock
/// stands before 1970.
#[verifier::external_body]
pub(crate) fn now_rfc3339() -> (r: String)
    ensures
        is_rfc3339_utc(r@),
{
    chrono::Utc::now().to_rfc3339()
}

/// A lowercase hexadecimal digit.
pub open spec fn is_lower_hex(c: char) -> bool {
    '0' <= c <= '9' || 'a' <= c <= 'f'
}

/// The hyphenated text of a version 4 UUID.
pub open spec fn is_uuid_v4(s: Seq<char>) -> bool {
    &&& s.len() == 36
    &&& forall|i: int|
        0 <= i < 36 ==> if i == 8 || i == 13 || i == 18 || i == 23 {
            #[trigger] s[i] == '-'
        } else {
            is_lower_hex(s[i])
        }
    &&& s[14] == '4'
    &&& s[19] == '8' || s[19] == '9' || s[19] == 'a' || s[19] == 'b'
}

/// `Uuid::new_v4`, as text. Which one is left to chance.
#[verifier::external_body]
pub(crate) fn random_id() -> (r: String)
    ensures
        is_uuid_v4(r@),
{
    uuid::Uuid::new_v4().to_string()
}

} // verus!
