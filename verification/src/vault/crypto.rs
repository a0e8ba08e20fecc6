//! Bitwarden-compatible decryption and key derivation.
use vstd::prelude::*;
use vstd::string::*;
use vstd::utf8::*;

use crate::outside;
use crate::outside::{
    aes256_cbc_decrypt, argon2_check_params, argon2id, base64_decode, base64_encode,
    constant_time_eq, hkdf_sha256_expand, hmac_sha256, pbkdf2_sha256, pkcs8_rsa_check,
    rsa_oaep_sha1_decrypt, rsa_oaep_sha256_decrypt,
};
use crate::text;
use crate::text::{
    chars_of, decimal_text, find_char, join, read_unsigned, remove_char, split_chars,
    string_from, string_from_utf8, to_lowercase, trim,
};

verus! {

/// Bitwarden encryption type constants.
pub const ENC_TYPE_AES_CBC256_B64: u8 = 0;

pub const ENC_TYPE_AES_CBC256_HMAC_SHA256_B64: u8 = 2;

pub const ENC_TYPE_RSA2048_OAEP_SHA256_B64: u8 = 3;

pub const ENC_TYPE_RSA2048_OAEP_SHA1_B64: u8 = 4;

/// KDF type constants.
pub const KDF_PBKDF2: u32 = 0;

pub const KDF_ARGON2ID: u32 = 1;

// ---------------------------------------------------------------------------
// Errors
// ---------------------------------------------------------------------------

/// What can go wrong while decrypting or deriving keys.
#[derive(Debug)]
pub enum CryptoError {
    Empty,
    Format(String),
    UnsupportedType(u8),
    Base64(String),
    InvalidIv(usize),
    InvalidCiphertext(usize),
    MacKeyMissing,
    MacMismatch,
    Pkcs7(String),
    NotRsa(u8),
    Rsa(String),
    Pkcs8(String),
    NotRsaKey,
    OrgKeyLength(usize),
    SymKeyLength(usize),
    Kdf(String),
    Hkdf,
    EmptyKey,
}

/// The mathematical form of a [`CryptoError`].
pub enum CryptoFault {
    Empty,
    Format(Seq<char>),
    UnsupportedType(u8),
    Base64(Seq<char>),
    InvalidIv(nat),
    InvalidCiphertext(nat),
    MacKeyMissing,
    MacMismatch,
    Pkcs7(Seq<char>),
    NotRsa(u8),
    Rsa(Seq<char>),
    Pkcs8(Seq<char>),
    NotRsaKey,
    OrgKeyLength(nat),
    SymKeyLength(nat),
    Kdf(Seq<char>),
    Hkdf,
    EmptyKey,
}

impl View for CryptoError {
    type V = CryptoFault;

    open spec fn view(&self) -> CryptoFault {
        match *self {
            CryptoError::Empty => CryptoFault::Empty,
            CryptoError::Format(m) => CryptoFault::Format(m@),
            CryptoError::UnsupportedType(t) => CryptoFault::UnsupportedType(t),
            CryptoError::Base64(m) => CryptoFault::Base64(m@),
            CryptoError::InvalidIv(n) => CryptoFault::InvalidIv(n as nat),
            CryptoError::InvalidCiphertext(n) => CryptoFault::InvalidCiphertext(n as nat),
            CryptoError::MacKeyMissing => CryptoFault::MacKeyMissing,
            CryptoError::MacMismatch => CryptoFault::MacMismatch,
            CryptoError::Pkcs7(m) => CryptoFault::Pkcs7(m@),
            CryptoError::NotRsa(t) => CryptoFault::NotRsa(t),
            CryptoError::Rsa(m) => CryptoFault::Rsa(m@),
            CryptoError::Pkcs8(m) => CryptoFault::Pkcs8(m@),
            CryptoError::NotRsaKey => CryptoFault::NotRsaKey,
            CryptoError::OrgKeyLength(n) => CryptoFault::OrgKeyLength(n as nat),
            CryptoError::SymKeyLength(n) => CryptoFault::SymKeyLength(n as nat),
            CryptoError::Kdf(m) => CryptoFault::Kdf(m@),
            CryptoError::Hkdf => CryptoFault::Hkdf,
            CryptoError::EmptyKey => CryptoFault::EmptyKey,
        }
    }
}

/// The view of a result.
pub open spec fn outcome<T: View>(r: Result<T, CryptoError>) -> Result<T::V, CryptoFault> {
    match r {
        Ok(v) => Ok(v@),
        Err(e) => Err(e@),
    }
}

impl CryptoFault {
    /// What is reported to a reader.
    pub open spec fn message(self) -> Seq<char> {
        match self {
            CryptoFault::Empty => "empty cipher string"@,
            CryptoFault::Format(m) => "invalid cipher string format: "@ + m,
            CryptoFault::UnsupportedType(t) => "unsupported encryption type: "@ + text::decimal(
                t as nat,
            ),
            CryptoFault::Base64(m) => "base64 decode error: "@ + m,
            CryptoFault::InvalidIv(n) => "invalid IV length: expected 16, got "@
                + text::decimal(n),
            CryptoFault::InvalidCiphertext(n) => "invalid ciphertext length: "@
                + text::decimal(n),
            CryptoFault::MacKeyMissing => "MAC key required for type 2 decryption"@,
            CryptoFault::MacMismatch => "MAC verification failed"@,
            CryptoFault::Pkcs7(m) => "PKCS7 unpad error: "@ + m,
            CryptoFault::NotRsa(t) => "not an RSA cipher type: "@ + text::decimal(t as nat),
            CryptoFault::Rsa(m) => "RSA decrypt error: "@ + m,
            CryptoFault::Pkcs8(m) => "PKCS8 parse error: "@ + m,
            CryptoFault::NotRsaKey => "private key is not RSA"@,
            CryptoFault::OrgKeyLength(n) => "unexpected org key length: expected 64, got "@
                + text::decimal(n),
            CryptoFault::SymKeyLength(n) => "unexpected symmetric key length: expected 64, got "@
                + text::decimal(n),
            CryptoFault::Kdf(m) => "KDF error: "@ + m,
            CryptoFault::Hkdf => "HKDF expand error"@,
            CryptoFault::EmptyKey => "empty encrypted key"@,
        }
    }
}

impl CryptoFault {
    /// The messages of the errors beneath this one, outermost first.
    pub open spec fn sources(self) -> Seq<Seq<char>> {
        match self {
            CryptoFault::Base64(m) => seq![m],
            CryptoFault::Rsa(m) => seq![m],
            _ => seq![],
        }
    }
}

impl CryptoError {
    /// The messages of the errors beneath this one, outermost first.
    pub fn sources(&self) -> (r: Vec<String>)
        ensures
            text::texts(r@) == self@.sources(),
    {
        let mut out: Vec<String> = Vec::new();
        match self {
            CryptoError::Base64(m) => out.push(m.clone()),
            CryptoError::Rsa(m) => out.push(m.clone()),
            _ => {},
        }
        proof {
            assert(text::texts(out@) =~= self@.sources());
        }
        out
    }

    /// What is reported to a reader.
    pub fn message(&self) -> (r: String)
        ensures
            r@ == self@.message(),
    {
        match self {
            CryptoError::Empty => "empty cipher string".to_owned(),
            CryptoError::Format(m) => join("invalid cipher string format: ", m.as_str()),
            CryptoError::UnsupportedType(t) => join(
                "unsupported encryption type: ",
                decimal_text(*t as u64).as_str(),
            ),
            CryptoError::Base64(m) => join("base64 decode error: ", m.as_str()),
            CryptoError::InvalidIv(n) => join(
                "invalid IV length: expected 16, got ",
                decimal_text(*n as u64).as_str(),
            ),
            CryptoError::InvalidCiphertext(n) => join(
                "invalid ciphertext length: ",
                decimal_text(*n as u64).as_str(),
            ),
            CryptoError::MacKeyMissing => "MAC key required for type 2 decryption".to_owned(),
            CryptoError::MacMismatch => "MAC verification failed".to_owned(),
            CryptoError::Pkcs7(m) => join("PKCS7 unpad error: ", m.as_str()),
            CryptoError::NotRsa(t) => join(
                "not an RSA cipher type: ",
                decimal_text(*t as u64).as_str(),
            ),
            CryptoError::Rsa(m) => join("RSA decrypt error: ", m.as_str()),
            CryptoError::Pkcs8(m) => join("PKCS8 parse error: ", m.as_str()),
            CryptoError::NotRsaKey => "private key is not RSA".to_owned(),
            CryptoError::OrgKeyLength(n) => join(
                "unexpected org key length: expected 64, got ",
                decimal_text(*n as u64).as_str(),
            ),
            CryptoError::SymKeyLength(n) => join(
                "unexpected symmetric key length: expected 64, got ",
                decimal_text(*n as u64).as_str(),
            ),
            CryptoError::Kdf(m) => join("KDF error: ", m.as_str()),
            CryptoError::Hkdf => "HKDF expand error".to_owned(),
            CryptoError::EmptyKey => "empty encrypted key".to_owned(),
        }
    }
}

// ---------------------------------------------------------------------------
// Keys
// ---------------------------------------------------------------------------

/// AES-256 symmetric key: 32-byte enc key + 32-byte MAC key.
#[derive(Debug)]
pub struct SymmetricKey {
    pub enc_key: Vec<u8>,
    pub mac_key: Vec<u8>,
}

/// The mathematical form of a [`SymmetricKey`].
pub struct KeyView {
    pub enc_key: Seq<u8>,
    pub mac_key: Seq<u8>,
}

impl View for SymmetricKey {
    type V = KeyView;

    open spec fn view(&self) -> KeyView {
        KeyView { enc_key: self.enc_key@, mac_key: self.mac_key@ }
    }
}

impl DeepView for SymmetricKey {
    type V = KeyView;

    open spec fn deep_view(&self) -> KeyView {
        self@
    }
}

impl Default for SymmetricKey {
    fn default() -> (r: Self)
        ensures
            r.enc_key@ == Seq::<u8>::empty(),
            r.mac_key@ == Seq::<u8>::empty(),
    {
        SymmetricKey { enc_key: Vec::new(), mac_key: Vec::new() }
    }
}

impl Clone for SymmetricKey {
    fn clone(&self) -> (r: Self)
        ensures
            r@ == self@,
    {
        let enc_key = self.enc_key.clone();
        let mac_key = self.mac_key.clone();
        proof {
            assert(enc_key@ =~= self.enc_key@);
            assert(mac_key@ =~= self.mac_key@);
        }
        SymmetricKey { enc_key, mac_key }
    }
}


// ---------------------------------------------------------------------------
// PKCS#7 padding
// ---------------------------------------------------------------------------

/// `data` with PKCS#7 padding to a multiple of `block_size`.
pub open spec fn padded(data: Seq<u8>, block_size: nat) -> Seq<u8> {
    let n = (block_size - data.len() % block_size) as nat;
    data + Seq::new(n, |i: int| n as u8)
}

/// What removing the PKCS#7 padding from `data` gives.
pub open spec fn unpadded(data: Seq<u8>, block_size: nat) -> Result<Seq<u8>, CryptoFault> {
    if data.len() == 0 {
        Err(CryptoFault::Pkcs7("empty data"@))
    } else if block_size == 0 || data.len() % block_size != 0 {
        Err(CryptoFault::Pkcs7("data not block-aligned"@))
    } else {
        let pad = data.last();
        if pad == 0 || pad > block_size {
            Err(CryptoFault::Pkcs7("invalid padding length: "@ + text::decimal(pad as nat)))
        } else if exists|i: int| data.len() - pad <= i < data.len() && #[trigger] data[i] != pad {
            Err(CryptoFault::Pkcs7("invalid PKCS7 padding bytes"@))
        } else {
            Ok(data.take(data.len() - pad))
        }
    }
}

/// Removing the padding gives back what was padded.
pub proof fn law_unpad_undoes_pad(data: Seq<u8>, block_size: nat)
    requires
        1 <= block_size <= 255,
    ensures
        padded(data, block_size).len() % block_size == 0,
        unpadded(padded(data, block_size), block_size) == Ok::<Seq<u8>, CryptoFault>(data),
{
    let n = (block_size - data.len() % block_size) as nat;
    let p = padded(data, block_size);
    assert(p.len() == data.len() + n);
    let q = data.len() / block_size;
    assert(data.len() == block_size * q + data.len() % block_size) by (nonlinear_arith)
        requires
            block_size > 0,
            q == data.len() / block_size,
    ;
    assert(p.len() == block_size * q + block_size);
    assert(block_size * q + block_size == block_size * (q + 1)) by (nonlinear_arith);
    assert((block_size * (q + 1)) % block_size == 0) by {
        vstd::arithmetic::div_mod::lemma_mod_multiples_basic((q + 1) as int, block_size as int);
        assert((q + 1) * block_size == block_size * (q + 1)) by (nonlinear_arith);
    }
    assert(p.last() == n as u8);
    assert(p.take(p.len() - n) =~= data);
}

/// Remove PKCS#7 padding from a block-aligned buffer.
pub fn pkcs7_unpad(data: &[u8], block_size: usize) -> (r: Result<Vec<u8>, CryptoError>)
    ensures
        outcome(r) == unpadded(data@, block_size as nat),
{
    if data.len() == 0 {
        return Err(CryptoError::Pkcs7("empty data".to_owned()));
    }
    if block_size == 0 || data.len() % block_size != 0 {
        return Err(CryptoError::Pkcs7("data not block-aligned".to_owned()));
    }
    let pad: u8 = data[data.len() - 1];
    let pad_len: usize = pad as usize;
    if pad_len == 0 || pad_len > block_size {
        return Err(
            CryptoError::Pkcs7(
                join("invalid padding length: ", decimal_text(pad as u64).as_str()),
            ),
        );
    }
    proof {
        assert(data@.len() >= block_size) by (nonlinear_arith)
            requires
                data@.len() > 0,
                block_size > 0,
                data@.len() % (block_size as nat) == 0,
        ;
    }
    let pad_start: usize = data.len() - pad_len;
    let mut i: usize = pad_start;
    while i < data.len()
        invariant
            pad_start <= i <= data@.len(),
            0 < data@.len(),
            0 < block_size,
            data@.len() % (block_size as nat) == 0,
            pad == data@.last(),
            0 < pad <= block_size,
            pad_start == data@.len() - pad,
            forall|k: int| pad_start <= k < i ==> data@[k] == pad,
        decreases data@.len() - i,
    {
        if data[i] != pad {
            proof {
                assert(data@[i as int] != pad);
            }
            return Err(CryptoError::Pkcs7("invalid PKCS7 padding bytes".to_owned()));
        }
        i = i + 1;
    }
    Ok(copy_range(data, 0, pad_start))
}

/// The bytes of `data` from `from` up to `to`.
fn copy_range(data: &[u8], from: usize, to: usize) -> (r: Vec<u8>)
    requires
        from <= to <= data@.len(),
    ensures
        r@ == data@.subrange(from as int, to as int),
{
    let mut out: Vec<u8> = Vec::new();
    let mut i: usize = from;
    while i < to
        invariant
            from <= i <= to <= data@.len(),
            out@ == data@.subrange(from as int, i as int),
        decreases to - i,
    {
        out.push(data[i]);
        i = i + 1;
        proof {
            assert(data@.subrange(from as int, i as int) =~= data@.subrange(
                from as int,
                i - 1,
            ).push(data@[i - 1]));
        }
    }
    out
}


// ---------------------------------------------------------------------------
// Cipher strings
// ---------------------------------------------------------------------------

/// A parsed Bitwarden cipher string.
///
/// AES format:  `<type>.<iv_b64>|<ct_b64>|<mac_b64>`  (type 2)
///              `<type>.<iv_b64>|<ct_b64>`             (type 0)
/// RSA format:  `<type>.<ct_b64>`                      (types 3, 4)
#[derive(Debug)]
pub struct CipherString {
    pub enc_type: u8,
    pub iv: Vec<u8>,
    pub ct: Vec<u8>,
    pub mac: Vec<u8>,
}

/// The mathematical form of a [`CipherString`].
pub struct CipherView {
    pub enc_type: u8,
    pub iv: Seq<u8>,
    pub ct: Seq<u8>,
    pub mac: Seq<u8>,
}

impl View for CipherString {
    type V = CipherView;

    open spec fn view(&self) -> CipherView {
        CipherView { enc_type: self.enc_type, iv: self.iv@, ct: self.ct@, mac: self.mac@ }
    }
}

/// The encryption type that the text before the first `.` writes: a decimal
/// number of at most 255, with an optional `+` before it.
pub open spec fn enc_type_of(s: Seq<char>) -> Option<nat> {
    text::unsigned(
        if s.len() > 0 && s[0] == '+' {
            s.skip(1)
        } else {
            s
        },
        255,
    )
}

/// The encoded parts that stand after the type `t`.
pub open spec fn body_parts(t: u8, rest: Seq<char>) -> Result<(u8, Seq<Seq<char>>), CryptoFault> {
    let pieces = text::split(rest, '|');
    if t == ENC_TYPE_AES_CBC256_B64 {
        if pieces.len() == 2 {
            Ok((t, pieces))
        } else {
            let got: nat = if pieces.len() > 3 {
                3
            } else {
                pieces.len()
            };
            Err(CryptoFault::Format("AesCbc256_B64 expects 2 parts, got "@ + text::decimal(got)))
        }
    } else if t == ENC_TYPE_AES_CBC256_HMAC_SHA256_B64 {
        if pieces.len() == 3 {
            Ok((t, pieces))
        } else {
            let got: nat = if pieces.len() > 4 {
                4
            } else {
                pieces.len()
            };
            Err(
                CryptoFault::Format(
                    "AesCbc256_HmacSha256_B64 expects 3 parts, got "@ + text::decimal(got),
                ),
            )
        }
    } else if t == ENC_TYPE_RSA2048_OAEP_SHA256_B64 || t == ENC_TYPE_RSA2048_OAEP_SHA1_B64 {
        Ok((t, seq![text::without(rest, '|')]))
    } else {
        Err(CryptoFault::UnsupportedType(t))
    }
}

/// The type and the encoded parts of a cipher string.
pub open spec fn cipher_parts(s: Seq<char>) -> Result<(u8, Seq<Seq<char>>), CryptoFault> {
    let dot = text::first_from(s, '.', 0);
    if s.len() == 0 {
        Err(CryptoFault::Empty)
    } else if dot >= s.len() {
        Err(CryptoFault::Format("missing type separator"@))
    } else {
        match enc_type_of(s.take(dot)) {
            None => Err(CryptoFault::Format("invalid type: "@ + s.take(dot))),
            Some(t) => body_parts(t as u8, s.skip(dot + 1)),
        }
    }
}

/// How many parts a cipher string of type `t` has.
pub open spec fn part_count(t: u8) -> nat {
    if t == ENC_TYPE_AES_CBC256_B64 {
        2
    } else if t == ENC_TYPE_AES_CBC256_HMAC_SHA256_B64 {
        3
    } else {
        1
    }
}

/// The first decoding error at or after part `i`.
pub open spec fn first_fault(decoded: Seq<Result<Seq<u8>, Seq<char>>>, i: int) -> Option<Seq<char>>
    decreases decoded.len() - i,
{
    if i < 0 || i >= decoded.len() {
        None
    } else {
        match decoded[i] {
            Err(m) => Some(m),
            Ok(_) => first_fault(decoded, i + 1),
        }
    }
}

/// The cipher string of type `t` whose parts decode to `decoded`.
pub open spec fn assembled(t: u8, decoded: Seq<Result<Seq<u8>, Seq<char>>>) -> Result<
    CipherView,
    CryptoFault,
> {
    match first_fault(decoded, 0) {
        Some(m) => Err(CryptoFault::Base64(m)),
        None => Ok(
            if part_count(t) == 1 {
                CipherView {
                    enc_type: t,
                    iv: seq![],
                    ct: decoded[0]->Ok_0,
                    mac: seq![],
                }
            } else {
                CipherView {
                    enc_type: t,
                    iv: decoded[0]->Ok_0,
                    ct: decoded[1]->Ok_0,
                    mac: if part_count(t) == 3 {
                        decoded[2]->Ok_0
                    } else {
                        seq![]
                    },
                }
            },
        ),
    }
}

/// What parsing a cipher string gives.
pub open spec fn parsed(s: Seq<char>) -> Result<CipherView, CryptoFault> {
    match cipher_parts(s) {
        Err(e) => Err(e),
        Ok((t, parts)) => assembled(
            t,
            parts.map_values(|p: Seq<char>| outside::base64_decoded(p)),
        ),
    }
}

/// The views of decoding results.
pub open spec fn decoded_views(v: Seq<Result<Vec<u8>, String>>) -> Seq<
    Result<Seq<u8>, Seq<char>>,
> {
    v.map_values(|r: Result<Vec<u8>, String>| outside::bytes_result(r))
}

/// The view of the type and parts of a cipher string.
pub open spec fn parts_view(r: Result<(u8, Vec<String>), CryptoError>) -> Result<
    (u8, Seq<Seq<char>>),
    CryptoFault,
> {
    match r {
        Ok(p) => Ok((p.0, text::texts(p.1@))),
        Err(e) => Err(e@),
    }
}

/// Reads the encryption type from `cs[0..to]`.
fn read_enc_type(cs: &Vec<char>, to: usize) -> (r: Option<u8>)
    requires
        to <= cs@.len(),
    ensures
        match r {
            Some(t) => enc_type_of(cs@.take(to as int)) == Some(t as nat),
            None => enc_type_of(cs@.take(to as int)) is None,
        },
{
    let from: usize = if to > 0 && cs[0] == '+' {
        1
    } else {
        0
    };
    proof {
        let s = cs@.take(to as int);
        if from == 1 {
            assert(s.skip(1) =~= cs@.subrange(1, to as int));
        } else {
            assert(s =~= cs@.subrange(0, to as int));
        }
    }
    match read_unsigned(cs, from, to, 255) {
        Some(n) => Some(n as u8),
        None => None,
    }
}

impl CipherString {
    /// Split a cipher string into its type and its encoded parts.
    pub fn split(s: &str) -> (r: Result<(u8, Vec<String>), CryptoError>)
        ensures
            parts_view(r) == cipher_parts(s@),
            r matches Ok(p) ==> p.1@.len() == part_count(p.0) && (p.0 == 0 || 2 <= p.0 <= 4),
    {
        if s.is_empty() {
            return Err(CryptoError::Empty);
        }
        let cs = chars_of(s);
        let dot = find_char(&cs, '.', 0);
        if dot >= cs.len() {
            return Err(CryptoError::Format("missing type separator".to_owned()));
        }
        proof {
            assert(cs@.subrange(0, dot as int) =~= cs@.take(dot as int));
        }
        let enc_type = match read_enc_type(&cs, dot) {
            Some(t) => t,
            None => {
                let type_str = string_from(&cs, 0, dot);
                return Err(CryptoError::Format(join("invalid type: ", type_str.as_str())));
            },
        };
        if enc_type == ENC_TYPE_AES_CBC256_B64 {
            let parts = split_chars(&cs, dot + 1, '|');
            if parts.len() != 2 {
                let got: usize = if parts.len() > 3 {
                    3
                } else {
                    parts.len()
                };
                return Err(
                    CryptoError::Format(
                        join(
                            "AesCbc256_B64 expects 2 parts, got ",
                            decimal_text(got as u64).as_str(),
                        ),
                    ),
                );
            }
            Ok((enc_type, parts))
        } else if enc_type == ENC_TYPE_AES_CBC256_HMAC_SHA256_B64 {
            let parts = split_chars(&cs, dot + 1, '|');
            if parts.len() != 3 {
                let got: usize = if parts.len() > 4 {
                    4
                } else {
                    parts.len()
                };
                return Err(
                    CryptoError::Format(
                        join(
                            "AesCbc256_HmacSha256_B64 expects 3 parts, got ",
                            decimal_text(got as u64).as_str(),
                        ),
                    ),
                );
            }
            Ok((enc_type, parts))
        } else if enc_type == ENC_TYPE_RSA2048_OAEP_SHA256_B64 || enc_type
            == ENC_TYPE_RSA2048_OAEP_SHA1_B64 {
            let raw = remove_char(&cs, dot + 1, '|');
            let mut parts: Vec<String> = Vec::new();
            parts.push(raw);
            proof {
                assert(text::texts(parts@) =~= seq![raw@]);
            }
            Ok((enc_type, parts))
        } else {
            Err(CryptoError::UnsupportedType(enc_type))
        }
    }

    /// Build a cipher string of type `enc_type` from what its parts decode to.
    pub fn assemble(enc_type: u8, decoded: Vec<Result<Vec<u8>, String>>) -> (r: Result<
        Self,
        CryptoError,
    >)
        requires
            decoded@.len() == part_count(enc_type),
        ensures
            outcome(r) == assembled(enc_type, decoded_views(decoded@)),
    {
        let ghost views = decoded_views(decoded@);
        let mut bytes: Vec<Vec<u8>> = Vec::new();
        let mut i: usize = 0;
        while i < decoded.len()
            invariant
                i <= decoded@.len(),
                views == decoded_views(decoded@),
                bytes@.len() == i,
                forall|k: int|
                    0 <= k < i ==> #[trigger] views[k] == Ok::<Seq<u8>, Seq<char>>(bytes@[k]@),
                first_fault(views, 0) == first_fault(views, i as int),
            decreases decoded@.len() - i,
        {
            match &decoded[i] {
                Ok(b) => {
                    let copy = copy_range(b.as_slice(), 0, b.len());
                    proof {
                        assert(copy@ =~= b@);
                        assert(views[i as int] == Ok::<Seq<u8>, Seq<char>>(copy@));
                    }
                    bytes.push(copy);
                },
                Err(m) => {
                    proof {
                        assert(views[i as int] == Err::<Seq<u8>, Seq<char>>(m@));
                    }
                    return Err(CryptoError::Base64(m.clone()));
                },
            }
            i = i + 1;
        }
        let mut mac: Vec<u8> = Vec::new();
        let mut iv: Vec<u8> = Vec::new();
        proof {
            assert(mac@ =~= seq![]);
        }
        if bytes.len() == 3 {
            mac = copy_range(bytes[2].as_slice(), 0, bytes[2].len());
            proof {
                assert(mac@ =~= bytes@[2]@);
            }
        }
        let at: usize = if bytes.len() == 1 {
            0
        } else {
            1
        };
        if bytes.len() > 1 {
            iv = copy_range(bytes[0].as_slice(), 0, bytes[0].len());
            proof {
                assert(iv@ =~= bytes@[0]@);
            }
        }
        let ct = copy_range(bytes[at].as_slice(), 0, bytes[at].len());
        proof {
            assert(ct@ =~= bytes@[at as int]@);
            assert(views[0] == Ok::<Seq<u8>, Seq<char>>(bytes@[0]@));
        }
        Ok(CipherString { enc_type, iv, ct, mac })
    }

    /// Parse a Bitwarden cipher string.
    pub fn parse(s: &str) -> (r: Result<Self, CryptoError>)
        ensures
            outcome(r) == parsed(s@),
    {
        let (enc_type, parts) = match Self::split(s) {
            Ok(p) => p,
            Err(e) => return Err(e),
        };
        let ghost names = text::texts(parts@);
        let ghost want = names.map_values(|p: Seq<char>| outside::base64_decoded(p));
        let mut decoded: Vec<Result<Vec<u8>, String>> = Vec::new();
        let mut i: usize = 0;
        while i < parts.len()
            invariant
                i <= parts@.len(),
                names == text::texts(parts@),
                want == names.map_values(|p: Seq<char>| outside::base64_decoded(p)),
                decoded_views(decoded@) == want.take(i as int),
            decreases parts@.len() - i,
        {
            let d = base64_decode(parts[i].as_str());
            proof {
                assert(want.take(i + 1) =~= want.take(i as int).push(want[i as int]));
                assert(decoded_views(decoded@.push(d)) =~= decoded_views(decoded@).push(
                    outside::bytes_result(d),
                ));
            }
            decoded.push(d);
            i = i + 1;
        }
        proof {
            assert(want.take(i as int) =~= want);
            assert(decoded_views(decoded@).len() == decoded@.len());
        }
        Self::assemble(enc_type, decoded)
    }
}


// ---------------------------------------------------------------------------
// Decryption
// ---------------------------------------------------------------------------

/// What decrypting a cipher string with a symmetric key gives.
pub open spec fn decrypted(c: CipherView, key: KeyView) -> Result<Seq<u8>, CryptoFault> {
    if c.iv.len() != 16 {
        Err(CryptoFault::InvalidIv(c.iv.len()))
    } else if c.ct.len() == 0 || c.ct.len() % 16 != 0 {
        Err(CryptoFault::InvalidCiphertext(c.ct.len()))
    } else if c.enc_type == ENC_TYPE_AES_CBC256_HMAC_SHA256_B64 && key.mac_key.len() == 0 {
        Err(CryptoFault::MacKeyMissing)
    } else if c.enc_type == ENC_TYPE_AES_CBC256_HMAC_SHA256_B64 && c.mac
        != outside::hmac_sha256_tag(key.mac_key, c.iv + c.ct) {
        Err(CryptoFault::MacMismatch)
    } else if key.enc_key.len() != 32 {
        Err(CryptoFault::Format("enc_key must be 32 bytes"@))
    } else {
        unpadded(outside::aes256_cbc_plain(key.enc_key, c.iv, c.ct), 16)
    }
}

/// The text that decrypted bytes encode.
pub open spec fn utf8_text(bytes: Seq<u8>) -> Result<Seq<char>, CryptoFault> {
    if valid_utf8(bytes) {
        Ok(decode_utf8(bytes))
    } else {
        Err(CryptoFault::Format("UTF-8 decode: "@ + text::utf8_fault_text(bytes)))
    }
}

/// What decrypting a cipher string to text gives.
pub open spec fn decrypted_to_text(c: CipherView, key: KeyView) -> Result<Seq<char>, CryptoFault> {
    match decrypted(c, key) {
        Ok(bytes) => utf8_text(bytes),
        Err(e) => Err(e),
    }
}

/// What parsing and decrypting a text gives; an empty text stays empty.
pub open spec fn decrypted_text(s: Seq<char>, key: KeyView) -> Result<Seq<char>, CryptoFault> {
    if s.len() == 0 {
        Ok(s)
    } else {
        match parsed(s) {
            Ok(c) => decrypted_to_text(c, key),
            Err(e) => Err(e),
        }
    }
}

/// What decrypting a cipher string with an RSA key gives.
pub open spec fn rsa_decrypted(c: CipherView, der: Seq<u8>) -> Result<Seq<u8>, CryptoFault> {
    if c.enc_type == ENC_TYPE_RSA2048_OAEP_SHA256_B64 {
        rsa_outcome(outside::rsa_oaep_sha256_plain(der, c.ct))
    } else if c.enc_type == ENC_TYPE_RSA2048_OAEP_SHA1_B64 {
        rsa_outcome(outside::rsa_oaep_sha1_plain(der, c.ct))
    } else {
        Err(CryptoFault::NotRsa(c.enc_type))
    }
}

/// The result of an RSA decryption, its error among the faults.
pub open spec fn rsa_outcome(r: Result<Seq<u8>, Seq<char>>) -> Result<Seq<u8>, CryptoFault> {
    match r {
        Ok(bytes) => Ok(bytes),
        Err(m) => Err(CryptoFault::Rsa(m)),
    }
}

/// An RSA private key, kept as its PKCS#8 DER encoding.
#[derive(Debug)]
pub struct PrivateKey {
    der: Vec<u8>,
}

impl PrivateKey {
    /// The PKCS#8 DER encoding.
    pub closed spec fn der(&self) -> Seq<u8> {
        self.der@
    }

    #[verifier::type_invariant]
    spec fn is_rsa_key(&self) -> bool {
        outside::pkcs8_rsa_fault(self.der@) is None
    }

    /// Accept the PKCS#8 DER encoding of an RSA private key.
    pub fn from_pkcs8_der(der: &[u8]) -> (r: Result<Self, CryptoError>)
        ensures
            match r {
                Ok(key) => outside::pkcs8_rsa_fault(der@) is None && key.der() == der@,
                Err(e) => {
                    &&& outside::pkcs8_rsa_fault(der@) is Some
                    &&& e@ == CryptoFault::Pkcs8(outside::pkcs8_rsa_fault(der@)->0)
                },
            },
    {
        match pkcs8_rsa_check(der) {
            Ok(_) => {
                let copy = copy_range(der, 0, der.len());
                proof {
                    assert(copy@ =~= der@);
                }
                Ok(PrivateKey { der: copy })
            },
            Err(m) => Err(CryptoError::Pkcs8(m)),
        }
    }

    /// The PKCS#8 DER encoding of the key.
    pub fn as_der(&self) -> (r: &[u8])
        ensures
            r@ == self.der(),
            outside::pkcs8_rsa_fault(r@) is None,
    {
        proof {
            use_type_invariant(self);
        }
        self.der.as_slice()
    }
}

/// Accept or refuse a message by its tag, as long as the tags are compared in
/// full.
pub fn check_mac(expected: &[u8], actual: &[u8]) -> (r: Result<(), CryptoError>)
    ensures
        match r {
            Ok(_) => expected@ == actual@,
            Err(e) => expected@ != actual@ && e@ == CryptoFault::MacMismatch,
        },
{
    if constant_time_eq(expected, actual) {
        Ok(())
    } else {
        Err(CryptoError::MacMismatch)
    }
}

/// The text that decrypted bytes encode.
pub fn text_from_utf8(bytes: Vec<u8>) -> (r: Result<String, CryptoError>)
    ensures
        outcome(r) == utf8_text(bytes@),
{
    match string_from_utf8(bytes) {
        Ok(t) => Ok(t),
        Err(m) => Err(CryptoError::Format(join("UTF-8 decode: ", m.as_str()))),
    }
}

impl CipherString {
    /// Decrypt using a symmetric key (AES-CBC). Verifies HMAC when present (type 2).
    pub fn decrypt(&self, key: &SymmetricKey) -> (r: Result<Vec<u8>, CryptoError>)
        ensures
            outcome(r) == decrypted(self@, key@),
            r matches Ok(p) ==> p@.len() < self@.ct.len() <= p@.len() + 16,
    {
        if self.iv.len() != 16 {
            return Err(CryptoError::InvalidIv(self.iv.len()));
        }
        if self.ct.len() == 0 || self.ct.len() % 16 != 0 {
            return Err(CryptoError::InvalidCiphertext(self.ct.len()));
        }
        if self.enc_type == ENC_TYPE_AES_CBC256_HMAC_SHA256_B64 {
            if key.mac_key.len() == 0 {
                return Err(CryptoError::MacKeyMissing);
            }
            let expected = hmac_sha256(
                key.mac_key.as_slice(),
                self.iv.as_slice(),
                self.ct.as_slice(),
            );
            match check_mac(expected.as_slice(), self.mac.as_slice()) {
                Ok(_) => {},
                Err(e) => return Err(e),
            }
        }
        if key.enc_key.len() != 32 {
            return Err(CryptoError::Format("enc_key must be 32 bytes".to_owned()));
        }
        let buf = aes256_cbc_decrypt(
            key.enc_key.as_slice(),
            self.iv.as_slice(),
            self.ct.as_slice(),
        );
        pkcs7_unpad(buf.as_slice(), 16)
    }

    /// Decrypt to a UTF-8 string.
    pub fn decrypt_to_string(&self, key: &SymmetricKey) -> (r: Result<String, CryptoError>)
        ensures
            outcome(r) == decrypted_to_text(self@, key@),
    {
        match self.decrypt(key) {
            Ok(bytes) => text_from_utf8(bytes),
            Err(e) => Err(e),
        }
    }

    /// Decrypt using an RSA private key (OAEP). Supports types 3 (SHA-256) and 4 (SHA-1).
    pub fn decrypt_rsa(&self, private_key: &PrivateKey) -> (r: Result<Vec<u8>, CryptoError>)
        ensures
            outcome(r) == rsa_decrypted(self@, private_key.der()),
    {
        let der = private_key.as_der();
        if self.enc_type == ENC_TYPE_RSA2048_OAEP_SHA256_B64 {
            match rsa_oaep_sha256_decrypt(der, self.ct.as_slice()) {
                Ok(bytes) => Ok(bytes),
                Err(m) => Err(CryptoError::Rsa(m)),
            }
        } else if self.enc_type == ENC_TYPE_RSA2048_OAEP_SHA1_B64 {
            match rsa_oaep_sha1_decrypt(der, self.ct.as_slice()) {
                Ok(bytes) => Ok(bytes),
                Err(m) => Err(CryptoError::Rsa(m)),
            }
        } else {
            Err(CryptoError::NotRsa(self.enc_type))
        }
    }
}

/// Parse and decrypt a Bitwarden cipher string in one call.
/// Returns an empty string for empty input.
pub fn decrypt_str(s: &str, key: &SymmetricKey) -> (r: Result<String, CryptoError>)
    ensures
        outcome(r) == decrypted_text(s@, key@),
{
    if s.is_empty() {
        let empty = String::new();
        proof {
            assert(empty@ =~= s@);
        }
        return Ok(empty);
    }
    match CipherString::parse(s) {
        Ok(c) => c.decrypt_to_string(key),
        Err(e) => Err(e),
    }
}

// ---------------------------------------------------------------------------
// Key derivation
// ---------------------------------------------------------------------------

/// The Argon2 memory cost in KiB, for a memory in MiB that defaults to 64.
pub open spec fn argon2_memory_kib(memory_mib: Option<u32>) -> nat {
    argon2_memory_mib(memory_mib) as nat * 1024
}

/// The Argon2 parallelism, which defaults to 4.
pub open spec fn argon2_lanes(parallelism: Option<u32>) -> u32 {
    match parallelism {
        Some(p) => p,
        None => 4,
    }
}

/// The parameters on which key derivation stays within 32-bit arithmetic.
pub open spec fn kdf_in_range(
    kdf_type: u32,
    memory_mib: Option<u32>,
    parallelism: Option<u32>,
) -> bool {
    kdf_type == KDF_ARGON2ID ==> {
        &&& argon2_memory_kib(memory_mib) <= u32::MAX
        &&& argon2_memory_kib(memory_mib) < 8 || argon2_lanes(parallelism) * 8 <= u32::MAX
    }
}

/// The salt: the UTF-8 bytes of the trimmed email in lowercase.
pub open spec fn kdf_salt(email: Seq<char>) -> Seq<u8> {
    encode_utf8(normal_email(email))
}

/// The master key of a password and an email.
pub open spec fn master_key_of(
    password: Seq<char>,
    email: Seq<char>,
    kdf_type: u32,
    iterations: u32,
    memory_mib: Option<u32>,
    parallelism: Option<u32>,
) -> Result<Seq<u8>, CryptoFault> {
    let secret = encode_utf8(password);
    let salt = kdf_salt(email);
    if kdf_type == KDF_PBKDF2 {
        if iterations < 1 {
            Err(CryptoFault::Kdf("PBKDF2 iterations must be >= 1, got 0"@))
        } else {
            Ok(outside::pbkdf2_sha256_key(secret, salt, iterations))
        }
    } else if kdf_type == KDF_ARGON2ID {
        let m = argon2_memory_kib(memory_mib) as u32;
        let p = argon2_lanes(parallelism);
        match outside::argon2_params_fault(m, iterations, p) {
            Some(e) => Err(CryptoFault::Kdf("argon2 params: "@ + e)),
            None => match outside::argon2_input_fault(secret.len(), salt.len()) {
                Some(e) => Err(CryptoFault::Kdf("argon2 hash: "@ + e)),
                None => Ok(outside::argon2id_key(secret, salt, m, iterations, p)),
            },
        }
    } else {
        Err(CryptoFault::Kdf("unsupported KDF type: "@ + text::decimal(kdf_type as nat)))
    }
}

/// The email of an account as its key is derived from it: trimmed, in lowercase.
pub open spec fn normal_email(email: Seq<char>) -> Seq<char> {
    text::lowercase(text::trimmed(email))
}

/// The memory in MiB, which defaults to 64.
pub open spec fn argon2_memory_mib(memory_mib: Option<u32>) -> u32 {
    match memory_mib {
        Some(m) => m,
        None => 64,
    }
}

/// The master key does not depend on the white space around an email, and what
/// is left out of the KDF parameters stands for 64 MiB and 4 lanes.
pub proof fn law_master_key_of_trimmed_email(
    password: Seq<char>,
    email: Seq<char>,
    kdf_type: u32,
    iterations: u32,
    memory_mib: Option<u32>,
    parallelism: Option<u32>,
)
    ensures
        master_key_of(password, email, kdf_type, iterations, memory_mib, parallelism)
            == master_key_of(
            password,
            text::trimmed(email),
            kdf_type,
            iterations,
            Some(argon2_memory_mib(memory_mib)),
            Some(argon2_lanes(parallelism)),
        ),
{
    text::lemma_trimmed_ends(email);
    text::lemma_trimmed_already(text::trimmed(email));
}

/// The master key does not depend on the case of an email either. Stated of
/// emails that are ASCII once trimmed.
pub proof fn law_master_key_of_normal_email(
    password: Seq<char>,
    email: Seq<char>,
    kdf_type: u32,
    iterations: u32,
    memory_mib: Option<u32>,
    parallelism: Option<u32>,
)
    requires
        is_ascii_chars(text::trimmed(email)),
    ensures
        master_key_of(password, email, kdf_type, iterations, memory_mib, parallelism)
            == master_key_of(
            password,
            normal_email(email),
            kdf_type,
            iterations,
            Some(argon2_memory_mib(memory_mib)),
            Some(argon2_lanes(parallelism)),
        ),
{
    text::law_normal_form_is_stable(email);
}

/// Key derivation with PBKDF2 succeeds with any number of iterations but zero;
/// zero iterations and a KDF that is not known are refused.
pub proof fn law_key_derivation_is_refused(
    password: Seq<char>,
    email: Seq<char>,
    kdf_type: u32,
    iterations: u32,
    memory_mib: Option<u32>,
    parallelism: Option<u32>,
)
    ensures
        kdf_type == KDF_PBKDF2 ==> (master_key_of(
            password,
            email,
            kdf_type,
            iterations,
            memory_mib,
            parallelism,
        ) is Ok <==> iterations >= 1),
        kdf_type == KDF_PBKDF2 && iterations == 0 || kdf_type != KDF_PBKDF2 && kdf_type
            != KDF_ARGON2ID ==> (master_key_of(
            password,
            email,
            kdf_type,
            iterations,
            memory_mib,
            parallelism,
        ) matches Err(e) && e is Kdf),
{
}

/// Whether [`make_master_key`] can take these parameters.
pub fn kdf_supported(kdf_type: u32, memory_mib: Option<u32>, parallelism: Option<u32>) -> (r: bool)
    ensures
        r == kdf_in_range(kdf_type, memory_mib, parallelism),
{
    if kdf_type != KDF_ARGON2ID {
        return true;
    }
    let mem: u64 = memory_mib.unwrap_or(64) as u64 * 1024;
    let par: u64 = parallelism.unwrap_or(4) as u64;
    mem <= u32::MAX as u64 && (mem < 8 || par * 8 <= u32::MAX as u64)
}

/// Derive the Bitwarden master key from password + email using the server-specified KDF.
///
/// - PBKDF2: PBKDF2-HMAC-SHA256; salt = lowercase-trimmed email.
/// - Argon2id: memory in MiB from server, converted to KiB; defaults 64 MiB / parallelism 4.
pub fn make_master_key(
    password: &str,
    email: &str,
    kdf_type: u32,
    iterations: u32,
    memory_mib: Option<u32>,
    parallelism: Option<u32>,
) -> (r: Result<Vec<u8>, CryptoError>)
    requires
        kdf_in_range(kdf_type, memory_mib, parallelism),
    ensures
        outcome(r) == master_key_of(
            password@,
            email@,
            kdf_type,
            iterations,
            memory_mib,
            parallelism,
        ),
        r matches Ok(key) ==> key@.len() == 32,
        kdf_type == 0 ==> (r is Ok <==> iterations >= 1),
        kdf_type == 0 ==> (r matches Ok(key) ==> key@ == outside::pbkdf2_sha256_key(
            encode_utf8(password@),
            encode_utf8(text::lowercase(text::trimmed(email@))),
            iterations,
        )),
        kdf_type == 1 ==> (r matches Ok(key) ==> key@ == outside::argon2id_key(
            encode_utf8(password@),
            encode_utf8(text::lowercase(text::trimmed(email@))),
            match memory_mib {
                Some(m) => (m * 1024) as u32,
                None => 65536,
            },
            iterations,
            match parallelism {
                Some(p) => p,
                None => 4,
            },
        )),
        kdf_type > 1 ==> r is Err,
{
    let trimmed = trim(email);
    let salt = to_lowercase(trimmed.as_str());
    if kdf_type == KDF_PBKDF2 {
        if iterations < 1 {
            return Err(CryptoError::Kdf("PBKDF2 iterations must be >= 1, got 0".to_owned()));
        }
        Ok(pbkdf2_sha256(password.as_bytes(), salt.as_str().as_bytes(), iterations))
    } else if kdf_type == KDF_ARGON2ID {
        let mem_kib: u32 = memory_mib.unwrap_or(64) * 1024;
        let par: u32 = parallelism.unwrap_or(4);
        match argon2_check_params(mem_kib, iterations, par) {
            Ok(_) => {},
            Err(m) => {
                return Err(CryptoError::Kdf(join("argon2 params: ", m.as_str())));
            },
        }
        match argon2id(password.as_bytes(), salt.as_str().as_bytes(), mem_kib, iterations, par) {
            Ok(key) => Ok(key),
            Err(m) => Err(CryptoError::Kdf(join("argon2 hash: ", m.as_str()))),
        }
    } else {
        Err(
            CryptoError::Kdf(
                join("unsupported KDF type: ", decimal_text(kdf_type as u64).as_str()),
            ),
        )
    }
}

/// The hash of a password under its master key.
pub open spec fn hashed_password(password: Seq<char>, master_key: Seq<u8>) -> Seq<char> {
    outside::base64_encoded(
        outside::pbkdf2_sha256_key(master_key, encode_utf8(password), 1),
    )
}

/// Hash a password for Bitwarden authentication.
///
/// `hash = Base64(PBKDF2-HMAC-SHA256(masterKey, password, 1 iter, 32 bytes))`
pub fn hash_password(password: &str, master_key: &[u8]) -> (r: String)
    ensures
        r@ == hashed_password(password@, master_key@),
        outside::base64_decodes_to(
            r@,
            outside::pbkdf2_sha256_key(master_key@, encode_utf8(password@), 1),
        ),
        outside::in_base64_alphabet(r@),
{
    let hash = pbkdf2_sha256(master_key, password.as_bytes(), 1);
    base64_encode(hash.as_slice())
}

/// The bytes of `enc` and `mac`, the labels of the two halves of a stretched key.
pub open spec fn enc_label() -> Seq<u8> {
    seq![101u8, 110u8, 99u8]
}

pub open spec fn mac_label() -> Seq<u8> {
    seq![109u8, 97u8, 99u8]
}

/// The stretched key of a master key.
pub open spec fn stretched(master_key: Seq<u8>) -> Result<KeyView, CryptoFault> {
    if master_key.len() < 32 {
        Err(CryptoFault::Hkdf)
    } else {
        Ok(
            KeyView {
                enc_key: outside::hkdf_sha256_key(master_key, enc_label()),
                mac_key: outside::hkdf_sha256_key(master_key, mac_label()),
            },
        )
    }
}

/// Expand a 32-byte master key into a 64-byte stretched key using HKDF-Expand-SHA256.
///
/// Returns `(enc_key[32], mac_key[32])` packed into a `SymmetricKey`.
pub fn stretch_key(master_key: &[u8]) -> (r: Result<SymmetricKey, CryptoError>)
    ensures
        outcome(r) == stretched(master_key@),
        r matches Ok(k) ==> k.enc_key@.len() == 32 && k.mac_key@.len() == 32,
{
    let enc: Vec<u8> = vec![101u8, 110u8, 99u8];
    let mac: Vec<u8> = vec![109u8, 97u8, 99u8];
    proof {
        assert(enc@ =~= enc_label());
        assert(mac@ =~= mac_label());
    }
    let enc_key = match hkdf_sha256_expand(master_key, enc.as_slice()) {
        Some(k) => k,
        None => return Err(CryptoError::Hkdf),
    };
    let mac_key = match hkdf_sha256_expand(master_key, mac.as_slice()) {
        Some(k) => k,
        None => return Err(CryptoError::Hkdf),
    };
    Ok(SymmetricKey { enc_key, mac_key })
}

/// The two halves of 64 bytes.
pub open spec fn halves(bytes: Seq<u8>) -> KeyView {
    KeyView { enc_key: bytes.take(32), mac_key: bytes.skip(32) }
}

/// The symmetric key whose two halves are `bytes`, when there are 64 of them.
pub fn key_from_bytes(bytes: &[u8]) -> (r: Option<SymmetricKey>)
    ensures
        match r {
            Some(k) => bytes@.len() == 64 && k@ == halves(bytes@),
            None => bytes@.len() != 64,
        },
{
    if bytes.len() != 64 {
        return None;
    }
    let enc_key = copy_range(bytes, 0, 32);
    let mac_key = copy_range(bytes, 32, 64);
    proof {
        assert(enc_key@ =~= bytes@.take(32));
        assert(mac_key@ =~= bytes@.skip(32));
    }
    Some(SymmetricKey { enc_key, mac_key })
}

/// The key that the master key stands for where it is used directly.
pub open spec fn legacy_key(master_key: Seq<u8>) -> KeyView {
    KeyView { enc_key: master_key, mac_key: seq![] }
}

/// The bytes of a user's symmetric key: what the stretched key decrypts, or
/// else what the master key itself does.
pub open spec fn symmetric_key_bytes(c: CipherView, master_key: Seq<u8>, key: KeyView) -> Result<
    Seq<u8>,
    CryptoFault,
> {
    if decrypted(c, key) is Ok {
        decrypted(c, key)
    } else if decrypted(c, legacy_key(master_key)) is Ok {
        decrypted(c, legacy_key(master_key))
    } else {
        Err(CryptoFault::Format("decrypt symmetric key (tried stretched + legacy)"@))
    }
}

/// The user's symmetric key.
pub open spec fn symmetric_key_of(encrypted_key: Seq<char>, master_key: Seq<u8>) -> Result<
    KeyView,
    CryptoFault,
> {
    if encrypted_key.len() == 0 {
        Err(CryptoFault::EmptyKey)
    } else {
        match parsed(encrypted_key) {
            Err(e) => Err(e),
            Ok(c) => match stretched(master_key) {
                Err(e) => Err(e),
                Ok(key) => match symmetric_key_bytes(c, master_key, key) {
                    Err(e) => Err(e),
                    Ok(bytes) => if bytes.len() != 64 {
                        Err(CryptoFault::SymKeyLength(bytes.len()))
                    } else {
                        Ok(halves(bytes))
                    },
                },
            },
        }
    }
}

/// Decrypt the user's encrypted symmetric key from the login response.
///
/// Tries HKDF-stretched master key first; falls back to legacy (master key used directly).
/// The decrypted result must be 64 bytes: `enc_key[0..32]` + `mac_key[32..64]`.
pub fn decrypt_symmetric_key(encrypted_key: &str, master_key: &[u8]) -> (r: Result<
    SymmetricKey,
    CryptoError,
>)
    ensures
        outcome(r) == symmetric_key_of(encrypted_key@, master_key@),
{
    if encrypted_key.is_empty() {
        return Err(CryptoError::EmptyKey);
    }
    let cs = match CipherString::parse(encrypted_key) {
        Ok(c) => c,
        Err(e) => return Err(e),
    };
    let key = match stretch_key(master_key) {
        Ok(k) => k,
        Err(e) => return Err(e),
    };
    let bytes = match cs.decrypt(&key) {
        Ok(d) => d,
        Err(_) => {
            let legacy = SymmetricKey {
                enc_key: copy_range(master_key, 0, master_key.len()),
                mac_key: Vec::new(),
            };
            proof {
                assert(legacy.enc_key@ =~= master_key@);
                assert(legacy.mac_key@ =~= seq![]);
            }
            match cs.decrypt(&legacy) {
                Ok(d) => d,
                Err(_) => {
                    return Err(
                        CryptoError::Format(
                            "decrypt symmetric key (tried stretched + legacy)".to_owned(),
                        ),
                    );
                },
            }
        },
    };
    match key_from_bytes(bytes.as_slice()) {
        Some(k) => Ok(k),
        None => Err(CryptoError::SymKeyLength(bytes.len())),
    }
}

/// The DER encoding of the user's RSA private key.
pub open spec fn private_key_of(encrypted: Seq<char>, sym_key: KeyView) -> Result<
    Seq<u8>,
    CryptoFault,
> {
    if encrypted.len() == 0 {
        Err(CryptoFault::EmptyKey)
    } else {
        match parsed(encrypted) {
            Err(e) => Err(e),
            Ok(c) => match decrypted(c, sym_key) {
                Err(e) => Err(e),
                Ok(der) => match outside::pkcs8_rsa_fault(der) {
                    Some(m) => Err(CryptoFault::Pkcs8(m)),
                    None => Ok(der),
                },
            },
        }
    }
}

impl View for PrivateKey {
    type V = Seq<u8>;

    open spec fn view(&self) -> Seq<u8> {
        self.der()
    }
}

/// Decrypt the user's AES-encrypted RSA private key from the sync response.
///
/// The private key is AES-CBC encrypted with the user's symmetric key.
/// When decrypted it is a PKCS8 DER-encoded RSA private key.
pub fn decrypt_private_key(encrypted_private_key: &str, sym_key: &SymmetricKey) -> (r: Result<
    PrivateKey,
    CryptoError,
>)
    ensures
        outcome(r) == private_key_of(encrypted_private_key@, sym_key@),
{
    if encrypted_private_key.is_empty() {
        return Err(CryptoError::EmptyKey);
    }
    let cs = match CipherString::parse(encrypted_private_key) {
        Ok(c) => c,
        Err(e) => return Err(e),
    };
    match cs.decrypt(sym_key) {
        Ok(der) => PrivateKey::from_pkcs8_der(der.as_slice()),
        Err(e) => Err(e),
    }
}

/// An organisation's symmetric key.
pub open spec fn org_key_of(encrypted: Seq<char>, der: Seq<u8>) -> Result<KeyView, CryptoFault> {
    if encrypted.len() == 0 {
        Err(CryptoFault::EmptyKey)
    } else {
        match parsed(encrypted) {
            Err(e) => Err(e),
            Ok(c) => match rsa_decrypted(c, der) {
                Err(e) => Err(e),
                Ok(bytes) => if bytes.len() != 64 {
                    Err(CryptoFault::OrgKeyLength(bytes.len()))
                } else {
                    Ok(halves(bytes))
                },
            },
        }
    }
}

/// Decrypt an organisation's symmetric key using the user's RSA private key.
///
/// The org key is RSA-OAEP encrypted. When decrypted it is 64 bytes:
/// `enc_key[0..32]` + `mac_key[32..64]`.
pub fn decrypt_org_key(encrypted_org_key: &str, private_key: &PrivateKey) -> (r: Result<
    SymmetricKey,
    CryptoError,
>)
    ensures
        outcome(r) == org_key_of(encrypted_org_key@, private_key.der()),
{
    if encrypted_org_key.is_empty() {
        return Err(CryptoError::EmptyKey);
    }
    let cs = match CipherString::parse(encrypted_org_key) {
        Ok(c) => c,
        Err(e) => return Err(e),
    };
    let bytes = match cs.decrypt_rsa(private_key) {
        Ok(d) => d,
        Err(e) => return Err(e),
    };
    match key_from_bytes(bytes.as_slice()) {
        Some(k) => Ok(k),
        None => Err(CryptoError::OrgKeyLength(bytes.len())),
    }
}


// ---------------------------------------------------------------------------
// Laws
// ---------------------------------------------------------------------------

/// A cipher string of one type digit and its parts.
pub open spec fn written(type_digit: char, body: Seq<char>) -> Seq<char> {
    seq![type_digit, '.'] + body
}

/// `a|b`
pub open spec fn two_parts(a: Seq<char>, b: Seq<char>) -> Seq<char> {
    a + seq!['|'] + b
}

/// `a|b|c`
pub open spec fn three_parts(a: Seq<char>, b: Seq<char>, c: Seq<char>) -> Seq<char> {
    a + seq!['|'] + (b + seq!['|'] + c)
}

proof fn lemma_written(type_digit: char, body: Seq<char>)
    requires
        text::is_digit(type_digit),
    ensures
        cipher_parts(written(type_digit, body)) == body_parts(
            text::digit_value(type_digit) as u8,
            body,
        ),
{
    let s = written(type_digit, body);
    text::lemma_first_from_is(s, '.', 0, 1);
    assert(s.take(1) =~= seq![type_digit]);
    assert(s.skip(2) =~= body);
    let one = seq![type_digit];
    assert(one.drop_last() =~= seq![]);
    reveal_with_fuel(text::digits_value, 2);
    assert(text::digits_value(one) == text::digit_value(type_digit));
    assert(text::all_digits(one));
}

/// A type 2 cipher string, written from pieces that hold no `|`, is read back
/// as what these pieces decode to.
pub proof fn law_type2_reads_back(
    iv_text: Seq<char>,
    ct_text: Seq<char>,
    mac_text: Seq<char>,
    iv: Seq<u8>,
    ct: Seq<u8>,
    mac: Seq<u8>,
)
    requires
        !iv_text.contains('|'),
        !ct_text.contains('|'),
        !mac_text.contains('|'),
        outside::base64_decodes_to(iv_text, iv),
        outside::base64_decodes_to(ct_text, ct),
        outside::base64_decodes_to(mac_text, mac),
    ensures
        parsed(written('2', three_parts(iv_text, ct_text, mac_text))) == Ok::<
            CipherView,
            CryptoFault,
        >(CipherView { enc_type: 2, iv, ct, mac }),
{
    let body = three_parts(iv_text, ct_text, mac_text);
    lemma_written('2', body);
    text::lemma_split_head(iv_text, '|', ct_text + seq!['|'] + mac_text);
    text::lemma_split_head(ct_text, '|', mac_text);
    text::lemma_split_whole(mac_text, '|');
    let pieces = text::split(body, '|');
    assert(pieces =~= seq![iv_text, ct_text, mac_text]);
    let d = pieces.map_values(|p: Seq<char>| outside::base64_decoded(p));
    assert(d.len() == 3);
    reveal_with_fuel(first_fault, 4);
    assert(first_fault(d, 0) is None);
}

/// The same of a type 0 cipher string, which has no MAC.
pub proof fn law_type0_reads_back(
    iv_text: Seq<char>,
    ct_text: Seq<char>,
    iv: Seq<u8>,
    ct: Seq<u8>,
)
    requires
        !iv_text.contains('|'),
        !ct_text.contains('|'),
        outside::base64_decodes_to(iv_text, iv),
        outside::base64_decodes_to(ct_text, ct),
    ensures
        parsed(written('0', two_parts(iv_text, ct_text))) == Ok::<CipherView, CryptoFault>(
            CipherView { enc_type: 0, iv, ct, mac: seq![] },
        ),
{
    let body = two_parts(iv_text, ct_text);
    lemma_written('0', body);
    text::lemma_split_head(iv_text, '|', ct_text);
    text::lemma_split_whole(ct_text, '|');
    let pieces = text::split(body, '|');
    assert(pieces =~= seq![iv_text, ct_text]);
    let d = pieces.map_values(|p: Seq<char>| outside::base64_decoded(p));
    assert(d.len() == 2);
    reveal_with_fuel(first_fault, 3);
    assert(first_fault(d, 0) is None);
}

/// The same of an RSA cipher string (types 3 and 4), which has its ciphertext
/// only, and in which any `|` is passed over.
pub proof fn law_rsa_reads_back(type_digit: char, body: Seq<char>, ct: Seq<u8>)
    requires
        type_digit == '3' || type_digit == '4',
        outside::base64_decodes_to(text::without(body, '|'), ct),
    ensures
        parsed(written(type_digit, body)) == Ok::<CipherView, CryptoFault>(
            CipherView {
                enc_type: text::digit_value(type_digit) as u8,
                iv: seq![],
                ct,
                mac: seq![],
            },
        ),
{
    lemma_written(type_digit, body);
    let pieces = seq![text::without(body, '|')];
    let d = pieces.map_values(|p: Seq<char>| outside::base64_decoded(p));
    assert(d.len() == 1);
    reveal_with_fuel(first_fault, 2);
    assert(first_fault(d, 0) is None);
}

/// What was padded, encrypted and tagged with a key is decrypted by that key:
/// a cipher string whose ciphertext AES decrypts to the padded plaintext, and
/// whose MAC is the tag of IV and ciphertext, decrypts to the plaintext.
pub proof fn law_decrypt_reads_back(c: CipherView, key: KeyView, plain: Seq<u8>)
    requires
        c.enc_type == ENC_TYPE_AES_CBC256_HMAC_SHA256_B64,
        c.iv.len() == 16,
        c.ct.len() > 0,
        c.ct.len() % 16 == 0,
        key.enc_key.len() == 32,
        key.mac_key.len() > 0,
        c.mac == outside::hmac_sha256_tag(key.mac_key, c.iv + c.ct),
        outside::aes256_cbc_plain(key.enc_key, c.iv, c.ct) == padded(plain, 16),
    ensures
        decrypted(c, key) == Ok::<Seq<u8>, CryptoFault>(plain),
        valid_utf8(plain) ==> decrypted_to_text(c, key) == Ok::<Seq<char>, CryptoFault>(
            decode_utf8(plain),
        ),
{
    law_unpad_undoes_pad(plain, 16);
}

/// The text of a secret, encrypted and written as a type 2 cipher string, is
/// what [`decrypt_str`] gives back.
pub proof fn law_text_reads_back(
    iv_text: Seq<char>,
    ct_text: Seq<char>,
    mac_text: Seq<char>,
    c: CipherView,
    key: KeyView,
    secret: Seq<char>,
)
    requires
        !iv_text.contains('|'),
        !ct_text.contains('|'),
        !mac_text.contains('|'),
        outside::base64_decodes_to(iv_text, c.iv),
        outside::base64_decodes_to(ct_text, c.ct),
        outside::base64_decodes_to(mac_text, c.mac),
        c.enc_type == ENC_TYPE_AES_CBC256_HMAC_SHA256_B64,
        c.iv.len() == 16,
        c.ct.len() > 0,
        c.ct.len() % 16 == 0,
        key.enc_key.len() == 32,
        key.mac_key.len() > 0,
        c.mac == outside::hmac_sha256_tag(key.mac_key, c.iv + c.ct),
        outside::aes256_cbc_plain(key.enc_key, c.iv, c.ct) == padded(encode_utf8(secret), 16),
    ensures
        decrypted_text(written('2', three_parts(iv_text, ct_text, mac_text)), key) == Ok::<
            Seq<char>,
            CryptoFault,
        >(secret),
{
    law_type2_reads_back(iv_text, ct_text, mac_text, c.iv, c.ct, c.mac);
    encode_utf8_valid_utf8(secret);
    encode_utf8_decode_utf8(secret);
    law_decrypt_reads_back(c, key, encode_utf8(secret));
}

/// A type 2 cipher string decrypts only under a MAC key, and only where its
/// MAC is the tag of its IV and ciphertext.
pub proof fn law_type2_is_authenticated(c: CipherView, key: KeyView)
    requires
        c.enc_type == ENC_TYPE_AES_CBC256_HMAC_SHA256_B64,
        decrypted(c, key) is Ok,
    ensures
        key.mac_key.len() > 0,
        c.mac == outside::hmac_sha256_tag(key.mac_key, c.iv + c.ct),
{
}

/// The legacy fallback never bypasses a MAC: a type 2 symmetric key is opened
/// by the stretched master key or not at all.
pub proof fn law_legacy_fallback_skips_type2(c: CipherView, master_key: Seq<u8>, key: KeyView)
    requires
        c.enc_type == ENC_TYPE_AES_CBC256_HMAC_SHA256_B64,
    ensures
        symmetric_key_bytes(c, master_key, key) is Ok <==> decrypted(c, key) is Ok,
{
}

/// Removing the padding takes away at least one byte and at most one block.
pub proof fn law_unpadded_length(data: Seq<u8>, block_size: nat)
    requires
        unpadded(data, block_size) is Ok,
    ensures
        unpadded(data, block_size)->Ok_0.len() < data.len() <= unpadded(
            data,
            block_size,
        )->Ok_0.len() + block_size,
{
    if data.len() < block_size {
        vstd::arithmetic::div_mod::lemma_small_mod(data.len(), block_size);
    }
}

/// A symmetric key that comes out of a user's or an organisation's encrypted
/// key has two halves of 32 bytes.
pub proof fn law_keys_have_two_halves(text: Seq<char>, master_key: Seq<u8>, der: Seq<u8>)
    ensures
        symmetric_key_of(text, master_key) matches Ok(k) ==> k.enc_key.len() == 32
            && k.mac_key.len() == 32,
        org_key_of(text, der) matches Ok(k) ==> k.enc_key.len() == 32 && k.mac_key.len() == 32,
{
}

// ---------------------------------------------------------------------------
// Laws: key derivation
// ---------------------------------------------------------------------------

/// The master key is derived from the password's own bytes, with the trimmed
/// and lowercased email as salt: by PBKDF2 in the given number of rounds, which
/// only has to be at least one.
pub proof fn law_pbkdf2_master_key(
    password: Seq<char>,
    email: Seq<char>,
    iterations: u32,
    memory_mib: Option<u32>,
    parallelism: Option<u32>,
)
    ensures
        iterations >= 1 ==> master_key_of(
            password,
            email,
            0,
            iterations,
            memory_mib,
            parallelism,
        ) == Ok::<Seq<u8>, CryptoFault>(
            outside::pbkdf2_sha256_key(
                encode_utf8(password),
                encode_utf8(text::lowercase(text::trimmed(email))),
                iterations,
            ),
        ),
        master_key_of(password, email, 0, 0, memory_mib, parallelism) is Err,
{
}

/// The same by Argon2id, in 1024 KiB for each MiB of memory: 64 MiB and four
/// lanes where the server names none. It is refused exactly where Argon2
/// refuses these parameters or the lengths of password and salt.
pub proof fn law_argon2id_master_key(
    password: Seq<char>,
    email: Seq<char>,
    iterations: u32,
    mem: u32,
    lanes: u32,
    memory_mib: Option<u32>,
    parallelism: Option<u32>,
)
    requires
        memory_mib == Some(mem) || memory_mib is None && mem == 64,
        parallelism == Some(lanes) || parallelism is None && lanes == 4,
        mem * 1024 <= u32::MAX,
    ensures
        ({
            let secret = encode_utf8(password);
            let salt = encode_utf8(text::lowercase(text::trimmed(email)));
            let kib = (mem * 1024) as u32;
            let key = master_key_of(password, email, 1, iterations, memory_mib, parallelism);
            if outside::argon2_params_fault(kib, iterations, lanes) is None
                && outside::argon2_input_fault(secret.len(), salt.len()) is None {
                key == Ok::<Seq<u8>, CryptoFault>(
                    outside::argon2id_key(secret, salt, kib, iterations, lanes),
                )
            } else {
                key is Err
            }
        }),
{
}

/// No other way to derive a key is known.
pub proof fn law_other_kdfs_are_refused(
    password: Seq<char>,
    email: Seq<char>,
    kdf_type: u32,
    iterations: u32,
    memory_mib: Option<u32>,
    parallelism: Option<u32>,
)
    requires
        kdf_type != 0,
        kdf_type != 1,
    ensures
        master_key_of(password, email, kdf_type, iterations, memory_mib, parallelism) is Err,
{
}

/// A master key of at least 32 bytes is stretched to the two keys that HKDF
/// expands it to under the labels `enc` and `mac`; a shorter one is refused.
pub proof fn law_stretched_key_has_both_labels(master_key: Seq<u8>)
    ensures
        master_key.len() < 32 ==> stretched(master_key) == Err::<KeyView, CryptoFault>(
            CryptoFault::Hkdf,
        ),
        master_key.len() >= 32 ==> stretched(master_key) == Ok::<KeyView, CryptoFault>(
            KeyView {
                enc_key: outside::hkdf_sha256_key(master_key, encode_utf8("enc"@)),
                mac_key: outside::hkdf_sha256_key(master_key, encode_utf8("mac"@)),
            },
        ),
{
    reveal_strlit("enc");
    reveal_strlit("mac");
    is_ascii_chars_encode_utf8("enc"@);
    is_ascii_chars_encode_utf8("mac"@);
    assert(encode_utf8("enc"@) =~= enc_label());
    assert(encode_utf8("mac"@) =~= mac_label());
}

// ---------------------------------------------------------------------------
// Laws: padding
// ---------------------------------------------------------------------------

/// Whole blocks that end in `n` bytes of value `n`, with `n` from one to the
/// block size, lose just these bytes.
pub proof fn law_unpad_strips_its_padding(body: Seq<u8>, n: u8, block_size: nat)
    requires
        1 <= n <= block_size,
        (body.len() + n) % (block_size as int) == 0,
    ensures
        unpadded(body + Seq::new(n as nat, |i: int| n), block_size) == Ok::<Seq<u8>, CryptoFault>(
            body,
        ),
{
    let data = body + Seq::new(n as nat, |i: int| n);
    assert(data.last() == n);
    assert(data.take(data.len() - n) =~= body);
}

/// Nothing else is taken for padded: bytes that lose their padding are what is
/// left and `n` bytes of value `n` behind it, in whole blocks.
pub proof fn law_unpad_only_strips_padding(data: Seq<u8>, block_size: nat)
    requires
        unpadded(data, block_size) is Ok,
    ensures
        ({
            let body = unpadded(data, block_size)->Ok_0;
            let n = data.len() - body.len();
            &&& 1 <= n <= block_size
            &&& n <= 255
            &&& data.len() % block_size == 0
            &&& data == body + Seq::new(n as nat, |i: int| n as u8)
        }),
{
    law_unpadded_length(data, block_size);
    let pad = data.last();
    let body = unpadded(data, block_size)->Ok_0;
    let n = data.len() - body.len();
    if data.len() < block_size {
        vstd::arithmetic::div_mod::lemma_small_mod(data.len(), block_size);
    }
    assert(n == pad);
    assert forall|i: int| 0 <= i < data.len() implies data[i] == (body + Seq::new(
        n as nat,
        |i: int| n as u8,
    ))[i] by {
        if i >= data.len() - pad {
            assert(data[i] == pad);
        }
    }
    assert(data =~= body + Seq::new(n as nat, |i: int| n as u8));
}

// ---------------------------------------------------------------------------
// Laws: decryption
// ---------------------------------------------------------------------------

/// A cipher string decrypts to `plain` where AES-256-CBC under the encryption
/// key turns its whole blocks into `plain` and padding, and, for type 2, its
/// MAC is the tag of IV and ciphertext under the MAC key.
pub proof fn law_decrypts_what_aes_gives(c: CipherView, key: KeyView, plain: Seq<u8>, n: u8)
    requires
        c.iv.len() == 16,
        c.ct.len() > 0,
        c.ct.len() % 16 == 0,
        key.enc_key.len() == 32,
        c.enc_type == 2 ==> key.mac_key.len() > 0 && c.mac == outside::hmac_sha256_tag(
            key.mac_key,
            c.iv + c.ct,
        ),
        1 <= n <= 16,
        (plain.len() + n) % 16 == 0,
        outside::aes256_cbc_plain(key.enc_key, c.iv, c.ct) == plain + Seq::new(
            n as nat,
            |i: int| n,
        ),
    ensures
        decrypted(c, key) == Ok::<Seq<u8>, CryptoFault>(plain),
{
    law_unpad_strips_its_padding(plain, n, 16);
}

/// And in no other case: of what decrypts, all of this holds.
pub proof fn law_decrypted_was_encrypted(c: CipherView, key: KeyView)
    requires
        decrypted(c, key) is Ok,
    ensures
        c.iv.len() == 16,
        c.ct.len() > 0,
        c.ct.len() % 16 == 0,
        key.enc_key.len() == 32,
        c.enc_type == 2 ==> key.mac_key.len() > 0 && c.mac == outside::hmac_sha256_tag(
            key.mac_key,
            c.iv + c.ct,
        ),
        ({
            let plain = decrypted(c, key)->Ok_0;
            let blocks = outside::aes256_cbc_plain(key.enc_key, c.iv, c.ct);
            let n = blocks.len() - plain.len();
            &&& 1 <= n <= 16
            &&& blocks.len() % 16 == 0
            &&& blocks == plain + Seq::new(n as nat, |i: int| n as u8)
        }),
{
    law_unpad_only_strips_padding(outside::aes256_cbc_plain(key.enc_key, c.iv, c.ct), 16);
}

/// What is amiss is told, the foremost first: the IV, the ciphertext, a MAC key
/// that a type 2 string needs, its MAC. So a forged type 2 string is never
/// decrypted, whatever its blocks hold.
pub proof fn law_decryption_faults(c: CipherView, key: KeyView)
    ensures
        c.iv.len() != 16 ==> decrypted(c, key) == Err::<Seq<u8>, CryptoFault>(
            CryptoFault::InvalidIv(c.iv.len()),
        ),
        c.iv.len() == 16 && (c.ct.len() == 0 || c.ct.len() % 16 != 0) ==> decrypted(c, key) == Err::<
            Seq<u8>,
            CryptoFault,
        >(CryptoFault::InvalidCiphertext(c.ct.len())),
        c.enc_type == 2 && c.iv.len() == 16 && c.ct.len() > 0 && c.ct.len() % 16 == 0 ==> {
            &&& key.mac_key.len() == 0 ==> decrypted(c, key) == Err::<Seq<u8>, CryptoFault>(
                CryptoFault::MacKeyMissing,
            )
            &&& key.mac_key.len() > 0 && c.mac != outside::hmac_sha256_tag(
                key.mac_key,
                c.iv + c.ct,
            ) ==> decrypted(c, key) == Err::<Seq<u8>, CryptoFault>(CryptoFault::MacMismatch)
        },
        key.enc_key.len() != 32 ==> decrypted(c, key) is Err,
{
}

/// A text is decrypted by reading it as a cipher string, decrypting that and
/// decoding the bytes; a text that is empty stays so. A fault on the way is
/// handed on as it is.
pub proof fn law_decrypted_text_is_decoded(s: Seq<char>, key: KeyView)
    ensures
        s.len() == 0 ==> decrypted_text(s, key) == Ok::<Seq<char>, CryptoFault>(seq![]),
        s.len() > 0 ==> match parsed(s) {
            Err(e) => decrypted_text(s, key) == Err::<Seq<char>, CryptoFault>(e),
            Ok(c) => match decrypted(c, key) {
                Err(e) => decrypted_text(s, key) == Err::<Seq<char>, CryptoFault>(e),
                Ok(bytes) => {
                    &&& decrypted_text(s, key) is Ok <==> valid_utf8(bytes)
                    &&& decrypted_text(s, key) matches Ok(t) ==> encode_utf8(t) == bytes
                },
            },
        },
{
    if s.len() == 0 {
        assert(s =~= seq![]);
    } else if parsed(s) is Ok && decrypted(parsed(s)->Ok_0, key) is Ok {
        let bytes = decrypted(parsed(s)->Ok_0, key)->Ok_0;
        if valid_utf8(bytes) {
            decode_utf8_encode_utf8(bytes);
        }
    }
}

/// Types 3 and 4 are decrypted by RSA-OAEP over their ciphertext, with SHA-256
/// and SHA-1; no other type is.
pub proof fn law_rsa_decrypts_by_its_type(c: CipherView, der: Seq<u8>)
    ensures
        c.enc_type == 3 ==> match outside::rsa_oaep_sha256_plain(der, c.ct) {
            Ok(bytes) => rsa_decrypted(c, der) == Ok::<Seq<u8>, CryptoFault>(bytes),
            Err(m) => rsa_decrypted(c, der) == Err::<Seq<u8>, CryptoFault>(CryptoFault::Rsa(m)),
        },
        c.enc_type == 4 ==> match outside::rsa_oaep_sha1_plain(der, c.ct) {
            Ok(bytes) => rsa_decrypted(c, der) == Ok::<Seq<u8>, CryptoFault>(bytes),
            Err(m) => rsa_decrypted(c, der) == Err::<Seq<u8>, CryptoFault>(CryptoFault::Rsa(m)),
        },
        c.enc_type != 3 && c.enc_type != 4 ==> rsa_decrypted(c, der) == Err::<
            Seq<u8>,
            CryptoFault,
        >(CryptoFault::NotRsa(c.enc_type)),
{
}

// ---------------------------------------------------------------------------
// Laws: keys
// ---------------------------------------------------------------------------

/// The user's key is the 64 bytes that the stretched master key decrypts, or,
/// where it does not, the master key itself without a MAC key: the first 32
/// bytes encrypt and the last 32 authenticate. There is none otherwise.
pub proof fn law_symmetric_key_is_opened(
    encrypted_key: Seq<char>,
    master_key: Seq<u8>,
    c: CipherView,
    key: KeyView,
)
    requires
        encrypted_key.len() > 0,
        parsed(encrypted_key) == Ok::<CipherView, CryptoFault>(c),
        stretched(master_key) == Ok::<KeyView, CryptoFault>(key),
    ensures
        ({
            let legacy = KeyView { enc_key: master_key, mac_key: seq![] };
            let opened = if decrypted(c, key) is Ok {
                decrypted(c, key)
            } else {
                decrypted(c, legacy)
            };
            match opened {
                Ok(bytes) => if bytes.len() == 64 {
                    symmetric_key_of(encrypted_key, master_key) == Ok::<KeyView, CryptoFault>(
                        KeyView {
                            enc_key: bytes.subrange(0, 32),
                            mac_key: bytes.subrange(32, 64),
                        },
                    )
                } else {
                    symmetric_key_of(encrypted_key, master_key) == Err::<KeyView, CryptoFault>(
                        CryptoFault::SymKeyLength(bytes.len()),
                    )
                },
                Err(_) => symmetric_key_of(encrypted_key, master_key) is Err,
            }
        }),
{
    let legacy = KeyView { enc_key: master_key, mac_key: seq![] };
    assert(legacy == legacy_key(master_key));
    if decrypted(c, key) is Ok {
        let bytes = decrypted(c, key)->Ok_0;
        if bytes.len() == 64 {
            assert(bytes.subrange(0, 32) =~= bytes.take(32));
            assert(bytes.subrange(32, 64) =~= bytes.skip(32));
        }
    } else if decrypted(c, legacy) is Ok {
        let bytes = decrypted(c, legacy)->Ok_0;
        if bytes.len() == 64 {
            assert(bytes.subrange(0, 32) =~= bytes.take(32));
            assert(bytes.subrange(32, 64) =~= bytes.skip(32));
        }
    }
}

/// No key comes out of an empty text, of one that is no cipher string, or, for
/// the user's key, under a master key that cannot be stretched.
pub proof fn law_keys_need_a_cipher_string(
    encrypted: Seq<char>,
    master_key: Seq<u8>,
    sym_key: KeyView,
    der: Seq<u8>,
)
    ensures
        encrypted.len() == 0 ==> {
            &&& symmetric_key_of(encrypted, master_key) == Err::<KeyView, CryptoFault>(
                CryptoFault::EmptyKey,
            )
            &&& private_key_of(encrypted, sym_key) == Err::<Seq<u8>, CryptoFault>(
                CryptoFault::EmptyKey,
            )
            &&& org_key_of(encrypted, der) == Err::<KeyView, CryptoFault>(CryptoFault::EmptyKey)
        },
        encrypted.len() > 0 ==> (parsed(encrypted) matches Err(e) ==> {
            &&& symmetric_key_of(encrypted, master_key) == Err::<KeyView, CryptoFault>(e)
            &&& private_key_of(encrypted, sym_key) == Err::<Seq<u8>, CryptoFault>(e)
            &&& org_key_of(encrypted, der) == Err::<KeyView, CryptoFault>(e)
        }),
        stretched(master_key) is Err ==> symmetric_key_of(encrypted, master_key) is Err,
{
}

/// The private key is what the user's key decrypts, where that is the PKCS#8
/// encoding of an RSA key.
pub proof fn law_private_key_is_opened(encrypted: Seq<char>, sym_key: KeyView, c: CipherView)
    requires
        encrypted.len() > 0,
        parsed(encrypted) == Ok::<CipherView, CryptoFault>(c),
    ensures
        match decrypted(c, sym_key) {
            Err(e) => private_key_of(encrypted, sym_key) == Err::<Seq<u8>, CryptoFault>(e),
            Ok(der) => match outside::pkcs8_rsa_fault(der) {
                None => private_key_of(encrypted, sym_key) == Ok::<Seq<u8>, CryptoFault>(der),
                Some(m) => private_key_of(encrypted, sym_key) == Err::<Seq<u8>, CryptoFault>(
                    CryptoFault::Pkcs8(m),
                ),
            },
        },
{
}

/// An organization's key is the 64 bytes that the private key decrypts: the
/// first 32 encrypt and the last 32 authenticate.
pub proof fn law_org_key_is_opened(encrypted: Seq<char>, der: Seq<u8>, c: CipherView)
    requires
        encrypted.len() > 0,
        parsed(encrypted) == Ok::<CipherView, CryptoFault>(c),
    ensures
        match rsa_decrypted(c, der) {
            Err(e) => org_key_of(encrypted, der) == Err::<KeyView, CryptoFault>(e),
            Ok(bytes) => if bytes.len() == 64 {
                org_key_of(encrypted, der) == Ok::<KeyView, CryptoFault>(
                    KeyView {
                        enc_key: bytes.subrange(0, 32),
                        mac_key: bytes.subrange(32, 64),
                    },
                )
            } else {
                org_key_of(encrypted, der) == Err::<KeyView, CryptoFault>(
                    CryptoFault::OrgKeyLength(bytes.len()),
                )
            },
        },
{
    if rsa_decrypted(c, der) is Ok {
        let bytes = rsa_decrypted(c, der)->Ok_0;
        if bytes.len() == 64 {
            assert(bytes.subrange(0, 32) =~= bytes.take(32));
            assert(bytes.subrange(32, 64) =~= bytes.skip(32));
        }
    }
}

// ---------------------------------------------------------------------------
// Laws: reading cipher strings
// ---------------------------------------------------------------------------

/// A text without the plus sign that it may start with.
pub open spec fn unsigned_part(head: Seq<char>) -> Seq<char> {
    if head.len() > 0 && head[0] == '+' {
        head.skip(1)
    } else {
        head
    }
}

/// The type `t`, written in decimal digits that a plus sign may precede.
pub open spec fn writes_type(head: Seq<char>, t: u8) -> bool {
    &&& unsigned_part(head).len() > 0
    &&& forall|i: int|
        0 <= i < unsigned_part(head).len() ==> '0' <= #[trigger] unsigned_part(head)[i] <= '9'
    &&& text::digits_value(unsigned_part(head)) == t
}

proof fn lemma_headed(head: Seq<char>, t: u8, body: Seq<char>)
    requires
        writes_type(head, t),
    ensures
        cipher_parts(head + seq!['.'] + body) == body_parts(t, body),
{
    let s = head + seq!['.'] + body;
    let n = head.len() as int;
    let plus = head.len() > 0 && head[0] == '+';
    let digits = unsigned_part(head);
    assert forall|k: int| 0 <= k < n implies s[k] != '.' by {
        assert(s[k] == head[k]);
        if plus && k > 0 {
            assert(digits[k - 1] == head[k]);
        } else if !plus {
            assert(digits[k] == head[k]);
        }
    }
    text::lemma_first_from_is(s, '.', 0, n);
    assert(s.take(n) =~= head);
    assert(s.skip(n + 1) =~= body);
    text::law_unsigned_reads_digits(digits, 255);
    assert(enc_type_of(head) == text::unsigned(digits, 255));
}

/// A type 2 string has three parts between bars, IV, ciphertext and MAC, each in
/// Base64; where one does not decode, the first such says why.
pub proof fn law_type2_is_read(
    head: Seq<char>,
    iv: Seq<char>,
    ct: Seq<char>,
    mac: Seq<char>,
)
    requires
        writes_type(head, 2),
        !iv.contains('|'),
        !ct.contains('|'),
        !mac.contains('|'),
    ensures
        ({
            let s = head + seq!['.'] + (iv + seq!['|'] + (ct + seq!['|'] + mac));
            match (
                outside::base64_decoded(iv),
                outside::base64_decoded(ct),
                outside::base64_decoded(mac),
            ) {
                (Ok(i), Ok(c), Ok(m)) => parsed(s) == Ok::<CipherView, CryptoFault>(
                    CipherView { enc_type: 2, iv: i, ct: c, mac: m },
                ),
                (Err(e), _, _) => parsed(s) == Err::<CipherView, CryptoFault>(
                    CryptoFault::Base64(e),
                ),
                (_, Err(e), _) => parsed(s) == Err::<CipherView, CryptoFault>(
                    CryptoFault::Base64(e),
                ),
                (_, _, Err(e)) => parsed(s) == Err::<CipherView, CryptoFault>(
                    CryptoFault::Base64(e),
                ),
            }
        }),
{
    let body = iv + seq!['|'] + (ct + seq!['|'] + mac);
    lemma_headed(head, 2, body);
    text::lemma_split_head(iv, '|', ct + seq!['|'] + mac);
    text::lemma_split_head(ct, '|', mac);
    text::lemma_split_whole(mac, '|');
    let pieces = text::split(body, '|');
    assert(pieces =~= seq![iv, ct, mac]);
    let d = pieces.map_values(|p: Seq<char>| outside::base64_decoded(p));
    assert(d.len() == 3);
    reveal_with_fuel(first_fault, 4);
}

/// A type 0 string has two parts between bars, IV and ciphertext.
pub proof fn law_type0_is_read(head: Seq<char>, iv: Seq<char>, ct: Seq<char>)
    requires
        writes_type(head, 0),
        !iv.contains('|'),
        !ct.contains('|'),
    ensures
        ({
            let s = head + seq!['.'] + (iv + seq!['|'] + ct);
            match (outside::base64_decoded(iv), outside::base64_decoded(ct)) {
                (Ok(i), Ok(c)) => parsed(s) == Ok::<CipherView, CryptoFault>(
                    CipherView { enc_type: 0, iv: i, ct: c, mac: seq![] },
                ),
                (Err(e), _) => parsed(s) == Err::<CipherView, CryptoFault>(CryptoFault::Base64(e)),
                (_, Err(e)) => parsed(s) == Err::<CipherView, CryptoFault>(CryptoFault::Base64(e)),
            }
        }),
{
    let body = iv + seq!['|'] + ct;
    lemma_headed(head, 0, body);
    text::lemma_split_head(iv, '|', ct);
    text::lemma_split_whole(ct, '|');
    let pieces = text::split(body, '|');
    assert(pieces =~= seq![iv, ct]);
    let d = pieces.map_values(|p: Seq<char>| outside::base64_decoded(p));
    assert(d.len() == 2);
    reveal_with_fuel(first_fault, 3);
}

/// A string of type 3 or 4 is its ciphertext, whatever bars it holds; one of a
/// type other than 0, 2, 3 and 4 is refused, and so is one of type 0 or 2 that
/// has not as many bars as its parts ask for.
pub proof fn law_other_types_are_read(head: Seq<char>, t: u8, body: Seq<char>)
    requires
        writes_type(head, t),
    ensures
        t == 3 || t == 4 ==> match outside::base64_decoded(text::without(body, '|')) {
            Ok(c) => parsed(head + seq!['.'] + body) == Ok::<CipherView, CryptoFault>(
                CipherView { enc_type: t, iv: seq![], ct: c, mac: seq![] },
            ),
            Err(e) => parsed(head + seq!['.'] + body) == Err::<CipherView, CryptoFault>(
                CryptoFault::Base64(e),
            ),
        },
        t == 1 || t > 4 ==> parsed(head + seq!['.'] + body) == Err::<CipherView, CryptoFault>(
            CryptoFault::UnsupportedType(t),
        ),
        t == 0 && text::split(body, '|').len() != 2 ==> parsed(
            head + seq!['.'] + body,
        ) matches Err(CryptoFault::Format(_)),
        t == 2 && text::split(body, '|').len() != 3 ==> parsed(
            head + seq!['.'] + body,
        ) matches Err(CryptoFault::Format(_)),
{
    lemma_headed(head, t, body);
    if t == 3 || t == 4 {
        let pieces = seq![text::without(body, '|')];
        let d = pieces.map_values(|p: Seq<char>| outside::base64_decoded(p));
        assert(d.len() == 1);
        reveal_with_fuel(first_fault, 2);
    }
}

/// Only a type and a dot before the rest make a cipher string: what is read as
/// one starts with a type, written out, and a dot.
pub proof fn law_cipher_strings_name_their_type(s: Seq<char>)
    ensures
        s.len() == 0 ==> parsed(s) == Err::<CipherView, CryptoFault>(CryptoFault::Empty),
        s.len() > 0 && !s.contains('.') ==> parsed(s) matches Err(CryptoFault::Format(_)),
        parsed(s) matches Ok(c) ==> {
            &&& c.enc_type == 0 || c.enc_type == 2 || c.enc_type == 3 || c.enc_type == 4
            &&& exists|head: Seq<char>, body: Seq<char>|
                s == #[trigger] (head + seq!['.'] + body) && writes_type(head, c.enc_type)
        },
{
    text::lemma_first_from(s, '.', 0);
    let dot = text::first_from(s, '.', 0);
    if dot < s.len() {
        assert(s.contains(s[dot]));
    }
    if parsed(s) is Ok {
        let c = parsed(s)->Ok_0;
        let head = s.take(dot);
        let body = s.skip(dot + 1);
        assert(s =~= head + seq!['.'] + body);
        let digits = unsigned_part(head);
        assert(enc_type_of(head) == text::unsigned(digits, 255));
        text::law_unsigned_reads_digits(digits, 255);
        assert(writes_type(head, c.enc_type));
    }
}

/// The last characters of `s` are those of `end`.
pub open spec fn ends_in(s: Seq<char>, end: Seq<char>) -> bool {
    &&& end.len() <= s.len()
    &&& forall|i: int| 0 <= i < end.len() ==> s[s.len() - end.len() + i] == #[trigger] end[i]
}

/// What is appended to a text is what it ends in.
pub proof fn lemma_ends_in(start: Seq<char>, end: Seq<char>)
    ensures
        ends_in(start + end, end),
{
}

/// What a reader is told of each fault, word for word.
pub proof fn law_crypto_messages_read(m: Seq<char>, n: nat, t: u8)
    ensures
        CryptoFault::Empty.message() == "empty cipher string"@,
        CryptoFault::Format(m).message() == "invalid cipher string format: "@ + m,
        CryptoFault::UnsupportedType(t).message() == "unsupported encryption type: "@
            + text::decimal(t as nat),
        CryptoFault::Base64(m).message() == "base64 decode error: "@ + m,
        CryptoFault::InvalidIv(n).message() == "invalid IV length: expected 16, got "@
            + text::decimal(n),
        CryptoFault::InvalidCiphertext(n).message() == "invalid ciphertext length: "@
            + text::decimal(n),
        CryptoFault::MacKeyMissing.message() == "MAC key required for type 2 decryption"@,
        CryptoFault::MacMismatch.message() == "MAC verification failed"@,
        CryptoFault::Pkcs7(m).message() == "PKCS7 unpad error: "@ + m,
        CryptoFault::NotRsa(t).message() == "not an RSA cipher type: "@ + text::decimal(t as nat),
        CryptoFault::Rsa(m).message() == "RSA decrypt error: "@ + m,
        CryptoFault::Pkcs8(m).message() == "PKCS8 parse error: "@ + m,
        CryptoFault::NotRsaKey.message() == "private key is not RSA"@,
        CryptoFault::OrgKeyLength(n).message() == "unexpected org key length: expected 64, got "@
            + text::decimal(n),
        CryptoFault::SymKeyLength(n).message()
            == "unexpected symmetric key length: expected 64, got "@ + text::decimal(n),
        CryptoFault::Kdf(m).message() == "KDF error: "@ + m,
        CryptoFault::Hkdf.message() == "HKDF expand error"@,
        CryptoFault::EmptyKey.message() == "empty encrypted key"@,
{
}

/// Only a fault of the Base64 or the RSA code has another beneath it.
pub proof fn law_outside_faults_lie_beneath(e: CryptoFault)
    ensures
        e matches CryptoFault::Base64(m) ==> e.sources() == seq![m],
        e matches CryptoFault::Rsa(m) ==> e.sources() == seq![m],
        !(e is Base64) && !(e is Rsa) ==> e.sources().len() == 0,
{
}

/// A refused derivation says whether the rounds, the parameters, the lengths or
/// the kind of derivation is at fault.
pub proof fn law_refused_derivations_say_why(
    password: Seq<char>,
    email: Seq<char>,
    kdf_type: u32,
    iterations: u32,
    mem: u32,
    lanes: u32,
)
    requires
        mem * 1024 <= u32::MAX,
    ensures
        ({
            let secret = encode_utf8(password);
            let salt = encode_utf8(text::lowercase(text::trimmed(email)));
            let kib = (mem * 1024) as u32;
            let key = master_key_of(
                password,
                email,
                kdf_type,
                iterations,
                Some(mem),
                Some(lanes),
            );
            &&& kdf_type == 0 && iterations == 0 ==> key == Err::<Seq<u8>, CryptoFault>(
                CryptoFault::Kdf("PBKDF2 iterations must be >= 1, got 0"@),
            )
            &&& kdf_type == 1 ==> match outside::argon2_params_fault(kib, iterations, lanes) {
                Some(m) => key == Err::<Seq<u8>, CryptoFault>(
                    CryptoFault::Kdf("argon2 params: "@ + m),
                ),
                None => outside::argon2_input_fault(secret.len(), salt.len()) matches Some(m)
                    ==> key == Err::<Seq<u8>, CryptoFault>(CryptoFault::Kdf("argon2 hash: "@ + m)),
            }
            &&& kdf_type > 1 ==> key == Err::<Seq<u8>, CryptoFault>(
                CryptoFault::Kdf("unsupported KDF type: "@ + text::decimal(kdf_type as nat)),
            )
        }),
{
}

/// Bytes without padding say what is amiss: that there are none, that they are
/// no whole blocks, that the last byte is no length of padding, or that the
/// bytes it counts are not all alike.
pub proof fn law_unpad_says_what_is_amiss(data: Seq<u8>, block_size: nat)
    ensures
        data.len() == 0 ==> unpadded(data, block_size) == Err::<Seq<u8>, CryptoFault>(
            CryptoFault::Pkcs7("empty data"@),
        ),
        data.len() > 0 && block_size > 0 && data.len() % block_size != 0 ==> unpadded(
            data,
            block_size,
        ) == Err::<Seq<u8>, CryptoFault>(CryptoFault::Pkcs7("data not block-aligned"@)),
        data.len() > 0 && block_size > 0 && data.len() % block_size == 0 ==> {
            let pad = data.last();
            &&& pad == 0 || pad > block_size ==> unpadded(data, block_size) == Err::<
                Seq<u8>,
                CryptoFault,
            >(CryptoFault::Pkcs7("invalid padding length: "@ + text::decimal(pad as nat)))
            &&& 1 <= pad <= block_size && unpadded(data, block_size) is Err ==> unpadded(
                data,
                block_size,
            ) == Err::<Seq<u8>, CryptoFault>(CryptoFault::Pkcs7("invalid PKCS7 padding bytes"@))
        },
{
}

/// A text that is no cipher string, or whose bytes are no text, says why.
pub proof fn law_unreadable_texts_say_why(
    s: Seq<char>,
    head: Seq<char>,
    body: Seq<char>,
    bytes: Seq<u8>,
    t: u8,
)
    requires
        writes_type(head, t),
    ensures
        s.len() > 0 && !s.contains('.') ==> parsed(s) == Err::<CipherView, CryptoFault>(
            CryptoFault::Format("missing type separator"@),
        ),
        !s.contains('.') && (forall|u: u8| !writes_type(s, u)) ==> parsed(
            s + seq!['.'] + body,
        ) == Err::<CipherView, CryptoFault>(CryptoFault::Format("invalid type: "@ + s)),
        ({
            let n = text::split(body, '|').len();
            &&& t == 0 && n != 2 ==> parsed(head + seq!['.'] + body) == Err::<
                CipherView,
                CryptoFault,
            >(
                CryptoFault::Format(
                    "AesCbc256_B64 expects 2 parts, got "@ + text::decimal(
                        if n > 3 {
                            3
                        } else {
                            n
                        },
                    ),
                ),
            )
            &&& t == 2 && n != 3 ==> parsed(head + seq!['.'] + body) == Err::<
                CipherView,
                CryptoFault,
            >(
                CryptoFault::Format(
                    "AesCbc256_HmacSha256_B64 expects 3 parts, got "@ + text::decimal(
                        if n > 4 {
                            4
                        } else {
                            n
                        },
                    ),
                ),
            )
        }),
        !valid_utf8(bytes) ==> utf8_text(bytes) == Err::<Seq<char>, CryptoFault>(
            CryptoFault::Format("UTF-8 decode: "@ + text::utf8_fault_text(bytes)),
        ),
{
    lemma_headed(head, t, body);
    text::lemma_first_from(s, '.', 0);
    if text::first_from(s, '.', 0) < s.len() {
        assert(s.contains(s[text::first_from(s, '.', 0)]));
    }
    if !s.contains('.') && (forall|u: u8| !writes_type(s, u)) {
        let whole = s + seq!['.'] + body;
        let n = s.len() as int;
        assert forall|k: int| 0 <= k < n implies whole[k] != '.' by {
            assert(s.contains(s[k]));
            assert(whole[k] == s[k]);
        }
        text::lemma_first_from_is(whole, '.', 0, n);
        assert(whole.take(n) =~= s);
        let digits = unsigned_part(s);
        text::law_unsigned_reads_digits(digits, 255);
        assert(enc_type_of(s) == text::unsigned(digits, 255));
        if enc_type_of(s) is Some {
            assert(writes_type(s, text::digits_value(digits) as u8));
        }
    }
}

/// A key that is too short, or a user's key that neither way opens, is told.
pub proof fn law_unusable_keys_are_told(
    c: CipherView,
    key: KeyView,
    encrypted_key: Seq<char>,
    master_key: Seq<u8>,
    stretched_key: KeyView,
)
    ensures
        c.iv.len() == 16 && c.ct.len() > 0 && c.ct.len() % 16 == 0 && c.enc_type != 2
            && key.enc_key.len() != 32 ==> decrypted(c, key) == Err::<Seq<u8>, CryptoFault>(
            CryptoFault::Format("enc_key must be 32 bytes"@),
        ),
        encrypted_key.len() > 0 && parsed(encrypted_key) == Ok::<CipherView, CryptoFault>(c)
            && stretched(master_key) == Ok::<KeyView, CryptoFault>(stretched_key) && decrypted(
            c,
            stretched_key,
        ) is Err && decrypted(c, KeyView { enc_key: master_key, mac_key: seq![] }) is Err
            ==> symmetric_key_of(encrypted_key, master_key) == Err::<KeyView, CryptoFault>(
            CryptoFault::Format("decrypt symmetric key (tried stretched + legacy)"@),
        ),
{
}

/// Every derivation can be taken on but one by Argon2id whose memory in KiB, or
/// eight times whose lanes, 32 bits cannot hold.
pub proof fn law_kdf_range(
    kdf_type: u32,
    mem: u32,
    lanes: u32,
    memory_mib: Option<u32>,
    parallelism: Option<u32>,
)
    requires
        memory_mib == Some(mem) || memory_mib is None && mem == 64,
        parallelism == Some(lanes) || parallelism is None && lanes == 4,
    ensures
        kdf_type != 1 ==> kdf_in_range(kdf_type, memory_mib, parallelism),
        kdf_type == 1 ==> (kdf_in_range(kdf_type, memory_mib, parallelism) <==> mem * 1024
            <= u32::MAX && (mem == 0 || lanes * 8 <= u32::MAX)),
{
}

/// A type is known by its number.
pub proof fn law_types_have_their_numbers()
    ensures
        ENC_TYPE_AES_CBC256_B64 == 0,
        ENC_TYPE_AES_CBC256_HMAC_SHA256_B64 == 2,
        ENC_TYPE_RSA2048_OAEP_SHA256_B64 == 3,
        ENC_TYPE_RSA2048_OAEP_SHA1_B64 == 4,
        KDF_PBKDF2 == 0,
        KDF_ARGON2ID == 1,
{
}

} // verus!
