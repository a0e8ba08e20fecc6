//! Vaultwarden authentication: prelogin, password/API-key grants, and token refresh.
//!
//! The full flow is a sequence of [`AuthStep`]s: each names a request to make,
//! and its reply is handed to the function that gives the step after it.
use vstd::prelude::*;
use vstd::string::*;
use vstd::utf8::*;

use super::crypto;
use super::crypto::{
    decrypt_symmetric_key, hash_password, make_master_key, CryptoError, CryptoFault, KeyView,
    SymmetricKey,
};
use crate::outside;
use crate::text;
use crate::text::{decimal_text, join, text_and};

verus! {

// ---------------------------------------------------------------------------
// Errors
// ---------------------------------------------------------------------------

/// What can go wrong while authenticating.
#[derive(Debug)]
pub enum AuthError {
    Http(String),
    Server { status: u16, body: String },
    Crypto(CryptoError),
    NoRefreshToken,
    EmptyProfileKey,
}

/// The mathematical form of an [`AuthError`].
pub enum AuthFault {
    Http(Seq<char>),
    Server { status: u16, body: Seq<char> },
    Crypto(CryptoFault),
    NoRefreshToken,
    EmptyProfileKey,
}

impl View for AuthError {
    type V = AuthFault;

    open spec fn view(&self) -> AuthFault {
        match *self {
            AuthError::Http(m) => AuthFault::Http(m@),
            AuthError::Server { status, body } => AuthFault::Server { status, body: body@ },
            AuthError::Crypto(e) => AuthFault::Crypto(e@),
            AuthError::NoRefreshToken => AuthFault::NoRefreshToken,
            AuthError::EmptyProfileKey => AuthFault::EmptyProfileKey,
        }
    }
}

impl AuthFault {
    /// What is reported to a reader.
    pub open spec fn message(self) -> Seq<char> {
        match self {
            AuthFault::Http(m) => "HTTP error: "@ + m,
            AuthFault::Server { status, body } => "server returned "@ + text::decimal(
                status as nat,
            ) + ": "@ + body,
            AuthFault::Crypto(e) => "crypto error: "@ + e.message(),
            AuthFault::NoRefreshToken => "no refresh token available"@,
            AuthFault::EmptyProfileKey => "profile key is empty"@,
        }
    }
}

impl AuthFault {
    /// The messages of the errors beneath this one, outermost first.
    pub open spec fn sources(self) -> Seq<Seq<char>> {
        match self {
            AuthFault::Http(m) => seq![m],
            AuthFault::Crypto(e) => seq![e.message()] + e.sources(),
            _ => seq![],
        }
    }
}

impl AuthError {
    /// The messages of the errors beneath this one, outermost first.
    pub fn sources(&self) -> (r: Vec<String>)
        ensures
            text::texts(r@) == self@.sources(),
    {
        match self {
            AuthError::Http(m) => text_and(m.clone(), Vec::new()),
            AuthError::Crypto(e) => text_and(e.message(), e.sources()),
            _ => {
                let none: Vec<String> = Vec::new();
                proof {
                    assert(text::texts(none@) =~= seq![]);
                }
                none
            },
        }
    }

    /// What is reported to a reader.
    pub fn message(&self) -> (r: String)
        ensures
            r@ == self@.message(),
    {
        match self {
            AuthError::Http(m) => join("HTTP error: ", m.as_str()),
            AuthError::Server { status, body } => {
                let mut out = join("server returned ", decimal_text(*status as u64).as_str());
                out.append(": ");
                out.append(body.as_str());
                out
            },
            AuthError::Crypto(e) => join("crypto error: ", e.message().as_str()),
            AuthError::NoRefreshToken => "no refresh token available".to_owned(),
            AuthError::EmptyProfileKey => "profile key is empty".to_owned(),
        }
    }
}

// ---------------------------------------------------------------------------
// Replies of the server
// ---------------------------------------------------------------------------

/// KDF parameters returned by `/identity/accounts/prelogin`.
#[derive(Debug)]
pub struct PreloginResponse {
    pub kdf: u32,
    pub kdf_iterations: u32,
    pub kdf_memory: Option<u32>,
    pub kdf_parallelism: Option<u32>,
}

/// Token response from `/identity/connect/token`.
#[derive(Debug)]
pub struct TokenResponse {
    pub access_token: String,
    pub expires_in: u64,
    pub refresh_token: String,
    /// Encrypted user symmetric key (absent for API-key / client_credentials grant).
    pub key: String,
}

/// Minimal sync response used to fetch the profile key when `TokenResponse.key` is absent.
#[derive(Debug)]
pub struct ProfileKeyResponse {
    pub profile: ProfileKeyProfile,
}

/// The profile of a [`ProfileKeyResponse`].
#[derive(Debug)]
pub struct ProfileKeyProfile {
    pub key: String,
}

/// Whether an HTTP status is a success.
pub open spec fn success_status(status: u16) -> bool {
    200 <= status <= 299
}

/// Whether an HTTP status is a success.
pub fn is_success(status: u16) -> (r: bool)
    ensures
        r == success_status(status),
{
    200 <= status && status <= 299
}

/// The result of a request, from the status of the response, the text of its
/// body and what its body parsed to.
pub fn response_result<T>(status: u16, body: String, parsed: Result<T, String>) -> (r: Result<
    T,
    AuthError,
>)
    ensures
        if success_status(status) {
            match parsed {
                Ok(v) => r == Ok::<T, AuthError>(v),
                Err(m) => r matches Err(e) && e@ == AuthFault::Http(m@),
            }
        } else {
            r matches Err(e) && e@ == (AuthFault::Server { status, body: body@ })
        },
{
    if !is_success(status) {
        return Err(AuthError::Server { status, body });
    }
    match parsed {
        Ok(v) => Ok(v),
        Err(m) => Err(AuthError::Http(m)),
    }
}

// ---------------------------------------------------------------------------
// Requests
// ---------------------------------------------------------------------------

/// The address of the prelogin request.
pub fn prelogin_url(base_url: &str) -> (r: String)
    ensures
        r@ == base_url@ + "/identity/accounts/prelogin"@,
{
    join(base_url, "/identity/accounts/prelogin")
}

/// The address of the token requests.
pub fn token_url(base_url: &str) -> (r: String)
    ensures
        r@ == base_url@ + "/identity/connect/token"@,
{
    join(base_url, "/identity/connect/token")
}

/// The view of a form.
pub open spec fn form_view(form: Seq<(String, String)>) -> Seq<(Seq<char>, Seq<char>)> {
    form.map_values(|f: (String, String)| (f.0@, f.1@))
}

/// A field of a form.
fn form_field(name: &str, value: &str) -> (r: (String, String))
    ensures
        r.0@ == name@,
        r.1@ == value@,
{
    (name.to_owned(), value.to_owned())
}

/// The form of the password grant.
pub open spec fn password_grant(
    email: Seq<char>,
    hashed_password: Seq<char>,
    device_id: Seq<char>,
) -> Seq<(Seq<char>, Seq<char>)> {
    seq![
        ("grant_type"@, "password"@),
        ("username"@, email),
        ("password"@, hashed_password),
        ("scope"@, "api offline_access"@),
        ("client_id"@, "web"@),
        ("deviceType"@, "14"@),
        ("deviceIdentifier"@, device_id),
        ("deviceName"@, "vaultwarden-operator"@),
    ]
}

/// Writes the form of the password grant.
pub fn login_with_password(email: &str, hashed_password: &str, device_id: &str) -> (r: Vec<
    (String, String),
>)
    ensures
        form_view(r@) == password_grant(email@, hashed_password@, device_id@),
{
    let form = vec![
        form_field("grant_type", "password"),
        form_field("username", email),
        form_field("password", hashed_password),
        form_field("scope", "api offline_access"),
        form_field("client_id", "web"),
        form_field("deviceType", "14"),
        form_field("deviceIdentifier", device_id),
        form_field("deviceName", "vaultwarden-operator"),
    ];
    proof {
        assert(form_view(form@) =~= password_grant(email@, hashed_password@, device_id@));
    }
    form
}

/// The form of the API-key grant.
pub open spec fn api_key_grant(
    client_id: Seq<char>,
    client_secret: Seq<char>,
    device_id: Seq<char>,
) -> Seq<(Seq<char>, Seq<char>)> {
    seq![
        ("grant_type"@, "client_credentials"@),
        ("client_id"@, client_id),
        ("client_secret"@, client_secret),
        ("scope"@, "api"@),
        ("deviceType"@, "14"@),
        ("deviceIdentifier"@, device_id),
        ("deviceName"@, "vaultwarden-operator"@),
    ]
}

/// Writes the form of the API-key grant.
pub fn login_with_api_key(client_id: &str, client_secret: &str, device_id: &str) -> (r: Vec<
    (String, String),
>)
    ensures
        form_view(r@) == api_key_grant(client_id@, client_secret@, device_id@),
{
    let form = vec![
        form_field("grant_type", "client_credentials"),
        form_field("client_id", client_id),
        form_field("client_secret", client_secret),
        form_field("scope", "api"),
        form_field("deviceType", "14"),
        form_field("deviceIdentifier", device_id),
        form_field("deviceName", "vaultwarden-operator"),
    ];
    proof {
        assert(form_view(form@) =~= api_key_grant(client_id@, client_secret@, device_id@));
    }
    form
}

/// The form of the refresh-token grant.
pub open spec fn refresh_grant(refresh_token: Seq<char>) -> Seq<(Seq<char>, Seq<char>)> {
    seq![
        ("grant_type"@, "refresh_token"@),
        ("refresh_token"@, refresh_token),
        ("client_id"@, "web"@),
    ]
}

/// Writes the form of the refresh-token grant. Without a refresh token there
/// is nothing to send.
pub fn refresh_form(refresh_tok: &str) -> (r: Result<Vec<(String, String)>, AuthError>)
    ensures
        match r {
            Ok(form) => refresh_tok@.len() > 0 && form_view(form@) == refresh_grant(refresh_tok@),
            Err(e) => refresh_tok@.len() == 0 && e@ == AuthFault::NoRefreshToken,
        },
{
    if refresh_tok.is_empty() {
        return Err(AuthError::NoRefreshToken);
    }
    let form = vec![
        form_field("grant_type", "refresh_token"),
        form_field("refresh_token", refresh_tok),
        form_field("client_id", "web"),
    ];
    proof {
        assert(form_view(form@) =~= refresh_grant(refresh_tok@));
    }
    Ok(form)
}

/// What a refreshed token brings: the access token, the refresh token when it
/// was rotated, and the seconds until the access token expires.
pub fn refreshed_token(token: TokenResponse) -> (r: (String, Option<String>, u64))
    ensures
        r.0@ == token.access_token@,
        text::opt_text(r.1) == (if token.refresh_token@.len() == 0 {
            None
        } else {
            Some(token.refresh_token@)
        }),
        r.2 == token.expires_in,
{
    let rotated = if token.refresh_token.as_str().is_empty() {
        None
    } else {
        Some(token.refresh_token)
    };
    (token.access_token, rotated, token.expires_in)
}

// ---------------------------------------------------------------------------
// Full authentication flow
// ---------------------------------------------------------------------------

/// What a login sends, and the master key that its reply is read with.
#[derive(Debug)]
pub struct Login {
    pub master_key: Vec<u8>,
    pub form: Vec<(String, String)>,
}

/// What a completed login gives.
#[derive(Debug)]
pub struct Credentials {
    pub access_token: String,
    pub refresh_token: String,
    /// Seconds until the access token expires.
    pub expires_in: u64,
    pub sym_key: SymmetricKey,
}

/// The mathematical form of [`Credentials`].
pub struct CredentialsView {
    pub access_token: Seq<char>,
    pub refresh_token: Seq<char>,
    pub expires_in: u64,
    pub sym_key: KeyView,
}

impl View for Credentials {
    type V = CredentialsView;

    open spec fn view(&self) -> CredentialsView {
        CredentialsView {
            access_token: self.access_token@,
            refresh_token: self.refresh_token@,
            expires_in: self.expires_in,
            sym_key: self.sym_key@,
        }
    }
}

/// The form of a login: the API-key grant where both halves of an API key are
/// there, else the password grant.
pub open spec fn login_grant(
    email: Seq<char>,
    hashed_password: Seq<char>,
    client_id: Option<Seq<char>>,
    client_secret: Option<Seq<char>>,
    device_id: Seq<char>,
) -> Seq<(Seq<char>, Seq<char>)> {
    match (client_id, client_secret) {
        (Some(id), Some(secret)) => api_key_grant(id, secret, device_id),
        _ => password_grant(email, hashed_password, device_id),
    }
}

/// Writes the form of a login, for a password that is hashed already.
pub fn login_form(
    email: &str,
    hashed_password: &str,
    client_id: Option<&str>,
    client_secret: Option<&str>,
    device_id: &str,
) -> (r: Vec<(String, String)>)
    ensures
        form_view(r@) == login_grant(
            email@,
            hashed_password@,
            text::opt_str(client_id),
            text::opt_str(client_secret),
            device_id@,
        ),
{
    match (client_id, client_secret) {
        (Some(id), Some(secret)) => login_with_api_key(id, secret, device_id),
        _ => login_with_password(email, hashed_password, device_id),
    }
}

/// The KDF parameters with which a login can go on.
pub open spec fn prelogin_in_range(pre: PreloginResponse) -> bool {
    crypto::kdf_in_range(pre.kdf, pre.kdf_memory, pre.kdf_parallelism)
}

/// Derives the master key of an account and writes the form of its login.
pub fn begin_login(
    email: &str,
    password: &str,
    client_id: Option<&str>,
    client_secret: Option<&str>,
    device_id: &str,
    pre: &PreloginResponse,
) -> (r: Result<Login, AuthError>)
    requires
        prelogin_in_range(*pre),
    ensures
        match (
            r,
            crypto::master_key_of(
                password@,
                email@,
                pre.kdf,
                pre.kdf_iterations,
                pre.kdf_memory,
                pre.kdf_parallelism,
            ),
        ) {
            (Ok(login), Ok(key)) => {
                &&& login.master_key@ == key
                &&& form_view(login.form@) == login_grant(
                    email@,
                    crypto::hashed_password(password@, key),
                    text::opt_str(client_id),
                    text::opt_str(client_secret),
                    device_id@,
                )
            },
            (Err(e), Err(fault)) => e@ == AuthFault::Crypto(fault),
            _ => false,
        },
{
    let master_key = match make_master_key(
        password,
        email,
        pre.kdf,
        pre.kdf_iterations,
        pre.kdf_memory,
        pre.kdf_parallelism,
    ) {
        Ok(key) => key,
        Err(e) => return Err(AuthError::Crypto(e)),
    };
    let hashed = hash_password(password, master_key.as_slice());
    let form = login_form(email, hashed.as_str(), client_id, client_secret, device_id);
    Ok(Login { master_key, form })
}

/// The encrypted symmetric key in a token response; `None` when it has to be
/// fetched from the profile.
pub fn key_in_token(token: &TokenResponse) -> (r: Option<&str>)
    ensures
        match r {
            Some(key) => key@ == token.key@ && key@.len() > 0,
            None => token.key@.len() == 0,
        },
{
    if token.key.as_str().is_empty() {
        None
    } else {
        Some(token.key.as_str())
    }
}

/// The encrypted symmetric key in a profile. A profile without one is refused.
pub fn profile_key(response: ProfileKeyResponse) -> (r: Result<String, AuthError>)
    ensures
        match r {
            Ok(key) => key@ == response.profile.key@ && key@.len() > 0,
            Err(e) => response.profile.key@.len() == 0 && e@ == AuthFault::EmptyProfileKey,
        },
{
    if response.profile.key.as_str().is_empty() {
        return Err(AuthError::EmptyProfileKey);
    }
    Ok(response.profile.key)
}

/// Decrypts the symmetric key of an account and completes its login.
pub fn finish_login(token: TokenResponse, enc_key: &str, master_key: &[u8]) -> (r: Result<
    Credentials,
    AuthError,
>)
    ensures
        match (r, crypto::symmetric_key_of(enc_key@, master_key@)) {
            (Ok(c), Ok(key)) => c@ == (CredentialsView {
                access_token: token.access_token@,
                refresh_token: token.refresh_token@,
                expires_in: token.expires_in,
                sym_key: key,
            }),
            (Err(e), Err(fault)) => e@ == AuthFault::Crypto(fault),
            _ => false,
        },
{
    match decrypt_symmetric_key(enc_key, master_key) {
        Ok(sym_key) => Ok(
            Credentials {
                access_token: token.access_token,
                refresh_token: token.refresh_token,
                expires_in: token.expires_in,
                sym_key,
            },
        ),
        Err(e) => Err(AuthError::Crypto(e)),
    }
}

/// What an authentication asks for next.
#[derive(Debug)]
pub enum AuthStep {
    /// Ask for the KDF parameters, then [`after_prelogin`].
    Prelogin,
    /// Send the form to the token endpoint, then [`after_login`].
    RequestToken(Login),
    /// Fetch the profile with the access token, then [`after_profile`].
    FetchProfile { token: TokenResponse, master_key: Vec<u8> },
    /// The login is complete.
    Done(Credentials),
    /// The login failed.
    Failed(AuthError),
}

/// The mathematical form of an [`AuthStep`].
pub enum AuthStepView {
    Prelogin,
    RequestToken { master_key: Seq<u8>, form: Seq<(Seq<char>, Seq<char>)> },
    FetchProfile { token: TokenResponse, master_key: Seq<u8> },
    Done(CredentialsView),
    Failed(AuthFault),
}

impl View for AuthStep {
    type V = AuthStepView;

    open spec fn view(&self) -> AuthStepView {
        match *self {
            AuthStep::Prelogin => AuthStepView::Prelogin,
            AuthStep::RequestToken(login) => AuthStepView::RequestToken {
                master_key: login.master_key@,
                form: form_view(login.form@),
            },
            AuthStep::FetchProfile { token, master_key } => AuthStepView::FetchProfile {
                token,
                master_key: master_key@,
            },
            AuthStep::Done(credentials) => AuthStepView::Done(credentials@),
            AuthStep::Failed(e) => AuthStepView::Failed(e@),
        }
    }
}

/// The step after the KDF parameters came.
pub open spec fn login_step(
    email: Seq<char>,
    password: Seq<char>,
    client_id: Option<Seq<char>>,
    client_secret: Option<Seq<char>>,
    device_id: Seq<char>,
    pre: PreloginResponse,
) -> AuthStepView {
    match crypto::master_key_of(
        password,
        email,
        pre.kdf,
        pre.kdf_iterations,
        pre.kdf_memory,
        pre.kdf_parallelism,
    ) {
        Ok(master_key) => AuthStepView::RequestToken {
            master_key,
            form: login_grant(
                email,
                crypto::hashed_password(password, master_key),
                client_id,
                client_secret,
                device_id,
            ),
        },
        Err(e) => AuthStepView::Failed(AuthFault::Crypto(e)),
    }
}

/// The last step: the symmetric key is decrypted, or the login fails.
pub open spec fn final_step(
    token: TokenResponse,
    enc_key: Seq<char>,
    master_key: Seq<u8>,
) -> AuthStepView {
    match crypto::symmetric_key_of(enc_key, master_key) {
        Ok(sym_key) => AuthStepView::Done(
            CredentialsView {
                access_token: token.access_token@,
                refresh_token: token.refresh_token@,
                expires_in: token.expires_in,
                sym_key,
            },
        ),
        Err(e) => AuthStepView::Failed(AuthFault::Crypto(e)),
    }
}

/// The step after the token came: its key is used, or else that of the profile
/// is fetched.
pub open spec fn key_step(token: TokenResponse, master_key: Seq<u8>) -> AuthStepView {
    if token.key@.len() == 0 {
        AuthStepView::FetchProfile { token, master_key }
    } else {
        final_step(token, token.key@, master_key)
    }
}

/// The step after the profile came.
pub open spec fn profile_step(
    token: TokenResponse,
    master_key: Seq<u8>,
    profile: ProfileKeyResponse,
) -> AuthStepView {
    if profile.profile.key@.len() == 0 {
        AuthStepView::Failed(AuthFault::EmptyProfileKey)
    } else {
        final_step(token, profile.profile.key@, master_key)
    }
}

/// Full authentication flow.
///
/// 1. Prelogin for the KDF parameters.
/// 2. Derive master key.
/// 3. Login (password or API-key grant).
/// 4. If the token response has no `Key`, fetch from `/api/sync`.
/// 5. Decrypt the symmetric key.
pub fn authenticate() -> (r: AuthStep)
    ensures
        r@ == AuthStepView::Prelogin,
{
    AuthStep::Prelogin
}

/// Takes the reply to the prelogin request.
pub fn after_prelogin(
    email: &str,
    password: &str,
    client_id: Option<&str>,
    client_secret: Option<&str>,
    device_id: &str,
    reply: Result<PreloginResponse, AuthError>,
) -> (r: AuthStep)
    requires
        reply matches Ok(pre) ==> prelogin_in_range(pre),
    ensures
        match reply {
            Ok(pre) => r@ == login_step(
                email@,
                password@,
                text::opt_str(client_id),
                text::opt_str(client_secret),
                device_id@,
                pre,
            ),
            Err(e) => r@ == AuthStepView::Failed(e@),
        },
{
    let pre = match reply {
        Ok(pre) => pre,
        Err(e) => return AuthStep::Failed(e),
    };
    match begin_login(email, password, client_id, client_secret, device_id, &pre) {
        Ok(login) => AuthStep::RequestToken(login),
        Err(e) => AuthStep::Failed(e),
    }
}

/// Takes the reply to the token request.
pub fn after_login(master_key: Vec<u8>, reply: Result<TokenResponse, AuthError>) -> (r: AuthStep)
    ensures
        match reply {
            Ok(token) => r@ == key_step(token, master_key@),
            Err(e) => r@ == AuthStepView::Failed(e@),
        },
{
    let token = match reply {
        Ok(token) => token,
        Err(e) => return AuthStep::Failed(e),
    };
    let enc_key = match key_in_token(&token) {
        Some(key) => key.to_owned(),
        None => return AuthStep::FetchProfile { token, master_key },
    };
    match finish_login(token, enc_key.as_str(), master_key.as_slice()) {
        Ok(credentials) => AuthStep::Done(credentials),
        Err(e) => AuthStep::Failed(e),
    }
}

/// Takes the reply to the profile request.
pub fn after_profile(
    token: TokenResponse,
    master_key: Vec<u8>,
    reply: Result<ProfileKeyResponse, AuthError>,
) -> (r: AuthStep)
    ensures
        match reply {
            Ok(profile) => r@ == profile_step(token, master_key@, profile),
            Err(e) => r@ == AuthStepView::Failed(e@),
        },
{
    let profile = match reply {
        Ok(profile) => profile,
        Err(e) => return AuthStep::Failed(e),
    };
    let enc_key = match profile_key(profile) {
        Ok(key) => key,
        Err(e) => return AuthStep::Failed(e),
    };
    match finish_login(token, enc_key.as_str(), master_key.as_slice()) {
        Ok(credentials) => AuthStep::Done(credentials),
        Err(e) => AuthStep::Failed(e),
    }
}

/// A login completes exactly when the key it is given decrypts under the
/// master key, and then carries the token's own tokens and that very key; it
/// fetches the profile exactly when the token carries no key.
pub proof fn law_login_completes_with_its_key(token: TokenResponse, master_key: Seq<u8>)
    ensures
        key_step(token, master_key) is FetchProfile <==> token.key@.len() == 0,
        key_step(token, master_key) is Done <==> token.key@.len() > 0 && crypto::symmetric_key_of(
            token.key@,
            master_key,
        ) is Ok,
        key_step(token, master_key) matches AuthStepView::Done(c) ==> {
            &&& c.access_token == token.access_token@
            &&& c.refresh_token == token.refresh_token@
            &&& crypto::symmetric_key_of(token.key@, master_key) == Ok::<KeyView, CryptoFault>(
                c.sym_key,
            )
        },
{
}

/// The password itself never enters the form of an API-key login, and half an
/// API key counts for nothing.
pub proof fn law_api_key_needs_both_halves(
    email: Seq<char>,
    hashed_password: Seq<char>,
    client_id: Option<Seq<char>>,
    client_secret: Option<Seq<char>>,
    device_id: Seq<char>,
    other_hash: Seq<char>,
)
    ensures
        client_id is Some && client_secret is Some ==> login_grant(
            email,
            hashed_password,
            client_id,
            client_secret,
            device_id,
        ) == login_grant(email, other_hash, client_id, client_secret, device_id),
        client_id is None || client_secret is None ==> login_grant(
            email,
            hashed_password,
            client_id,
            client_secret,
            device_id,
        ) == password_grant(email, hashed_password, device_id),
{
}

/// Where an account has no whole API key, its login sends its email and the
/// hash of its own password under its master key, and keeps that master key.
pub proof fn law_password_login(
    email: Seq<char>,
    password: Seq<char>,
    client_id: Option<Seq<char>>,
    client_secret: Option<Seq<char>>,
    device_id: Seq<char>,
    pre: PreloginResponse,
    key: Seq<u8>,
)
    requires
        client_id is None || client_secret is None,
        crypto::master_key_of(
            password,
            email,
            pre.kdf,
            pre.kdf_iterations,
            pre.kdf_memory,
            pre.kdf_parallelism,
        ) == Ok::<Seq<u8>, CryptoFault>(key),
    ensures
        login_step(email, password, client_id, client_secret, device_id, pre) matches
            AuthStepView::RequestToken { master_key, form } && {
            &&& master_key == key
            &&& form.len() == 8
            &&& form[0] == ("grant_type"@, "password"@)
            &&& form[1] == ("username"@, email)
            &&& form[2] == (
                "password"@,
                outside::base64_encoded(
                    outside::pbkdf2_sha256_key(key, encode_utf8(password), 1),
                ),
            )
            &&& form[3] == ("scope"@, "api offline_access"@)
            &&& form[4] == ("client_id"@, "web"@)
            &&& form[5] == ("deviceType"@, "14"@)
            &&& form[6] == ("deviceIdentifier"@, device_id)
            &&& form[7] == ("deviceName"@, "vaultwarden-operator"@)
        },
{
}

/// Where it has one, its login sends the API key, and nothing of the password.
pub proof fn law_api_key_login(
    email: Seq<char>,
    password: Seq<char>,
    client_id: Seq<char>,
    client_secret: Seq<char>,
    device_id: Seq<char>,
    pre: PreloginResponse,
    key: Seq<u8>,
)
    requires
        crypto::master_key_of(
            password,
            email,
            pre.kdf,
            pre.kdf_iterations,
            pre.kdf_memory,
            pre.kdf_parallelism,
        ) == Ok::<Seq<u8>, CryptoFault>(key),
    ensures
        login_step(
            email,
            password,
            Some(client_id),
            Some(client_secret),
            device_id,
            pre,
        ) matches AuthStepView::RequestToken { master_key, form } && {
            &&& master_key == key
            &&& form.len() == 7
            &&& form[0] == ("grant_type"@, "client_credentials"@)
            &&& form[1] == ("client_id"@, client_id)
            &&& form[2] == ("client_secret"@, client_secret)
            &&& form[3] == ("scope"@, "api"@)
            &&& form[4] == ("deviceType"@, "14"@)
            &&& form[5] == ("deviceIdentifier"@, device_id)
            &&& form[6] == ("deviceName"@, "vaultwarden-operator"@)
        },
{
}

/// A login without a master key fails, and says why.
pub proof fn law_login_needs_a_master_key(
    email: Seq<char>,
    password: Seq<char>,
    client_id: Option<Seq<char>>,
    client_secret: Option<Seq<char>>,
    device_id: Seq<char>,
    pre: PreloginResponse,
)
    ensures
        crypto::master_key_of(
            password,
            email,
            pre.kdf,
            pre.kdf_iterations,
            pre.kdf_memory,
            pre.kdf_parallelism,
        ) matches Err(e) ==> login_step(
            email,
            password,
            client_id,
            client_secret,
            device_id,
            pre,
        ) == AuthStepView::Failed(AuthFault::Crypto(e)),
{
}

/// A refresh sends the refresh token itself.
pub proof fn law_refresh_sends_its_token(refresh_token: Seq<char>)
    ensures
        refresh_grant(refresh_token).len() == 3,
        refresh_grant(refresh_token)[0] == ("grant_type"@, "refresh_token"@),
        refresh_grant(refresh_token)[1] == ("refresh_token"@, refresh_token),
        refresh_grant(refresh_token)[2] == ("client_id"@, "web"@),
{
}

/// Whichever way the account's key comes, with the token or with the profile, a
/// login that it completes carries the token's own tokens and lifetime and the
/// key that it decrypts to; where it does not decrypt, the login fails with the
/// reason. The token's own key goes before that of the profile.
pub proof fn law_either_key_completes_the_login(
    token: TokenResponse,
    master_key: Seq<u8>,
    profile: ProfileKeyResponse,
)
    ensures
        token.key@.len() > 0 ==> match crypto::symmetric_key_of(token.key@, master_key) {
            Ok(sym_key) => key_step(token, master_key) == AuthStepView::Done(
                CredentialsView {
                    access_token: token.access_token@,
                    refresh_token: token.refresh_token@,
                    expires_in: token.expires_in,
                    sym_key,
                },
            ),
            Err(e) => key_step(token, master_key) == AuthStepView::Failed(AuthFault::Crypto(e)),
        },
        token.key@.len() == 0 ==> key_step(token, master_key) == (AuthStepView::FetchProfile {
            token,
            master_key,
        }),
        profile.profile.key@.len() > 0 ==> match crypto::symmetric_key_of(
            profile.profile.key@,
            master_key,
        ) {
            Ok(sym_key) => profile_step(token, master_key, profile) == AuthStepView::Done(
                CredentialsView {
                    access_token: token.access_token@,
                    refresh_token: token.refresh_token@,
                    expires_in: token.expires_in,
                    sym_key,
                },
            ),
            Err(e) => profile_step(token, master_key, profile) == AuthStepView::Failed(
                AuthFault::Crypto(e),
            ),
        },
        profile.profile.key@.len() == 0 ==> profile_step(token, master_key, profile)
            == AuthStepView::Failed(AuthFault::EmptyProfileKey),
{
}

/// The statuses of success are those from 200 up to 299.
pub proof fn law_success_is_two_hundred(status: u16)
    ensures
        success_status(status) <==> status / 100 == 2,
{
}

/// A message tells what it was made from: the text of an HTTP error, the status
/// and body of a reply, the message of the error beneath.
pub proof fn law_auth_messages_tell_their_detail(m: Seq<char>, status: u16, e: CryptoFault)
    ensures
        crypto::ends_in(AuthFault::Http(m).message(), m),
        crypto::ends_in((AuthFault::Server { status, body: m }).message(), m),
        text::holds_within(
            (AuthFault::Server { status, body: m }).message(),
            text::decimal(status as nat),
        ),
        crypto::ends_in(AuthFault::Crypto(e).message(), e.message()),
        AuthFault::Http(m).sources() == seq![m],
        AuthFault::Crypto(e).sources() == seq![e.message()] + e.sources(),
{
    crypto::lemma_ends_in("HTTP error: "@, m);
    crypto::lemma_ends_in("crypto error: "@, e.message());
    let number = text::decimal(status as nat);
    let start = "server returned "@ + number + ": "@;
    crypto::lemma_ends_in(start, m);
    let whole = (AuthFault::Server { status, body: m }).message();
    assert(whole =~= "server returned "@ + number + (": "@ + m));
}

/// What a reader is told of each fault, word for word.
pub proof fn law_auth_messages_read(m: Seq<char>, status: u16, e: CryptoFault)
    ensures
        AuthFault::Http(m).message() == "HTTP error: "@ + m,
        (AuthFault::Server { status, body: m }).message() == "server returned "@ + text::decimal(
            status as nat,
        ) + ": "@ + m,
        AuthFault::Crypto(e).message() == "crypto error: "@ + e.message(),
        AuthFault::NoRefreshToken.message() == "no refresh token available"@,
        AuthFault::EmptyProfileKey.message() == "profile key is empty"@,
        (AuthFault::Server { status, body: m }).sources().len() == 0,
        AuthFault::NoRefreshToken.sources().len() == 0,
        AuthFault::EmptyProfileKey.sources().len() == 0,
{
}

/// A login can go on with every derivation that [`make_master_key`] can take.
pub proof fn law_login_takes_every_derivation(pre: PreloginResponse)
    ensures
        prelogin_in_range(pre) <==> crypto::kdf_in_range(
            pre.kdf,
            pre.kdf_memory,
            pre.kdf_parallelism,
        ),
{
}

/// A form is seen field by field, each as its name and its value.
pub proof fn law_form_is_its_fields(form: Seq<(String, String)>, i: int)
    ensures
        form_view(form).len() == form.len(),
        0 <= i < form.len() ==> form_view(form)[i] == (form[i].0@, form[i].1@),
{
}

} // verus!
