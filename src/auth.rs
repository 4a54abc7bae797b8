use vstd::prelude::*;
use vstd::utf8::encode_utf8;

verus! {

/// Issuer named in one-time-password URLs and in tokens.
pub const OTP_ISSUER: &'static str = "AITrading";

/// Lifetime of an issued token, in seconds.
pub const TOKEN_LIFETIME_SECS: i64 = 86_400;

/// Authentication settings of a process: the token secret, set once, and the
/// admin-mode flag.
#[derive(Debug)]
pub struct AuthState {
    pub jwt_secret: Option<String>,
    pub admin_mode: bool,
}

impl AuthState {
    /// No secret and admin mode off.
    pub fn new() -> (r: AuthState)
        ensures
            r.jwt_secret is None,
            !r.admin_mode,
    {
        AuthState { jwt_secret: None, admin_mode: false }
    }
}

/// Sets the token secret; only the first call has an effect.
pub fn set_jwt_secret(state: &mut AuthState, secret: &str)
    ensures
        old(state).jwt_secret is None ==> (final(state).jwt_secret matches Some(s) && s@ == secret@),
        old(state).jwt_secret is Some ==> final(state).jwt_secret == old(state).jwt_secret,
        final(state).admin_mode == old(state).admin_mode,
{
    if state.jwt_secret.is_none() {
        state.jwt_secret = Some(String::from_str(secret));
    }
}

/// Turns admin mode on or off.
pub fn set_admin_mode(state: &mut AuthState, enabled: bool)
    ensures
        final(state).admin_mode == enabled,
        final(state).jwt_secret == old(state).jwt_secret,
{
    state.admin_mode = enabled;
}

/// Admin mode is on.
pub fn is_admin_mode(state: &AuthState) -> (r: bool)
    ensures
        r == state.admin_mode,
{
    state.admin_mode
}

/// Claims of an access token. Times are epoch seconds.
#[derive(Debug)]
pub struct Claims {
    pub user_id: String,
    pub email: String,
    pub exp: i64,
    pub iat: i64,
    pub nbf: i64,
    pub iss: String,
}

impl Claims {
    /// Claims of a token issued to a user at `now`, valid from then for one day.
    pub fn new(user_id: &str, email: &str, now: i64) -> (r: Claims)
        requires
            now <= i64::MAX - TOKEN_LIFETIME_SECS,
        ensures
            r.user_id@ == user_id@,
            r.email@ == email@,
            r.iat == now,
            r.nbf == now,
            r.exp == now + TOKEN_LIFETIME_SECS,
            r.iss@ == OTP_ISSUER@,
    {
        Claims {
            user_id: String::from_str(user_id),
            email: String::from_str(email),
            exp: now + TOKEN_LIFETIME_SECS,
            iat: now,
            nbf: now,
            iss: String::from_str(OTP_ISSUER),
        }
    }
}

/// Failure of an authentication step.
#[derive(Clone, Debug)]
pub enum AuthError {
    Bcrypt(String),
    Jwt(String),
    Totp(String),
    JwtSecretNotSet,
    InvalidToken,
}

/// The secret tokens are signed with, if it has been set.
pub fn jwt_secret(state: &AuthState) -> (r: Result<&String, AuthError>)
    ensures
        state.jwt_secret is None <==> r matches Err(AuthError::JwtSecretNotSet),
        r matches Ok(s) ==> state.jwt_secret == Some(*s),
{
    match &state.jwt_secret {
        Some(s) => Ok(s),
        None => Err(AuthError::JwtSecretNotSet),
    }
}

/// Bytes that URL encoding keeps as they are: ASCII letters, digits, `-`, `.`, `_`, `~`.
pub open spec fn url_safe(b: u8) -> bool {
    (0x30 <= b <= 0x39) || (0x41 <= b <= 0x5a) || (0x61 <= b <= 0x7a) || b == 0x2d || b == 0x2e || b == 0x5f
        || b == 0x7e
}

/// Upper-case hexadecimal digit of a value below 16.
pub open spec fn hex_digit(d: u8) -> char {
    if d < 10 {
        (0x30 + d) as char
    } else {
        (0x37 + d) as char
    }
}

/// Percent-encoding of bytes: safe bytes kept, every other byte written `%XY`.
pub open spec fn percent_encoded(bytes: Seq<u8>) -> Seq<char>
    decreases bytes.len(),
{
    if bytes.len() == 0 {
        Seq::empty()
    } else {
        let b = bytes.last();
        percent_encoded(bytes.drop_last()) + if url_safe(b) {
            seq![b as char]
        } else {
            seq!['%', hex_digit(b / 16), hex_digit(b % 16)]
        }
    }
}

/// Relies on `urlencoding::encode`: the UTF-8 bytes of the text, each safe byte
/// kept and every other one written `%` and two upper-case hex digits.
#[verifier::external_body]
fn url_encode(s: &str) -> (r: String)
    ensures
        r@ == percent_encoded(encode_utf8(s@)),
{
    urlencoding::encode(s).into_owned()
}

/// URL that authenticator apps read to set up a one-time password for `email`.
pub fn get_otp_qrcode_url(secret: &str, email: &str) -> (r: String)
    ensures
        r@ == "otpauth://totp/"@ + percent_encoded(encode_utf8(OTP_ISSUER@)) + ":"@ + percent_encoded(
            encode_utf8(email@),
        ) + "?secret="@ + secret@ + "&issuer="@ + percent_encoded(encode_utf8(OTP_ISSUER@)),
{
    let issuer = url_encode(OTP_ISSUER);
    let account = url_encode(email);
    let mut url = String::from_str("otpauth://totp/");
    url.append(issuer.as_str());
    url.append(":");
    url.append(account.as_str());
    url.append("?secret=");
    url.append(secret);
    url.append("&issuer=");
    url.append(issuer.as_str());
    url
}

/// What `bcrypt::verify` returns for a password and a stored hash: whether
/// they match, or `None` when the hash cannot be read.
pub uninterp spec fn bcrypt_verdict(password: Seq<char>, hash: Seq<char>) -> Option<bool>;

/// Relies on `bcrypt::verify`: it rehashes the password with the cost and salt
/// read from `hash` and compares, so its result depends on the two texts alone;
/// its error (an unreadable hash) becomes `None`.
#[verifier::external_body]
fn bcrypt_verify(password: &str, hash: &str) -> (r: Option<bool>)
    ensures
        r == bcrypt_verdict(password@, hash@),
{
    bcrypt::verify(password, hash).ok()
}

/// A password is accepted only on a readable hash that it matches.
pub fn password_accepted(verdict: Option<bool>) -> (r: bool)
    ensures
        r == (verdict == Some(true)),
{
    match verdict {
        Some(matched) => matched,
        None => false,
    }
}

/// Checks a password against a bcrypt hash; an unreadable hash rejects it.
pub fn check_password(password: &str, hash: &str) -> (r: bool)
    ensures
        r == (bcrypt_verdict(password@, hash@) == Some(true)),
{
    password_accepted(bcrypt_verify(password, hash))
}

/// Relies on `bcrypt::hash` at `bcrypt::DEFAULT_COST` (12): a hash with a fresh
/// random salt, written `$2b$12$` then 22 salt and 31 hash characters, which
/// `bcrypt::verify` accepts for the same password; or the error rendered as
/// text when no randomness is available.
#[verifier::external_body]
fn bcrypt_hash(password: &str) -> (r: Result<String, String>)
    ensures
        r matches Ok(h) ==> h@.len() == 60 && h@.subrange(0, 7) == "$2b$12$"@,
        r matches Ok(h) ==> bcrypt_verdict(password@, h@) == Some(true),
{
    bcrypt::hash(password, bcrypt::DEFAULT_COST).map_err(|e| e.to_string())
}

/// Hashes a password with bcrypt at the default cost, with a fresh salt.
pub fn hash_password(password: &str) -> (r: Result<String, AuthError>)
    ensures
        r matches Ok(h) ==> h@.len() == 60 && h@.subrange(0, 7) == "$2b$12$"@,
        r matches Ok(h) ==> bcrypt_verdict(password@, h@) == Some(true),
        r matches Err(e) ==> e is Bcrypt,
{
    match bcrypt_hash(password) {
        Ok(h) => Ok(h),
        Err(message) => Err(AuthError::Bcrypt(message)),
    }
}

} // verus!
