//! Login with Amazon: the tokens the tool keeps, when they are stale, the
//! authorization URL of the loopback login, the authorization code in the
//! redirect, the token-endpoint requests, and the reading of its reply.
use crate::config::{Config, in_alexa_dir};
use crate::json::{json_content, json_parse_text, parse_json_text, json_field, json_get, json_as_str, json_quote, json_str, push_quoted, JsonTree};
use crate::text::{
    chars_of, decimal, decimal_chars, find_chars, find_from, index_of, index_of_exec,
    lemma_find_from_props, occurs_at, push_str_chars, string_of, sub_chars, char_from_ascii,
};
use vstd::prelude::*;
use vstd::utf8::encode_utf8;

verus! {

/// The LWA tokens kept in `~/.alexa/tokens.json`.
pub struct Tokens {
    pub access_token: String,
    pub refresh_token: String,
    pub obtained_at: u64,
}

pub struct TokensView {
    pub access_token: Seq<char>,
    pub refresh_token: Seq<char>,
    pub obtained_at: u64,
}

impl View for Tokens {
    type V = TokensView;

    open spec fn view(&self) -> TokensView {
        TokensView {
            access_token: self.access_token@,
            refresh_token: self.refresh_token@,
            obtained_at: self.obtained_at,
        }
    }
}

impl Clone for Tokens {
    fn clone(&self) -> (r: Tokens)
        ensures
            r@ == self@,
    {
        Tokens {
            access_token: self.access_token.clone(),
            refresh_token: self.refresh_token.clone(),
            obtained_at: self.obtained_at,
        }
    }
}

/// The current time in whole seconds since the Unix epoch, read from the
/// system clock (`SystemTime::now`); 0 where the clock reads earlier than
/// the epoch. Nothing is stated of the value: it is the machine's clock.
#[verifier::external_body]
pub fn now_secs() -> u64 {
    match std::time::SystemTime::now().duration_since(std::time::UNIX_EPOCH) {
        Ok(d) => d.as_secs(),
        Err(_) => 0,
    }
}

/// Tokens are stale one hour after they were obtained.
pub open spec fn expired(obtained_at: int, now: int) -> bool {
    now - obtained_at >= 3600
}

/// Whether tokens obtained at `obtained_at` are stale at `now` (seconds
/// since the epoch).
pub fn is_expired(obtained_at: u64, now: u64) -> (r: bool)
    ensures
        r == expired(obtained_at as int, now as int),
{
    now.saturating_sub(obtained_at) >= 3600
}

/// Once stale, tokens stay stale.
pub proof fn lemma_expiry_is_monotone(obtained_at: int, now: int, later: int)
    requires
        expired(obtained_at, now),
        now <= later,
    ensures
        expired(obtained_at, later),
{
}

impl Tokens {
    /// `~/.alexa/tokens.json`.
    pub fn path() -> (r: String)
        ensures
            in_alexa_dir(r@, "tokens.json"@),
    {
        Config::under_dir("tokens.json")
    }
}

// ---------------------------------------------------------------------------
// Percent-encoding
// ---------------------------------------------------------------------------

/// The bytes left as they are: ASCII letters and digits, `-`, `_`, `.`, `~`.
pub open spec fn is_unreserved(b: u8) -> bool {
    ||| (48 <= b && b <= 57)
    ||| (65 <= b && b <= 90)
    ||| (97 <= b && b <= 122)
    ||| b == 45
    ||| b == 95
    ||| b == 46
    ||| b == 126
}

pub open spec fn upper_hex_digit(d: nat) -> char {
    if d < 10 {
        (('0' as u32) + d) as char
    } else {
        (('A' as u32) + d - 10) as char
    }
}

/// One byte, percent-encoded.
pub open spec fn pct_byte(b: u8) -> Seq<char> {
    if is_unreserved(b) {
        seq![(b as u32) as char]
    } else {
        seq!['%', upper_hex_digit((b / 16) as nat), upper_hex_digit((b % 16) as nat)]
    }
}

/// Bytes, percent-encoded.
pub open spec fn percent_encode(bytes: Seq<u8>) -> Seq<char>
    decreases bytes.len(),
{
    if bytes.len() == 0 {
        seq![]
    } else {
        percent_encode(bytes.drop_last()) + pct_byte(bytes.last())
    }
}

/// Text, percent-encoded as UTF-8.
pub open spec fn pct(s: Seq<char>) -> Seq<char> {
    percent_encode(encode_utf8(s))
}

fn upper_hex_exec(d: u8) -> (r: char)
    requires
        d < 16,
    ensures
        r == upper_hex_digit(d as nat),
{
    if d < 10 {
        char_from_ascii(48 + d)
    } else {
        char_from_ascii(55 + d)
    }
}

fn push_pct_byte(out: &mut Vec<char>, b: u8)
    ensures
        final(out)@ == old(out)@ + pct_byte(b),
{
    let ghost o = out@;
    if (48 <= b && b <= 57) || (65 <= b && b <= 90) || (97 <= b && b <= 122) || b == 45 || b == 95
        || b == 46 || b == 126 {
        out.push(char_from_ascii(b));
        assert(out@ =~= o + pct_byte(b));
    } else {
        out.push('%');
        out.push(upper_hex_exec(b / 16));
        out.push(upper_hex_exec(b % 16));
        assert(out@ =~= o + pct_byte(b));
    }
}

/// Percent-encodes a query value: every byte of its UTF-8 encoding but
/// ASCII letters, digits, `-`, `_`, `.` and `~` becomes `%XX`.
pub fn urlencode(s: &str) -> (r: String)
    ensures
        r@ == pct(s@),
{
    let bytes = s.as_bytes();
    let mut out: Vec<char> = Vec::new();
    let mut i: usize = 0;
    while i < bytes.len()
        invariant
            i <= bytes.len(),
            bytes@ == encode_utf8(s@),
            out@ == percent_encode(bytes@.subrange(0, i as int)),
        decreases bytes.len() - i,
    {
        push_pct_byte(&mut out, bytes[i]);
        i += 1;
        assert(bytes@.subrange(0, i as int).drop_last() =~= bytes@.subrange(0, i - 1));
    }
    assert(bytes@.subrange(0, bytes@.len() as int) =~= bytes@);
    string_of(out.as_slice())
}

/// `urlencoding::encode`: every byte of the UTF-8 encoding but ASCII letters,
/// digits, `-`, `_`, `.` and `~` becomes `%XX` with upper-case hex digits.
#[verifier::external_body]
pub(crate) fn url_encode_component(s: &str) -> (r: String)
    ensures
        r@ == pct(s@),
{
    urlencoding::encode(s).into_owned()
}

// ---------------------------------------------------------------------------
// Authorization URL
// ---------------------------------------------------------------------------

/// The `scope_data` JSON naming the product and this device.
pub open spec fn scope_data_text(product_id: Seq<char>, serial: Seq<char>) -> Seq<char> {
    "{\"alexa:all\":{\"productID\":"@ + json_quote(product_id)
        + ",\"productInstanceAttributes\":{\"deviceSerialNumber\":"@ + json_quote(serial)
        + "}}}"@
}

/// The Login with Amazon authorization URL.
pub open spec fn authorize_url_text(
    client_id: Seq<char>,
    product_id: Seq<char>,
    serial: Seq<char>,
    redirect_uri: Seq<char>,
) -> Seq<char> {
    "https://www.amazon.com/ap/oa?client_id="@ + pct(client_id) + "&scope="@ + pct("alexa:all"@)
        + "&scope_data="@ + pct(scope_data_text(product_id, serial))
        + "&response_type=code&redirect_uri="@ + pct(redirect_uri)
}

/// The Login-with-Amazon authorization URL of the loopback login: client id,
/// `alexa:all` scope with the product and device serial as scope data, and
/// the redirect URI, each percent-encoded.
pub fn authorize_url(config: &Config, redirect_uri: &str) -> (r: String)
    ensures
        r@ == authorize_url_text(
            config.client_id@,
            config.product_id@,
            config.device_serial_number@,
            redirect_uri@,
        ),
{
    let mut sd: Vec<char> = Vec::new();
    push_str_chars(&mut sd, "{\"alexa:all\":{\"productID\":");
    push_quoted(&mut sd, config.product_id.as_str());
    push_str_chars(&mut sd, ",\"productInstanceAttributes\":{\"deviceSerialNumber\":");
    push_quoted(&mut sd, config.device_serial_number.as_str());
    push_str_chars(&mut sd, "}}}");
    let scope_data = string_of(sd.as_slice());
    let mut out: Vec<char> = Vec::new();
    push_str_chars(&mut out, "https://www.amazon.com/ap/oa?client_id=");
    push_str_chars(&mut out, urlencode(config.client_id.as_str()).as_str());
    push_str_chars(&mut out, "&scope=");
    push_str_chars(&mut out, urlencode("alexa:all").as_str());
    push_str_chars(&mut out, "&scope_data=");
    push_str_chars(&mut out, urlencode(scope_data.as_str()).as_str());
    push_str_chars(&mut out, "&response_type=code&redirect_uri=");
    push_str_chars(&mut out, urlencode(redirect_uri).as_str());
    string_of(out.as_slice())
}

// ---------------------------------------------------------------------------
// Loopback login
// ---------------------------------------------------------------------------

pub open spec fn redirect_uri_text(port: u16) -> Seq<char> {
    "http://localhost:"@ + decimal(port as nat) + "/auth"@
}

/// The loopback redirect URI for `port`.
pub fn redirect_uri(port: u16) -> (r: String)
    ensures
        r@ == redirect_uri_text(port),
{
    let mut out: Vec<char> = Vec::new();
    push_str_chars(&mut out, "http://localhost:");
    let d = decimal_chars(port as u64);
    crate::text::push_all(&mut out, d.as_slice());
    push_str_chars(&mut out, "/auth");
    string_of(out.as_slice())
}

pub open spec fn listen_address_text(port: u16) -> Seq<char> {
    "0.0.0.0:"@ + decimal(port as nat)
}

/// The address the loopback server listens on.
pub fn listen_address(port: u16) -> (r: String)
    ensures
        r@ == listen_address_text(port),
{
    let mut out: Vec<char> = Vec::new();
    push_str_chars(&mut out, "0.0.0.0:");
    let d = decimal_chars(port as u64);
    crate::text::push_all(&mut out, d.as_slice());
    string_of(out.as_slice())
}

/// The authorization code in a request URL: the text after the first
/// `code=`, up to the next `&`, where it is not empty.
pub open spec fn auth_code_in(url: Seq<char>) -> Option<Seq<char>> {
    match find_from(url, "code="@, 0) {
        None => None,
        Some(i) => {
            let rest = url.subrange(i + "code="@.len(), url.len() as int);
            let code = match index_of(rest, '&') {
                Some(j) => rest.subrange(0, j),
                None => rest,
            };
            if code.len() > 0 {
                Some(code)
            } else {
                None
            }
        },
    }
}

/// The authorization code carried by a request to the loopback server.
pub fn auth_code_from_url(url: &str) -> (r: Option<String>)
    ensures
        r matches Some(c) ==> auth_code_in(url@) == Some(c@),
        r is None ==> auth_code_in(url@) is None,
{
    let u = chars_of(url);
    let key = chars_of("code=");
    let i = match find_chars(u.as_slice(), key.as_slice(), 0) {
        Some(i) => i,
        None => return None,
    };
    proof {
        lemma_find_from_props(u@, key@, 0);
    }
    assert(occurs_at(u@, key@, i as int));
    assert(i + key@.len() <= u.len());
    let rest = sub_chars(u.as_slice(), i + key.len(), u.len());
    let code = match index_of_exec(rest.as_slice(), '&') {
        Some(j) => {
            proof {
                lemma_find_from_props(rest@, seq!['&'], 0);
            }
            sub_chars(rest.as_slice(), 0, j)
        },
        None => rest,
    };
    if code.len() > 0 {
        Some(string_of(code.as_slice()))
    } else {
        None
    }
}

// ---------------------------------------------------------------------------
// Token endpoint
// ---------------------------------------------------------------------------

/// A form parameter.
pub struct FormParam {
    pub name: String,
    pub value: String,
}

pub open spec fn form_view(ps: Seq<FormParam>) -> Seq<(Seq<char>, Seq<char>)> {
    ps.map_values(|p: FormParam| (p.name@, p.value@))
}

fn param(name: &str, value: &str) -> (r: FormParam)
    ensures
        r.name@ == name@,
        r.value@ == value@,
{
    FormParam { name: name.to_string(), value: value.to_string() }
}

/// The form that trades an authorization code for tokens.
pub fn authorization_code_params(config: &Config, code: &str, redirect_uri: &str) -> (r: Vec<
    FormParam,
>)
    ensures
        form_view(r@) == seq![
            ("grant_type"@, "authorization_code"@),
            ("code"@, code@),
            ("client_id"@, config.client_id@),
            ("client_secret"@, config.client_secret@),
            ("redirect_uri"@, redirect_uri@),
        ],
{
    let mut v: Vec<FormParam> = Vec::new();
    v.push(param("grant_type", "authorization_code"));
    v.push(param("code", code));
    v.push(param("client_id", config.client_id.as_str()));
    v.push(param("client_secret", config.client_secret.as_str()));
    v.push(param("redirect_uri", redirect_uri));
    assert(form_view(v@) =~= seq![
        ("grant_type"@, "authorization_code"@),
        ("code"@, code@),
        ("client_id"@, config.client_id@),
        ("client_secret"@, config.client_secret@),
        ("redirect_uri"@, redirect_uri@),
    ]);
    v
}

/// The form that trades a refresh token for fresh tokens.
pub fn refresh_params(config: &Config, refresh_token: &str) -> (r: Vec<FormParam>)
    ensures
        form_view(r@) == seq![
            ("grant_type"@, "refresh_token"@),
            ("refresh_token"@, refresh_token@),
            ("client_id"@, config.client_id@),
            ("client_secret"@, config.client_secret@),
        ],
{
    let mut v: Vec<FormParam> = Vec::new();
    v.push(param("grant_type", "refresh_token"));
    v.push(param("refresh_token", refresh_token));
    v.push(param("client_id", config.client_id.as_str()));
    v.push(param("client_secret", config.client_secret.as_str()));
    assert(form_view(v@) =~= seq![
        ("grant_type"@, "refresh_token"@),
        ("refresh_token"@, refresh_token@),
        ("client_id"@, config.client_id@),
        ("client_secret"@, config.client_secret@),
    ]);
    v
}

/// Why the token endpoint's reply gave no tokens.
pub enum AuthError {
    /// The endpoint reported an error, with its description.
    ExchangeFailed { description: String },
    NoAccessToken,
    NoRefreshToken,
    /// The reply is not JSON.
    NotJson,
}

pub open spec fn auth_error_message(e: AuthError) -> Seq<char> {
    match e {
        AuthError::ExchangeFailed { description } => "token exchange failed: "@ + description@,
        AuthError::NoAccessToken => "no access_token"@,
        AuthError::NoRefreshToken => "no refresh_token"@,
        AuthError::NotJson => "token endpoint reply is not JSON"@,
    }
}

impl AuthError {
    pub fn message(&self) -> (r: String)
        ensures
            r@ == auth_error_message(*self),
    {
        match self {
            AuthError::ExchangeFailed { description } => {
                let mut out: Vec<char> = Vec::new();
                push_str_chars(&mut out, "token exchange failed: ");
                push_str_chars(&mut out, description.as_str());
                string_of(out.as_slice())
            },
            AuthError::NoAccessToken => "no access_token".to_string(),
            AuthError::NoRefreshToken => "no refresh_token".to_string(),
            AuthError::NotJson => "token endpoint reply is not JSON".to_string(),
        }
    }
}

/// What the token endpoint's JSON reply `reply`, received at `now`, gives.
pub open spec fn exchange_outcome_matches(r: Result<Tokens, AuthError>, reply: JsonTree, now: u64) -> bool {
    match json_str(json_field(reply, "error_description"@)) {
        Some(d) => r matches Err(AuthError::ExchangeFailed { description: x }) && x@ == d,
        None => match json_str(json_field(reply, "access_token"@)) {
            None => r matches Err(AuthError::NoAccessToken),
            Some(a) => match json_str(json_field(reply, "refresh_token"@)) {
                None => r matches Err(AuthError::NoRefreshToken),
                Some(f) => r matches Ok(t) && t@ == (TokensView {
                    access_token: a,
                    refresh_token: f,
                    obtained_at: now,
                }),
            },
        },
    }
}

/// The tokens in the token endpoint's reply, stamped with `now`.
pub fn tokens_from_reply(reply: &serde_json::Value, now: u64) -> (r: Result<Tokens, AuthError>)
    ensures
        exchange_outcome_matches(r, json_content(*reply), now),
{
    match json_get(reply, "error_description") {
        Some(e) => match json_as_str(e) {
            Some(d) => return Err(AuthError::ExchangeFailed { description: d.to_string() }),
            None => {},
        },
        None => {},
    }
    let access = match json_get(reply, "access_token") {
        Some(a) => match json_as_str(a) {
            Some(s) => s.to_string(),
            None => return Err(AuthError::NoAccessToken),
        },
        None => return Err(AuthError::NoAccessToken),
    };
    let refresh = match json_get(reply, "refresh_token") {
        Some(a) => match json_as_str(a) {
            Some(s) => s.to_string(),
            None => return Err(AuthError::NoRefreshToken),
        },
        None => return Err(AuthError::NoRefreshToken),
    };
    Ok(Tokens { access_token: access, refresh_token: refresh, obtained_at: now })
}

/// The access token to use as it is: the cached one, unless a refresh is
/// forced or the tokens are stale at `now`.
pub fn cached_access_token(tokens: &Tokens, force_refresh: bool, now: u64) -> (r: Option<String>)
    ensures
        r is Some <==> !force_refresh && !expired(tokens.obtained_at as int, now as int),
        r matches Some(a) ==> a@ == tokens.access_token@,
{
    if !force_refresh && !is_expired(tokens.obtained_at, now) {
        Some(tokens.access_token.clone())
    } else {
        None
    }
}

/// What the token endpoint's reply text, received at `now`, gives.
pub open spec fn reply_text_outcome_matches(r: Result<Tokens, AuthError>, reply: Seq<char>, now: u64) -> bool {
    match json_parse_text(reply) {
        None => r matches Err(AuthError::NotJson),
        Some(t) => exchange_outcome_matches(r, t, now),
    }
}

/// The tokens in the token endpoint's reply text, stamped with `now`.
pub fn tokens_from_reply_text(reply: &str, now: u64) -> (r: Result<Tokens, AuthError>)
    ensures
        reply_text_outcome_matches(r, reply@, now),
{
    match parse_json_text(reply) {
        Some(v) => tokens_from_reply(&v, now),
        None => Err(AuthError::NotJson),
    }
}

/// The tokens in the token endpoint's reply text, stamped with the time they
/// arrive (read from the system clock).
pub fn exchange_result(reply: &str) -> (r: Result<Tokens, AuthError>)
    ensures
        exists|now: u64| reply_text_outcome_matches(r, reply@, now),
{
    let now = now_secs();
    let r = tokens_from_reply_text(reply, now);
    assert(reply_text_outcome_matches(r, reply@, now));
    r
}

/// The cached access token, where it can be used as it is at the current
/// time (read from the system clock): never when a refresh is forced, and
/// otherwise exactly when the tokens are not stale at the time read.
pub fn usable_access_token(tokens: &Tokens, force_refresh: bool) -> (r: Option<String>)
    ensures
        force_refresh ==> r is None,
        r matches Some(a) ==> a@ == tokens.access_token@,
        exists|now: u64|
            r is Some <==> !force_refresh && !expired(tokens.obtained_at as int, now as int),
{
    let now = now_secs();
    let r = cached_access_token(tokens, force_refresh, now);
    assert(r is Some <==> !force_refresh && !expired(tokens.obtained_at as int, now as int));
    r
}

} // verus!
