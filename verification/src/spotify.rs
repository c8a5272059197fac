//! Spotify: the PKCE authorization flow's URLs and callback, token expiry, Web API payload
//! parsing, device choice and the playback request rules.
use vstd::prelude::*;
use vstd::string::StringSliceAdditionalSpecFns;
use base64::Engine;
use rand::RngCore;
use sha2::Digest;
use crate::text::{chars_of, string_of, push_str, trim, trimmed, split_ws, split_whitespace, split_on, split_char, first_index, find_char, slice_vec, extend_all, is_blank};
use crate::lyrics::same_str;
use crate::providers::{ProviderKind, ProviderTrack, ProviderPlaylist};
use crate::json::{Json, str_field, get_spec, str_at, str_at_path, path_spec, array_spec, u64_spec, i64_spec, bool_spec};
use crate::text::{find_from, find_seq, to_ascii_lower, ascii_lower};

verus! {

/// The loopback port the authorization callback is received on.
pub const REDIRECT_PORT: u16 = 8899;

/// The client id registered with a `/login` redirect; every other client uses `/callback`.
pub open spec fn login_client() -> Seq<char> {
    "d420a117a32841c2b3474932e49fb54b"@
}

/// The loopback redirect URI registered for a client id.
pub open spec fn redirect_uri_spec(client_id: Seq<char>) -> Seq<char> {
    if client_id == login_client() {
        "http://127.0.0.1:8899/login"@
    } else {
        "http://127.0.0.1:8899/callback"@
    }
}

/// The loopback redirect URI registered for a client id.
pub fn redirect_uri_for(client_id: &str) -> (r: String)
    ensures
        r@ == redirect_uri_spec(client_id@),
{
    if same_str(client_id, "d420a117a32841c2b3474932e49fb54b") {
        string_of(&chars_of("http://127.0.0.1:8899/login"))
    } else {
        string_of(&chars_of("http://127.0.0.1:8899/callback"))
    }
}

/// Tokens of an authorized session.
#[derive(Debug, Clone)]
pub struct SpotifyTokens {
    pub access_token: String,
    pub refresh_token: String,
    /// Unix seconds at which `access_token` stops being valid.
    pub expires_at: u64,
}

/// A token counts as expired 60 seconds before it actually expires.
pub open spec fn expired_at(expires_at: u64, now: u64) -> bool {
    now + 60 >= expires_at
}

/// Seconds since the Unix epoch on the system clock; 0 when the clock is before the epoch. What
/// it returns depends on the clock and is not stated.
#[verifier::external_body]
fn now_seconds() -> (r: u64) {
    std::time::SystemTime::now().duration_since(std::time::UNIX_EPOCH).map(|d| d.as_secs()).unwrap_or(0)
}

impl SpotifyTokens {
    /// Whether the access token has expired at `now` (Unix seconds), with a 60 s margin.
    pub fn is_expired_at(&self, now: u64) -> (r: bool)
        ensures
            r == expired_at(self.expires_at, now),
    {
        self.expires_at <= now || self.expires_at - now <= 60
    }

    /// Whether the access token has expired by the system clock, with a 60 s margin.
    pub fn is_expired(&self) -> (r: bool)
        ensures
            exists|now: u64| r == expired_at(self.expires_at, now),
    {
        let now = now_seconds();
        self.is_expired_at(now)
    }
}

// ---------------------------------------------------------------------------------------------
// PKCE
// ---------------------------------------------------------------------------------------------

/// The SHA-256 digest of some bytes, as the `sha2` crate computes it.
pub uninterp spec fn sha256(data: Seq<u8>) -> Seq<u8>;

/// The digit of the URL-safe base64 alphabet (`A-Z`, `a-z`, `0-9`, `-`, `_`) for a 6-bit value.
pub open spec fn base64_digit(v: int) -> char {
    if v < 26 {
        (65 + v) as char
    } else if v < 52 {
        (97 + v - 26) as char
    } else if v < 62 {
        (48 + v - 52) as char
    } else if v == 62 {
        '-'
    } else {
        '_'
    }
}

/// The unpadded URL-safe base64 text of some bytes (RFC 4648 section 5, no `=` padding), as the
/// `base64` crate's `URL_SAFE_NO_PAD` engine writes it: every 3 bytes give 4 digits of 6 bits,
/// most significant first; a last 2 bytes give 3 digits and a last byte 2, the bits filled out
/// with zeros.
pub open spec fn base64url(data: Seq<u8>) -> Seq<char>
    decreases data.len(),
{
    if data.len() == 0 {
        seq![]
    } else if data.len() == 1 {
        let n = data[0] as int;
        seq![base64_digit(n / 4), base64_digit((n % 4) * 16)]
    } else if data.len() == 2 {
        let n = data[0] as int * 256 + data[1] as int;
        seq![base64_digit(n / 1024), base64_digit((n / 16) % 64), base64_digit((n % 16) * 4)]
    } else {
        let n = data[0] as int * 65536 + data[1] as int * 256 + data[2] as int;
        seq![
            base64_digit(n / 262144),
            base64_digit((n / 4096) % 64),
            base64_digit((n / 64) % 64),
            base64_digit(n % 64),
        ] + base64url(data.skip(3))
    }
}

/// A character of the URL-safe base64 alphabet.
pub open spec fn urlsafe_char(c: char) -> bool {
    ('A' <= c <= 'Z') || ('a' <= c <= 'z') || ('0' <= c <= '9') || c == '-' || c == '_'
}

/// Length of the unpadded base64 text of `n` bytes.
pub open spec fn base64_len(n: nat) -> nat {
    (4 * (n / 3) + if n % 3 == 0 {
        0
    } else {
        n % 3 + 1
    }) as nat
}

/// `sha2::Sha256::digest`: the 32-byte SHA-256 digest, named and not restated.
#[verifier::external_body]
pub(crate) fn sha256_digest(data: &[u8]) -> (r: Vec<u8>)
    ensures
        r@ == sha256(data@),
        r@.len() == 32,
{
    sha2::Sha256::digest(data).to_vec()
}

proof fn lemma_base64_digit(v: int)
    requires
        0 <= v < 64,
    ensures
        urlsafe_char(base64_digit(v)),
{
}

/// The base64 text of `n` bytes is `base64_len(n)` characters of the URL-safe alphabet.
pub proof fn lemma_base64url_shape(data: Seq<u8>)
    ensures
        base64url(data).len() == base64_len(data.len()),
        forall|i: int| 0 <= i < base64url(data).len() ==> urlsafe_char(#[trigger] base64url(data)[i]),
    decreases data.len(),
{
    let t = base64url(data);
    if data.len() == 0 {
    } else if data.len() == 1 {
        let n = data[0] as int;
        lemma_base64_digit(n / 4);
        lemma_base64_digit((n % 4) * 16);
    } else if data.len() == 2 {
        let n = data[0] as int * 256 + data[1] as int;
        assert(0 <= n < 65536);
        lemma_base64_digit(n / 1024);
        lemma_base64_digit((n / 16) % 64);
        lemma_base64_digit((n % 16) * 4);
    } else {
        let n = data[0] as int * 65536 + data[1] as int * 256 + data[2] as int;
        assert(0 <= n < 16777216);
        lemma_base64_digit(n / 262144);
        lemma_base64_digit((n / 4096) % 64);
        lemma_base64_digit((n / 64) % 64);
        lemma_base64_digit(n % 64);
        let rest = data.skip(3);
        lemma_base64url_shape(rest);
        assert(base64_len(data.len()) == 4 + base64_len(rest.len()));
        let head = seq![
            base64_digit(n / 262144),
            base64_digit((n / 4096) % 64),
            base64_digit((n / 64) % 64),
            base64_digit(n % 64),
        ];
        assert(t == head + base64url(rest));
        assert forall|i: int| 0 <= i < t.len() implies urlsafe_char(#[trigger] t[i]) by {
            if i >= 4 {
                assert(t[i] == base64url(rest)[i - 4]);
            }
        }
    }
}

/// `base64::engine::general_purpose::URL_SAFE_NO_PAD.encode`: the unpadded URL-safe base64 text
/// of the bytes.
#[verifier::external_body]
fn base64url_encode(data: &[u8]) -> (r: String)
    ensures
        r@ == base64url(data@),
{
    base64::engine::general_purpose::URL_SAFE_NO_PAD.encode(data)
}

/// `rand::thread_rng().fill_bytes` on a buffer of `n` bytes. The bytes are random; only their
/// count is stated.
#[verifier::external_body]
fn random_bytes(n: usize) -> (r: Vec<u8>)
    ensures
        r@.len() == n,
{
    let mut buffer = vec![0u8; n];
    rand::thread_rng().fill_bytes(&mut buffer);
    buffer
}

/// The S256 code challenge of a verifier: base64url(sha256(verifier)).
pub fn code_challenge(verifier: &str) -> (r: String)
    ensures
        r@ == base64url(sha256(verifier.spec_bytes())),
{
    let bytes = verifier.as_bytes();
    let digest = sha256_digest(bytes);
    base64url_encode(digest.as_slice())
}

/// A random URL-safe text encoding `bytes` random bytes.
pub fn random_urlsafe(bytes: usize) -> (r: String)
    ensures
        r@.len() == base64_len(bytes as nat),
        forall|i: int| 0 <= i < r@.len() ==> urlsafe_char(#[trigger] r@[i]),
        exists|b: Seq<u8>| b.len() == bytes && r@ == base64url(b),
{
    let buffer = random_bytes(bytes);
    let r = base64url_encode(buffer.as_slice());
    proof {
        lemma_base64url_shape(buffer@);
    }
    r
}

// ---------------------------------------------------------------------------------------------
// Authorization
// ---------------------------------------------------------------------------------------------

/// A byte `urlencoding` leaves as it is: an ASCII letter or digit, `-`, `.`, `_` or `~`.
pub open spec fn url_safe_byte(b: u8) -> bool {
    (48 <= b <= 57) || (65 <= b <= 90) || (97 <= b <= 122) || b == 45 || b == 46 || b == 95 || b == 126
}

/// An uppercase hexadecimal digit.
pub open spec fn hex_upper(d: int) -> char {
    if d < 10 {
        (48 + d) as char
    } else {
        (55 + d) as char
    }
}

/// Percent-encoding of some bytes: a safe byte as its character, any other as `%` and two
/// uppercase hex digits.
pub open spec fn percent_encoded(bytes: Seq<u8>) -> Seq<char>
    decreases bytes.len(),
{
    if bytes.len() == 0 {
        seq![]
    } else {
        let b = bytes[0];
        (if url_safe_byte(b) {
            seq![b as char]
        } else {
            seq!['%', hex_upper(b as int / 16), hex_upper(b as int % 16)]
        }) + percent_encoded(bytes.drop_first())
    }
}

/// The percent-encoding `urlencoding::encode` gives a text: that of its UTF-8 bytes.
pub open spec fn url_encoded(s: Seq<char>) -> Seq<char> {
    percent_encoded(vstd::utf8::encode_utf8(s))
}

/// The text `urlencoding::decode` gives for a percent-encoded text, when its bytes are UTF-8.
pub uninterp spec fn url_decoded(s: Seq<char>) -> Option<Seq<char>>;

/// `urlencoding::encode`: the contract claims the result is the percent-encoding of the text's
/// UTF-8 bytes, keeping ASCII alphanumerics and `-_.~` and writing every other byte as `%XX`.
#[verifier::external_body]
fn urlencode(value: &str) -> (r: String)
    ensures
        r@ == url_encoded(value@),
{
    urlencoding::encode(value).into_owned()
}

/// `urlencoding::decode`: `None` when the decoded bytes are not UTF-8. The result is named, not
/// restated.
#[verifier::external_body]
fn urldecode(value: &str) -> (r: Option<String>)
    ensures
        match r {
            Some(s) => url_decoded(value@) == Some(s@),
            None => url_decoded(value@) is None,
        },
{
    match urlencoding::decode(value) {
        Ok(s) => Some(s.into_owned()),
        Err(_) => None,
    }
}

/// The scopes Sonora asks for.
pub open spec fn scopes() -> Seq<char> {
    "streaming user-read-private user-read-email playlist-read-private playlist-read-collaborative playlist-modify-private playlist-modify-public user-library-read user-top-read user-read-playback-state user-modify-playback-state"@
}

/// The authorization page for a PKCE request.
pub open spec fn authorize_url_spec(
    client_id: Seq<char>,
    redirect_uri: Seq<char>,
    challenge: Seq<char>,
    state: Seq<char>,
) -> Seq<char> {
    "https://accounts.spotify.com/authorize?client_id="@ + url_encoded(client_id)
        + "&response_type=code&redirect_uri="@ + url_encoded(redirect_uri)
        + "&code_challenge_method=S256&code_challenge="@ + challenge + "&state="@ + url_encoded(state)
        + "&scope="@ + url_encoded(scopes())
}

/// The authorization page the browser is sent to.
pub fn authorize_url(client_id: &str, redirect_uri: &str, challenge: &str, state: &str) -> (r: String)
    ensures
        r@ == authorize_url_spec(client_id@, redirect_uri@, challenge@, state@),
{
    let mut out: Vec<char> = Vec::new();
    push_str(&mut out, "https://accounts.spotify.com/authorize?client_id=");
    push_str(&mut out, urlencode(client_id).as_str());
    push_str(&mut out, "&response_type=code&redirect_uri=");
    push_str(&mut out, urlencode(redirect_uri).as_str());
    push_str(&mut out, "&code_challenge_method=S256&code_challenge=");
    push_str(&mut out, challenge);
    push_str(&mut out, "&state=");
    push_str(&mut out, urlencode(state).as_str());
    push_str(&mut out, "&scope=");
    push_str(
        &mut out,
        urlencode(
            "streaming user-read-private user-read-email playlist-read-private playlist-read-collaborative playlist-modify-private playlist-modify-public user-library-read user-top-read user-read-playback-state user-modify-playback-state",
        ).as_str(),
    );
    string_of(&out)
}

/// The query of the request target in an HTTP request line (after its first `?`); empty when
/// there is none.
pub open spec fn query_of(request_line: Seq<char>) -> Seq<char> {
    let ws = split_ws(request_line);
    if ws.len() > 1 {
        let t = ws[1];
        let q = first_index(t, '?');
        if q < t.len() {
            t.skip(q + 1)
        } else {
            seq![]
        }
    } else {
        seq![]
    }
}

/// The decoded value of the last `key=value` pair among some `&`-separated pieces (an undecodable
/// value reads as empty).
pub open spec fn param_in(pieces: Seq<Seq<char>>, key: Seq<char>) -> Option<Seq<char>>
    decreases pieces.len(),
{
    if pieces.len() == 0 {
        None
    } else {
        let p = pieces.last();
        let e = first_index(p, '=');
        if e < p.len() && p.take(e) == key {
            Some(
                match url_decoded(p.skip(e + 1)) {
                    Some(v) => v,
                    None => seq![],
                },
            )
        } else {
            param_in(pieces.drop_last(), key)
        }
    }
}

/// The decoded value of a query parameter of a callback request line.
pub open spec fn callback_param(request_line: Seq<char>, key: Seq<char>) -> Option<Seq<char>> {
    param_in(split_on(query_of(request_line), '&'), key)
}

/// How the authorization callback turns out: refused, from another request, without a code, or
/// with the code to exchange.
pub open spec fn callback_result(request_line: Seq<char>, expected_state: Seq<char>) -> Result<Seq<char>, Seq<char>> {
    match callback_param(request_line, "error"@) {
        Some(err) => Err("Spotify authorization was denied: "@ + err),
        None => if callback_param(request_line, "state"@) != Some(expected_state) {
            Err("OAuth state mismatch; the callback did not originate from this request"@)
        } else {
            match callback_param(request_line, "code"@) {
                Some(code) => Ok(code),
                None => Err("Spotify did not return an authorization code"@),
            }
        },
    }
}

fn query_chars(request_line: &str) -> (r: Vec<char>)
    ensures
        r@ == query_of(request_line@),
{
    let ws = split_whitespace(&chars_of(request_line));
    let ghost vs = ws@.map_values(|w: Vec<char>| w@);
    if ws.len() > 1 {
        let t = &ws[1];
        assert(vs[1] == t@);
        let q = find_char(t, 0, t.len(), '?');
        assert(t@.subrange(0, t@.len() as int) =~= t@);
        if q < t.len() {
            let r = slice_vec(t, q + 1, t.len());
            assert(r@ =~= t@.skip(q + 1));
            r
        } else {
            Vec::new()
        }
    } else {
        Vec::new()
    }
}

fn param_value(pieces: &Vec<Vec<char>>, key: &str) -> (r: Option<Vec<char>>)
    ensures
        match r {
            Some(v) => param_in(pieces@.map_values(|w: Vec<char>| w@), key@) == Some(v@),
            None => param_in(pieces@.map_values(|w: Vec<char>| w@), key@) is None,
        },
{
    let ghost ps = pieces@.map_values(|w: Vec<char>| w@);
    let k = chars_of(key);
    let mut found: Option<Vec<char>> = None;
    let mut i: usize = 0;
    assert(ps.take(0) =~= Seq::<Seq<char>>::empty());
    while i < pieces.len()
        invariant
            i <= pieces@.len(),
            ps == pieces@.map_values(|w: Vec<char>| w@),
            k@ == key@,
            match found {
                Some(v) => param_in(ps.take(i as int), key@) == Some(v@),
                None => param_in(ps.take(i as int), key@) is None,
            },
        decreases pieces@.len() - i,
    {
        let p = &pieces[i];
        assert(ps.take(i + 1).drop_last() =~= ps.take(i as int));
        assert(ps.take(i + 1).last() == p@);
        let e = find_char(p, 0, p.len(), '=');
        assert(p@.subrange(0, p@.len() as int) =~= p@);
        if e < p.len() {
            let name = slice_vec(p, 0, e);
            assert(name@ =~= p@.take(e as int));
            if crate::text::chars_eq(&name, &k) {
                let raw = slice_vec(p, e + 1, p.len());
                assert(raw@ =~= p@.skip(e + 1));
                let value = match urldecode(string_of(&raw).as_str()) {
                    Some(v) => chars_of(v.as_str()),
                    None => Vec::new(),
                };
                found = Some(value);
            }
        }
        i = i + 1;
    }
    assert(ps.take(pieces@.len() as int) =~= ps);
    found
}

/// Reads the authorization callback's request line: the code to exchange, or why there is none.
pub fn callback_code(request_line: &str, expected_state: &str) -> (r: Result<String, String>)
    ensures
        match r {
            Ok(code) => callback_result(request_line@, expected_state@) == Ok::<Seq<char>, Seq<char>>(code@),
            Err(e) => callback_result(request_line@, expected_state@) == Err::<Seq<char>, Seq<char>>(e@),
        },
{
    let query = query_chars(request_line);
    let pieces = split_char(&query, '&');
    if let Some(err) = param_value(&pieces, "error") {
        let mut m: Vec<char> = Vec::new();
        push_str(&mut m, "Spotify authorization was denied: ");
        extend_all(&mut m, &err);
        return Err(string_of(&m));
    }
    let state_ok = match param_value(&pieces, "state") {
        Some(s) => crate::text::chars_eq(&s, &chars_of(expected_state)),
        None => false,
    };
    if !state_ok {
        return Err(string_of(&chars_of("OAuth state mismatch; the callback did not originate from this request")));
    }
    match param_value(&pieces, "code") {
        Some(code) => Ok(string_of(&code)),
        None => Err(string_of(&chars_of("Spotify did not return an authorization code"))),
    }
}

/// A started PKCE login: the client it is for, where the browser is sent back, the secret
/// verifier, the state the callback must echo, and the authorization page.
pub struct LoginRequest {
    pub client_id: String,
    pub redirect_uri: String,
    pub verifier: String,
    pub state: String,
    pub url: String,
}

/// The code challenge of a verifier: base64url of the SHA-256 of its UTF-8 bytes.
pub open spec fn challenge_of(verifier: Seq<char>) -> Seq<char> {
    base64url(sha256(vstd::utf8::encode_utf8(verifier)))
}

/// Starts a login for the configured client id: the id trimmed (a blank one is an error), its
/// registered redirect URI, a fresh verifier of 64 random bytes and state of 16, and the
/// authorization page carrying the verifier's S256 challenge and the state.
pub fn begin_login(client_id_raw: &str) -> (r: Result<LoginRequest, String>)
    ensures
        match r {
            Ok(l) => {
                &&& !is_blank(client_id_raw@)
                &&& l.client_id@ == trim(client_id_raw@)
                &&& l.redirect_uri@ == redirect_uri_spec(l.client_id@)
                &&& l.verifier@.len() == base64_len(64)
                &&& l.state@.len() == base64_len(16)
                &&& (exists|b: Seq<u8>| b.len() == 64 && l.verifier@ == base64url(b))
                &&& (exists|b: Seq<u8>| b.len() == 16 && l.state@ == base64url(b))
                &&& l.url@ == authorize_url_spec(l.client_id@, l.redirect_uri@, challenge_of(l.verifier@), l.state@)
            },
            Err(e) => is_blank(client_id_raw@) && e@
                == "Add your Spotify app's Client ID in Settings first, then connect."@,
        },
{
    let client_id = auth_client_id(client_id_raw)?;
    let redirect_uri = redirect_uri_for(client_id.as_str());
    let verifier = random_urlsafe(64);
    let state = random_urlsafe(16);
    let challenge = code_challenge(verifier.as_str());
    let url = authorize_url(client_id.as_str(), redirect_uri.as_str(), challenge.as_str(), state.as_str());
    Ok(LoginRequest { client_id, redirect_uri, verifier, state, url })
}

fn pair(k: &str, v: &str) -> (r: (String, String))
    ensures
        r.0@ == k@,
        r.1@ == v@,
{
    (string_of(&chars_of(k)), string_of(&chars_of(v)))
}

/// The form that exchanges an authorization code for tokens: grant type `authorization_code`, the
/// code, the redirect URI and client id the login used, and the verifier whose challenge the
/// authorization page carried.
pub fn token_exchange_form(code: &str, redirect_uri: &str, client_id: &str, verifier: &str) -> (r: Vec<
    (String, String),
>)
    ensures
        r@.len() == 5,
        r@[0].0@ == "grant_type"@ && r@[0].1@ == "authorization_code"@,
        r@[1].0@ == "code"@ && r@[1].1@ == code@,
        r@[2].0@ == "redirect_uri"@ && r@[2].1@ == redirect_uri@,
        r@[3].0@ == "client_id"@ && r@[3].1@ == client_id@,
        r@[4].0@ == "code_verifier"@ && r@[4].1@ == verifier@,
{
    let mut f: Vec<(String, String)> = Vec::new();
    f.push(pair("grant_type", "authorization_code"));
    f.push(pair("code", code));
    f.push(pair("redirect_uri", redirect_uri));
    f.push(pair("client_id", client_id));
    f.push(pair("code_verifier", verifier));
    f
}

/// The form that refreshes an access token: grant type `refresh_token`, the refresh token, and
/// the client id trimmed.
pub fn token_refresh_form(refresh_token: &str, client_id: &str) -> (r: Vec<(String, String)>)
    ensures
        r@.len() == 3,
        r@[0].0@ == "grant_type"@ && r@[0].1@ == "refresh_token"@,
        r@[1].0@ == "refresh_token"@ && r@[1].1@ == refresh_token@,
        r@[2].0@ == "client_id"@ && r@[2].1@ == trim(client_id@),
{
    let mut f: Vec<(String, String)> = Vec::new();
    f.push(pair("grant_type", "refresh_token"));
    f.push(pair("refresh_token", refresh_token));
    f.push((string_of(&chars_of("client_id")), string_of(&trimmed(&chars_of(client_id)))));
    f
}

/// The token request of a login sends the very verifier whose challenge the login's
/// authorization page carries.
pub proof fn lemma_login_sends_its_verifier(l: LoginRequest, form: Seq<(String, String)>)
    requires
        l.url@ == authorize_url_spec(l.client_id@, l.redirect_uri@, challenge_of(l.verifier@), l.state@),
        form.len() == 5,
        form[4].1@ == l.verifier@,
    ensures
        l.url@ == authorize_url_spec(l.client_id@, l.redirect_uri@, challenge_of(form[4].1@), l.state@),
{
}

// ---------------------------------------------------------------------------------------------
// Tokens
// ---------------------------------------------------------------------------------------------

/// What a request for an access token does with the stored tokens: fails, uses the stored access
/// token, or refreshes it.
pub enum TokenStep {
    /// The stored access token is still valid.
    Ready(String),
    /// The stored token has expired and must be refreshed with this refresh token.
    Refresh(String),
}

/// The next step towards a valid access token at `now` (Unix seconds): a blank client id or
/// missing tokens are errors; an unexpired token is used as it is; an expired one is refreshed.
pub fn access_token(client_id: &str, tokens: Option<SpotifyTokens>, now: u64) -> (r: Result<TokenStep, String>)
    ensures
        is_blank(client_id@) ==> (r matches Err(e) && e@ == "Configure your Spotify Client ID in Settings first."@),
        !is_blank(client_id@) && tokens is None ==> (r matches Err(e) && e@ == "Not connected to Spotify."@),
        !is_blank(client_id@) && tokens is Some ==> match r {
            Ok(TokenStep::Ready(t)) => !expired_at(tokens.unwrap().expires_at, now) && t@ == tokens.unwrap().access_token@,
            Ok(TokenStep::Refresh(t)) => expired_at(tokens.unwrap().expires_at, now) && t@ == tokens.unwrap().refresh_token@,
            Err(_) => false,
        },
{
    if crate::lyrics::blank_str(client_id) {
        return Err(string_of(&chars_of("Configure your Spotify Client ID in Settings first.")));
    }
    match tokens {
        None => Err(string_of(&chars_of("Not connected to Spotify."))),
        Some(t) => if t.is_expired_at(now) {
            Ok(TokenStep::Refresh(t.refresh_token))
        } else {
            Ok(TokenStep::Ready(t.access_token))
        },
    }
}

/// Tokens after a refresh answered at `now`: the new access token and expiry, and the new refresh
/// token when one was sent (Spotify only rotates it sometimes), else the old one.
pub fn refreshed_tokens(
    old_refresh: String,
    access_token: String,
    refresh_token: Option<String>,
    expires_in: u64,
    now: u64,
) -> (r: SpotifyTokens)
    requires
        now + expires_in <= u64::MAX,
    ensures
        r.access_token@ == access_token@,
        r.refresh_token@ == match refresh_token {
            Some(t) => t@,
            None => old_refresh@,
        },
        r.expires_at == now + expires_in,
{
    SpotifyTokens {
        access_token,
        refresh_token: match refresh_token {
            Some(t) => t,
            None => old_refresh,
        },
        expires_at: now + expires_in,
    }
}

/// Tokens from the first exchange of an authorization code answered at `now`; a response without
/// a refresh token is an error.
pub fn issued_tokens(access_token: String, refresh_token: Option<String>, expires_in: u64, now: u64) -> (r:
    Result<SpotifyTokens, String>)
    requires
        now + expires_in <= u64::MAX,
    ensures
        match r {
            Ok(t) => refresh_token is Some && t.access_token@ == access_token@ && t.refresh_token@
                == refresh_token.unwrap()@ && t.expires_at == now + expires_in,
            Err(e) => refresh_token is None && e@ == "Spotify did not return a refresh token"@,
        },
{
    match refresh_token {
        Some(t) => Ok(SpotifyTokens { access_token, refresh_token: t, expires_at: now + expires_in }),
        None => Err(string_of(&chars_of("Spotify did not return a refresh token"))),
    }
}

// ---------------------------------------------------------------------------------------------
// Web API payloads
// ---------------------------------------------------------------------------------------------

/// Playback as the Spotify player reports it.
#[derive(Debug, Clone)]
pub struct SpotifyPlaybackState {
    pub track: Option<ProviderTrack>,
    pub is_playing: bool,
    pub progress_ms: u64,
    pub duration_ms: u64,
    pub volume_percent: Option<u8>,
    pub device_name: Option<String>,
}

impl Default for SpotifyPlaybackState {
    fn default() -> (r: Self)
        ensures
            r.track is None,
            !r.is_playing,
            r.progress_ms == 0,
            r.duration_ms == 0,
            r.volume_percent is None,
            r.device_name is None,
    {
        SpotifyPlaybackState {
            track: None,
            is_playing: false,
            progress_ms: 0,
            duration_ms: 0,
            volume_percent: None,
            device_name: None,
        }
    }
}

/// The `name` strings of some artist objects, in order.
pub open spec fn artist_names(items: Seq<Json>) -> Seq<Seq<char>>
    decreases items.len(),
{
    if items.len() == 0 {
        seq![]
    } else {
        artist_names(items.drop_last()) + match str_at(items.last(), "name"@) {
            Some(n) => seq![n],
            None => seq![],
        }
    }
}

/// Some texts joined with `", "`.
pub open spec fn join_comma(ns: Seq<Seq<char>>) -> Seq<char>
    decreases ns.len(),
{
    if ns.len() == 0 {
        seq![]
    } else if ns.len() == 1 {
        ns[0]
    } else {
        join_comma(ns.drop_last()) + ", "@ + ns.last()
    }
}

/// The artist credit of a track object: its artists' names joined with `", "`, or
/// `Unknown Artist` when that is empty.
pub open spec fn artist_credit(item: Json) -> Seq<char> {
    match get_spec(item, "artists"@) {
        Some(a) => match array_spec(a) {
            Some(list) => if join_comma(artist_names(list)).len() > 0 {
                join_comma(artist_names(list))
            } else {
                "Unknown Artist"@
            },
            None => "Unknown Artist"@,
        },
        None => "Unknown Artist"@,
    }
}

/// The URL of the last (smallest) image of a track's album.
pub open spec fn album_art(item: Json) -> Option<Seq<char>> {
    match path_spec(item, seq!["album"@, "images"@]) {
        Some(i) => match array_spec(i) {
            Some(list) => if list.len() > 0 {
                str_at(list.last(), "url"@)
            } else {
                None
            },
            None => None,
        },
        None => None,
    }
}

/// `t` is the track [`parse_track`] reads from `item`.
pub open spec fn is_spotify_track(t: ProviderTrack, item: Json) -> bool {
    &&& str_at(item, "id"@) is Some
    &&& t.id@ == "spotify://track/"@ + str_at(item, "id"@).unwrap()
    &&& t.provider == ProviderKind::Spotify
    &&& t.title@ == match str_at(item, "name"@) {
        Some(n) => n,
        None => "Unknown Title"@,
    }
    &&& t.artist@ == artist_credit(item)
    &&& t.album@ == match str_at_path(item, seq!["album"@, "name"@]) {
        Some(n) => n,
        None => "Unknown Album"@,
    }
    &&& t.duration_ms == match get_spec(item, "duration_ms"@) {
        Some(d) => match u64_spec(d) {
            Some(v) => v,
            None => 0,
        },
        None => 0,
    }
    &&& match t.artwork_url {
        Some(u) => album_art(item) == Some(u@),
        None => album_art(item) is None,
    }
}


fn u64_field(value: &Json, key: &str) -> (r: Option<u64>)
    ensures
        r == match get_spec(*value, key@) {
            Some(v) => u64_spec(v),
            None => None,
        },
{
    match value.get(key) {
        Some(v) => v.as_u64(),
        None => None,
    }
}

fn artist_line(list: &Vec<Json>) -> (r: Vec<char>)
    ensures
        r@ == join_comma(artist_names(list@)),
{
    let mut out: Vec<char> = Vec::new();
    let mut count: usize = 0;
    let mut i: usize = 0;
    assert(list@.take(0) =~= Seq::<Json>::empty());
    while i < list.len()
        invariant
            i <= list@.len(),
            out@ == join_comma(artist_names(list@.take(i as int))),
            count == artist_names(list@.take(i as int)).len(),
            count <= i,
        decreases list@.len() - i,
    {
        assert(list@.take(i + 1).drop_last() =~= list@.take(i as int));
        assert(list@.take(i + 1).last() == list@[i as int]);
        let ghost names = artist_names(list@.take(i as int));
        match str_field(&list[i], "name") {
            Some(n) => {
                let ghost grown = names.push(n@);
                assert(artist_names(list@.take(i + 1)) =~= grown);
                assert(grown.drop_last() =~= names);
                if count > 0 {
                    push_str(&mut out, ", ");
                }
                extend_all(&mut out, &n);
                proof {
                    if count == 0 {
                        assert(out@ =~= grown[0]);
                    }
                }
                count = count + 1;
            },
            None => {
                assert(artist_names(list@.take(i + 1)) =~= names);
            },
        }
        i = i + 1;
    }
    assert(list@.take(list@.len() as int) =~= list@);
    out
}

/// Reads a Web API track object; an object without an `id` string is skipped. Local files and
/// podcast episodes have no album object.
pub fn parse_track(item: &Json) -> (r: Option<ProviderTrack>)
    ensures
        match r {
            Some(t) => is_spotify_track(t, *item),
            None => str_at(*item, "id"@) is None,
        },
{
    let id = match str_field(item, "id") {
        Some(i) => i,
        None => return None,
    };
    let artist: Vec<char> = match item.get("artists") {
        Some(a) => match a.as_array() {
            Some(list) => {
                let line = artist_line(list);
                if line.len() > 0 {
                    line
                } else {
                    chars_of("Unknown Artist")
                }
            },
            None => chars_of("Unknown Artist"),
        },
        None => chars_of("Unknown Artist"),
    };
    let images_path: &[&str] = &["album", "images"];
    assert(images_path@.map_values(|k: &str| k@) =~= seq!["album"@, "images"@]);
    let artwork: Option<String> = match item.at_path(images_path) {
        Some(i) => match i.as_array() {
            Some(list) => if list.len() > 0 {
                match str_field(&list[list.len() - 1], "url") {
                    Some(u) => Some(string_of(&u)),
                    None => None,
                }
            } else {
                None
            },
            None => None,
        },
        None => None,
    };
    let title = match str_field(item, "name") {
        Some(n) => n,
        None => chars_of("Unknown Title"),
    };
    let album_path: &[&str] = &["album", "name"];
    assert(album_path@.map_values(|k: &str| k@) =~= seq!["album"@, "name"@]);
    let album = match item.str_at_path(album_path) {
        Some(n) => chars_of(n),
        None => chars_of("Unknown Album"),
    };
    let duration_ms = match u64_field(item, "duration_ms") {
        Some(d) => d,
        None => 0,
    };
    let mut full: Vec<char> = Vec::new();
    push_str(&mut full, "spotify://track/");
    extend_all(&mut full, &id);
    Some(ProviderTrack {
        id: string_of(&full),
        provider: ProviderKind::Spotify,
        title: string_of(&title),
        artist: string_of(&artist),
        album: string_of(&album),
        duration_ms,
        artwork_url: artwork,
    })
}

/// The member a playlist states its size under: `items` when present, else `tracks`.
pub open spec fn playlist_size_member(item: Json) -> Option<Json> {
    match get_spec(item, "items"@) {
        Some(v) => Some(v),
        None => get_spec(item, "tracks"@),
    }
}

/// `p` is the playlist [`parse_playlist`] reads from `item`.
pub open spec fn is_spotify_playlist(p: ProviderPlaylist, item: Json) -> bool {
    &&& str_at(item, "id"@) is Some
    &&& p.id@ == "spotify://playlist/"@ + str_at(item, "id"@).unwrap()
    &&& p.title@ == match str_at(item, "name"@) {
        Some(n) => n,
        None => "Untitled"@,
    }
    &&& match p.description {
        Some(d) => str_at(item, "description"@) == Some(d@) && d@.len() > 0,
        None => str_at(item, "description"@) is None || str_at(item, "description"@).unwrap().len()
            == 0,
    }
    &&& match p.artwork_url {
        Some(u) => match get_spec(item, "images"@) {
            Some(i) => match array_spec(i) {
                Some(list) => list.len() > 0 && str_at(list[0], "url"@) == Some(u@),
                None => false,
            },
            None => false,
        },
        None => match get_spec(item, "images"@) {
            Some(i) => match array_spec(i) {
                Some(list) => list.len() == 0 || str_at(list[0], "url"@) is None,
                None => true,
            },
            None => true,
        },
    }
    &&& p.track_count == (match playlist_size_member(item) {
        Some(m) => match get_spec(m, "total"@) {
            Some(t) => match u64_spec(t) {
                Some(v) => v,
                None => 0,
            },
            None => 0,
        },
        None => 0,
    }) as u32
    &&& p.provider == ProviderKind::Spotify
}

/// Reads a Web API playlist object; an object without an `id` string is skipped.
pub fn parse_playlist(item: &Json) -> (r: Option<ProviderPlaylist>)
    ensures
        match r {
            Some(p) => is_spotify_playlist(p, *item),
            None => str_at(*item, "id"@) is None,
        },
{
    let id = match str_field(item, "id") {
        Some(i) => i,
        None => return None,
    };
    let title = match str_field(item, "name") {
        Some(n) => n,
        None => chars_of("Untitled"),
    };
    let description = match str_field(item, "description") {
        Some(d) => if d.len() > 0 {
            Some(string_of(&d))
        } else {
            None
        },
        None => None,
    };
    let artwork_url = match item.get("images") {
        Some(i) => match i.as_array() {
            Some(list) => if list.len() > 0 {
                match str_field(&list[0], "url") {
                    Some(u) => Some(string_of(&u)),
                    None => None,
                }
            } else {
                None
            },
            None => None,
        },
        None => None,
    };
    let size_member = match item.get("items") {
        Some(v) => Some(v),
        None => item.get("tracks"),
    };
    let total: u64 = match size_member {
        Some(m) => match u64_field(m, "total") {
            Some(v) => v,
            None => 0,
        },
        None => 0,
    };
    let mut full: Vec<char> = Vec::new();
    push_str(&mut full, "spotify://playlist/");
    extend_all(&mut full, &id);
    Some(ProviderPlaylist {
        id: string_of(&full),
        title: string_of(&title),
        description,
        artwork_url,
        track_count: total as u32,
        provider: ProviderKind::Spotify,
    })
}

/// The track object of a playlist entry: under `item` when present, else under `track`.
pub open spec fn entry_track(item: Json) -> Option<Json> {
    match get_spec(item, "item"@) {
        Some(v) => Some(v),
        None => get_spec(item, "track"@),
    }
}

/// Reads the track of a playlist entry.
pub fn parse_playlist_track(item: &Json) -> (r: Option<ProviderTrack>)
    ensures
        match r {
            Some(t) => entry_track(*item) is Some && is_spotify_track(t, entry_track(*item).unwrap()),
            None => entry_track(*item) is None || str_at(entry_track(*item).unwrap(), "id"@) is None,
        },
{
    let entry = match item.get("item") {
        Some(v) => Some(v),
        None => item.get("track"),
    };
    match entry {
        Some(e) => parse_track(e),
        None => None,
    }
}

/// The volume a device reports, clamped to 0..=100.
pub open spec fn clamped_volume(v: i64) -> u8 {
    if v < 0 {
        0
    } else if v > 100 {
        100
    } else {
        v as u8
    }
}

/// The track object of a playback response, when it has one that is not `null`.
pub open spec fn playing_item(value: Json) -> Option<Json> {
    match get_spec(value, "item"@) {
        Some(v) => if v is Null {
            None
        } else {
            Some(v)
        },
        None => None,
    }
}

/// `st` is the state [`parse_playback_state`] reads from `value`.
pub open spec fn is_playback_state(st: SpotifyPlaybackState, value: Json) -> bool {
    &&& match st.track {
        Some(t) => playing_item(value) is Some && is_spotify_track(t, playing_item(value).unwrap()),
        None => playing_item(value) is None || str_at(playing_item(value).unwrap(), "id"@) is None,
    }
    &&& st.duration_ms == match st.track {
        Some(t) => t.duration_ms,
        None => match path_spec(value, seq!["item"@, "duration_ms"@]) {
            Some(d) => match u64_spec(d) {
                Some(v) => v,
                None => 0,
            },
            None => 0,
        },
    }
    &&& st.progress_ms == match get_spec(value, "progress_ms"@) {
        Some(p) => match u64_spec(p) {
            Some(v) => v,
            None => 0,
        },
        None => 0,
    }
    &&& st.is_playing == match get_spec(value, "is_playing"@) {
        Some(b) => match bool_spec(b) {
            Some(x) => x,
            None => false,
        },
        None => false,
    }
    &&& st.volume_percent == match path_spec(value, seq!["device"@, "volume_percent"@]) {
        Some(v) => match i64_spec(v) {
            Some(x) => Some(clamped_volume(x)),
            None => None,
        },
        None => None,
    }
    &&& match st.device_name {
        Some(n) => str_at_path(value, seq!["device"@, "name"@]) == Some(n@),
        None => str_at_path(value, seq!["device"@, "name"@]) is None,
    }
}

/// Reads the Web API's playback response; the device volume is clamped to 0..=100.
pub fn parse_playback_state(value: &Json) -> (r: SpotifyPlaybackState)
    ensures
        is_playback_state(r, *value),
{
    let track = match value.get("item") {
        Some(item) => if item.is_null() {
            None
        } else {
            parse_track(item)
        },
        None => None,
    };
    let dur_path: &[&str] = &["item", "duration_ms"];
    assert(dur_path@.map_values(|k: &str| k@) =~= seq!["item"@, "duration_ms"@]);
    let duration_ms = match &track {
        Some(t) => t.duration_ms,
        None => match value.at_path(dur_path) {
            Some(d) => match d.as_u64() {
                Some(v) => v,
                None => 0,
            },
            None => 0,
        },
    };
    let progress_ms = match u64_field(value, "progress_ms") {
        Some(v) => v,
        None => 0,
    };
    let is_playing = match value.get("is_playing") {
        Some(b) => match b.as_bool() {
            Some(x) => x,
            None => false,
        },
        None => false,
    };
    let vol_path: &[&str] = &["device", "volume_percent"];
    assert(vol_path@.map_values(|k: &str| k@) =~= seq!["device"@, "volume_percent"@]);
    let volume_percent = match value.at_path(vol_path) {
        Some(v) => match v.as_i64() {
            Some(x) => Some(
                if x < 0 {
                    0u8
                } else if x > 100 {
                    100u8
                } else {
                    x as u8
                },
            ),
            None => None,
        },
        None => None,
    };
    let name_path: &[&str] = &["device", "name"];
    assert(name_path@.map_values(|k: &str| k@) =~= seq!["device"@, "name"@]);
    let device_name = match value.str_at_path(name_path) {
        Some(n) => Some(string_of(&chars_of(n))),
        None => None,
    };
    SpotifyPlaybackState { track, is_playing, progress_ms, duration_ms, volume_percent, device_name }
}

/// The playback state when the player reports nothing (no active device).
pub fn idle_playback_state() -> (r: SpotifyPlaybackState)
    ensures
        r.track is None,
        !r.is_playing,
        r.progress_ms == 0,
        r.duration_ms == 0,
        r.volume_percent is None,
        r.device_name is None,
{
    SpotifyPlaybackState {
        track: None,
        is_playing: false,
        progress_ms: 0,
        duration_ms: 0,
        volume_percent: None,
        device_name: None,
    }
}

// ---------------------------------------------------------------------------------------------
// Devices
// ---------------------------------------------------------------------------------------------

/// A device that accepts remote control: it does not say it is restricted.
pub open spec fn usable_device(d: Json) -> bool {
    match get_spec(d, "is_restricted"@) {
        Some(b) => bool_spec(b) != Some(true),
        None => true,
    }
}

/// A device that says it is active.
pub open spec fn active_device(d: Json) -> bool {
    match get_spec(d, "is_active"@) {
        Some(b) => bool_spec(b) == Some(true),
        None => false,
    }
}

/// A text member of a device, ASCII-lowercased; empty when absent.
pub open spec fn device_text(d: Json, key: Seq<char>) -> Seq<char> {
    match str_at(d, key) {
        Some(s) => s.map_values(|c: char| ascii_lower(c)),
        None => seq![],
    }
}

/// A desktop Spotify app.
pub open spec fn computer_device(d: Json) -> bool {
    device_text(d, "type"@) == "computer"@
}

/// A web player.
pub open spec fn web_device(d: Json) -> bool {
    find_from(device_text(d, "name"@), "web player"@, 0) is Some || find_from(
        device_text(d, "name"@),
        "safari"@,
        0,
    ) is Some
}

/// The first position of a device satisfying `pred`.
pub open spec fn first_device(s: Seq<Json>, pred: spec_fn(Json) -> bool) -> Option<int>
    decreases s.len(),
{
    if s.len() == 0 {
        None
    } else if pred(s[0]) {
        Some(0)
    } else {
        match first_device(s.drop_first(), pred) {
            Some(i) => Some(i + 1),
            None => None,
        }
    }
}

/// The device Sonora plays on, among the usable ones: the active one, else a desktop app, else a
/// web player, else the first.
pub open spec fn chosen_device(devices: Seq<Json>) -> Option<Json> {
    let usable = devices.filter(|d: Json| usable_device(d));
    match first_device(usable, |d: Json| active_device(d)) {
        Some(i) => Some(usable[i]),
        None => match first_device(usable, |d: Json| computer_device(d)) {
            Some(i) => Some(usable[i]),
            None => match first_device(usable, |d: Json| web_device(d)) {
                Some(i) => Some(usable[i]),
                None => if usable.len() > 0 {
                    Some(usable[0])
                } else {
                    None
                },
            },
        },
    }
}

proof fn lemma_first_device_at(s: Seq<Json>, pred: spec_fn(Json) -> bool, i: int)
    requires
        0 <= i < s.len(),
        pred(s[i]),
        forall|j: int| 0 <= j < i ==> !pred(#[trigger] s[j]),
    ensures
        first_device(s, pred) == Some(i),
    decreases i,
{
    if i > 0 {
        assert(!pred(s[0]));
        assert forall|j: int| 0 <= j < i - 1 implies !pred(#[trigger] s.drop_first()[j]) by {
            assert(s.drop_first()[j] == s[j + 1]);
        }
        lemma_first_device_at(s.drop_first(), pred, i - 1);
    }
}

proof fn lemma_first_device_none(s: Seq<Json>, pred: spec_fn(Json) -> bool)
    requires
        forall|j: int| 0 <= j < s.len() ==> !pred(#[trigger] s[j]),
    ensures
        first_device(s, pred) is None,
    decreases s.len(),
{
    if s.len() > 0 {
        assert(!pred(s[0]));
        assert forall|j: int| 0 <= j < s.len() - 1 implies !pred(#[trigger] s.drop_first()[j]) by {
            assert(s.drop_first()[j] == s[j + 1]);
        }
        lemma_first_device_none(s.drop_first(), pred);
    }
}

fn lower_field(d: &Json, key: &str) -> (r: Vec<char>)
    ensures
        r@ == device_text(*d, key@),
{
    match str_field(d, key) {
        Some(s) => {
            let mut out: Vec<char> = Vec::new();
            let mut i: usize = 0;
            while i < s.len()
                invariant
                    i <= s@.len(),
                    out@ == s@.take(i as int).map_values(|c: char| ascii_lower(c)),
                decreases s@.len() - i,
            {
                out.push(to_ascii_lower(s[i]));
                assert(out@ =~= s@.take(i + 1).map_values(|c: char| ascii_lower(c)));
                i = i + 1;
            }
            assert(s@.take(s@.len() as int) =~= s@);
            out
        },
        None => Vec::new(),
    }
}

fn device_matches(d: &Json, kind: u8) -> (r: bool)
    ensures
        kind == 0 ==> r == active_device(*d),
        kind == 1 ==> r == computer_device(*d),
        kind >= 2 ==> r == web_device(*d),
{
    if kind == 0 {
        match d.get("is_active") {
            Some(b) => b.as_bool() == Some(true),
            None => false,
        }
    } else if kind == 1 {
        let t = lower_field(d, "type");
        crate::text::chars_eq(&t, &chars_of("computer"))
    } else {
        let n = lower_field(d, "name");
        find_seq(&n, &chars_of("web player"), 0).is_some() || find_seq(&n, &chars_of("safari"), 0).is_some()
    }
}

fn find_device(usable: &Vec<&Json>, kind: u8) -> (r: Option<usize>)
    ensures
        match r {
            Some(i) => i < usable@.len(),
            None => true,
        },
        kind == 0 ==> crate::ytmusic::index_of(r) == first_device(
            crate::json::deref_all(usable@),
            |d: Json| active_device(d),
        ),
        kind == 1 ==> crate::ytmusic::index_of(r) == first_device(
            crate::json::deref_all(usable@),
            |d: Json| computer_device(d),
        ),
        kind >= 2 ==> crate::ytmusic::index_of(r) == first_device(
            crate::json::deref_all(usable@),
            |d: Json| web_device(d),
        ),
{
    let ghost vs = crate::json::deref_all(usable@);
    let ghost pred = if kind == 0 {
        |d: Json| active_device(d)
    } else if kind == 1 {
        |d: Json| computer_device(d)
    } else {
        |d: Json| web_device(d)
    };
    let mut i: usize = 0;
    while i < usable.len()
        invariant
            i <= usable@.len(),
            vs == crate::json::deref_all(usable@),
            pred == (if kind == 0 {
                |d: Json| active_device(d)
            } else if kind == 1 {
                |d: Json| computer_device(d)
            } else {
                |d: Json| web_device(d)
            }),
            forall|j: int| 0 <= j < i ==> !pred(#[trigger] vs[j]),
        decreases usable@.len() - i,
    {
        assert(vs[i as int] == *usable@[i as int]);
        if device_matches(usable[i], kind) {
            proof {
                lemma_first_device_at(vs, pred, i as int);
            }
            return Some(i);
        }
        i = i + 1;
    }
    proof {
        lemma_first_device_none(vs, pred);
    }
    None
}

/// The device Sonora should play on: the active one, else a desktop Spotify app, else a web
/// player, else any device that accepts remote control; its id, when it states one.
pub fn choose_device(devices: &[Json]) -> (r: Option<String>)
    ensures
        match r {
            Some(id) => chosen_device(devices@) is Some && str_at(chosen_device(devices@).unwrap(), "id"@)
                == Some(id@),
            None => chosen_device(devices@) is None || str_at(chosen_device(devices@).unwrap(), "id"@)
                is None,
        },
{
    let ghost upred = |d: Json| usable_device(d);
    let mut usable: Vec<&Json> = Vec::new();
    let mut i: usize = 0;
    proof {
        reveal(Seq::filter);
        assert(devices@.take(0).filter(upred) =~= Seq::<Json>::empty());
        assert(crate::json::deref_all(usable@) =~= Seq::<Json>::empty());
    }
    while i < devices.len()
        invariant
            i <= devices@.len(),
            upred == (|d: Json| usable_device(d)),
            crate::json::deref_all(usable@) == devices@.take(i as int).filter(upred),
        decreases devices@.len() - i,
    {
        proof {
            assert(devices@.take(i + 1) =~= devices@.take(i as int).push(devices@[i as int]));
            devices@.take(i as int).lemma_filter_push(devices@[i as int], upred);
        }
        let d = &devices[i];
        let restricted = match d.get("is_restricted") {
            Some(b) => b.as_bool() == Some(true),
            None => false,
        };
        if !restricted {
            let ghost before = crate::json::deref_all(usable@);
            usable.push(d);
            assert(crate::json::deref_all(usable@) =~= before.push(devices@[i as int]));
        }
        i = i + 1;
    }
    assert(devices@.take(devices@.len() as int) =~= devices@);
    let ghost us = crate::json::deref_all(usable@);
    let pick: Option<usize> = match find_device(&usable, 0) {
        Some(k) => Some(k),
        None => match find_device(&usable, 1) {
            Some(k) => Some(k),
            None => match find_device(&usable, 2) {
                Some(k) => Some(k),
                None => if usable.len() > 0 {
                    Some(0)
                } else {
                    None
                },
            },
        },
    };
    match pick {
        Some(k) => {
            assert(us[k as int] == *usable@[k as int]);
            match str_field(usable[k], "id") {
                Some(id) => Some(string_of(&id)),
                None => None,
            }
        },
        None => None,
    }
}

// ---------------------------------------------------------------------------------------------
// Web API lists and requests
// ---------------------------------------------------------------------------------------------

/// Where the track object of a list entry sits: the entry itself (`0`), its `track` member
/// (`1`, saved tracks), or its `item` member when present, else its `track` member (`2`,
/// playlist entries).
pub open spec fn track_source(mode: u8, item: Json) -> Option<Json> {
    if mode == 0 {
        Some(item)
    } else if mode == 1 {
        get_spec(item, "track"@)
    } else {
        entry_track(item)
    }
}

/// A list entry that yields a track.
pub open spec fn yields_track(mode: u8, item: Json) -> bool {
    track_source(mode, item) is Some && str_at(track_source(mode, item).unwrap(), "id"@) is Some
}

/// `ts` are the tracks read, in order, from the entries of `items` that yield one.
pub open spec fn tracks_of_items(ts: Seq<ProviderTrack>, items: Seq<Json>, mode: u8) -> bool {
    let rows = items.filter(|i: Json| yields_track(mode, i));
    &&& ts.len() == rows.len()
    &&& forall|k: int| 0 <= k < ts.len() ==> is_spotify_track(#[trigger] ts[k], track_source(mode, rows[k]).unwrap())
}

/// Reads the tracks of a list's entries, skipping entries that yield none.
pub fn tracks_of(items: &[Json], mode: u8) -> (r: Vec<ProviderTrack>)
    ensures
        tracks_of_items(r@, items@, mode),
{
    let ghost pred = |i: Json| yields_track(mode, i);
    let mut out: Vec<ProviderTrack> = Vec::new();
    let mut i: usize = 0;
    proof {
        reveal(Seq::filter);
        assert(items@.take(0).filter(pred) =~= Seq::<Json>::empty());
    }
    while i < items.len()
        invariant
            i <= items@.len(),
            pred == (|i: Json| yields_track(mode, i)),
            out@.len() == items@.take(i as int).filter(pred).len(),
            forall|k: int| 0 <= k < out@.len() ==> is_spotify_track(#[trigger] out@[k], track_source(mode, items@.take(i as int).filter(pred)[k]).unwrap()),
        decreases items@.len() - i,
    {
        proof {
            assert(items@.take(i + 1) =~= items@.take(i as int).push(items@[i as int]));
            items@.take(i as int).lemma_filter_push(items@[i as int], pred);
        }
        let item = &items[i];
        let parsed = if mode == 0 {
            parse_track(item)
        } else if mode == 1 {
            match item.get("track") {
                Some(t) => parse_track(t),
                None => None,
            }
        } else {
            parse_playlist_track(item)
        };
        match parsed {
            Some(t) => out.push(t),
            None => {},
        }
        i = i + 1;
    }
    assert(items@.take(items@.len() as int) =~= items@);
    out
}

/// `ps` are the playlists read, in order, from the entries of `items` that have an id.
pub open spec fn playlists_of_items(ps: Seq<ProviderPlaylist>, items: Seq<Json>) -> bool {
    let rows = items.filter(|i: Json| str_at(i, "id"@) is Some);
    &&& ps.len() == rows.len()
    &&& forall|k: int| 0 <= k < ps.len() ==> is_spotify_playlist(#[trigger] ps[k], rows[k])
}

/// Reads the playlists of a list's entries, skipping entries without an id.
pub fn playlists_of(items: &[Json]) -> (r: Vec<ProviderPlaylist>)
    ensures
        playlists_of_items(r@, items@),
{
    let ghost pred = |i: Json| str_at(i, "id"@) is Some;
    let mut out: Vec<ProviderPlaylist> = Vec::new();
    let mut i: usize = 0;
    proof {
        reveal(Seq::filter);
        assert(items@.take(0).filter(pred) =~= Seq::<Json>::empty());
    }
    while i < items.len()
        invariant
            i <= items@.len(),
            pred == (|i: Json| str_at(i, "id"@) is Some),
            out@.len() == items@.take(i as int).filter(pred).len(),
            forall|k: int| 0 <= k < out@.len() ==> is_spotify_playlist(#[trigger] out@[k], items@.take(i as int).filter(pred)[k]),
        decreases items@.len() - i,
    {
        proof {
            assert(items@.take(i + 1) =~= items@.take(i as int).push(items@[i as int]));
            items@.take(i as int).lemma_filter_push(items@[i as int], pred);
        }
        match parse_playlist(&items[i]) {
            Some(p) => out.push(p),
            None => {},
        }
        i = i + 1;
    }
    assert(items@.take(items@.len() as int) =~= items@);
    out
}

/// The entries of the list at `path`, or none when it is not there.
pub open spec fn list_at(value: Json, path: Seq<Seq<char>>) -> Seq<Json> {
    match path_spec(value, path) {
        Some(v) => match array_spec(v) {
            Some(items) => items,
            None => seq![],
        },
        None => seq![],
    }
}

fn list_at_path<'a>(value: &'a Json, path: &[&str]) -> (r: &'a [Json])
    ensures
        r@ == list_at(*value, path@.map_values(|k: &str| k@)),
{
    match value.at_path(path) {
        Some(v) => match v.as_array() {
            Some(items) => items.as_slice(),
            None => &[],
        },
        None => &[],
    }
}

/// The tracks of a saved-tracks page (each entry holds its track under `track`).
pub fn saved_tracks(value: &Json) -> (r: Vec<ProviderTrack>)
    ensures
        tracks_of_items(r@, list_at(*value, seq!["items"@]), 1),
{
    let path: &[&str] = &["items"];
    assert(path@.map_values(|k: &str| k@) =~= seq!["items"@]);
    tracks_of(list_at_path(value, path), 1)
}

/// The tracks of a top-tracks page (each entry is a track).
pub fn top_tracks(value: &Json) -> (r: Vec<ProviderTrack>)
    ensures
        tracks_of_items(r@, list_at(*value, seq!["items"@]), 0),
{
    let path: &[&str] = &["items"];
    assert(path@.map_values(|k: &str| k@) =~= seq!["items"@]);
    tracks_of(list_at_path(value, path), 0)
}

/// The tracks and playlists of a search response.
pub fn search_results(value: &Json) -> (r: crate::providers::SearchResults)
    ensures
        tracks_of_items(r.tracks@, list_at(*value, seq!["tracks"@, "items"@]), 0),
        playlists_of_items(r.playlists@, list_at(*value, seq!["playlists"@, "items"@])),
{
    let tp: &[&str] = &["tracks", "items"];
    assert(tp@.map_values(|k: &str| k@) =~= seq!["tracks"@, "items"@]);
    let pp: &[&str] = &["playlists", "items"];
    assert(pp@.map_values(|k: &str| k@) =~= seq!["playlists"@, "items"@]);
    crate::providers::SearchResults {
        tracks: tracks_of(list_at_path(value, tp), 0),
        playlists: playlists_of(list_at_path(value, pp)),
    }
}

/// A page of a paginated list: its entries and the total it states.
pub fn page_entries(value: &Json) -> (r: (&[Json], Option<u64>))
    ensures
        r.0@ == list_at(*value, seq!["items"@]),
        r.1 == match get_spec(*value, "total"@) {
            Some(t) => u64_spec(t),
            None => None,
        },
{
    let path: &[&str] = &["items"];
    assert(path@.map_values(|k: &str| k@) =~= seq!["items"@]);
    (list_at_path(value, path), u64_field(value, "total"))
}

/// The page size paginated lists are read with.
pub const PAGE_SIZE: usize = 50;

/// After a page of `page_len` entries read at `offset`: the next offset, and whether the list is
/// done: the page was empty or short, or the stated total (the new offset when none is stated)
/// has been reached.
pub fn page_step(offset: usize, page_len: usize, total: Option<u64>) -> (r: (usize, bool))
    requires
        offset + page_len <= usize::MAX,
    ensures
        r.0 == offset + page_len,
        r.1 == (page_len == 0 || (match total {
            Some(t) => r.0 >= t,
            None => true,
        }) || page_len < PAGE_SIZE),
{
    let next = offset + page_len;
    let limit: u64 = match total {
        Some(t) => t,
        None => next as u64,
    };
    (next, page_len == 0 || next as u64 >= limit || page_len < PAGE_SIZE)
}

/// The Web API URI of a track: `spotify:track:<id>` for both track id forms, anything else as it
/// is.
pub open spec fn remote_uri_spec(uri: Seq<char>) -> Seq<char> {
    if uri.len() >= 16 && uri.take(16) == "spotify://track/"@ {
        "spotify:track:"@ + uri.skip(16)
    } else {
        uri
    }
}

/// The URI the Web API's play request takes for a track id.
pub fn remote_uri(uri: &str) -> (r: String)
    ensures
        r@ == remote_uri_spec(uri@),
{
    proof {
        reveal_strlit("spotify://track/");
    }
    let cs = chars_of(uri);
    match crate::text::strip_prefix(&cs, &chars_of("spotify://track/")) {
        Some(id) => {
            let mut out = chars_of("spotify:track:");
            extend_all(&mut out, &id);
            string_of(&out)
        },
        None => string_of(&cs),
    }
}

/// What a playback request's HTTP status means.
pub open spec fn playback_status_spec(status: u16) -> Result<(), Seq<char>> {
    if 200 <= status <= 299 {
        Ok(())
    } else if status == 403 {
        Err("Spotify refused playback. Remote control requires a Premium account with an active Spotify device."@)
    } else if status == 404 {
        Err("No active Spotify device found. Open Spotify on a device and start it once, then retry."@)
    } else {
        Err("Spotify playback returned "@ + crate::text::decimal_spec(status as nat))
    }
}

/// What a playback request's HTTP status means for the caller.
pub fn playback_status(status: u16) -> (r: Result<(), String>)
    ensures
        match r {
            Ok(()) => playback_status_spec(status) is Ok,
            Err(e) => playback_status_spec(status) == Err::<(), Seq<char>>(e@),
        },
{
    if 200 <= status && status <= 299 {
        Ok(())
    } else if status == 403 {
        Err(string_of(&chars_of("Spotify refused playback. Remote control requires a Premium account with an active Spotify device.")))
    } else if status == 404 {
        Err(string_of(&chars_of("No active Spotify device found. Open Spotify on a device and start it once, then retry.")))
    } else {
        let mut m = chars_of("Spotify playback returned ");
        extend_all(&mut m, &crate::text::decimal(status as u64));
        Err(string_of(&m))
    }
}

/// A playback request answered 404 without naming a device is retried on the preferred device.
pub fn retry_on_device(status: u16, names_device: bool) -> (r: bool)
    ensures
        r == (status == 404 && !names_device),
{
    status == 404 && !names_device
}

/// The URI a track is added to a playlist under: `spotify:track:` and its normalized id; the
/// normalization's error when the track id is not valid.
pub fn playlist_track_uri(track_id: &str) -> (r: Result<String, String>)
    ensures
        match r {
            Ok(u) => crate::native::normalized_id(track_id@) matches Ok(id) && u@ == "spotify:track:"@ + id,
            Err(e) => crate::native::normalized_id(track_id@) == Err::<Seq<char>, Seq<char>>(e@),
        },
{
    match crate::native::normalize_spotify_id(track_id) {
        Ok(id) => {
            let mut out = chars_of("spotify:track:");
            push_str(&mut out, id.as_str());
            Ok(string_of(&out))
        },
        Err(e) => Err(e),
    }
}

/// What a playlist change's HTTP status means.
pub open spec fn playlist_status_spec(status: u16) -> Result<(), Seq<char>> {
    if 200 <= status <= 299 {
        Ok(())
    } else if status == 403 {
        Err("Spotify refused the playlist change. Reconnect Spotify to grant playlist access."@)
    } else {
        Err("Spotify playlist request returned "@ + crate::text::decimal_spec(status as nat))
    }
}

/// What a playlist change's HTTP status means for the caller.
pub fn playlist_status(status: u16) -> (r: Result<(), String>)
    ensures
        match r {
            Ok(()) => playlist_status_spec(status) is Ok,
            Err(e) => playlist_status_spec(status) == Err::<(), Seq<char>>(e@),
        },
{
    if 200 <= status && status <= 299 {
        Ok(())
    } else if status == 403 {
        Err(string_of(&chars_of("Spotify refused the playlist change. Reconnect Spotify to grant playlist access.")))
    } else {
        let mut m = chars_of("Spotify playlist request returned ");
        extend_all(&mut m, &crate::text::decimal(status as u64));
        Err(string_of(&m))
    }
}

/// The page size asked of the saved- and top-tracks lists: `limit` clamped to 1..=50.
pub fn list_limit(limit: u32) -> (r: u32)
    ensures
        r == if limit < 1 {
            1
        } else if limit > 50 {
            50
        } else {
            limit
        },
{
    if limit < 1 {
        1
    } else if limit > 50 {
        50
    } else {
        limit
    }
}

/// The number of results asked of a search: `limit` clamped to 1..=10.
pub fn search_limit(limit: usize) -> (r: usize)
    ensures
        r == if limit < 1 {
            1
        } else if limit > 10 {
            10
        } else {
            limit
        },
{
    if limit < 1 {
        1
    } else if limit > 10 {
        10
    } else {
        limit
    }
}

/// Spotify's Web API for one registered client.
pub struct SpotifyProvider {
    pub client_id: String,
}

impl SpotifyProvider {
    pub fn new(client_id: String) -> (r: Self)
        ensures
            r.client_id@ == client_id@,
    {
        SpotifyProvider { client_id }
    }

    /// The playback state from the player endpoint's reply: nothing playing when it sent no body.
    pub fn get_playback_state(&self, reply: Option<&Json>) -> (r: SpotifyPlaybackState)
        ensures
            match reply {
                Some(v) => is_playback_state(r, *v),
                None => r.track is None && !r.is_playing && r.progress_ms == 0 && r.duration_ms == 0
                    && r.volume_percent is None && r.device_name is None,
            },
    {
        match reply {
            Some(v) => parse_playback_state(v),
            None => idle_playback_state(),
        }
    }

    /// The tracks of a page of the user's saved tracks.
    pub fn get_saved_tracks(&self, page: &Json) -> (r: Vec<ProviderTrack>)
        ensures
            tracks_of_items(r@, list_at(*page, seq!["items"@]), 1),
    {
        saved_tracks(page)
    }

    /// The tracks of a page of the user's top tracks.
    pub fn get_top_tracks(&self, page: &Json) -> (r: Vec<ProviderTrack>)
        ensures
            tracks_of_items(r@, list_at(*page, seq!["items"@]), 0),
    {
        top_tracks(page)
    }

    /// The tracks of one page of a playlist's entries, the page's length and the total it states.
    pub fn playlist_page(&self, page: &Json) -> (r: (Vec<ProviderTrack>, usize, Option<u64>))
        ensures
            tracks_of_items(r.0@, list_at(*page, seq!["items"@]), 2),
            r.1 == list_at(*page, seq!["items"@]).len(),
            r.2 == match get_spec(*page, "total"@) {
                Some(t) => u64_spec(t),
                None => None,
            },
    {
        let (items, total) = page_entries(page);
        (tracks_of(items, 2), items.len(), total)
    }

    /// Every track of a playlist from the pages of its entries, read in order from the first:
    /// pages are read until the one after which the listing is done (see [`page_step`]); later
    /// pages are ignored.
    pub fn get_playlist_tracks(&self, pages: &[Json]) -> (r: Vec<ProviderTrack>)
        requires
            paged_entries(pages@).len() <= usize::MAX,
        ensures
            tracks_of_items(r@, paged_entries(pages@.take(pages_read(pages@, 0) as int)), 2),
    {
        let mut out: Vec<ProviderTrack> = Vec::new();
        let mut offset: usize = 0;
        let mut i: usize = 0;
        proof {
            assert(pages@.take(0) =~= Seq::<Json>::empty());
            assert(pages@.skip(0) =~= pages@);
            reveal(Seq::filter);
            assert(Seq::<Json>::empty().filter(|i: Json| yields_track(2, i)) =~= Seq::<Json>::empty());
        }
        while i < pages.len()
            invariant
                i <= pages@.len(),
                paged_entries(pages@).len() <= usize::MAX,
                offset == paged_entries(pages@.take(i as int)).len(),
                pages_read(pages@, 0) == i + pages_read(pages@.skip(i as int), offset as int),
                tracks_of_items(out@, paged_entries(pages@.take(i as int)), 2),
            decreases pages@.len() - i,
        {
            let (mut tracks, page_len, total) = self.playlist_page(&pages[i]);
            let ghost rest = pages@.skip(i as int);
            proof {
                assert(rest[0] == pages@[i as int]);
                assert(rest.drop_first() =~= pages@.skip(i + 1));
                assert(pages@.take(i + 1).drop_last() =~= pages@.take(i as int));
                assert(pages@.take(i + 1).last() == pages@[i as int]);
                lemma_paged_entries_prefix(pages@, i + 1);
                lemma_tracks_of_items_concat(out@, tracks@, paged_entries(pages@.take(i as int)), page_items(pages@[i as int]), 2);
            }
            out.append(&mut tracks);
            let (next, done) = page_step(offset, page_len, total);
            offset = next;
            i = i + 1;
            if done {
                assert(pages_read(pages@, 0) == i);
                return out;
            }
        }
        proof {
            assert(pages@.skip(i as int) =~= Seq::<Json>::empty());
            assert(pages@.take(i as int) =~= pages@);
        }
        out
    }
}

/// Whether a paged listing is done after a page of `page_len` entries that ends at entry `next`:
/// the page was empty or short, or the stated total (none counts as reached) is reached.
pub open spec fn page_done(page_len: int, next: int, total: Option<u64>) -> bool {
    page_len == 0 || (match total {
        Some(t) => next >= t,
        None => true,
    }) || page_len < PAGE_SIZE
}

/// The entries of a page of a listing.
pub open spec fn page_items(page: Json) -> Seq<Json> {
    list_at(page, seq!["items"@])
}

/// The total a page of a listing states.
pub open spec fn page_total(page: Json) -> Option<u64> {
    match get_spec(page, "total"@) {
        Some(t) => u64_spec(t),
        None => None,
    }
}

/// How many of `pages` are read when the listing is read from entry `offset`: pages in order,
/// up to and including the first after which the listing is done.
pub open spec fn pages_read(pages: Seq<Json>, offset: int) -> nat
    decreases pages.len(),
{
    if pages.len() == 0 {
        0
    } else {
        let len = page_items(pages[0]).len() as int;
        if page_done(len, offset + len, page_total(pages[0])) {
            1
        } else {
            1 + pages_read(pages.drop_first(), offset + len)
        }
    }
}

/// The entries of some pages, page after page.
pub open spec fn paged_entries(pages: Seq<Json>) -> Seq<Json>
    decreases pages.len(),
{
    if pages.len() == 0 {
        seq![]
    } else {
        paged_entries(pages.drop_last()) + page_items(pages.last())
    }
}

proof fn lemma_paged_entries_prefix(pages: Seq<Json>, i: int)
    requires
        0 <= i <= pages.len(),
    ensures
        paged_entries(pages.take(i)).len() <= paged_entries(pages).len(),
    decreases pages.len(),
{
    if i < pages.len() {
        assert(pages.drop_last().take(i) =~= pages.take(i));
        lemma_paged_entries_prefix(pages.drop_last(), i);
    } else {
        assert(pages.take(i) =~= pages);
    }
}

proof fn lemma_tracks_of_items_concat(a: Seq<ProviderTrack>, b: Seq<ProviderTrack>, x: Seq<Json>, y: Seq<Json>, mode: u8)
    requires
        tracks_of_items(a, x, mode),
        tracks_of_items(b, y, mode),
    ensures
        tracks_of_items(a + b, x + y, mode),
{
    let pred = |i: Json| yields_track(mode, i);
    Seq::filter_distributes_over_add(x, y, pred);
    let rows = (x + y).filter(pred);
    assert(rows == x.filter(pred) + y.filter(pred));
    assert forall|k: int| 0 <= k < (a + b).len() implies is_spotify_track(#[trigger] (a + b)[k], track_source(mode, rows[k]).unwrap()) by {
        if k < a.len() {
            assert(rows[k] == x.filter(pred)[k]);
        } else {
            assert(rows[k] == y.filter(pred)[k - a.len()]);
            assert((a + b)[k] == b[k - a.len()]);
        }
    }
}

impl crate::providers::MusicProvider for SpotifyProvider {
    fn provider_id(&self) -> (r: ProviderKind)
        ensures
            r == ProviderKind::Spotify,
    {
        ProviderKind::Spotify
    }
}

// ---------------------------------------------------------------------------------------------
// Credentials
// ---------------------------------------------------------------------------------------------

/// The client id an authorization runs with: the configured one, trimmed; a blank one is an
/// error.
pub fn auth_client_id(client_id_raw: &str) -> (r: Result<String, String>)
    ensures
        match r {
            Ok(c) => !is_blank(client_id_raw@) && c@ == trim(client_id_raw@),
            Err(e) => is_blank(client_id_raw@) && e@
                == "Add your Spotify app's Client ID in Settings first, then connect."@,
        },
{
    let t = trimmed(&chars_of(client_id_raw));
    proof {
        crate::text::lemma_trim_empty_iff_blank(client_id_raw@);
    }
    if t.len() == 0 {
        Err(string_of(&chars_of("Add your Spotify app's Client ID in Settings first, then connect.")))
    } else {
        Ok(string_of(&t))
    }
}

/// The next step towards an access token for native playback at `now`: the stored token while it
/// is valid; a refresh when it has expired and a refresh token is stored; else the request to
/// reconnect.
pub fn native_token_step(tokens: Option<SpotifyTokens>, now: u64) -> (r: Result<TokenStep, String>)
    ensures
        match r {
            Ok(TokenStep::Ready(t)) => tokens is Some && !expired_at(tokens.unwrap().expires_at, now)
                && t@ == tokens.unwrap().access_token@,
            Ok(TokenStep::Refresh(t)) => tokens is Some && expired_at(tokens.unwrap().expires_at, now)
                && tokens.unwrap().refresh_token@.len() > 0 && t@ == tokens.unwrap().refresh_token@,
            Err(e) => (tokens is None || (expired_at(tokens.unwrap().expires_at, now)
                && tokens.unwrap().refresh_token@.len() == 0)) && e@
                == "Reconnect Spotify in Settings to enable native playback."@,
        },
{
    match tokens {
        Some(t) => {
            let expired = t.is_expired_at(now);
            let has_refresh = chars_of(t.refresh_token.as_str()).len() > 0;
            if !expired {
                Ok(TokenStep::Ready(t.access_token))
            } else if has_refresh {
                Ok(TokenStep::Refresh(t.refresh_token))
            } else {
                Err(string_of(&chars_of("Reconnect Spotify in Settings to enable native playback.")))
            }
        },
        None => Err(string_of(&chars_of("Reconnect Spotify in Settings to enable native playback."))),
    }
}

/// Where the token file lives: under `$XDG_CONFIG_HOME/sonora`, else `$HOME/.config/sonora`,
/// else in the working directory.
pub open spec fn tokens_dir(xdg_config_home: Option<Seq<char>>, home: Option<Seq<char>>) -> Option<Seq<char>> {
    match xdg_config_home {
        Some(x) => Some(crate::library::joined(x, "sonora"@)),
        None => match home {
            Some(h) => Some(crate::library::joined(crate::library::joined(h, ".config"@), "sonora"@)),
            None => None,
        },
    }
}

fn join_path(dir: &Vec<char>, name: &str) -> (r: Vec<char>)
    ensures
        r@ == crate::library::joined(dir@, name@),
{
    let mut out = slice_vec(dir, 0, dir.len());
    assert(dir@.subrange(0, dir@.len() as int) =~= dir@);
    if out.len() > 0 && out[out.len() - 1] != '/' {
        out.push('/');
    }
    push_str(&mut out, name);
    out
}

/// The path of a token file named `name` (the Web API's or the native player's).
pub fn tokens_path(xdg_config_home: Option<&str>, home: Option<&str>, name: &str) -> (r: String)
    ensures
        r@ == match tokens_dir(
            match xdg_config_home {
                Some(x) => Some(x@),
                None => None,
            },
            match home {
                Some(h) => Some(h@),
                None => None,
            },
        ) {
            Some(d) => crate::library::joined(d, name@),
            None => name@,
        },
{
    match xdg_config_home {
        Some(x) => string_of(&join_path(&join_path(&chars_of(x), "sonora"), name)),
        None => match home {
            Some(h) => string_of(&join_path(&join_path(&join_path(&chars_of(h), ".config"), "sonora"), name)),
            None => string_of(&chars_of(name)),
        },
    }
}

/// A token that has expired stays expired as time goes on, and a token is expired from 60
/// seconds before its stated expiry.
pub proof fn lemma_expiry_monotone(expires_at: u64, now: u64, later: u64)
    ensures
        now <= later && expired_at(expires_at, now) ==> expired_at(expires_at, later),
        expires_at >= 60 ==> expired_at(expires_at, (expires_at - 60) as u64),
        expires_at > 60 ==> !expired_at(expires_at, (expires_at - 61) as u64),
{
}

} // verus!
