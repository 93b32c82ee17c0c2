//! The ChatGPT OAuth session of the Codex CLI: where it is kept, what is taken from it and the
//! request headers it yields.
use base64::Engine;
use vstd::prelude::*;

use crate::text::{all_whitespace, find_char_from, first_index_of, is_blank, str_chars, string_from_chars};

verus! {

/// The token section of `auth.json`.
pub struct TokenData {
    pub access_token: String,
    pub account_id: Option<String>,
    pub id_token: String,
}

/// The contents of `auth.json` that are used.
pub struct AuthDotJson {
    pub tokens: Option<TokenData>,
}

/// The ChatGPT claims of the ID token.
pub struct AuthClaims {
    pub chatgpt_account_id: Option<String>,
    pub chatgpt_account_is_fedramp: bool,
}

/// The claims of the ID token that are used.
pub struct IdClaims {
    pub auth: Option<AuthClaims>,
}

/// The credentials sent with each request.
pub struct CodexOAuthAuth {
    pub access_token: String,
    pub account_id: Option<String>,
    pub is_fedramp: bool,
}

/// The view of an optional string.
pub open spec fn opt_view(o: Option<String>) -> Option<Seq<char>> {
    match o {
        Some(s) => Some(s@),
        None => None,
    }
}

/// Why a session could not be read from `auth.json`.
#[derive(Debug, PartialEq, Eq, Structural)]
pub enum AuthError {
    /// The file holds no OAuth tokens.
    MissingTokens,
}

/// The account to send: the token section's own account id unless it is blank, else the one
/// of the ID token's claims.
pub open spec fn chosen_account_id(token_account: Option<Seq<char>>, claims: Option<AuthClaims>) -> Option<
    Seq<char>,
> {
    match token_account {
        Some(a) if !all_whitespace(a) => Some(a),
        _ => match claims {
            Some(c) => opt_view(c.chatgpt_account_id),
            None => None,
        },
    }
}

/// The account sent is the token section's own where it has one that is not blank;
/// otherwise, absent or blank, it is the account of the ID token's claims (none without
/// claims).
pub proof fn lemma_account_id_fallback(token_account: Option<Seq<char>>, claims: Option<AuthClaims>)
    ensures
        token_account is None ==> chosen_account_id(token_account, claims) == match claims {
            Some(c) => opt_view(c.chatgpt_account_id),
            None => None,
        },
        token_account is Some && all_whitespace(token_account->0) ==> chosen_account_id(
            token_account,
            claims,
        ) == match claims {
            Some(c) => opt_view(c.chatgpt_account_id),
            None => None,
        },
        token_account is Some && !all_whitespace(token_account->0) ==> chosen_account_id(
            token_account,
            claims,
        ) == token_account,
{
}

/// Whether the claims mark a FedRAMP account.
pub open spec fn claims_fedramp(claims: Option<AuthClaims>) -> bool {
    match claims {
        Some(c) => c.chatgpt_account_is_fedramp,
        None => false,
    }
}

fn clone_opt(o: &Option<String>) -> (r: Option<String>)
    ensures
        r == *o,
{
    match o {
        Some(s) => Some(s.clone()),
        None => None,
    }
}

impl CodexOAuthAuth {
    /// The credentials of a parsed `auth.json`, with the claims of its ID token where they
    /// could be read.
    pub fn from_auth_json(auth: AuthDotJson, claims: Option<AuthClaims>) -> (r: Result<Self, AuthError>)
        ensures
            auth.tokens is None <==> r is Err,
            r is Err ==> r == Err::<Self, AuthError>(AuthError::MissingTokens),
            match (r, auth.tokens) {
                (Ok(a), Some(t)) => {
                    &&& (t.account_id is None || all_whitespace(t.account_id->0@)) ==> opt_view(a.account_id)
                        == match claims {
                        Some(c) => opt_view(c.chatgpt_account_id),
                        None => None,
                    }
                    &&& (t.account_id is Some && !all_whitespace(t.account_id->0@)) ==> opt_view(a.account_id)
                        == Some(t.account_id->0@)
                    &&& a.access_token@ == t.access_token@
                    &&& opt_view(a.account_id) == chosen_account_id(opt_view(t.account_id), claims)
                    &&& a.is_fedramp == claims_fedramp(claims)
                },
                _ => true,
            },
    {
        let tokens = match auth.tokens {
            Some(t) => t,
            None => {
                return Err(AuthError::MissingTokens);
            },
        };
        let token_account = match tokens.account_id {
            Some(a) => if is_blank(a.as_str()) {
                None
            } else {
                Some(a)
            },
            None => None,
        };
        let is_fedramp = match &claims {
            Some(c) => c.chatgpt_account_is_fedramp,
            None => false,
        };
        let account_id = match token_account {
            Some(a) => Some(a),
            None => match &claims {
                Some(c) => clone_opt(&c.chatgpt_account_id),
                None => None,
            },
        };
        Ok(CodexOAuthAuth { access_token: tokens.access_token, account_id, is_fedramp })
    }
}

impl Clone for CodexOAuthAuth {
    fn clone(&self) -> (r: Self)
        ensures
            r == *self,
    {
        CodexOAuthAuth {
            access_token: self.access_token.clone(),
            account_id: clone_opt(&self.account_id),
            is_fedramp: self.is_fedramp,
        }
    }
}

/// The views of a list of header name and value pairs.
pub open spec fn header_views(h: Seq<(String, String)>) -> Seq<(Seq<char>, Seq<char>)> {
    Seq::new(h.len(), |i: int| (h[i].0@, h[i].1@))
}

/// The headers of every Responses API request: JSON content, the bearer token, the API
/// version, the client name, the account where there is one and the FedRAMP mark where it is
/// set.
pub open spec fn auth_headers(access_token: Seq<char>, account_id: Option<Seq<char>>, is_fedramp: bool) -> Seq<
    (Seq<char>, Seq<char>),
> {
    seq![
        ("content-type"@, "application/json"@),
        ("authorization"@, "Bearer "@ + access_token),
        ("openai-beta"@, "responses=2025-06-21"@),
        ("x-codex-client"@, "deepwiki-rs"@),
    ] + match account_id {
        Some(a) => seq![("chatgpt-account-id"@, a)],
        None => Seq::empty(),
    } + if is_fedramp {
        seq![("x-openai-fedramp"@, "true"@)]
    } else {
        Seq::empty()
    }
}

fn pair(name: &str, value: String) -> (r: (String, String))
    ensures
        r.0@ == name@,
        r.1@ == value@,
{
    (name.to_owned(), value)
}

/// Whether `s` may be the value of an HTTP header: every byte of its UTF-8 encoding is a tab,
/// or at least 32 and not 127 (the bytes of a character beyond ASCII are all at least 128).
pub open spec fn header_value_ok(s: Seq<char>) -> bool {
    forall|i: int| 0 <= i < s.len() ==> #[trigger] s[i] == '\t' || (32 <= (s[i] as u32) && (s[i] as u32) != 127)
}

/// Calls `reqwest::header::HeaderValue::from_str` (of the `http` crate) and reports whether it
/// accepted `value`; it refuses exactly the values with a byte below 32 other than tab, or 127.
#[verifier::external_body]
fn is_valid_header_value(value: &str) -> (r: bool)
    ensures
        r == header_value_ok(value@),
{
    reqwest::header::HeaderValue::from_str(value).is_ok()
}

/// A header value that HTTP does not allow.
#[derive(Debug, PartialEq, Eq, Structural)]
pub enum HeaderError {
    /// The bearer token or the account id holds a control character.
    InvalidHeaderValue,
}

/// The session's header values are all allowed by HTTP.
pub open spec fn auth_headers_ok(access_token: Seq<char>, account_id: Option<Seq<char>>) -> bool {
    &&& header_value_ok("Bearer "@ + access_token)
    &&& match account_id {
        Some(a) => header_value_ok(a),
        None => true,
    }
}

impl CodexOAuthAuth {
    /// The request headers, as name and value pairs, in order; an error where the bearer token
    /// or the account id is not a valid header value.
    pub fn headers(&self) -> (r: Result<Vec<(String, String)>, HeaderError>)
        ensures
            r is Err <==> !auth_headers_ok(self.access_token@, opt_view(self.account_id)),
            match r {
                Ok(h) => header_views(h@) == auth_headers(
                    self.access_token@,
                    opt_view(self.account_id),
                    self.is_fedramp,
                ),
                Err(e) => e == HeaderError::InvalidHeaderValue,
            },
    {
        let mut h: Vec<(String, String)> = Vec::new();
        h.push(pair("content-type", "application/json".to_owned()));
        let mut bearer = "Bearer ".to_owned();
        bearer.append(self.access_token.as_str());
        if !is_valid_header_value(bearer.as_str()) {
            return Err(HeaderError::InvalidHeaderValue);
        }
        h.push(pair("authorization", bearer));
        h.push(pair("openai-beta", "responses=2025-06-21".to_owned()));
        h.push(pair("x-codex-client", "deepwiki-rs".to_owned()));
        match &self.account_id {
            Some(a) => {
                if !is_valid_header_value(a.as_str()) {
                    return Err(HeaderError::InvalidHeaderValue);
                }
                h.push(pair("chatgpt-account-id", a.clone()));
            },
            None => {},
        }
        if self.is_fedramp {
            h.push(pair("x-openai-fedramp", "true".to_owned()));
        }
        assert(header_views(h@) =~= auth_headers(
            self.access_token@,
            opt_view(self.account_id),
            self.is_fedramp,
        ));
        Ok(h)
    }
}

/// Where the directory that holds `auth.json` comes from.
#[derive(Debug, PartialEq, Eq, Structural)]
pub enum AuthPathBase {
    /// The directory named by `CODEX_HOME`.
    CodexHome,
    /// The directory named by `HOME`.
    Home,
    /// The current directory.
    CurrentDir,
}

/// The base of the path of `auth.json` and the components joined to it, in order:
/// `$CODEX_HOME/auth.json` where `CODEX_HOME` is set, else `$HOME/.codex/auth.json`, else
/// `./.codex/auth.json`.
pub fn codex_auth_path_parts(codex_home_set: bool, home_set: bool) -> (r: (AuthPathBase, Vec<String>))
    ensures
        codex_home_set ==> r.0 == AuthPathBase::CodexHome && r.1@.len() == 1 && r.1@[0]@ == "auth.json"@,
        !codex_home_set ==> r.1@.len() == 2 && r.1@[0]@ == ".codex"@ && r.1@[1]@ == "auth.json"@,
        !codex_home_set && home_set ==> r.0 == AuthPathBase::Home,
        !codex_home_set && !home_set ==> r.0 == AuthPathBase::CurrentDir,
{
    let mut parts: Vec<String> = Vec::new();
    if codex_home_set {
        parts.push("auth.json".to_owned());
        (AuthPathBase::CodexHome, parts)
    } else {
        parts.push(".codex".to_owned());
        parts.push("auth.json".to_owned());
        if home_set {
            (AuthPathBase::Home, parts)
        } else {
            (AuthPathBase::CurrentDir, parts)
        }
    }
}

/// Why `auth.json` is refused.
#[derive(Debug, PartialEq, Eq, Structural)]
pub enum AuthFileProblem {
    /// It is a symbolic link.
    Symlink,
    /// It is not a regular file.
    NotRegularFile,
    /// Its group or others have some access to it.
    GroupOrWorldAccess,
}

/// The permission bits of group and others.
pub open spec fn group_world_bits() -> u32 {
    0o077
}

/// Whether `auth.json` may be read, from its file type and, on Unix, its permission bits:
/// a symbolic link is refused first, then anything but a regular file, then a file that
/// group or others may access.
pub fn check_auth_file(is_symlink: bool, is_file: bool, mode: Option<u32>) -> (r: Result<(), AuthFileProblem>)
    ensures
        is_symlink ==> r == Err::<(), AuthFileProblem>(AuthFileProblem::Symlink),
        !is_symlink && !is_file ==> r == Err::<(), AuthFileProblem>(AuthFileProblem::NotRegularFile),
        !is_symlink && is_file ==> match mode {
            Some(m) => if m & group_world_bits() != 0 {
                r == Err::<(), AuthFileProblem>(AuthFileProblem::GroupOrWorldAccess)
            } else {
                r == Ok::<(), AuthFileProblem>(())
            },
            None => r == Ok::<(), AuthFileProblem>(()),
        },
{
    if is_symlink {
        return Err(AuthFileProblem::Symlink);
    }
    if !is_file {
        return Err(AuthFileProblem::NotRegularFile);
    }
    match mode {
        Some(m) => if m & 0o077 != 0 {
            Err(AuthFileProblem::GroupOrWorldAccess)
        } else {
            Ok(())
        },
        None => Ok(()),
    }
}

/// What `base64`'s URL-safe engine without padding (`general_purpose::URL_SAFE_NO_PAD`)
/// decodes `input` to; nothing where it reports an error.
pub uninterp spec fn base64_url_no_pad_decode(input: Seq<char>) -> Option<Seq<u8>>;

/// Calls `Engine::decode` of `base64::engine::general_purpose::URL_SAFE_NO_PAD` on the
/// bytes of `input`. Claimed: the result depends on the input alone; the decoding itself is
/// not stated.
#[verifier::external_body]
fn decode_base64_url_no_pad(input: &str) -> (r: Option<Vec<u8>>)
    ensures
        match r {
            Some(bytes) => base64_url_no_pad_decode(input@) == Some(bytes@),
            None => base64_url_no_pad_decode(input@) is None,
        },
{
    base64::engine::general_purpose::URL_SAFE_NO_PAD.decode(input).ok()
}

/// `s` up to its first `'.'`.
pub open spec fn before_dot(s: Seq<char>) -> Seq<char> {
    match first_index_of(s, '.') {
        Some(k) => s.take(k),
        None => s,
    }
}

/// `s` after its first `'.'`, where it has one.
pub open spec fn after_dot(s: Seq<char>) -> Option<Seq<char>> {
    match first_index_of(s, '.') {
        Some(k) => Some(s.skip(k + 1)),
        None => None,
    }
}

/// The first three pieces of `t` split at `'.'` (header, payload, signature), where it has
/// three; later pieces are ignored.
pub open spec fn id_token_parts(t: Seq<char>) -> Option<(Seq<char>, Seq<char>, Seq<char>)> {
    match after_dot(t) {
        None => None,
        Some(rest) => match after_dot(rest) {
            None => None,
            Some(rest2) => Some((before_dot(t), before_dot(rest), before_dot(rest2))),
        },
    }
}

/// The payload of a JSON Web Token whose header, payload and signature are all non-empty.
pub open spec fn token_payload(t: Seq<char>) -> Option<Seq<char>> {
    match id_token_parts(t) {
        Some((h, p, s)) => if h.len() > 0 && p.len() > 0 && s.len() > 0 {
            Some(p)
        } else {
            None
        },
        None => None,
    }
}

/// What the payload of an ID token yields.
pub enum IdTokenPayload {
    /// The token is not three non-empty pieces separated by `'.'`: it carries no claims.
    Malformed,
    /// The payload is not URL-safe base64 without padding.
    Undecodable,
    /// The decoded payload, the JSON text of the claims.
    Decoded(Vec<u8>),
}

/// The decoded payload of an ID token.
pub fn id_token_payload(id_token: &str) -> (r: IdTokenPayload)
    ensures
        match r {
            IdTokenPayload::Malformed => token_payload(id_token@) is None,
            IdTokenPayload::Undecodable => token_payload(id_token@) is Some
                && base64_url_no_pad_decode(token_payload(id_token@)->0) is None,
            IdTokenPayload::Decoded(bytes) => token_payload(id_token@) is Some
                && base64_url_no_pad_decode(token_payload(id_token@)->0) == Some(bytes@),
        },
{
    let t = str_chars(id_token);
    let n: usize = t.len();
    let ghost tv = t@;
    assert(tv.skip(0) == tv);
    let d1: usize = match find_char_from(&t, 0, '.') {
        Some(k) => k,
        None => {
            return IdTokenPayload::Malformed;
        },
    };
    let ghost rest = tv.skip(d1 + 1);
    assert(after_dot(tv) == Some(rest));
    let d2: usize = match find_char_from(&t, d1 + 1, '.') {
        Some(k) => k,
        None => {
            return IdTokenPayload::Malformed;
        },
    };
    let ghost rest2 = tv.skip(d2 + 1);
    assert(rest.skip(d2 - d1) =~= rest2);
    assert(after_dot(rest) == Some(rest2));
    assert(id_token_parts(tv) == Some((before_dot(tv), before_dot(rest), before_dot(rest2))));
    let d3: usize = match find_char_from(&t, d2 + 1, '.') {
        Some(k) => k,
        None => t.len(),
    };
    assert(before_dot(tv) =~= tv.subrange(0, d1 as int));
    assert(before_dot(rest) =~= tv.subrange(d1 + 1, d2 as int));
    assert(before_dot(rest2) =~= tv.subrange(d2 + 1, d3 as int));
    if d1 == 0 || d2 == d1 + 1 || d3 == d2 + 1 {
        return IdTokenPayload::Malformed;
    }
    let mut payload: Vec<char> = Vec::new();
    let mut k: usize = d1 + 1;
    while k < d2
        invariant
            d1 + 1 <= k <= d2 < tv.len(),
            t@ == tv,
            payload@ == tv.subrange(d1 + 1, k as int),
        decreases d2 - k,
    {
        payload.push(t[k]);
        k = k + 1;
        assert(payload@ == tv.subrange(d1 + 1, k as int));
    }
    let payload_text = string_from_chars(payload.as_slice());
    match decode_base64_url_no_pad(payload_text.as_str()) {
        Some(bytes) => IdTokenPayload::Decoded(bytes),
        None => IdTokenPayload::Undecodable,
    }
}

} // verus!
