//! Basic-Auth interception: detecting a `WWW-Authenticate: Basic`
//! challenge, matching configured credentials by path prefix and realm,
//! and re-issuing the request with an `Authorization` header.
use vstd::prelude::*;

use vstd::utf8::encode_utf8;

use crate::errors::ProxyError;
use crate::message::{header_drop, header_find, insert_header, HttpRequest, RequestModel};
use crate::strutil::{
    char_at, clean_url, clean_url_model, concat_str, find_char, find_char_from, is_prefix_of,
    lemma_char_at_bounds, str_eq, str_starts_with, str_strip_prefix, substring_copy,
};

verus! {

/// Credentials configured for one protected path prefix.
#[derive(Debug)]
pub struct ServerCredentials {
    pub realm: String,
    pub username: String,
    pub password: String,
}

/// Mathematical image of a credential entry.
pub ghost struct CredModel {
    pub realm: Seq<char>,
    pub username: Seq<char>,
    pub password: Seq<char>,
}

impl View for ServerCredentials {
    type V = CredModel;

    open spec fn view(&self) -> CredModel {
        CredModel { realm: self.realm@, username: self.username@, password: self.password@ }
    }
}

impl DeepView for ServerCredentials {
    type V = CredModel;

    open spec fn deep_view(&self) -> CredModel {
        self.view()
    }
}

impl ServerCredentials {
    /// Copies the three parts into an owned entry.
    pub fn new(realm: &str, username: &str, password: &str) -> (r: Self)
        ensures
            r@.realm == realm@,
            r@.username == username@,
            r@.password == password@,
    {
        ServerCredentials {
            realm: String::from_str(realm),
            username: String::from_str(username),
            password: String::from_str(password),
        }
    }
}

/// Relies on base64's standard-alphabet engine: the encoding of a byte
/// string depends on those bytes alone.
pub uninterp spec fn b64_of(s: Seq<u8>) -> Seq<char>;

/// Relies on base64's `Engine::encode` with the standard alphabet.
#[verifier::external_body]
fn base64_encode(data: &[u8]) -> (r: String)
    ensures
        r@ == b64_of(data@),
{
    base64::Engine::encode(&base64::engine::general_purpose::STANDARD, data)
}

/// Relies on base64's `Engine::decode` with the standard alphabet: which
/// strings decode, and to what, depends on the characters alone.
pub uninterp spec fn b64_decoded(s: Seq<char>) -> Option<Seq<u8>>;

/// Relies on base64's `Engine::decode` with the standard alphabet.
#[verifier::external_body]
fn base64_decode(s: &str) -> (r: Option<Vec<u8>>)
    ensures
        r.deep_view() == b64_decoded(s@),
{
    base64::Engine::decode(&base64::engine::general_purpose::STANDARD, s).ok()
}

/// Relies on std's `String::from_utf8`: which byte strings decode, and
/// to what text, depends on the bytes alone.
pub uninterp spec fn utf8_decoded(v: Seq<u8>) -> Option<Seq<char>>;

/// Relies on std's `String::from_utf8`: it succeeds exactly on valid
/// UTF-8, and the returned text re-encodes to the input bytes.
#[verifier::external_body]
fn utf8_to_string(v: Vec<u8>) -> (r: Option<String>)
    ensures
        r.deep_view() == utf8_decoded(v@),
        r matches Some(t) ==> encode_utf8(t@) == v@,
{
    String::from_utf8(v).ok()
}

/// The `Authorization` value carrying `user:pass` in base64.
pub open spec fn encode_auth_model(user: Seq<char>, password: Seq<char>) -> Seq<char> {
    "Basic "@ + b64_of(encode_utf8(user + ":"@ + password))
}

/// Builds the `Basic` authorization value for a user and password.
pub fn encode_auth(user: String, password: String) -> (r: String)
    ensures
        r@ == encode_auth_model(user@, password@),
{
    let combined = user.concat(":").concat(password.as_str());
    let encoded_credentials = base64_encode(combined.as_str().as_bytes());
    concat_str("Basic ", encoded_credentials.as_str())
}

/// Decodes a `Basic` authorization value back into user and password:
/// base64, then UTF-8, then a single `:` split.
pub fn _decode_auth(auth_val: &str) -> (r: Result<(String, String), &'static str>)
    ensures
        match r {
            Result::Ok(p) => {
                &&& b64_decoded(auth_val@) is Some
                &&& utf8_decoded(b64_decoded(auth_val@).unwrap()) matches Some(t) && char_at(
                    t,
                    0,
                    ':',
                ) matches Some(i) && char_at(t, i + 1, ':') is None && p.0@ == t.subrange(0, i)
                    && p.1@ == t.subrange(i + 1, t.len() as int)
            },
            Result::Err(m) => {
                if b64_decoded(auth_val@) is None {
                    m@ == "Base64 decoding error"@
                } else if utf8_decoded(b64_decoded(auth_val@).unwrap()) is None {
                    m@ == "UTF-8 decoding error"@
                } else {
                    let t = utf8_decoded(b64_decoded(auth_val@).unwrap()).unwrap();
                    m@ == "Invalid format"@ && (char_at(t, 0, ':') is None || char_at(
                        t,
                        char_at(t, 0, ':').unwrap() + 1,
                        ':',
                    ) is Some)
                }
            },
        },
{
    let decoded_auth = match base64_decode(auth_val) {
        Some(v) => v,
        None => {
            return Err("Base64 decoding error");
        },
    };
    proof {
        assert(decoded_auth.deep_view() =~= decoded_auth@);
        assert(b64_decoded(auth_val@) == Option::Some(decoded_auth@));
    }
    let ghost decoded_view = decoded_auth@;
    let auth_str = match utf8_to_string(decoded_auth) {
        Some(s) => s,
        None => {
            return Err("UTF-8 decoding error");
        },
    };
    proof {
        assert(utf8_decoded(decoded_view) == Option::Some(auth_str@));
    }
    let n = auth_str.as_str().unicode_len();
    match find_char(auth_str.as_str(), ':') {
        Some(i) => {
            proof {
                lemma_char_at_bounds(auth_str@, 0, ':');
            }
            match find_char_from(auth_str.as_str(), i + 1, ':') {
                Some(_) => Err("Invalid format"),
                None => Ok(
                    (
                        substring_copy(auth_str.as_str(), 0, i),
                        substring_copy(auth_str.as_str(), i + 1, n),
                    ),
                ),
            }
        },
        None => Err("Invalid format"),
    }
}

/// First entry whose path key equals the request path exactly.
pub open spec fn find_exact(m: Seq<(Seq<char>, CredModel)>, uri: Seq<char>, i: int) -> Option<int>
    decreases m.len() - i,
{
    if i < 0 || i >= m.len() {
        Option::None
    } else if m[i].0 == uri {
        Option::Some(i)
    } else {
        find_exact(m, uri, i + 1)
    }
}

/// First entry whose path key is a prefix of the request path.
pub open spec fn find_pref(m: Seq<(Seq<char>, CredModel)>, uri: Seq<char>, i: int) -> Option<int>
    decreases m.len() - i,
{
    if i < 0 || i >= m.len() {
        Option::None
    } else if is_prefix_of(m[i].0, uri) {
        Option::Some(i)
    } else {
        find_pref(m, uri, i + 1)
    }
}

/// The credential the interceptor uses for a path: an exact key match
/// wins; otherwise the first configured key that prefixes the path.
pub open spec fn matched_credential(m: Seq<(Seq<char>, CredModel)>, uri: Seq<char>) -> Option<
    CredModel,
> {
    match find_exact(m, uri, 0) {
        Option::Some(i) => Option::Some(m[i].1),
        Option::None => match find_pref(m, uri, 0) {
            Option::Some(i) => Option::Some(m[i].1),
            Option::None => Option::None,
        },
    }
}

/// Looks a request path up in the configured credentials.
pub fn match_credentials<'a>(uri: &str, auth_map: &'a Vec<(String, ServerCredentials)>) -> (r:
    Option<&'a ServerCredentials>)
    ensures
        match r {
            Option::Some(c) => matched_credential(auth_map.deep_view(), uri@) == Option::Some(c@),
            Option::None => matched_credential(auth_map.deep_view(), uri@) is None,
        },
{
    let ghost m = auth_map.deep_view();
    let n = auth_map.len();
    let mut i: usize = 0;
    while i < n
        invariant
            i <= n,
            n == auth_map@.len(),
            m == auth_map.deep_view(),
            m.len() == n,
            find_exact(m, uri@, 0) == find_exact(m, uri@, i as int),
        decreases n - i,
    {
        proof {
            assert(m[i as int].0 == auth_map@[i as int].0@);
            assert(m[i as int].1 == auth_map@[i as int].1@);
        }
        if str_eq(auth_map[i].0.as_str(), uri) {
            return Some(&auth_map[i].1);
        }
        i = i + 1;
    }
    let mut j: usize = 0;
    while j < n
        invariant
            j <= n,
            n == auth_map@.len(),
            m == auth_map.deep_view(),
            m.len() == n,
            find_exact(m, uri@, 0) is None,
            find_pref(m, uri@, 0) == find_pref(m, uri@, j as int),
        decreases n - j,
    {
        proof {
            assert(m[j as int].0 == auth_map@[j as int].0@);
            assert(m[j as int].1 == auth_map@[j as int].1@);
        }
        if str_starts_with(uri, auth_map[j].0.as_str()) {
            return Some(&auth_map[j].1);
        }
        j = j + 1;
    }
    None
}

/// Relies on http's `HeaderValue::from_str`: whether a string is a legal
/// header value depends on its characters alone.
pub uninterp spec fn is_header_value(s: Seq<char>) -> bool;

/// Relies on http's `HeaderValue::from_str` to test header-value legality.
#[verifier::external_body]
pub fn header_value_ok(s: &str) -> (r: bool)
    ensures
        r == is_header_value(s@),
{
    http::header::HeaderValue::from_str(s).is_ok()
}

/// The request after credential injection: its `Authorization` header is
/// replaced when the encoded value is a legal header value.
pub open spec fn reconstruct_model(req: RequestModel, cred: CredModel) -> RequestModel {
    let auth = encode_auth_model(cred.username, cred.password);
    if is_header_value(auth) {
        RequestModel {
            headers: header_drop(req.headers, "authorization"@) + seq![("authorization"@, auth)],
            ..req
        }
    } else {
        req
    }
}

/// Re-issues the request with the `Authorization` header filled in.
pub fn reconstruct_req(req: HttpRequest, info: &ServerCredentials) -> (r: Result<
    HttpRequest,
    ProxyError,
>)
    ensures
        r matches Ok(q) && q@ == reconstruct_model(req@, info@),
{
    let mut authenticated_req = req;
    let auth = encode_auth(info.username.clone(), info.password.clone());
    if header_value_ok(auth.as_str()) {
        insert_header(&mut authenticated_req.headers, "authorization", auth);
    }
    Ok(authenticated_req)
}

/// The request the middleware forwards: untouched unless the `basic`
/// section, a matching credential and a matching realm all line up.
pub open spec fn auth_middleware_model(
    req: RequestModel,
    realm: Seq<char>,
    c: crate::config::ConfigValue,
) -> RequestModel {
    match crate::config::basic_model(c) {
        Option::None => req,
        Option::Some(m) => {
            let target = clean_url_model(req.uri);
            match matched_credential(m, target) {
                Option::None => req,
                Option::Some(cred) => if realm == cred.realm {
                    reconstruct_model(req, cred)
                } else {
                    req
                },
            }
        },
    }
}

/// Whether the middleware applies credentials for a challenge realm:
/// the `basic` section decodes, a configured credential matches the
/// cleaned request URI, and its realm equals the challenge's.
pub open spec fn middleware_injects(
    req: RequestModel,
    realm: Seq<char>,
    c: crate::config::ConfigValue,
) -> bool {
    match crate::config::basic_model(c) {
        Option::None => false,
        Option::Some(m) => match matched_credential(m, clean_url_model(req.uri)) {
            Option::None => false,
            Option::Some(cred) => realm == cred.realm,
        },
    }
}

/// Applies configured credentials and says whether any matched.
fn auth_middleware_flagged(
    req: HttpRequest,
    realm: &str,
    config: &crate::config::ConfigValue,
) -> (r: Result<(HttpRequest, bool), ProxyError>)
    ensures
        r matches Ok(p) && p.0@ == auth_middleware_model(req@, realm@, *config) && p.1
            == middleware_injects(req@, realm@, *config),
{
    let basic_auth = match crate::config::setup_basic(config) {
        Some(map) => map,
        None => {
            return Ok((req, false));
        },
    };
    let target = clean_url(req.uri.as_str());
    let credential_info = match match_credentials(target.as_str(), &basic_auth) {
        Some(res) => res,
        None => {
            return Ok((req, false));
        },
    };
    if str_eq(realm, credential_info.realm.as_str()) {
        let authenticated = match reconstruct_req(req, credential_info) {
            Ok(q) => q,
            Err(e) => {
                return Err(e);
            },
        };
        return Ok((authenticated, true));
    }
    Ok((req, false))
}

/// Applies configured Basic-Auth credentials to a request when the
/// challenge realm matches.
pub fn auth_middleware(req: HttpRequest, realm: &str, config: &crate::config::ConfigValue) -> (r:
    Result<HttpRequest, ProxyError>)
    ensures
        r matches Ok(q) && q@ == auth_middleware_model(req@, realm@, *config),
{
    match auth_middleware_flagged(req, realm, config) {
        Ok((q, _)) => Ok(q),
        Err(e) => Err(e),
    }
}

/// The request the interceptor re-issues for a response's headers: the
/// original unless a `WWW-Authenticate: Basic realm="..."` challenge
/// with a closing quote names a realm the configuration covers.
pub open spec fn intercept_model(
    h: Seq<(Seq<char>, Seq<char>)>,
    req: RequestModel,
    c: crate::config::ConfigValue,
) -> RequestModel {
    let auth_str = match header_find(h, "www-authenticate"@, 0) {
        Option::Some(i) => h[i].1,
        Option::None => Seq::empty(),
    };
    if is_prefix_of("Basic realm=\""@, auth_str) {
        let basic = auth_str.skip("Basic realm=\""@.len() as int);
        match char_at(basic, 0, '"') {
            Option::Some(end) => auth_middleware_model(req, basic.subrange(0, end), c),
            Option::None => req,
        }
    } else {
        req
    }
}

/// Whether the interceptor injects credentials for a response's
/// headers: a well-terminated `Basic realm="..."` challenge whose realm
/// has a matching configured credential for the request's URI.
pub open spec fn intercept_injects(
    h: Seq<(Seq<char>, Seq<char>)>,
    req: RequestModel,
    c: crate::config::ConfigValue,
) -> bool {
    let auth_str = match header_find(h, "www-authenticate"@, 0) {
        Option::Some(i) => h[i].1,
        Option::None => Seq::empty(),
    };
    is_prefix_of("Basic realm=\""@, auth_str) && {
        let basic = auth_str.skip("Basic realm=\""@.len() as int);
        match char_at(basic, 0, '"') {
            Option::Some(end) => middleware_injects(req, basic.subrange(0, end), c),
            Option::None => false,
        }
    }
}

/// Detects a Basic challenge, rebuilds the request with configured
/// credentials when the realm matches, and says whether it did, so the
/// caller retries only an authenticated request and otherwise keeps the
/// first response.
pub fn intercept_auth_plan(
    resp_headers: &crate::message::Headers,
    cloned_req: HttpRequest,
    config: &crate::config::ConfigValue,
) -> (r: Result<(HttpRequest, bool), ProxyError>)
    ensures
        r matches Ok(p) && p.0@ == intercept_model(resp_headers.deep_view(), cloned_req@, *config)
            && p.1 == intercept_injects(resp_headers.deep_view(), cloned_req@, *config),
{
    let empty = String::new();
    let auth_str: &String = match crate::message::get_header(resp_headers, "www-authenticate") {
        Some(v) => v,
        None => &empty,
    };
    match str_strip_prefix(auth_str.as_str(), "Basic realm=\"") {
        Some(basic) => {
            match find_char(basic.as_str(), '"') {
                Some(end_quote_index) => {
                    proof {
                        lemma_char_at_bounds(basic@, 0, '"');
                    }
                    let extracted_auth = substring_copy(basic.as_str(), 0, end_quote_index);
                    match auth_middleware_flagged(cloned_req, extracted_auth.as_str(), config) {
                        Ok(p) => Ok(p),
                        Err(e) => Err(e),
                    }
                },
                None => Ok((cloned_req, false)),
            }
        },
        None => Ok((cloned_req, false)),
    }
}

/// Detects a Basic challenge in the response headers and, when the
/// realm has configured credentials, rebuilds the request with them.
pub fn intercept_auth(
    resp_headers: &crate::message::Headers,
    cloned_req: HttpRequest,
    config: &crate::config::ConfigValue,
) -> (r: Result<HttpRequest, ProxyError>)
    ensures
        r matches Ok(q) && q@ == intercept_model(resp_headers.deep_view(), cloned_req@, *config),
{
    match intercept_auth_plan(resp_headers, cloned_req, config) {
        Ok((q, _)) => Ok(q),
        Err(e) => Err(e),
    }
}

/// The Basic-Auth round trip: when a response carries a terminated
/// `Basic realm="..."` challenge whose realm has a matching configured
/// credential, and the encoded value is a legal header value, the
/// re-issued request equals the original except that its
/// `Authorization` header is exactly `Basic` followed by the base64 of
/// `username:password`.
pub proof fn lemma_challenge_retry(
    h: Seq<(Seq<char>, Seq<char>)>,
    req: RequestModel,
    c: crate::config::ConfigValue,
    cred: CredModel,
)
    requires
        intercept_injects(h, req, c),
        crate::config::basic_model(c) matches Some(m) && matched_credential(
            m,
            clean_url_model(req.uri),
        ) == Option::Some(cred),
        is_header_value(encode_auth_model(cred.username, cred.password)),
    ensures
        ({
            let q = intercept_model(h, req, c);
            &&& q.method == req.method
            &&& q.uri == req.uri
            &&& q.body == req.body
            &&& q.headers == header_drop(req.headers, "authorization"@) + seq![
                ("authorization"@, encode_auth_model(cred.username, cred.password)),
            ]
        }),
{
}

} // verus!