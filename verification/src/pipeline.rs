//! The per-request pipeline's decisions: rebuilding the forwarded
//! request, planning a redirect hop, and building a form-submission
//! POST. The host program performs the transport around these.
use vstd::prelude::*;

use vstd::utf8::encode_utf8;

use crate::basic::{header_value_ok, is_header_value};
use crate::errors::ProxyError;
use crate::message::{
    header_drop, header_find, insert_header, Headers, HttpRequest, HttpResponse, RequestModel,
};
use crate::status::bad_request;
use crate::utils::{parse_uri_path, uri_path_of};

verus! {

/// Relies on url's `Url::parse` and `host_str`: whether a string parses
/// as a URL with a host, and that host, depend on its characters alone.
pub uninterp spec fn url_host_of(s: Seq<char>) -> Option<Seq<char>>;

/// Relies on url's `Url::parse` and `host_str` to read a URL's host.
#[verifier::external_body]
fn parse_url_host(s: &str) -> (r: Option<String>)
    ensures
        r.deep_view() == url_host_of(s@),
{
    let u = url::Url::parse(s).ok()?;
    Some(u.host_str()?.to_string())
}

/// The forwarded request: the target URL must parse as a URL with a
/// legal host and as a URI, and the original headers must already carry
/// a `Host` header, which the target's host replaces.
pub open spec fn create_new_req_model(
    target_url: Seq<char>,
    method: Seq<char>,
    headers: Seq<(Seq<char>, Seq<char>)>,
    body: Seq<u8>,
) -> Option<RequestModel> {
    match url_host_of(target_url) {
        Option::None => Option::None,
        Option::Some(host) => if uri_path_of(target_url) is Some && is_header_value(host)
            && header_find(headers, "host"@, 0) is Some {
            Option::Some(
                RequestModel {
                    method,
                    uri: target_url,
                    headers: header_drop(headers, "host"@) + seq![("host"@, host)],
                    body,
                },
            )
        } else {
            Option::None
        },
    }
}

/// Rebuilds the inbound request against the resolved target: new URI,
/// the `Host` header replaced by the target's host, method, headers and
/// body carried over.
pub fn create_new_req(target_url: &str, method: String, headers: Headers, body: Vec<u8>) -> (r:
    Option<HttpRequest>)
    ensures
        match r {
            Option::Some(q) => create_new_req_model(
                target_url@,
                method@,
                headers.deep_view(),
                body.deep_view(),
            ) == Option::Some(q@),
            Option::None => create_new_req_model(
                target_url@,
                method@,
                headers.deep_view(),
                body.deep_view(),
            ) is None,
        },
{
    let host = match parse_url_host(target_url) {
        Some(h) => h,
        None => {
            return None;
        },
    };
    match parse_uri_path(target_url) {
        Some(_) => {},
        None => {
            return None;
        },
    }
    if !header_value_ok(host.as_str()) {
        return None;
    }
    let mut target_request = HttpRequest { method, uri: String::from_str(target_url), headers, body };
    let was = insert_header(&mut target_request.headers, "host", host);
    if was {
        Some(target_request)
    } else {
        None
    }
}

/// The single redirect hop: when the response carries a `Location` that
/// parses as a URI, a `GET` to it carrying the session cookies; `None`
/// says the response is returned unchanged.
pub open spec fn redirect_model(location: Option<Seq<char>>, cookies: Seq<char>) -> Option<
    RequestModel,
> {
    match location {
        Option::Some(l) => match uri_path_of(l) {
            Option::Some(p) => Option::Some(
                RequestModel {
                    method: "GET"@,
                    uri: l,
                    headers: seq![("cookie"@, cookies)],
                    body: Seq::empty(),
                },
            ),
            Option::None => Option::None,
        },
        Option::None => Option::None,
    }
}

/// Plans the follow-up request for a redirected response: a `GET` to
/// the `Location` target carrying the accumulated session cookies.
pub fn plan_redirection(location: Option<&String>, cookies: &str) -> (r: Option<HttpRequest>)
    ensures
        match r {
            Option::Some(q) => redirect_model(
                match location {
                    Option::Some(l) => Option::Some(l@),
                    Option::None => Option::None,
                },
                cookies@,
            ) == Option::Some(q@),
            Option::None => redirect_model(
                match location {
                    Option::Some(l) => Option::Some(l@),
                    Option::None => Option::None,
                },
                cookies@,
            ) is None,
        },
{
    let new_location = match location {
        Some(l) => l,
        None => {
            return None;
        },
    };
    match parse_uri_path(new_location.as_str()) {
        Some(_) => {},
        None => {
            return None;
        },
    }
    let mut headers: Headers = Vec::new();
    headers.push((String::from_str("cookie"), String::from_str(cookies)));
    let q = HttpRequest {
        method: String::from_str("GET"),
        uri: new_location.clone(),
        headers,
        body: Vec::new(),
    };
    proof {
        assert(q@.headers =~= seq![("cookie"@, cookies@)]);
        assert(q@.body =~= Seq::<u8>::empty());
    }
    Some(q)
}

/// Whether a status code is a redirection.
pub fn is_redirection(status: u16) -> (r: bool)
    ensures
        r == (300 <= status < 400),
{
    300 <= status && status < 400
}

/// Relies on serde_urlencoded's `to_string`: the form encoding of a
/// pair list depends on the pairs alone.
pub uninterp spec fn urlencoded_of(params: Seq<(Seq<char>, Seq<char>)>) -> Option<Seq<char>>;

/// Relies on serde_urlencoded's `to_string` for form encoding.
#[verifier::external_body]
fn urlencode_pairs(params: &Vec<(String, String)>) -> (r: Option<String>)
    ensures
        r.deep_view() == urlencoded_of(params.deep_view()),
{
    serde_urlencoded::to_string(params).ok()
}

/// What the form submitter does next: send the built POST, or hand the
/// caller a 400 when the parameters cannot be form-encoded.
pub enum PostPlan {
    Send(HttpRequest),
    Reject(HttpResponse),
}

/// Builds the form-submission POST: URL-encoded parameters, the form
/// content type, and the session cookies. Parameters that cannot be
/// encoded give the 400 response; an action that does not parse as a
/// URI is a framing error.
pub fn make_post_request(action: String, params: &Vec<(String, String)>, session: &str) -> (r:
    Result<PostPlan, ProxyError>)
    ensures
        match r {
            Result::Ok(p) => match p {
                PostPlan::Send(q) => {
                    &&& urlencoded_of(params.deep_view()) matches Some(d)
                    &&& uri_path_of(action@) is Some
                    &&& (q@ == RequestModel {
                        method: "POST"@,
                        uri: action@,
                        headers: seq![
                            ("content-type"@, "application/x-www-form-urlencoded"@),
                            ("cookie"@, session@),
                        ],
                        body: encode_utf8(urlencoded_of(params.deep_view()).unwrap()),
                    })
                },
                PostPlan::Reject(resp) => urlencoded_of(params.deep_view()) is None
                    && resp@.status == 400,
            },
            Result::Err(e) => urlencoded_of(params.deep_view()) is Some && uri_path_of(action@)
                is None,
        },
{
    let post_data = match urlencode_pairs(params) {
        Some(s) => s,
        None => {
            let resp = match bad_request() {
                Ok(resp) => resp,
                Err(e) => {
                    return Err(e);
                },
            };
            return Ok(PostPlan::Reject(resp));
        },
    };
    match parse_uri_path(action.as_str()) {
        Some(_) => {},
        None => {
            return Err(ProxyError::HyperHttp(String::from_str("invalid form action URI")));
        },
    }
    let mut headers: Headers = Vec::new();
    headers.push(
        (String::from_str("content-type"), String::from_str("application/x-www-form-urlencoded")),
    );
    headers.push((String::from_str("cookie"), String::from_str(session)));
    let body = post_data.as_str().as_bytes_vec();
    let q = HttpRequest { method: String::from_str("POST"), uri: action, headers, body };
    proof {
        assert(q@.headers =~= seq![
            ("content-type"@, "application/x-www-form-urlencoded"@),
            ("cookie"@, session@),
        ]);
        assert(q@.body =~= encode_utf8(post_data@));
    }
    Ok(PostPlan::Send(q))
}

} // verus!
