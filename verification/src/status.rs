//! The four literal status responses the pipeline substitutes for local
//! failures: 400, 401, 404 and 502, each with a plain-text body.
use vstd::prelude::*;

use vstd::utf8::encode_utf8;

use crate::errors::ProxyError;
use crate::message::{Headers, HttpResponse, ResponseModel};
use crate::strutil::str_eq;

verus! {

/// A response with one header and a text body.
fn text_response(status: u16, header_name: &str, header_value: &str, body: &str) -> (r:
    HttpResponse)
    ensures
        r@.status == status,
        r@.headers =~= seq![(header_name@, header_value@)],
        r@.body == encode_utf8(body@),
{
    let mut headers: Headers = Vec::new();
    headers.push((String::from_str(header_name), String::from_str(header_value)));
    let body_bytes = vstd::slice::slice_to_vec(body.as_bytes());
    let r = HttpResponse { status, headers, body: body_bytes };
    proof {
        assert(r@.headers =~= seq![(header_name@, header_value@)]);
        assert(r@.body =~= encode_utf8(body@));
    }
    r
}

/// The 404 substituted when no route matches.
pub fn not_found() -> (r: Result<HttpResponse, ProxyError>)
    ensures
        r matches Ok(resp) && resp@.status == 404 && resp@.headers =~= seq![
            ("content-type"@, "text/plain"@),
        ] && resp@.body == encode_utf8("Error 404 NOT FOUND: Path not recognised"@),
{
    Ok(
        text_response(
            404,
            "content-type",
            "text/plain",
            "Error 404 NOT FOUND: Path not recognised",
        ),
    )
}

/// The 401 substituted when authentication is required but no request
/// could be rebuilt; it carries the Basic challenge.
pub fn unauthorized_response() -> (r: Result<HttpResponse, ProxyError>)
    ensures
        r matches Ok(resp) && resp@.status == 401 && resp@.headers =~= seq![
            ("www-authenticate"@, "Basic realm=\"Authentication required\""@),
        ] && resp@.body == encode_utf8("Error 401 UNAUTHORIZED: Authentication required\n"@),
{
    Ok(
        text_response(
            401,
            "www-authenticate",
            "Basic realm=\"Authentication required\"",
            "Error 401 UNAUTHORIZED: Authentication required\n",
        ),
    )
}

/// The 400 substituted when the proxied request cannot be rebuilt.
pub fn bad_request() -> (r: Result<HttpResponse, ProxyError>)
    ensures
        r matches Ok(resp) && resp@.status == 400 && resp@.headers =~= seq![
            ("content-type"@, "text/plain"@),
        ] && resp@.body == encode_utf8(
            "Error 400 BAD REQUEST: Proxy config file not properly completed"@,
        ),
{
    Ok(
        text_response(
            400,
            "content-type",
            "text/plain",
            "Error 400 BAD REQUEST: Proxy config file not properly completed",
        ),
    )
}

/// The 502 substituted when the configuration cannot be loaded; the
/// body names the configuration file when it is the cause.
pub fn bad_gateway(specification: &str) -> (r: Result<HttpResponse, ProxyError>)
    ensures
        r matches Ok(resp) && resp@.status == 502 && resp@.headers =~= seq![
            ("content-type"@, "text/plain"@),
        ] && resp@.body == (if specification@ == "config.toml"@ {
            encode_utf8("Error 502 BAD GATEWAY: Proxy config isn't recognized"@)
        } else {
            encode_utf8("Error 502 BAD GATEWAY"@)
        }),
{
    if str_eq(specification, "config.toml") {
        Ok(
            text_response(
                502,
                "content-type",
                "text/plain",
                "Error 502 BAD GATEWAY: Proxy config isn't recognized",
            ),
        )
    } else {
        Ok(text_response(502, "content-type", "text/plain", "Error 502 BAD GATEWAY"))
    }
}

} // verus!
