use revproxy::basic::intercept_auth;
use revproxy::config::ConfigValue;
use revproxy::errors::ProxyError;
use revproxy::message::{get_header, HttpRequest};
use revproxy::pipeline::{
    create_new_req, is_redirection, make_post_request, plan_redirection, PostPlan,
};
use revproxy::sessions::process_session;
use revproxy::status::{bad_gateway, bad_request, not_found, unauthorized_response};
use revproxy::utils::determine_target;

fn headers_with_host() -> Vec<(String, String)> {
    vec![
        ("host".to_string(), "proxy.local".to_string()),
        ("accept".to_string(), "*/*".to_string()),
    ]
}

#[test]
fn test_create_new_req_replaces_host() {
    let req = create_new_req(
        "https://upstream.example/page",
        "GET".to_string(),
        headers_with_host(),
        Vec::new(),
    )
    .unwrap();
    assert_eq!(req.method, "GET");
    assert_eq!(req.uri, "https://upstream.example/page");
    assert_eq!(
        get_header(&req.headers, "host").unwrap(),
        "upstream.example"
    );
    assert_eq!(get_header(&req.headers, "accept").unwrap(), "*/*");
}

#[test]
fn test_create_new_req_requires_host_header() {
    // Without a Host header on the inbound request, reconstruction fails.
    let r = create_new_req(
        "https://upstream.example/page",
        "GET".to_string(),
        vec![("accept".to_string(), "*/*".to_string())],
        Vec::new(),
    );
    assert!(r.is_none());
}

#[test]
fn test_create_new_req_rejects_bad_url() {
    let r = create_new_req(
        "not a url",
        "GET".to_string(),
        headers_with_host(),
        Vec::new(),
    );
    assert!(r.is_none());
}

#[test]
fn test_plan_redirection() {
    let location = "https://next.example/hop".to_string();
    let req = plan_redirection(Some(&location), "sid=1; ").unwrap();
    assert_eq!(req.method, "GET");
    assert_eq!(req.uri, "https://next.example/hop");
    assert_eq!(get_header(&req.headers, "cookie").unwrap(), "sid=1; ");
    assert!(req.body.is_empty());
    assert!(plan_redirection(None, "sid=1; ").is_none());
}

#[test]
fn test_is_redirection() {
    assert!(is_redirection(301));
    assert!(is_redirection(302));
    assert!(!is_redirection(200));
    assert!(!is_redirection(400));
}

#[test]
fn test_make_post_request_encodes_params() {
    let params = vec![
        ("user".to_string(), "foo".to_string()),
        ("pass".to_string(), "b r".to_string()),
    ];
    let plan = make_post_request(
        "https://upstream.example/login".to_string(),
        &params,
        "sid=1; ",
    )
    .unwrap();
    match plan {
        PostPlan::Send(req) => {
            assert_eq!(req.method, "POST");
            assert_eq!(req.uri, "https://upstream.example/login");
            assert_eq!(
                get_header(&req.headers, "content-type").unwrap(),
                "application/x-www-form-urlencoded"
            );
            assert_eq!(get_header(&req.headers, "cookie").unwrap(), "sid=1; ");
            assert_eq!(req.body, b"user=foo&pass=b+r".to_vec());
        }
        PostPlan::Reject(_) => panic!("parameters should encode"),
    }
}

#[test]
fn test_process_session() {
    let headers = vec![
        (
            "set-cookie".to_string(),
            "sid=abc; Path=/; HttpOnly".to_string(),
        ),
        ("content-type".to_string(), "text/html".to_string()),
        ("set-cookie".to_string(), "theme=dark".to_string()),
    ];
    assert_eq!(process_session(&headers), "sid=abc; theme=dark; ");
    assert_eq!(process_session(&Vec::new()), "");
}

#[test]
fn test_status_responses() {
    let nf = not_found().unwrap();
    assert_eq!(nf.status, 404);
    assert_eq!(nf.body, b"Error 404 NOT FOUND: Path not recognised".to_vec());

    let ua = unauthorized_response().unwrap();
    assert_eq!(ua.status, 401);
    assert_eq!(
        get_header(&ua.headers, "www-authenticate").unwrap(),
        "Basic realm=\"Authentication required\""
    );

    let br = bad_request().unwrap();
    assert_eq!(br.status, 400);

    let bg = bad_gateway("config.toml").unwrap();
    assert_eq!(bg.status, 502);
    assert_eq!(
        bg.body,
        b"Error 502 BAD GATEWAY: Proxy config isn't recognized".to_vec()
    );
    let bg2 = bad_gateway("other").unwrap();
    assert_eq!(bg2.body, b"Error 502 BAD GATEWAY".to_vec());
}

#[test]
fn test_proxy_error_message() {
    let e = ProxyError::Hyper("boom".to_string());
    assert_eq!(e.message(), "Hyper: boom");
    let e2 = ProxyError::HyperHttp("bad frame".to_string());
    assert_eq!(e2.message(), "HyperHttp: bad frame");
}

/// End-to-end: route resolution, request reconstruction, a Basic
/// challenge from the upstream, and the authenticated retry.
#[test]
fn test_basic_auth_round_trip() {
    let config = ConfigValue::Table(vec![
        (
            "redirections".to_string(),
            ConfigValue::Table(vec![(
                "/app2".to_string(),
                ConfigValue::Text("https://upstream.example/".to_string()),
            )]),
        ),
        (
            "basic".to_string(),
            ConfigValue::Table(vec![(
                "https://upstream.example".to_string(),
                ConfigValue::Table(vec![
                    (
                        "realm".to_string(),
                        ConfigValue::Text("demo".to_string()),
                    ),
                    ("username".to_string(), ConfigValue::Text("foo".to_string())),
                    ("password".to_string(), ConfigValue::Text("bar".to_string())),
                ]),
            )]),
        ),
    ]);

    // Resolve the inbound path and rebuild the outbound request.
    let target = determine_target("/", "/app2", &config).unwrap();
    assert_eq!(target, "https://upstream.example/");
    let req: HttpRequest = create_new_req(
        target.as_str(),
        "GET".to_string(),
        headers_with_host(),
        Vec::new(),
    )
    .unwrap();

    // The upstream answers 401 with a Basic challenge; the interceptor
    // re-issues the request with the configured credentials.
    let resp_headers = vec![(
        "www-authenticate".to_string(),
        "Basic realm=\"demo\"".to_string(),
    )];
    let retried = intercept_auth(&resp_headers, req, &config).unwrap();
    assert_eq!(retried.method, "GET");
    assert_eq!(retried.uri, "https://upstream.example/");
    assert_eq!(
        get_header(&retried.headers, "authorization").unwrap(),
        "Basic Zm9vOmJhcg=="
    );
}

#[test]
fn test_intercept_auth_wrong_realm_leaves_request() {
    let config = ConfigValue::Table(vec![(
        "basic".to_string(),
        ConfigValue::Table(vec![(
            "https://upstream.example".to_string(),
            ConfigValue::Table(vec![
                ("realm".to_string(), ConfigValue::Text("demo".to_string())),
                ("username".to_string(), ConfigValue::Text("foo".to_string())),
                ("password".to_string(), ConfigValue::Text("bar".to_string())),
            ]),
        )]),
    )]);
    let req = HttpRequest {
        method: "GET".to_string(),
        uri: "https://upstream.example/".to_string(),
        headers: Vec::new(),
        body: Vec::new(),
    };
    let resp_headers = vec![(
        "www-authenticate".to_string(),
        "Basic realm=\"other\"".to_string(),
    )];
    let out = intercept_auth(&resp_headers, req, &config).unwrap();
    assert!(get_header(&out.headers, "authorization").is_none());
}
