use revproxy::basic::{_decode_auth, encode_auth, match_credentials, ServerCredentials};

#[test]
fn test_encode_auth_valid() {
    let test_cases = vec![
        (("foo", "bar"), "Basic Zm9vOmJhcg=="),
        (("user", "password"), "Basic dXNlcjpwYXNzd29yZA=="),
    ];

    for ((user, pwd), expected) in test_cases {
        let result = encode_auth(user.to_string(), pwd.to_string());
        assert_eq!(result, expected);
    }
}

#[test]
fn test_decode_valid_cases() {
    let test_cases = vec![
        ("Zm9vOmJhcg==", ("foo", "bar")),
        ("dXNlcjpwYXNzd29yZA==", ("user", "password")),
    ];

    for (decoded, (user, pwd)) in test_cases {
        let (res_user, res_pwd) = match _decode_auth(decoded) {
            Ok(res) => res,
            Err(_) => ("user".to_string(), "password".to_string()),
        };
        assert_eq!((res_user, res_pwd), (user.to_string(), pwd.to_string()));
    }
}

#[test]
fn test_decode_invalid_base64() {
    assert_eq!(
        _decode_auth("dXNlcm5hbWU6cGFzc3dvcmQ").unwrap_err(),
        "Base64 decoding error"
    );
}

#[test]
fn test_decode_invalid_utf8() {
    let result = _decode_auth("dXNlcm5hbWU6cGFzc3dvcmQ==");
    assert!(result.is_err());
    match result {
        Ok((user, pass)) => {
            assert!(user.is_ascii());
            assert!(pass.is_ascii());
        }
        Err(err) => assert_eq!("Base64 decoding error", err),
    }
}

#[test]
fn test_decode_invalid_format() {
    assert_eq!(
        _decode_auth("dXNlcm5hbWU6cGFzc3dvcmQ6cGFzc3dvcmQ=").unwrap_err(),
        "Invalid format"
    );
}

#[test]
fn test_match_credentials_exact_and_prefix() {
    let auth_map = vec![
        (
            "/short".to_string(),
            ServerCredentials::new("r1", "u1", "p1"),
        ),
        (
            "/app2/page".to_string(),
            ServerCredentials::new("r2", "u2", "p2"),
        ),
        ("/app2".to_string(), ServerCredentials::new("r3", "u3", "p3")),
    ];
    // The exact key wins even though another key prefixes the path.
    let exact = match_credentials("/app2/page", &auth_map).unwrap();
    assert_eq!(exact.realm, "r2");
    // Without an exact key, the first configured prefix wins.
    let pref = match_credentials("/app2/other", &auth_map).unwrap();
    assert_eq!(pref.realm, "r3");
    assert!(match_credentials("/nothing", &auth_map).is_none());
}
