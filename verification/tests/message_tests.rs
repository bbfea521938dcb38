use revproxy::forms::_extract_token;
use revproxy::message::{get_all_headers, get_header, insert_header};
use revproxy::strutil::{find_char, lowercase, str_strip_prefix, substring_copy};

#[test]
fn test_get_header() {
    let headers = vec![
        ("accept".to_string(), "*/*".to_string()),
        ("cookie".to_string(), "a=1".to_string()),
        ("cookie".to_string(), "b=2".to_string()),
    ];
    assert_eq!(get_header(&headers, "cookie").unwrap(), "a=1");
    assert!(get_header(&headers, "host").is_none());
}

#[test]
fn test_get_all_headers() {
    let headers = vec![
        ("set-cookie".to_string(), "a=1".to_string()),
        ("age".to_string(), "0".to_string()),
        ("set-cookie".to_string(), "b=2".to_string()),
    ];
    assert_eq!(
        get_all_headers(&headers, "set-cookie"),
        vec!["a=1".to_string(), "b=2".to_string()]
    );
    assert!(get_all_headers(&headers, "host").is_empty());
}

#[test]
fn test_insert_header_replaces_and_reports() {
    let mut headers = vec![
        ("host".to_string(), "old.example".to_string()),
        ("accept".to_string(), "*/*".to_string()),
        ("host".to_string(), "older.example".to_string()),
    ];
    let was = insert_header(&mut headers, "host", "new.example".to_string());
    assert!(was);
    assert_eq!(
        headers,
        vec![
            ("accept".to_string(), "*/*".to_string()),
            ("host".to_string(), "new.example".to_string()),
        ]
    );
    let was2 = insert_header(&mut headers, "cookie", "a=1".to_string());
    assert!(!was2);
    assert_eq!(get_header(&headers, "cookie").unwrap(), "a=1");
}

#[test]
fn test_str_strip_prefix() {
    assert_eq!(
        str_strip_prefix("Basic realm=\"demo\"", "Basic realm=\""),
        Some("demo\"".to_string())
    );
    assert_eq!(str_strip_prefix("Bearer xyz", "Basic realm=\""), None);
}

#[test]
fn test_find_char_and_substring() {
    assert_eq!(find_char("user:pass", ':'), Some(4));
    assert_eq!(find_char("nope", ':'), None);
    assert_eq!(substring_copy("user:pass", 5, 9), "pass");
}

#[test]
fn test_lowercase() {
    assert_eq!(lowercase("POST"), "post");
    assert_eq!(lowercase("Get"), "get");
    assert_eq!(lowercase(""), "");
}

#[test]
fn test_extract_token() {
    let page = "<html><head><meta name=\"csrf-token\" content=\"tok42\"/></head></html>";
    assert_eq!(_extract_token(page), Some("tok42".to_string()));
    assert_eq!(_extract_token("<html></html>"), None);
}

#[test]
fn test_read_cookies_arbitrary_bytes() {
    // The clause reader accepts any byte input, valid UTF-8 or not.
    let inputs: Vec<&[u8]> = vec![
        b"\xff\xfe=\x00; =;;==",
        b";;;",
        b"= = = =",
        b"\x00\x01\x02",
        b"name only",
        b"a\xffb=c\xffd; x=",
    ];
    for data in inputs {
        let mut iter = revproxy::cookie::read_cookies(data);
        let mut count = 0;
        while let Some(_) = iter.next() {
            count += 1;
            assert!(count <= data.len() + 1);
        }
    }
}
