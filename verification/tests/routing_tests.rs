use revproxy::config::ConfigValue;
use revproxy::map::{determine_target as map_determine_target, global_map, match_servers};
use revproxy::strutil::{_strncmp, clean_url, common_prefix};
use revproxy::utils::{determine_target, find_resources_refs};

#[test]
fn test_match_servers() {
    let map = global_map();
    let test_cases = vec![
        ("/bastion", vec!["https://10.10.176.126/"]),
        ("/app2", vec!["https://demoqa.com/"]),
        ("/git", vec!["https://github.com/"]),
        ("/simple", vec!["http://www.columbia.edu/~fdc/sample.html"]),
        ("/def", vec!["https://httpbin.org/"]),
        ("/auth", vec!["https://httpbin.org/basic-auth/foo/bar"]),
        ("/art", vec!["https://www.luxinyaoportfolio.com/"]),
        ("/rand", vec!["https://www.ryanhaskins.com/"]),
        ("/nonexistent", vec![]),
    ];

    for (path, expected) in test_cases {
        let result = match_servers(&map, path);
        assert_eq!(result, expected.iter().next().map(|&x| x.to_string()));
    }
}

#[test]
fn test_map_determine_target() {
    let map = global_map();
    assert_eq!(
        map_determine_target(&map, "/whatever".to_string(), "/app2"),
        Ok("https://demoqa.com/".to_string())
    );
    // Sub-resource request resolved through the referer.
    assert_eq!(
        map_determine_target(&map, "/app2".to_string(), "/page.css"),
        Ok("https://demoqa.com/page.css".to_string())
    );
    // A path that does not start with a slash is refused.
    assert_eq!(
        map_determine_target(&map, "/app2".to_string(), "nope"),
        Err(())
    );
}

#[test]
fn test_clean_url() {
    assert_eq!(clean_url("https://a.example/"), "https://a.example");
    assert_eq!(clean_url("https://a.example"), "https://a.example");
    assert_eq!(clean_url(""), "");
    assert_eq!(clean_url("/"), "");
}

#[test]
fn test_common_prefix() {
    assert_eq!(common_prefix("/app2/page", "/app2"), "/app2");
    assert_eq!(common_prefix("abcde", "abxde"), "ab");
    assert_eq!(common_prefix("", "abc"), "");
    assert_eq!(common_prefix("xyz", "abc"), "");
}

#[test]
fn test_strncmp() {
    assert!(_strncmp("abcdef", "abcxyz", 3));
    assert!(!_strncmp("abcdef", "abcxyz", 4));
    assert!(_strncmp("abc", "abc", 10));
    assert!(!_strncmp("abc", "abcd", 10));
    assert!(_strncmp("", "", 5));
}

fn routes_config() -> ConfigValue {
    ConfigValue::Table(vec![(
        "redirections".to_string(),
        ConfigValue::Table(vec![
            (
                "/app2".to_string(),
                ConfigValue::Text("https://upstream.example/".to_string()),
            ),
            (
                "/page.css".to_string(),
                ConfigValue::Text("https://direct.example/".to_string()),
            ),
        ]),
    )])
}

#[test]
fn test_determine_target_exact_match() {
    let config = routes_config();
    assert_eq!(
        determine_target("/whatever", "/app2", &config),
        Ok("https://upstream.example/".to_string())
    );
}

#[test]
fn test_determine_target_referer_fallback() {
    let config = routes_config();
    assert_eq!(
        determine_target("/app2", "/style.css", &config),
        Ok("https://upstream.example/style.css".to_string())
    );
    assert_eq!(determine_target("/unknown", "/style.css", &config), Err(()));
}

#[test]
fn test_determine_target_exact_wins_over_referer() {
    // Both the exact table entry and the referer fallback would resolve
    // "/page.css"; the exact entry decides.
    let config = routes_config();
    assert_eq!(
        determine_target("/app2", "/page.css", &config),
        Ok("https://direct.example/".to_string())
    );
}

#[test]
fn test_find_resources_refs_strips_slash() {
    let servers = vec![(
        "/app2".to_string(),
        "https://upstream.example/".to_string(),
    )];
    assert_eq!(
        find_resources_refs("/app2", "/x.js", &servers),
        Some("https://upstream.example/x.js".to_string())
    );
    assert_eq!(find_resources_refs("/other", "/x.js", &servers), None);
}

#[test]
fn test_determine_target_missing_section() {
    let config = ConfigValue::Table(vec![]);
    assert_eq!(determine_target("/a", "/b", &config), Err(()));
}
