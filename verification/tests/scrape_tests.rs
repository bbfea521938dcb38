use revproxy::config::{setup_basic, setup_form, setup_servers, ConfigValue};
use revproxy::forms::{extract_form_elements, filter_inputs, handle_forms};
use revproxy::resources::{
    check_href_links, check_resources, empty_resources, filter_resources_links, find_resource,
    get_string_quotes, inspect_fetch, is_resources_empty, ResourceSet,
};

const LOGIN_PAGE: &str = "<html><body>\
<form id=\"login\" action=\"/session\" method=\"POST\">\
<input type=\"text\" name=\"user\" value=\"\"/>\
<input type=\"password\" name=\"pass\" value=\"\"/>\
<input type=\"hidden\" name=\"csrf\" value=\"tok123\"/>\
<input type=\"checkbox\" name=\"remember\"/>\
<input type=\"text\" value=\"nameless\"/>\
</form></body></html>";

#[test]
fn test_extract_form_elements() {
    let forms = extract_form_elements(LOGIN_PAGE).unwrap();
    assert_eq!(forms.forms.len(), 1);
    let form = &forms.forms[0];
    assert_eq!(form.action, "/session");
    // The checkbox and the nameless input are filtered out; the three
    // kept inputs remain.
    assert_eq!(form.inputs.len(), 3);
    assert_eq!(form.inputs[0].name, "user");
    assert_eq!(form.inputs[1].name, "pass");
    assert_eq!(form.inputs[2].name, "csrf");
}

#[test]
fn test_extract_form_elements_ignores_get_forms() {
    let page = "<form action=\"/search\" method=\"get\"><input name=\"q\"/></form>";
    assert!(extract_form_elements(page).is_none());
    assert!(extract_form_elements("<p>no form</p>").is_none());
}

#[test]
fn test_filter_inputs() {
    assert_eq!(
        filter_inputs("password".to_string(), "p".to_string()),
        Some("password".to_string())
    );
    assert_eq!(filter_inputs("checkbox".to_string(), "c".to_string()), None);
    assert_eq!(filter_inputs("radio".to_string(), "".to_string()), None);
    // An input lacking a name is excluded even with an understood type.
    assert_eq!(filter_inputs("text".to_string(), "".to_string()), None);
}

#[test]
fn test_handle_forms_plan() {
    let config = ConfigValue::Table(vec![(
        "form".to_string(),
        ConfigValue::Table(vec![(
            "https://upstream.example".to_string(),
            ConfigValue::Table(vec![
                ("user".to_string(), ConfigValue::Text("foo".to_string())),
                ("pass".to_string(), ConfigValue::Text("bar".to_string())),
            ]),
        )]),
    )]);
    let plan = handle_forms(LOGIN_PAGE, "https://upstream.example", &config).unwrap();
    assert_eq!(plan.0, "https://upstream.example/session");
    // Configured fields come first, then the pre-filled csrf input.
    assert_eq!(
        plan.1,
        vec![
            ("user".to_string(), "foo".to_string()),
            ("pass".to_string(), "bar".to_string()),
            ("csrf".to_string(), "tok123".to_string()),
        ]
    );
    assert!(handle_forms("<p>nothing</p>", "https://upstream.example", &config).is_none());
}

#[test]
fn test_setup_servers() {
    let config = ConfigValue::Table(vec![(
        "redirections".to_string(),
        ConfigValue::Table(vec![
            (
                "/a".to_string(),
                ConfigValue::Text("https://a.example/".to_string()),
            ),
            ("/bad".to_string(), ConfigValue::Other),
        ]),
    )]);
    let servers = setup_servers(&config).unwrap();
    assert_eq!(
        servers,
        vec![
            ("/a".to_string(), "https://a.example/".to_string()),
            ("/bad".to_string(), "".to_string()),
        ]
    );
    assert!(setup_servers(&ConfigValue::Table(vec![])).is_none());
    assert!(setup_servers(&ConfigValue::Other).is_none());
}

#[test]
fn test_setup_basic() {
    let good = ConfigValue::Table(vec![(
        "basic".to_string(),
        ConfigValue::Table(vec![(
            "/auth".to_string(),
            ConfigValue::Table(vec![
                ("realm".to_string(), ConfigValue::Text("Fortress".to_string())),
                ("username".to_string(), ConfigValue::Text("u".to_string())),
                ("password".to_string(), ConfigValue::Text("p".to_string())),
            ]),
        )]),
    )]);
    let creds = setup_basic(&good).unwrap();
    assert_eq!(creds.len(), 1);
    assert_eq!(creds[0].0, "/auth");
    assert_eq!(creds[0].1.realm, "Fortress");

    // An entry missing a field refuses the whole section.
    let bad = ConfigValue::Table(vec![(
        "basic".to_string(),
        ConfigValue::Table(vec![(
            "/auth".to_string(),
            ConfigValue::Table(vec![(
                "realm".to_string(),
                ConfigValue::Text("Fortress".to_string()),
            )]),
        )]),
    )]);
    assert!(setup_basic(&bad).is_none());
}

#[test]
fn test_setup_form() {
    let config = ConfigValue::Table(vec![(
        "form".to_string(),
        ConfigValue::Table(vec![(
            "/login/".to_string(),
            ConfigValue::Table(vec![
                ("user".to_string(), ConfigValue::Text("foo".to_string())),
                ("skipped".to_string(), ConfigValue::Other),
            ]),
        )]),
    )]);
    let forms = setup_form(&config).unwrap();
    assert_eq!(forms.len(), 1);
    // The path key is cleaned of its trailing slash; non-text fields drop.
    assert_eq!(forms[0].0, "/login");
    assert_eq!(forms[0].1, vec![("user".to_string(), "foo".to_string())]);

    let empty = ConfigValue::Table(vec![(
        "form".to_string(),
        ConfigValue::Table(vec![]),
    )]);
    assert!(setup_form(&empty).is_none());
}

#[test]
fn test_resource_set_operations() {
    let mut resources = ResourceSet::new();
    assert!(is_resources_empty(&resources));
    resources.insert("/static/app.js".to_string());
    resources.insert("/static/app.js".to_string());
    resources.insert("/static/site.css".to_string());
    assert_eq!(resources.items().len(), 2);
    assert!(!is_resources_empty(&resources));
    assert_eq!(
        find_resource(&resources, "/static/site"),
        Some("/static/site.css".to_string())
    );
    assert_eq!(find_resource(&resources, "/missing"), None);
    empty_resources(&mut resources);
    assert!(is_resources_empty(&resources));
}

#[test]
fn test_check_resources() {
    let page = "<html><head><link href=\"/style.css\"/>\
<script src=\"/app.js\"></script>\
<script>fetch(\"/api/data\")</script></head></html>";
    let mut resources = ResourceSet::new();
    check_resources(&page.to_string(), &mut resources);
    let items = resources.items();
    assert!(items.contains(&"/style.css".to_string()));
    assert!(items.contains(&"/app.js".to_string()));
    assert!(items.contains(&"/api/data".to_string()));
}

#[test]
fn test_filter_resources_links() {
    let mut links = ResourceSet::new();
    links.insert("https://cdn.example/x.js".to_string());
    let mut sources = ResourceSet::new();
    sources.insert("https://cdn.example/x.js".to_string());
    sources.insert("/local.css".to_string());
    filter_resources_links(&links, &mut sources);
    assert_eq!(sources.items(), &vec!["/local.css".to_string()]);
}

#[test]
fn test_check_href_links() {
    let body = "<a href=\"https://ext.example/page\">x</a> \n<a href=\"/internal\">y</a>";
    let links = check_href_links(body.to_string(), "/app");
    assert_eq!(
        links.items(),
        &vec!["https://ext.example/page".to_string()]
    );
}

#[test]
fn test_inspect_fetch() {
    let line = "  const x = fetch(\"/api/items\") ";
    assert_eq!(inspect_fetch(&line), Some("/api/items".to_string()));
    assert_eq!(inspect_fetch(&"no calls here"), None);
    assert_eq!(inspect_fetch(&"fetch('relative')"), None);
}

#[test]
fn test_get_string_quotes() {
    assert_eq!(
        get_string_quotes("before \"inside\" after"),
        Some("inside".to_string())
    );
    assert_eq!(get_string_quotes("no quotes"), None);
    assert_eq!(get_string_quotes("one \" only"), None);
}
