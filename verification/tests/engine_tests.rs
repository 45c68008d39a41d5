use rusty_proxy::headers::Headers;
use rusty_proxy::script_manager::{InjectType, InjectionScript, ScriptManager};

fn rule(name: &str, domains: &[&str], t: InjectType, payload: &str) -> InjectionScript {
    InjectionScript {
        name: name.to_string(),
        description: String::new(),
        version: "1.0.0".to_string(),
        author: "test".to_string(),
        target_domains: domains.iter().map(|s| s.to_string()).collect(),
        inject_type: t,
        script_content: payload.to_string(),
        headers: Headers::new(),
        enabled: true,
    }
}

fn manager(rules: Vec<InjectionScript>) -> ScriptManager {
    let mut m = ScriptManager::new();
    m.load_scripts(rules);
    m
}

#[test]
fn list_scripts_keeps_registration_order() {
    let m = manager(vec![
        rule("beta", &["*"], InjectType::RequestBody, "x"),
        rule("alpha", &["*"], InjectType::RequestBody, "y"),
    ]);
    assert_eq!(m.list_scripts(), vec!["beta".to_string(), "alpha".to_string()]);
}

#[test]
fn selection_is_deterministic_across_calls() {
    let m = manager(vec![
        rule("one", &["*"], InjectType::RequestBody, "x"),
        rule("two", &["no.match"], InjectType::RequestBody, "y"),
        rule("three", &["*"], InjectType::ResponseBody, "z"),
    ]);
    let first: Vec<String> = m
        .get_scripts_for_domain("example.com")
        .iter()
        .map(|s| s.name.clone())
        .collect();
    let second: Vec<String> = m
        .get_scripts_for_domain("example.com")
        .iter()
        .map(|s| s.name.clone())
        .collect();
    assert_eq!(first, vec!["one".to_string(), "three".to_string()]);
    assert_eq!(first, second);
}

#[test]
fn later_header_rule_wins_on_overlapping_key() {
    let mut a = rule("a", &["*"], InjectType::RequestHeader, "");
    a.headers.insert(b"X-Test".to_vec(), b"from-a".to_vec());
    a.headers.insert(b"X-Only-A".to_vec(), b"1".to_vec());
    let mut b = rule("b", &["*"], InjectType::RequestHeader, "");
    b.headers.insert(b"x-test".to_vec(), b"from-b".to_vec());
    let m = manager(vec![a, b]);
    let mut headers = Headers::new();
    let mut body: Vec<u8> = Vec::new();
    let res = m.apply_request_injections("example.com", &mut headers, &mut body);
    assert!(res.modified);
    assert_eq!(headers.get(&b"X-Test".to_vec()).unwrap(), &b"from-b".to_vec());
    assert_eq!(headers.get(&b"x-only-a".to_vec()).unwrap(), &b"1".to_vec());
}

#[test]
fn request_body_rule_appends_payload() {
    let m = manager(vec![rule("append", &["*"], InjectType::RequestBody, "tail")]);
    let mut headers = Headers::new();
    let mut body: Vec<u8> = b"head-".to_vec();
    let res = m.apply_request_injections("example.com", &mut headers, &mut body);
    assert!(res.modified);
    assert_eq!(body, b"head-tail".to_vec());
}

#[test]
fn request_pass_surfaces_javascript_and_css() {
    let m = manager(vec![
        rule("js", &["*"], InjectType::JavaScriptInjection, "alert(1)"),
        rule("css", &["*"], InjectType::CssInjection, "body{}"),
    ]);
    let mut headers = Headers::new();
    let mut body: Vec<u8> = b"<html></html>".to_vec();
    let res = m.apply_request_injections("example.com", &mut headers, &mut body);
    assert!(res.modified);
    assert_eq!(res.javascript.as_deref(), Some("alert(1)"));
    assert_eq!(res.css.as_deref(), Some("body{}"));
    // request bodies are never spliced for script/style rules
    assert_eq!(body, b"<html></html>".to_vec());
}

#[test]
fn disabled_rule_changes_nothing() {
    let mut r = rule("off", &["*"], InjectType::RequestBody, "payload");
    r.enabled = false;
    let m = manager(vec![r]);
    let mut headers = Headers::new();
    let mut body: Vec<u8> = b"original".to_vec();
    let res = m.apply_request_injections("example.com", &mut headers, &mut body);
    assert!(!res.modified);
    assert_eq!(body, b"original".to_vec());
    assert_eq!(headers.entry_count(), 0);
}

#[test]
fn non_matching_rule_changes_nothing() {
    let m = manager(vec![rule("elsewhere", &["other.org"], InjectType::ResponseBody, "payload")]);
    let mut headers = Headers::new();
    let mut body: Vec<u8> = b"<body>x</body>".to_vec();
    let res = m.apply_response_injections("example.com", &mut headers, &mut body);
    assert!(!res.modified);
    assert_eq!(body, b"<body>x</body>".to_vec());
}

#[test]
fn empty_payload_rule_is_skipped() {
    let m = manager(vec![
        rule("empty-body", &["*"], InjectType::RequestBody, ""),
        rule("empty-js", &["*"], InjectType::JavaScriptInjection, ""),
    ]);
    let mut headers = Headers::new();
    let mut body: Vec<u8> = b"stay".to_vec();
    let res = m.apply_request_injections("example.com", &mut headers, &mut body);
    assert!(!res.modified);
    assert_eq!(body, b"stay".to_vec());
    assert!(res.javascript.is_none());
}

#[test]
fn response_body_spliced_before_anchor() {
    let m = manager(vec![rule("splice", &["*"], InjectType::ResponseBody, "Y")]);
    let mut headers = Headers::new();
    let mut body: Vec<u8> = b"<html><body>x</body></html>".to_vec();
    let res = m.apply_response_injections("example.com", &mut headers, &mut body);
    assert!(res.modified);
    assert_eq!(body, b"<html><body>xY</body></html>".to_vec());
}

#[test]
fn response_body_spliced_before_every_anchor() {
    let m = manager(vec![rule("splice", &["*"], InjectType::ResponseBody, "Y")]);
    let mut headers = Headers::new();
    let mut body: Vec<u8> = b"<body>a</body><body>b</body>".to_vec();
    let res = m.apply_response_injections("example.com", &mut headers, &mut body);
    assert!(res.modified);
    assert_eq!(body, b"<body>aY</body><body>bY</body>".to_vec());
}

#[test]
fn response_body_appended_without_anchor() {
    let m = manager(vec![rule("append", &["*"], InjectType::ResponseBody, "Y")]);
    let mut headers = Headers::new();
    let mut body: Vec<u8> = b"plain text".to_vec();
    let res = m.apply_response_injections("example.com", &mut headers, &mut body);
    assert!(res.modified);
    assert_eq!(body, b"plain textY".to_vec());
}

#[test]
fn response_javascript_wrapped_and_spliced_at_head() {
    let m = manager(vec![rule("js", &["*"], InjectType::JavaScriptInjection, "x();")]);
    let mut headers = Headers::new();
    let mut body: Vec<u8> = b"<head>a</head><head>b</head>".to_vec();
    let res = m.apply_response_injections("example.com", &mut headers, &mut body);
    assert!(res.modified);
    assert_eq!(
        body,
        b"<head>a<script>x();</script></head><head>b<script>x();</script></head>".to_vec()
    );
}

#[test]
fn response_javascript_without_anchor_has_no_effect() {
    let m = manager(vec![rule("js", &["*"], InjectType::JavaScriptInjection, "x();")]);
    let mut headers = Headers::new();
    let mut body: Vec<u8> = b"<body>no head</body>".to_vec();
    let res = m.apply_response_injections("example.com", &mut headers, &mut body);
    assert!(!res.modified);
    assert_eq!(body, b"<body>no head</body>".to_vec());
}

#[test]
fn response_css_wrapped_in_style_delimiters() {
    let m = manager(vec![rule("css", &["*"], InjectType::CssInjection, "p{}")]);
    let mut headers = Headers::new();
    let mut body: Vec<u8> = b"<head></head>".to_vec();
    let res = m.apply_response_injections("example.com", &mut headers, &mut body);
    assert!(res.modified);
    assert_eq!(body, b"<head><style>p{}</style></head>".to_vec());
}

#[test]
fn load_scripts_replaces_the_whole_set() {
    let mut m = ScriptManager::new();
    m.load_scripts(vec![rule("first", &["*"], InjectType::RequestBody, "x")]);
    m.load_scripts(vec![rule("second", &["*"], InjectType::RequestBody, "y")]);
    assert_eq!(m.list_scripts(), vec!["second".to_string()]);
}

#[test]
fn example_scripts_ship_disabled() {
    let examples = ScriptManager::create_example_scripts();
    assert_eq!(examples.len(), 3);
    assert_eq!(examples[0].name, "custom-headers");
    assert_eq!(examples[1].name, "debug-console");
    assert_eq!(examples[2].name, "cors-bypass");
    assert!(examples.iter().all(|e| !e.enabled));
}
