use rusty_proxy::config::Config;
use rusty_proxy::headers::Headers;
use rusty_proxy::http_injector::{validate_headers, HttpInjector};
use rusty_proxy::proxy::{
    authorize_client, classify_forward_outcome, flow_step, infer_scheme, parse_connect_target,
    tunnel_reply, FlowEvent, FlowState, ForwardEvent, Scheme,
};
use rusty_proxy::script_manager::{InjectType, InjectionScript, ScriptManager};
use rusty_proxy::ProxyError;

fn injector(rules: Vec<InjectionScript>) -> HttpInjector {
    let mut m = ScriptManager::new();
    m.load_scripts(rules);
    HttpInjector::new(m, Config::default())
}

fn body_rule(payload: &str) -> InjectionScript {
    InjectionScript {
        name: "body".to_string(),
        description: String::new(),
        version: "1.0.0".to_string(),
        author: "test".to_string(),
        target_domains: vec!["*".to_string()],
        inject_type: InjectType::ResponseBody,
        script_content: payload.to_string(),
        headers: Headers::new(),
        enabled: true,
    }
}

#[test]
fn content_length_matches_final_byte_length_with_multibyte_text() {
    let inj = injector(vec![body_rule("ñ")]);
    let mut headers = Headers::new();
    headers.insert(b"content-length".to_vec(), b"20".to_vec());
    let mut body: Vec<u8> = "<body>héllo</body>".as_bytes().to_vec();
    let res = inj.process_response_message("example.com", &mut headers, &mut body);
    assert!(res.modified);
    assert_eq!(body, "<body>hélloñ</body>".as_bytes().to_vec());
    let expected = body.len().to_string().into_bytes();
    assert_eq!(headers.get(&b"Content-Length".to_vec()).unwrap(), &expected);
}

#[test]
fn unmodified_response_keeps_content_length_untouched() {
    let inj = injector(vec![]);
    let mut headers = Headers::new();
    headers.insert(b"content-length".to_vec(), b"9".to_vec());
    let mut body: Vec<u8> = b"unchanged".to_vec();
    let res = inj.process_response_message("example.com", &mut headers, &mut body);
    assert!(!res.modified);
    assert_eq!(headers.get(&b"content-length".to_vec()).unwrap(), &b"9".to_vec());
}

#[test]
fn disallowed_domain_is_left_untouched() {
    let mut config = Config::default();
    config.scripts.blocked_domains = vec!["example.com".to_string()];
    let mut m = ScriptManager::new();
    m.load_scripts(vec![body_rule("Y")]);
    let inj = HttpInjector::new(m, config);
    let mut headers = Headers::new();
    let mut body: Vec<u8> = b"<body>x</body>".to_vec();
    let res = inj.process_response_message("example.com", &mut headers, &mut body);
    assert!(!res.modified);
    assert_eq!(body, b"<body>x</body>".to_vec());
}

#[test]
fn request_pass_applies_only_when_scripts_enabled() {
    let mut config = Config::default();
    config.scripts.enabled = false;
    let mut m = ScriptManager::new();
    let mut rule = body_rule("tail");
    rule.inject_type = InjectType::RequestBody;
    m.load_scripts(vec![rule]);
    let inj = HttpInjector::new(m, config);
    let mut headers = Headers::new();
    let mut body: Vec<u8> = b"x".to_vec();
    let res = inj.process_request_message("example.com", &mut headers, &mut body);
    assert!(!res.modified);
    assert_eq!(body, b"x".to_vec());
}

#[test]
fn valid_headers_pass_validation() {
    let mut h = Headers::new();
    h.insert(b"Content-Type".to_vec(), b"text/html".to_vec());
    h.insert(b"X-Debug".to_vec(), b"true".to_vec());
    assert!(validate_headers(&h).is_ok());
}

#[test]
fn header_name_with_space_fails_validation() {
    let mut h = Headers::new();
    h.insert(b"bad name".to_vec(), b"v".to_vec());
    assert!(matches!(validate_headers(&h), Err(ProxyError::HeaderEncodingError)));
}

#[test]
fn header_value_with_newline_fails_validation() {
    let mut h = Headers::new();
    h.insert(b"x-ok".to_vec(), b"line1\nline2".to_vec());
    assert!(matches!(validate_headers(&h), Err(ProxyError::HeaderEncodingError)));
}

#[test]
fn blocked_response_names_the_reason() {
    let inj = injector(vec![]);
    let r = inj.create_blocked_response("IP address not allowed");
    assert_eq!(r.status, 403);
    let page = String::from_utf8(r.body.clone()).unwrap();
    assert!(page.contains("IP address not allowed"));
    let expected = r.body.len().to_string().into_bytes();
    assert_eq!(r.headers.get(&b"content-length".to_vec()).unwrap(), &expected);
    assert_eq!(r.headers.get(&b"content-type".to_vec()).unwrap(), &b"text/html".to_vec());
}

#[test]
fn timeout_maps_to_upstream_timeout_and_a_500_page() {
    let verdict = classify_forward_outcome(&ForwardEvent::TimedOut);
    let err = verdict.unwrap_err();
    assert!(matches!(err, ProxyError::UpstreamTimeout));
    let inj = injector(vec![]);
    let page = inj.create_error_response(err.message());
    assert_eq!(page.status, 500);
    let text = String::from_utf8(page.body).unwrap();
    assert!(text.contains("upstream request timed out"));
}

#[test]
fn connect_failure_maps_to_upstream_connect_failed() {
    assert!(matches!(
        classify_forward_outcome(&ForwardEvent::ConnectFailed),
        Err(ProxyError::UpstreamConnectFailed)
    ));
    assert!(classify_forward_outcome(&ForwardEvent::Responded).is_ok());
}

#[test]
fn denied_client_ip_is_policy_denied_with_a_403() {
    let mut config = Config::default();
    config.security.blacklist_ips = vec!["10.0.0.5".to_string()];
    let err = authorize_client(&config, "10.0.0.5").unwrap_err();
    assert!(matches!(err, ProxyError::PolicyDenied));
    assert_eq!(err.status_code(), 403);
    assert!(authorize_client(&config, "10.0.0.6").is_ok());
}

#[test]
fn tunnel_success_is_200_with_empty_body() {
    let r = tunnel_reply(true);
    assert_eq!(r.status, 200);
    assert!(r.body.is_empty());
    assert_eq!(r.headers.entry_count(), 0);
}

#[test]
fn tunnel_failure_is_non_200() {
    let r = tunnel_reply(false);
    assert_eq!(r.status, 500);
    assert_eq!(r.body, b"Failed to establish tunnel".to_vec());
}

#[test]
fn connect_target_with_port() {
    let t = parse_connect_target("example.com:8443").unwrap();
    assert_eq!(t.host, "example.com");
    assert_eq!(t.port, 8443);
}

#[test]
fn connect_target_defaults_to_443() {
    let t = parse_connect_target("example.com").unwrap();
    assert_eq!(t.host, "example.com");
    assert_eq!(t.port, 443);
}

#[test]
fn connect_target_ignores_text_after_second_colon() {
    let t = parse_connect_target("host:80:junk").unwrap();
    assert_eq!(t.host, "host");
    assert_eq!(t.port, 80);
}

#[test]
fn connect_target_rejects_bad_ports() {
    assert!(matches!(
        parse_connect_target("host:abc"),
        Err(ProxyError::TunnelEstablishFailed)
    ));
    assert!(matches!(parse_connect_target("host:"), Err(ProxyError::TunnelEstablishFailed)));
    assert!(matches!(
        parse_connect_target("host:70000"),
        Err(ProxyError::TunnelEstablishFailed)
    ));
}

#[test]
fn scheme_inferred_from_port() {
    assert_eq!(infer_scheme(Some(443)), Scheme::Https);
    assert_eq!(infer_scheme(Some(80)), Scheme::Http);
    assert_eq!(infer_scheme(None), Scheme::Http);
    assert_eq!(infer_scheme(Some(443)).text(), "https");
    assert_eq!(infer_scheme(None).text(), "http");
}

#[test]
fn denied_ip_short_circuits_to_blocked() {
    assert_eq!(flow_step(FlowState::Received, FlowEvent::IpDenied), FlowState::Blocked);
    assert_eq!(flow_step(FlowState::Received, FlowEvent::IpAllowed), FlowState::IpChecked);
}

#[test]
fn flow_orders_injection_around_forwarding() {
    let mut s = FlowState::Received;
    s = flow_step(s, FlowEvent::IpAllowed);
    s = flow_step(s, FlowEvent::RequestReady);
    assert_eq!(s, FlowState::RequestInjected);
    s = flow_step(s, FlowEvent::UpstreamResponded);
    assert_eq!(s, FlowState::Forwarded);
    s = flow_step(s, FlowEvent::ResponseReady);
    assert_eq!(s, FlowState::ResponseInjected);
    s = flow_step(s, FlowEvent::Delivered);
    assert_eq!(s, FlowState::Sent);
}

#[test]
fn tunnel_flow_never_reaches_response_injection() {
    let mut s = FlowState::Received;
    s = flow_step(s, FlowEvent::IpAllowed);
    s = flow_step(s, FlowEvent::RequestReady);
    s = flow_step(s, FlowEvent::TunnelOpened);
    assert_eq!(s, FlowState::TunnelEstablished);
    s = flow_step(s, FlowEvent::Delivered);
    assert_eq!(s, FlowState::Sent);
}

#[test]
fn upstream_timeout_fails_the_flow() {
    let s = flow_step(FlowState::RequestInjected, FlowEvent::UpstreamTimedOut);
    assert_eq!(s, FlowState::Failed);
}
