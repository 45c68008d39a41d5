use rusty_proxy::config::Config;
use rusty_proxy::script_manager::ScriptManager;

fn patterns(list: &[&str]) -> Vec<String> {
    list.iter().map(|s| s.to_string()).collect()
}

#[test]
fn wildcard_prefix_matches_subdomain() {
    let m = ScriptManager::new();
    assert!(m.domain_matches("a.example.com", &patterns(&["*.example.com"])));
}

#[test]
fn wildcard_prefix_matches_bare_suffix() {
    let m = ScriptManager::new();
    assert!(m.domain_matches("example.com", &patterns(&["*.example.com"])));
}

#[test]
fn wildcard_prefix_rejects_embedded_suffix() {
    let m = ScriptManager::new();
    assert!(!m.domain_matches("evilexample.com", &patterns(&["*.example.com"])));
}

#[test]
fn star_pattern_matches_everything() {
    let m = ScriptManager::new();
    assert!(m.domain_matches("anything.at.all", &patterns(&["*"])));
}

#[test]
fn exact_pattern_matches_itself() {
    let m = ScriptManager::new();
    assert!(m.domain_matches("example.com", &patterns(&["example.com"])));
    assert!(!m.domain_matches("other.org", &patterns(&["example.com"])));
    // a plain pattern is also tried as an unanchored regular expression
    assert!(m.domain_matches("sub.example.com", &patterns(&["example.com"])));
}

#[test]
fn regex_pattern_matches() {
    let m = ScriptManager::new();
    assert!(m.domain_matches("abc.com", &patterns(&["^a.*com$"])));
    assert!(!m.domain_matches("xyz.org", &patterns(&["^a.*com$"])));
}

#[test]
fn unparseable_regex_is_skipped_not_fatal() {
    let m = ScriptManager::new();
    // the broken pattern is skipped; the next pattern still matches
    assert!(m.domain_matches("ok.com", &patterns(&["[", "ok.com"])));
    assert!(!m.domain_matches("ok.com", &patterns(&["["])));
}

#[test]
fn empty_pattern_list_matches_nothing() {
    let m = ScriptManager::new();
    assert!(!m.domain_matches("example.com", &patterns(&[])));
}

#[test]
fn blocked_domain_overrides_allow_list() {
    let mut c = Config::default();
    c.scripts.allowed_domains = patterns(&["*", "example.com"]);
    c.scripts.blocked_domains = patterns(&["example.com"]);
    assert!(!c.is_domain_allowed("example.com"));
    assert!(c.is_domain_allowed("other.com"));
}

#[test]
fn allow_list_wildcard_admits_all_unblocked() {
    let mut c = Config::default();
    c.scripts.allowed_domains = patterns(&["*"]);
    c.scripts.blocked_domains = patterns(&["bad.com"]);
    assert!(c.is_domain_allowed("anything.net"));
    assert!(!c.is_domain_allowed("bad.com"));
}

#[test]
fn allow_list_suffix_needs_dot_boundary() {
    let mut c = Config::default();
    c.scripts.allowed_domains = patterns(&["example.com"]);
    c.scripts.blocked_domains = patterns(&[]);
    assert!(c.is_domain_allowed("example.com"));
    assert!(c.is_domain_allowed("sub.example.com"));
    assert!(!c.is_domain_allowed("evilexample.com"));
}

#[test]
fn empty_allow_list_without_wildcard_denies() {
    let mut c = Config::default();
    c.scripts.allowed_domains = patterns(&[]);
    c.scripts.blocked_domains = patterns(&[]);
    assert!(!c.is_domain_allowed("example.com"));
}

#[test]
fn blacklisted_ip_overrides_whitelist() {
    let mut c = Config::default();
    c.security.whitelist_ips = patterns(&["10.0.0.1"]);
    c.security.blacklist_ips = patterns(&["10.0.0.1"]);
    assert!(!c.is_ip_allowed("10.0.0.1"));
}

#[test]
fn empty_whitelist_fails_open() {
    let mut c = Config::default();
    c.security.whitelist_ips = patterns(&[]);
    c.security.blacklist_ips = patterns(&["10.0.0.9"]);
    assert!(c.is_ip_allowed("192.168.1.1"));
    assert!(!c.is_ip_allowed("10.0.0.9"));
}

#[test]
fn nonempty_whitelist_requires_literal_membership() {
    let mut c = Config::default();
    c.security.whitelist_ips = patterns(&["10.0.0.1"]);
    c.security.blacklist_ips = patterns(&[]);
    assert!(c.is_ip_allowed("10.0.0.1"));
    assert!(!c.is_ip_allowed("10.0.0.2"));
}

#[test]
fn default_config_values() {
    let c = Config::default();
    assert_eq!(c.proxy.port, 8080);
    assert_eq!(c.proxy.upstream_timeout, 30);
    assert_eq!(c.proxy.bind_address, "127.0.0.1");
    assert!(c.scripts.enabled);
    assert_eq!(c.scripts.allowed_domains, vec!["*".to_string()]);
    assert!(c.scripts.blocked_domains.is_empty());
    assert!(c.security.whitelist_ips.is_empty());
    assert!(c.security.blacklist_ips.is_empty());
}
