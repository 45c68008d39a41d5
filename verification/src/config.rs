//! Static proxy configuration and the allow/block policy checks.
//!
//! Loading and saving the configuration file are I/O concerns that live
//! outside this crate; the records here are plain values, and the two policy
//! predicates are pure functions of the policy lists and their input.

use crate::text::{domain_covered, domain_covered_by, is_star, list_contains, seq_contains_str};
use vstd::prelude::*;

verus! {

/// Listener and upstream-forwarding settings.
pub struct ProxyConfig {
    pub bind_address: String,
    pub port: u16,
    /// Upstream timeout in seconds; exceeding it is an `UpstreamTimeout`.
    pub upstream_timeout: u64,
    pub max_connections: usize,
    pub buffer_size: usize,
}

/// Injection-rule settings and the domain allow/block lists.
pub struct ScriptConfig {
    pub directory: String,
    pub enabled: bool,
    pub max_execution_time: u64,
    /// Domains injection may touch; the wildcard entry `*` means allow all.
    pub allowed_domains: Vec<String>,
    /// Domains injection must never touch; membership overrides the allow list.
    pub blocked_domains: Vec<String>,
}

/// Logging settings; read by the embedding program only.
pub struct LoggingConfig {
    pub level: String,
    pub file: Option<String>,
    pub max_size: String,
    pub max_files: u32,
}

/// Client-IP policy lists and authentication settings.
pub struct SecurityConfig {
    pub require_auth: bool,
    pub auth_token: Option<String>,
    pub rate_limit: u32,
    /// Client IPs that may use the proxy; an empty list allows every IP.
    pub whitelist_ips: Vec<String>,
    /// Client IPs that are always denied; membership overrides the whitelist.
    pub blacklist_ips: Vec<String>,
}

/// The whole proxy configuration.
pub struct Config {
    pub proxy: ProxyConfig,
    pub scripts: ScriptConfig,
    pub logging: LoggingConfig,
    pub security: SecurityConfig,
}

impl Config {
    /// The domain policy: a blocked domain is denied; otherwise a wildcard
    /// allow entry admits everything; otherwise the domain must equal an
    /// allow entry or end with `.` followed by one (dot boundary only).
    pub open spec fn domain_allowed_spec(&self, d: Seq<char>) -> bool {
        if seq_contains_str(self.scripts.blocked_domains.deep_view(), d) {
            false
        } else if seq_contains_str(self.scripts.allowed_domains.deep_view(), seq!['*']) {
            true
        } else {
            exists|i: int|
                0 <= i < self.scripts.allowed_domains.deep_view().len() && domain_covered_by(
                    d,
                    self.scripts.allowed_domains.deep_view()[i],
                )
        }
    }

    /// The IP policy: a blacklisted IP is denied; otherwise an empty
    /// whitelist allows every IP; otherwise the IP must be listed literally.
    pub open spec fn ip_allowed_spec(&self, ip: Seq<char>) -> bool {
        if self.security.blacklist_ips.deep_view().len() > 0 && seq_contains_str(
            self.security.blacklist_ips.deep_view(),
            ip,
        ) {
            false
        } else if self.security.whitelist_ips.deep_view().len() == 0 {
            true
        } else {
            seq_contains_str(self.security.whitelist_ips.deep_view(), ip)
        }
    }

    /// Decides whether injection rules may be applied to `domain`.
    pub fn is_domain_allowed(&self, domain: &str) -> (r: bool)
        ensures
            r == self.domain_allowed_spec(domain@),
    {
        if list_contains(&self.scripts.blocked_domains, domain) {
            return false;
        }
        let mut i: usize = 0;
        let mut has_star: bool = false;
        while i < self.scripts.allowed_domains.len()
            invariant
                i <= self.scripts.allowed_domains@.len(),
                self.scripts.allowed_domains.deep_view().len()
                    == self.scripts.allowed_domains@.len(),
                has_star == exists|k: int|
                    0 <= k < i && self.scripts.allowed_domains.deep_view()[k] =~= seq!['*'],
            decreases self.scripts.allowed_domains@.len() - i,
        {
            proof {
                assert(self.scripts.allowed_domains.deep_view()[i as int]
                    == self.scripts.allowed_domains@[i as int]@);
            }
            if is_star(self.scripts.allowed_domains[i].as_str()) {
                has_star = true;
            }
            i += 1;
        }
        if has_star {
            return true;
        }
        let mut j: usize = 0;
        while j < self.scripts.allowed_domains.len()
            invariant
                j <= self.scripts.allowed_domains@.len(),
                self.scripts.allowed_domains.deep_view().len()
                    == self.scripts.allowed_domains@.len(),
                !seq_contains_str(self.scripts.allowed_domains.deep_view(), seq!['*']),
                !seq_contains_str(self.scripts.blocked_domains.deep_view(), domain@),
                forall|k: int|
                    0 <= k < j ==> !domain_covered_by(
                        domain@,
                        #[trigger] self.scripts.allowed_domains.deep_view()[k],
                    ),
            decreases self.scripts.allowed_domains@.len() - j,
        {
            proof {
                assert(self.scripts.allowed_domains.deep_view()[j as int]
                    == self.scripts.allowed_domains@[j as int]@);
            }
            if domain_covered(domain, self.scripts.allowed_domains[j].as_str()) {
                return true;
            }
            j += 1;
        }
        false
    }

    /// Decides whether a client IP may use the proxy at all.
    pub fn is_ip_allowed(&self, ip: &str) -> (r: bool)
        ensures
            r == self.ip_allowed_spec(ip@),
    {
        if self.security.blacklist_ips.len() > 0 && list_contains(&self.security.blacklist_ips, ip)
        {
            return false;
        }
        if self.security.whitelist_ips.len() == 0 {
            return true;
        }
        list_contains(&self.security.whitelist_ips, ip)
    }
}

/// Block-list membership overrides allow-list membership for domains: a
/// blocked domain is denied whatever the allow list holds.
pub proof fn lemma_blocked_domain_overrides_allow(c: Config, d: Seq<char>)
    requires
        seq_contains_str(c.scripts.blocked_domains.deep_view(), d),
    ensures
        !c.domain_allowed_spec(d),
{
}

/// Blacklist membership overrides whitelist membership for IPs: a
/// blacklisted IP is denied even when the whitelist names it.
pub proof fn lemma_blacklisted_ip_overrides_whitelist(c: Config, ip: Seq<char>)
    requires
        seq_contains_str(c.security.blacklist_ips.deep_view(), ip),
    ensures
        !c.ip_allowed_spec(ip),
{
}

impl Default for Config {
    /// The built-in configuration: a local listener, scripts enabled with a
    /// wildcard allow list, and empty IP lists.
    fn default() -> (c: Config)
        ensures
            c.proxy.bind_address@ == "127.0.0.1"@,
            c.proxy.port == 8080,
            c.proxy.upstream_timeout == 30,
            c.proxy.max_connections == 1000,
            c.proxy.buffer_size == 8192,
            c.scripts.directory@ == "scripts"@,
            c.scripts.enabled,
            c.scripts.max_execution_time == 5000,
            c.scripts.allowed_domains.deep_view() =~= seq!["*"@],
            c.scripts.blocked_domains@.len() == 0,
            c.logging.level@ == "info"@,
            c.logging.file matches Some(f) && f@ == "rusty-proxy.log"@,
            c.logging.max_size@ == "10MB"@,
            c.logging.max_files == 5,
            !c.security.require_auth,
            c.security.auth_token is None,
            c.security.rate_limit == 100,
            c.security.whitelist_ips@.len() == 0,
            c.security.blacklist_ips@.len() == 0,
    {
        let mut allowed: Vec<String> = Vec::new();
        allowed.push("*".to_owned());
        let c = Config {
            proxy: ProxyConfig {
                bind_address: "127.0.0.1".to_owned(),
                port: 8080,
                upstream_timeout: 30,
                max_connections: 1000,
                buffer_size: 8192,
            },
            scripts: ScriptConfig {
                directory: "scripts".to_owned(),
                enabled: true,
                max_execution_time: 5000,
                allowed_domains: allowed,
                blocked_domains: Vec::new(),
            },
            logging: LoggingConfig {
                level: "info".to_owned(),
                file: Some("rusty-proxy.log".to_owned()),
                max_size: "10MB".to_owned(),
                max_files: 5,
            },
            security: SecurityConfig {
                require_auth: false,
                auth_token: None,
                rate_limit: 100,
                whitelist_ips: Vec::new(),
                blacklist_ips: Vec::new(),
            },
        };
        proof {
            assert(c.scripts.allowed_domains.deep_view() =~= seq!["*"@]);
        }
        c
    }
}

} // verus!
