//! Message-level processing: decoding-independent injection passes over a
//! header mapping and a body, the content-length fix-up after a response
//! body changes, the protocol-header grammar a mutated message must satisfy,
//! and the blocked/error pages.
//!
//! Converting wire messages to and from this representation (and reading
//! bodies) is I/O work that lives outside the crate; the functions here take
//! the header mapping and the body bytes as plain values.

use crate::config::Config;
use crate::headers::Headers;
use crate::script_manager::{
    apply_rules_request, apply_rules_response, initial_state, rules_matching, InjectionResult,
    ScriptManager,
};
use crate::text::{dec_digits, lower_bytes, push_all, u64_to_dec};
use crate::ProxyError;
use vstd::prelude::*;
use vstd::string::StrSliceExecFns;
use vstd::utf8::encode_utf8;

verus! {

/// The (lower-case) bytes of the `content-length` header name.
pub open spec fn content_length_key() -> Seq<u8> {
    lower_bytes(encode_utf8("content-length"@))
}

/// The (lower-case) bytes of the `content-type` header name.
pub open spec fn content_type_key() -> Seq<u8> {
    lower_bytes(encode_utf8("content-type"@))
}

/// The bytes of the `text/html` content type.
pub open spec fn text_html_value() -> Seq<u8> {
    encode_utf8("text/html"@)
}

// ---------------------------------------------------------------------------
// Protocol-header grammar
// ---------------------------------------------------------------------------

/// A byte a protocol header name may hold: an ASCII letter, a digit, or one
/// of the token punctuation characters.
pub open spec fn is_token_byte(b: u8) -> bool {
    ||| (48 <= b && b <= 57)  // 0-9
    ||| (65 <= b && b <= 90)  // A-Z
    ||| (97 <= b && b <= 122)  // a-z
    ||| b == 33  // !
    ||| (35 <= b && b <= 39)  // # $ % & '
    ||| b == 42  // *
    ||| b == 43  // +
    ||| b == 45  // -
    ||| b == 46  // .
    ||| b == 94  // ^
    ||| b == 95  // _
    ||| b == 96  // `
    ||| b == 124  // |
    ||| b == 126  // ~
}

/// A header name is a non-empty token.
pub open spec fn valid_header_name(n: Seq<u8>) -> bool {
    n.len() > 0 && forall|i: int| 0 <= i < n.len() ==> is_token_byte(#[trigger] n[i])
}

/// A byte a protocol header value may hold: horizontal tab, any visible
/// byte, or an opaque byte at or above 128 — never a control byte.
pub open spec fn is_value_byte(b: u8) -> bool {
    b == 9 || (32 <= b && b != 127)
}

/// A header value holds no control bytes.
pub open spec fn valid_header_value(v: Seq<u8>) -> bool {
    forall|i: int| 0 <= i < v.len() ==> is_value_byte(#[trigger] v[i])
}

/// Every stored entry is a syntactically valid protocol header.
pub open spec fn headers_encodable(entries: Seq<(Seq<u8>, Seq<u8>)>) -> bool {
    forall|i: int|
        0 <= i < entries.len() ==> valid_header_name(#[trigger] entries[i].0)
            && valid_header_value(entries[i].1)
}

fn name_is_valid(n: &Vec<u8>) -> (r: bool)
    ensures
        r == valid_header_name(n@),
{
    if n.len() == 0 {
        return false;
    }
    let mut i: usize = 0;
    while i < n.len()
        invariant
            i <= n@.len(),
            forall|k: int| 0 <= k < i ==> is_token_byte(#[trigger] n@[k]),
        decreases n@.len() - i,
    {
        let b = n[i];
        let ok = (48 <= b && b <= 57) || (65 <= b && b <= 90) || (97 <= b && b <= 122) || b == 33
            || (35 <= b && b <= 39) || b == 42 || b == 43 || b == 45 || b == 46 || b == 94 || b
            == 95 || b == 96 || b == 124 || b == 126;
        if !ok {
            return false;
        }
        i += 1;
    }
    true
}

fn value_is_valid(v: &Vec<u8>) -> (r: bool)
    ensures
        r == valid_header_value(v@),
{
    let mut i: usize = 0;
    while i < v.len()
        invariant
            i <= v@.len(),
            forall|k: int| 0 <= k < i ==> is_value_byte(#[trigger] v@[k]),
        decreases v@.len() - i,
    {
        let b = v[i];
        if !(b == 9 || (32 <= b && b != 127)) {
            return false;
        }
        i += 1;
    }
    true
}

/// Checks that a mutated header mapping can be encoded as protocol headers:
/// the exact condition under which re-encoding is owed to succeed. A
/// violation is a `HeaderEncodingError`, surfaced to the client rather than
/// silently dropping the offending header.
pub fn validate_headers(headers: &Headers) -> (r: Result<(), ProxyError>)
    ensures
        r is Ok <==> headers_encodable(headers@),
        r matches Err(e) ==> e is HeaderEncodingError,
{
    let n = headers.entry_count();
    let mut i: usize = 0;
    while i < n
        invariant
            i <= n,
            n == headers@.len(),
            forall|k: int|
                0 <= k < i ==> valid_header_name(#[trigger] headers@[k].0) && valid_header_value(
                    headers@[k].1,
                ),
        decreases n - i,
    {
        let e = headers.entry_at(i);
        proof {
            assert(e.0.deep_view() =~= e.0@);
            assert(e.1.deep_view() =~= e.1@);
            assert(headers@[i as int].0 == e.0@);
            assert(headers@[i as int].1 == e.1@);
        }
        if !name_is_valid(&e.0) {
            proof {
                assert(!valid_header_name(headers@[i as int].0));
                assert(!headers_encodable(headers@));
            }
            return Err(ProxyError::HeaderEncodingError);
        }
        if !value_is_valid(&e.1) {
            proof {
                assert(!valid_header_value(headers@[i as int].1));
                assert(!headers_encodable(headers@));
            }
            return Err(ProxyError::HeaderEncodingError);
        }
        proof {
            assert(valid_header_name(headers@[i as int].0));
            assert(valid_header_value(headers@[i as int].1));
            assert forall|k: int|
                0 <= k < i + 1 implies valid_header_name(#[trigger] headers@[k].0)
                && valid_header_value(headers@[k].1) by {
                if k < i {
                    assert(valid_header_name(headers@[k].0));
                }
            }
        }
        i += 1;
    }
    proof {
        assert forall|k: int|
            0 <= k < headers@.len() implies valid_header_name(#[trigger] headers@[k].0)
            && valid_header_value(headers@[k].1) by {
            assert(valid_header_name(headers@[k].0));
        }
        assert(headers_encodable(headers@));
    }
    Ok(())
}

// ---------------------------------------------------------------------------
// The injector
// ---------------------------------------------------------------------------

/// Applies the configured policy and the registered rules to decoded
/// request and response messages.
pub struct HttpInjector {
    pub script_manager: ScriptManager,
    pub config: Config,
}

impl HttpInjector {
    /// Wraps a rule registry and a configuration.
    pub fn new(script_manager: ScriptManager, config: Config) -> (inj: HttpInjector)
        ensures
            inj.script_manager == script_manager,
            inj.config == config,
    {
        HttpInjector { script_manager, config }
    }

    /// Whether an injection pass runs for `d` at all: the domain must pass
    /// the policy and scripts must be enabled.
    pub open spec fn pass_applies(&self, d: Seq<char>) -> bool {
        self.config.domain_allowed_spec(d) && self.config.scripts.enabled
    }

    /// One request-direction pass: when the domain passes policy and scripts
    /// are enabled, every matching rule is applied in order; otherwise the
    /// message is left untouched and nothing is reported as modified.
    pub fn process_request_message(
        &self,
        domain: &str,
        headers: &mut Headers,
        body: &mut Vec<u8>,
    ) -> (res: InjectionResult)
        ensures
            self.pass_applies(domain@) ==> ({
                let st1 = apply_rules_request(
                    rules_matching(self.script_manager@, domain@),
                    initial_state(old(headers).as_map(), old(body)@),
                );
                &&& final(headers).as_map() == st1.headers
                &&& final(body)@ == st1.body
                &&& res.modified == st1.modified
                &&& res.javascript.deep_view() == st1.javascript
                &&& res.css.deep_view() == st1.css
            }),
            !self.pass_applies(domain@) ==> ({
                &&& final(headers)@ == old(headers)@
                &&& final(body)@ == old(body)@
                &&& !res.modified
                &&& res.javascript is None
                &&& res.css is None
            }),
            res.headers is None,
            res.body is None,
    {
        if !self.config.is_domain_allowed(domain) || !self.config.scripts.enabled {
            return InjectionResult {
                modified: false,
                headers: None,
                body: None,
                javascript: None,
                css: None,
            };
        }
        self.script_manager.apply_request_injections(domain, headers, body)
    }

    /// One response-direction pass. When the final body length differs from
    /// the original, the `content-length` header is set to the byte length
    /// of the final body; an unchanged body leaves it untouched.
    pub fn process_response_message(
        &self,
        domain: &str,
        headers: &mut Headers,
        body: &mut Vec<u8>,
    ) -> (res: InjectionResult)
        ensures
            self.pass_applies(domain@) ==> ({
                let st1 = apply_rules_response(
                    rules_matching(self.script_manager@, domain@),
                    initial_state(old(headers).as_map(), old(body)@),
                );
                &&& final(body)@ == st1.body
                &&& final(headers).as_map() == if st1.body.len() != old(body)@.len() {
                    st1.headers.insert(content_length_key(), dec_digits(st1.body.len()))
                } else {
                    st1.headers
                }
                &&& res.modified == st1.modified
            }),
            !self.pass_applies(domain@) ==> ({
                &&& final(headers)@ == old(headers)@
                &&& final(body)@ == old(body)@
                &&& !res.modified
            }),
            res.javascript is None,
            res.css is None,
            res.headers is None,
            res.body is None,
    {
        if !self.config.is_domain_allowed(domain) || !self.config.scripts.enabled {
            return InjectionResult {
                modified: false,
                headers: None,
                body: None,
                javascript: None,
                css: None,
            };
        }
        let original_len = body.len();
        let res = self.script_manager.apply_response_injections(domain, headers, body);
        if body.len() != original_len {
            let name = "content-length".as_bytes_vec();
            let value = u64_to_dec(body.len() as u64);
            headers.insert(name, value);
        }
        res
    }

    /// The page sent for a request denied by policy: status 403 and an HTML
    /// body naming the reason, with matching content headers.
    pub fn create_blocked_response(&self, reason: &str) -> (r: BuiltResponse)
        ensures
            r.status == 403,
            r.body@ == encode_utf8(blocked_page_prefix()) + encode_utf8(reason@) + encode_utf8(
                page_suffix(),
            ),
            r.headers.as_map() == Map::<Seq<u8>, Seq<u8>>::empty().insert(
                content_type_key(),
                text_html_value(),
            ).insert(content_length_key(), dec_digits(r.body@.len())),
    {
        build_page(403, blocked_page_prefix_str(), reason)
    }

    /// The page sent when forwarding or re-encoding fails: status 500 and an
    /// HTML body naming the underlying cause, with matching content headers.
    pub fn create_error_response(&self, error: &str) -> (r: BuiltResponse)
        ensures
            r.status == 500,
            r.body@ == encode_utf8(error_page_prefix()) + encode_utf8(error@) + encode_utf8(
                page_suffix(),
            ),
            r.headers.as_map() == Map::<Seq<u8>, Seq<u8>>::empty().insert(
                content_type_key(),
                text_html_value(),
            ).insert(content_length_key(), dec_digits(r.body@.len())),
    {
        build_page(500, error_page_prefix_str(), error)
    }
}

// ---------------------------------------------------------------------------
// Error pages
// ---------------------------------------------------------------------------

/// A response the embedding program serializes onto the wire.
pub struct BuiltResponse {
    pub status: u16,
    pub headers: Headers,
    pub body: Vec<u8>,
}

/// The HTML before the reason text on the blocked page.
pub open spec fn blocked_page_prefix() -> Seq<char> {
    "<!DOCTYPE html><html><head><title>Blocked by Rusty Proxy</title></head><body><h1>Access Blocked</h1><p>This request was blocked by Rusty Proxy.</p><p><strong>Reason:</strong> "@
}

/// The HTML before the cause text on the error page.
pub open spec fn error_page_prefix() -> Seq<char> {
    "<!DOCTYPE html><html><head><title>Proxy Error</title></head><body><h1>Proxy Error</h1><p>An error occurred while processing your request:</p><p><strong>"@
}

/// The HTML after the inserted text on both pages.
pub open spec fn page_suffix() -> Seq<char> {
    "</strong></p><p><em>Powered by Rusty Proxy</em></p></body></html>"@
}

fn blocked_page_prefix_str() -> (s: &'static str)
    ensures
        s@ == blocked_page_prefix(),
{
    "<!DOCTYPE html><html><head><title>Blocked by Rusty Proxy</title></head><body><h1>Access Blocked</h1><p>This request was blocked by Rusty Proxy.</p><p><strong>Reason:</strong> "
}

fn error_page_prefix_str() -> (s: &'static str)
    ensures
        s@ == error_page_prefix(),
{
    "<!DOCTYPE html><html><head><title>Proxy Error</title></head><body><h1>Proxy Error</h1><p>An error occurred while processing your request:</p><p><strong>"
}

fn build_page(status: u16, prefix: &str, inserted: &str) -> (r: BuiltResponse)
    ensures
        r.status == status,
        r.body@ == encode_utf8(prefix@) + encode_utf8(inserted@) + encode_utf8(page_suffix()),
        r.headers.as_map() == Map::<Seq<u8>, Seq<u8>>::empty().insert(
            content_type_key(),
            text_html_value(),
        ).insert(content_length_key(), dec_digits(r.body@.len())),
{
    let mut body = prefix.as_bytes_vec();
    let ins = inserted.as_bytes_vec();
    push_all(&mut body, &ins);
    let suffix = "</strong></p><p><em>Powered by Rusty Proxy</em></p></body></html>".as_bytes_vec();
    push_all(&mut body, &suffix);
    let mut headers = Headers::new();
    headers.insert("content-type".as_bytes_vec(), "text/html".as_bytes_vec());
    headers.insert("content-length".as_bytes_vec(), u64_to_dec(body.len() as u64));
    BuiltResponse { status, headers, body }
}

} // verus!
