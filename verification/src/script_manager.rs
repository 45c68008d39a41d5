//! The script registry and the injection engine.
//!
//! The registry holds injection rules as an explicit ordered list, so the
//! order in which rules are applied is a stable contract rather than an
//! artifact of a hashed store. The engine applies every enabled rule whose
//! domain patterns match, in registration order, to a mutable message
//! representation (a header mapping plus a body), and reports whether
//! anything changed.

use crate::headers::{merge_entries, Headers};
use crate::text::{
    contains_bytes, contains_sub, copy_bytes, domain_covered, domain_covered_by, is_star,
    lemma_encode_utf8_len_ge, lower_bytes, push_all, splice_all, splice_before_all, str_eq,
};
use vstd::prelude::*;
use vstd::string::StrSliceExecFns;
use vstd::utf8::encode_utf8;

verus! {

// ---------------------------------------------------------------------------
// Rule records
// ---------------------------------------------------------------------------

/// What a rule injects, and in which direction it participates.
///
/// The request direction uses `RequestHeader` and `RequestBody`, and lets
/// `JavaScriptInjection`/`CssInjection` surface their payload to the caller;
/// the response direction uses `ResponseHeader` and `ResponseBody`, and
/// splices `JavaScriptInjection`/`CssInjection` payloads before a rewrite
/// anchor when one is present.
#[derive(Clone, Copy, Debug)]
pub enum InjectType {
    RequestHeader,
    RequestBody,
    ResponseHeader,
    ResponseBody,
    JavaScriptInjection,
    CssInjection,
}

/// One injection rule: which domains it targets, what it injects, and
/// whether it is enabled. `name` is the primary key; `description`,
/// `version` and `author` are metadata without behavioral meaning.
pub struct InjectionScript {
    pub name: String,
    pub description: String,
    pub version: String,
    pub author: String,
    /// Domain patterns, each matched as exact text, `*.suffix` wildcard, or
    /// regular expression, in that order.
    pub target_domains: Vec<String>,
    pub inject_type: InjectType,
    /// Free-form payload text used as body, script or style content.
    pub script_content: String,
    /// Header name → value pairs merged into the message for header rules.
    pub headers: Headers,
    pub enabled: bool,
}

/// The mathematical content of one rule.
pub struct RuleView {
    pub name: Seq<char>,
    pub description: Seq<char>,
    pub version: Seq<char>,
    pub author: Seq<char>,
    pub target_domains: Seq<Seq<char>>,
    pub inject_type: InjectType,
    pub payload: Seq<char>,
    pub headers: Seq<(Seq<u8>, Seq<u8>)>,
    pub enabled: bool,
}

impl View for InjectionScript {
    type V = RuleView;

    open spec fn view(&self) -> RuleView {
        RuleView {
            name: self.name@,
            description: self.description@,
            version: self.version@,
            author: self.author@,
            target_domains: self.target_domains.deep_view(),
            inject_type: self.inject_type,
            payload: self.script_content@,
            headers: self.headers@,
            enabled: self.enabled,
        }
    }
}

impl DeepView for InjectionScript {
    type V = RuleView;

    open spec fn deep_view(&self) -> RuleView {
        self.view()
    }
}

/// What one engine pass reports: whether anything changed, and payloads
/// surfaced to the caller. The `headers` and `body` overlays are unused by
/// the engine (mutation happens in place) and stay `None`.
pub struct InjectionResult {
    pub modified: bool,
    pub headers: Option<Headers>,
    pub body: Option<Vec<u8>>,
    pub javascript: Option<String>,
    pub css: Option<String>,
}

// ---------------------------------------------------------------------------
// Domain pattern matching
// ---------------------------------------------------------------------------

/// Whether `pattern` compiles as a regular expression. A pattern that does
/// not compile is skipped during matching, never an error.
pub uninterp spec fn regex_compiles(pattern: Seq<char>) -> bool;

/// Whether the compiled regular expression `pattern` matches `text`.
pub uninterp spec fn regex_match(pattern: Seq<char>, text: Seq<char>) -> bool;

/// Relies on `regex::Regex::new` and `regex::Regex::is_match`: whether a
/// pattern compiles, and whether it then matches a text, are functions of
/// the pattern and text characters alone. Returns `None` when the pattern
/// does not compile.
#[verifier::external_body]
fn regex_is_match(pattern: &str, text: &str) -> (r: Option<bool>)
    ensures
        r is Some <==> regex_compiles(pattern@),
        r matches Some(b) ==> b == regex_match(pattern@, text@),
{
    match regex::Regex::new(pattern) {
        Ok(re) => Some(re.is_match(text)),
        Err(_) => None,
    }
}

/// One pattern matches a domain when it is the literal wildcard `*`, equals
/// the domain, is a `*.suffix` wildcard whose suffix covers the domain on a
/// dot boundary, or compiles as a regular expression that matches.
pub open spec fn pattern_matches(d: Seq<char>, p: Seq<char>) -> bool {
    ||| p == seq!['*']
    ||| p == d
    ||| (p.len() >= 2 && p[0] == '*' && p[1] == '.' && domain_covered_by(d, p.skip(2)))
    ||| (regex_compiles(p) && regex_match(p, d))
}

/// A domain satisfies a pattern list when some pattern matches it.
pub open spec fn spec_domain_matches(d: Seq<char>, patterns: Seq<Seq<char>>) -> bool {
    exists|i: int| 0 <= i < patterns.len() && pattern_matches(d, #[trigger] patterns[i])
}

// ---------------------------------------------------------------------------
// The registry
// ---------------------------------------------------------------------------

/// The ordered rule registry.
pub struct ScriptManager {
    scripts: Vec<InjectionScript>,
}

impl View for ScriptManager {
    type V = Seq<RuleView>;

    closed spec fn view(&self) -> Seq<RuleView> {
        self.scripts.deep_view()
    }
}

/// The enabled rules whose patterns match `d`, in registration order.
pub open spec fn rules_matching(rules: Seq<RuleView>, d: Seq<char>) -> Seq<RuleView>
    decreases rules.len(),
{
    if rules.len() == 0 {
        Seq::empty()
    } else {
        rules_matching(rules.drop_last(), d) + (if rules.last().enabled && spec_domain_matches(
            d,
            rules.last().target_domains,
        ) {
            seq![rules.last()]
        } else {
            Seq::empty()
        })
    }
}

impl ScriptManager {
    /// An empty registry.
    pub fn new() -> (m: ScriptManager)
        ensures
            m@ =~= Seq::<RuleView>::empty(),
    {
        ScriptManager { scripts: Vec::new() }
    }

    /// Replaces the entire rule set with `rules`, atomically and in the
    /// given order. Loading the same batch again yields the same registry.
    pub fn load_scripts(&mut self, rules: Vec<InjectionScript>)
        ensures
            final(self)@ == rules.deep_view(),
    {
        self.scripts = rules;
    }

    /// The names of all registered rules, in registration order.
    pub fn list_scripts(&self) -> (r: Vec<String>)
        ensures
            r@.len() == self@.len(),
            forall|i: int| 0 <= i < r@.len() ==> #[trigger] r@[i]@ == self@[i].name,
    {
        let mut r: Vec<String> = Vec::new();
        let mut i: usize = 0;
        while i < self.scripts.len()
            invariant
                i <= self@.len(),
                self@.len() == self.scripts@.len(),
                r@.len() == i,
                forall|k: int| 0 <= k < i ==> #[trigger] r@[k]@ == self@[k].name,
            decreases self@.len() - i,
        {
            r.push(self.scripts[i].name.clone());
            i += 1;
        }
        r
    }

    /// Decides whether `domain` satisfies any pattern in `patterns`: per
    /// pattern, exact match, then `*.suffix` wildcard, then regular
    /// expression; a pattern that fails to compile is skipped.
    pub fn domain_matches(&self, domain: &str, patterns: &Vec<String>) -> (r: bool)
        ensures
            r == spec_domain_matches(domain@, patterns.deep_view()),
    {
        let mut i: usize = 0;
        while i < patterns.len()
            invariant
                i <= patterns@.len(),
                patterns.deep_view().len() == patterns@.len(),
                forall|k: int|
                    0 <= k < i ==> !pattern_matches(domain@, #[trigger] patterns.deep_view()[k]),
            decreases patterns@.len() - i,
        {
            let p = patterns[i].as_str();
            proof {
                assert(patterns.deep_view()[i as int] == patterns@[i as int]@);
            }
            if is_star(p) {
                return true;
            }
            if str_eq(p, domain) {
                return true;
            }
            let plen = p.unicode_len();
            if plen >= 2 && p.get_char(0) == '*' && p.get_char(1) == '.' {
                let suffix = p.substring_char(2, plen);
                proof {
                    assert(suffix@ =~= p@.skip(2));
                }
                if domain_covered(domain, suffix) {
                    return true;
                }
            }
            match regex_is_match(p, domain) {
                Some(true) => {
                    return true;
                },
                _ => {},
            }
            proof {
                assert(!pattern_matches(domain@, patterns.deep_view()[i as int]));
            }
            i += 1;
        }
        false
    }

    /// Every enabled rule whose patterns match `domain`, in registration
    /// order. Repeated calls with an unchanged registry return the same
    /// rules in the same order.
    pub fn get_scripts_for_domain(&self, domain: &str) -> (r: Vec<&InjectionScript>)
        ensures
            r.deep_view() == rules_matching(self@, domain@),
    {
        let mut r: Vec<&InjectionScript> = Vec::new();
        let mut i: usize = 0;
        proof {
            assert(self@.subrange(0, 0) =~= Seq::<RuleView>::empty());
            assert(r.deep_view() =~= rules_matching(self@.subrange(0, 0), domain@));
        }
        while i < self.scripts.len()
            invariant
                i <= self@.len(),
                self@.len() == self.scripts@.len(),
                r.deep_view() == rules_matching(self@.subrange(0, i as int), domain@),
            decreases self@.len() - i,
        {
            let script = &self.scripts[i];
            let ghost before = r.deep_view();
            proof {
                assert(self@[i as int] == self.scripts@[i as int]@);
                assert(self@.subrange(0, i + 1).drop_last() =~= self@.subrange(0, i as int));
                assert(self@.subrange(0, i + 1).last() == self@[i as int]);
            }
            if script.enabled && self.domain_matches(domain, &script.target_domains) {
                r.push(script);
                proof {
                    assert(r.deep_view() =~= before.push(self@[i as int]));
                    assert(rules_matching(self@.subrange(0, i + 1), domain@) =~= before.push(
                        self@[i as int],
                    ));
                }
            } else {
                proof {
                    assert(rules_matching(self@.subrange(0, i + 1), domain@) =~= before);
                }
            }
            i += 1;
        }
        proof {
            assert(self@.subrange(0, i as int) =~= self@);
        }
        r
    }
}

// ---------------------------------------------------------------------------
// The injection engine
// ---------------------------------------------------------------------------

/// The engine's model of a message mid-pass: the header mapping, the body
/// bytes, the payloads surfaced so far, and whether anything changed yet.
pub struct MessageState {
    pub headers: Map<Seq<u8>, Seq<u8>>,
    pub body: Seq<u8>,
    pub javascript: Option<Seq<char>>,
    pub css: Option<Seq<char>>,
    pub modified: bool,
}

/// The state an engine pass starts from: nothing surfaced, nothing modified.
pub open spec fn initial_state(headers: Map<Seq<u8>, Seq<u8>>, body: Seq<u8>) -> MessageState {
    MessageState { headers, body, javascript: None, css: None, modified: false }
}

/// The bytes of the closing-body anchor `</body>`.
pub open spec fn body_anchor() -> Seq<u8> {
    encode_utf8("</body>"@)
}

/// The bytes of the closing-head anchor `</head>`.
pub open spec fn head_anchor() -> Seq<u8> {
    encode_utf8("</head>"@)
}

/// The bytes of the opening script delimiter wrapped around JavaScript.
pub open spec fn script_open() -> Seq<u8> {
    encode_utf8("<script>"@)
}

/// The bytes of the closing script delimiter wrapped around JavaScript.
pub open spec fn script_close() -> Seq<u8> {
    encode_utf8("</script>"@)
}

/// The bytes of the opening style delimiter wrapped around CSS.
pub open spec fn style_open() -> Seq<u8> {
    encode_utf8("<style>"@)
}

/// The bytes of the closing style delimiter wrapped around CSS.
pub open spec fn style_close() -> Seq<u8> {
    encode_utf8("</style>"@)
}

fn body_anchor_vec() -> (v: Vec<u8>)
    ensures
        v@ == body_anchor(),
        v@.len() > 0,
{
    let s = "</body>";
    proof {
        reveal_strlit("</body>");
        lemma_encode_utf8_len_ge(s@);
    }
    s.as_bytes_vec()
}

fn head_anchor_vec() -> (v: Vec<u8>)
    ensures
        v@ == head_anchor(),
        v@.len() > 0,
{
    let s = "</head>";
    proof {
        reveal_strlit("</head>");
        lemma_encode_utf8_len_ge(s@);
    }
    s.as_bytes_vec()
}

/// One rule applied in the request direction: header rules merge their
/// mapping (the rule's own entries in order, later entries overwriting),
/// body rules append a non-empty payload, and script/style rules surface a
/// non-empty payload to the caller instead of touching the body. Rules with
/// an empty payload, and response-direction rules, change nothing.
pub open spec fn step_request(r: RuleView, st: MessageState) -> MessageState {
    match r.inject_type {
        InjectType::RequestHeader => MessageState {
            headers: merge_entries(st.headers, r.headers),
            modified: st.modified || r.headers.len() > 0,
            ..st
        },
        InjectType::RequestBody => if r.payload.len() > 0 {
            MessageState { body: st.body + encode_utf8(r.payload), modified: true, ..st }
        } else {
            st
        },
        InjectType::JavaScriptInjection => if r.payload.len() > 0 {
            MessageState { javascript: Some(r.payload), modified: true, ..st }
        } else {
            st
        },
        InjectType::CssInjection => if r.payload.len() > 0 {
            MessageState { css: Some(r.payload), modified: true, ..st }
        } else {
            st
        },
        InjectType::ResponseHeader => st,
        InjectType::ResponseBody => st,
    }
}

/// One rule applied in the response direction: header rules merge as in the
/// request direction; a body rule splices its payload before every
/// `</body>` anchor, or appends it when no anchor is present; script/style
/// rules splice their wrapped payload before every `</head>` anchor and
/// have no effect when the anchor is absent. Rules with an empty payload,
/// and request-direction rules, change nothing.
pub open spec fn step_response(r: RuleView, st: MessageState) -> MessageState {
    match r.inject_type {
        InjectType::ResponseHeader => MessageState {
            headers: merge_entries(st.headers, r.headers),
            modified: st.modified || r.headers.len() > 0,
            ..st
        },
        InjectType::ResponseBody => if r.payload.len() > 0 {
            MessageState {
                body: if contains_sub(st.body, body_anchor()) {
                    splice_before_all(st.body, body_anchor(), encode_utf8(r.payload))
                } else {
                    st.body + encode_utf8(r.payload)
                },
                modified: true,
                ..st
            }
        } else {
            st
        },
        InjectType::JavaScriptInjection => if r.payload.len() > 0 && contains_sub(
            st.body,
            head_anchor(),
        ) {
            MessageState {
                body: splice_before_all(
                    st.body,
                    head_anchor(),
                    script_open() + encode_utf8(r.payload) + script_close(),
                ),
                modified: true,
                ..st
            }
        } else {
            st
        },
        InjectType::CssInjection => if r.payload.len() > 0 && contains_sub(
            st.body,
            head_anchor(),
        ) {
            MessageState {
                body: splice_before_all(
                    st.body,
                    head_anchor(),
                    style_open() + encode_utf8(r.payload) + style_close(),
                ),
                modified: true,
                ..st
            }
        } else {
            st
        },
        InjectType::RequestHeader => st,
        InjectType::RequestBody => st,
    }
}

/// The selected rules applied in order in the request direction.
pub open spec fn apply_rules_request(rules: Seq<RuleView>, st: MessageState) -> MessageState
    decreases rules.len(),
{
    if rules.len() == 0 {
        st
    } else {
        step_request(rules.last(), apply_rules_request(rules.drop_last(), st))
    }
}

/// The selected rules applied in order in the response direction.
pub open spec fn apply_rules_response(rules: Seq<RuleView>, st: MessageState) -> MessageState
    decreases rules.len(),
{
    if rules.len() == 0 {
        st
    } else {
        step_response(rules.last(), apply_rules_response(rules.drop_last(), st))
    }
}

impl ScriptManager {
    /// Applies every enabled matching rule to the request message, in
    /// registration order, and reports whether anything changed together
    /// with any surfaced script/style payloads.
    pub fn apply_request_injections(
        &self,
        domain: &str,
        headers: &mut Headers,
        body: &mut Vec<u8>,
    ) -> (res: InjectionResult)
        ensures
            ({
                let st1 = apply_rules_request(
                    rules_matching(self@, domain@),
                    initial_state(old(headers).as_map(), old(body)@),
                );
                &&& final(headers).as_map() == st1.headers
                &&& final(body)@ == st1.body
                &&& res.modified == st1.modified
                &&& res.javascript.deep_view() == st1.javascript
                &&& res.css.deep_view() == st1.css
                &&& res.headers is None
                &&& res.body is None
            }),
    {
        let scripts = self.get_scripts_for_domain(domain);
        let ghost matched = rules_matching(self@, domain@);
        let ghost st0 = initial_state(headers.as_map(), body@);
        let mut result = InjectionResult {
            modified: false,
            headers: None,
            body: None,
            javascript: None,
            css: None,
        };
        let mut i: usize = 0;
        proof {
            assert(matched.subrange(0, 0) =~= Seq::<RuleView>::empty());
        }
        while i < scripts.len()
            invariant
                i <= scripts@.len(),
                scripts.deep_view() == matched,
                scripts@.len() == matched.len(),
                st0 == initial_state(old(headers).as_map(), old(body)@),
                ({
                    let st = apply_rules_request(matched.subrange(0, i as int), st0);
                    &&& headers.as_map() == st.headers
                    &&& body@ == st.body
                    &&& result.modified == st.modified
                    &&& result.javascript.deep_view() == st.javascript
                    &&& result.css.deep_view() == st.css
                }),
                result.headers is None,
                result.body is None,
            decreases scripts@.len() - i,
        {
            let ghost st_pre = apply_rules_request(matched.subrange(0, i as int), st0);
            let script: &InjectionScript = scripts[i];
            proof {
                assert(scripts.deep_view()[i as int] == scripts@[i as int].deep_view());
                assert(matched.subrange(0, i + 1).drop_last() =~= matched.subrange(0, i as int));
                assert(matched.subrange(0, i + 1).last() == matched[i as int]);
                assert(script@ == matched[i as int]);
            }
            match script.inject_type {
                InjectType::RequestHeader => {
                    self.merge_rule_headers(script, headers, Ghost(st_pre.headers));
                    if script.headers.entry_count() > 0 {
                        result.modified = true;
                    }
                },
                InjectType::RequestBody => {
                    if !script.script_content.as_str().is_empty() {
                        let pb = script.script_content.as_str().as_bytes_vec();
                        push_all(body, &pb);
                        result.modified = true;
                    }
                },
                InjectType::JavaScriptInjection => {
                    if !script.script_content.as_str().is_empty() {
                        result.javascript = Some(script.script_content.clone());
                        result.modified = true;
                    }
                },
                InjectType::CssInjection => {
                    if !script.script_content.as_str().is_empty() {
                        result.css = Some(script.script_content.clone());
                        result.modified = true;
                    }
                },
                InjectType::ResponseHeader => {},
                InjectType::ResponseBody => {},
            }
            proof {
                assert(apply_rules_request(matched.subrange(0, i + 1), st0) == step_request(
                    matched[i as int],
                    st_pre,
                ));
            }
            i += 1;
        }
        proof {
            assert(matched.subrange(0, i as int) =~= matched);
        }
        result
    }

    /// Applies every enabled matching rule to the response message, in
    /// registration order, splicing body payloads at their anchors.
    pub fn apply_response_injections(
        &self,
        domain: &str,
        headers: &mut Headers,
        body: &mut Vec<u8>,
    ) -> (res: InjectionResult)
        ensures
            ({
                let st1 = apply_rules_response(
                    rules_matching(self@, domain@),
                    initial_state(old(headers).as_map(), old(body)@),
                );
                &&& final(headers).as_map() == st1.headers
                &&& final(body)@ == st1.body
                &&& res.modified == st1.modified
                &&& res.javascript is None
                &&& res.css is None
                &&& res.headers is None
                &&& res.body is None
            }),
    {
        let scripts = self.get_scripts_for_domain(domain);
        let ghost matched = rules_matching(self@, domain@);
        let ghost st0 = initial_state(headers.as_map(), body@);
        let mut result = InjectionResult {
            modified: false,
            headers: None,
            body: None,
            javascript: None,
            css: None,
        };
        let mut i: usize = 0;
        proof {
            assert(matched.subrange(0, 0) =~= Seq::<RuleView>::empty());
        }
        while i < scripts.len()
            invariant
                i <= scripts@.len(),
                scripts.deep_view() == matched,
                scripts@.len() == matched.len(),
                st0 == initial_state(old(headers).as_map(), old(body)@),
                ({
                    let st = apply_rules_response(matched.subrange(0, i as int), st0);
                    &&& headers.as_map() == st.headers
                    &&& body@ == st.body
                    &&& result.modified == st.modified
                    &&& st.javascript is None
                    &&& st.css is None
                }),
                result.javascript is None,
                result.css is None,
                result.headers is None,
                result.body is None,
            decreases scripts@.len() - i,
        {
            let ghost st_pre = apply_rules_response(matched.subrange(0, i as int), st0);
            let script: &InjectionScript = scripts[i];
            proof {
                assert(scripts.deep_view()[i as int] == scripts@[i as int].deep_view());
                assert(matched.subrange(0, i + 1).drop_last() =~= matched.subrange(0, i as int));
                assert(matched.subrange(0, i + 1).last() == matched[i as int]);
                assert(script@ == matched[i as int]);
            }
            match script.inject_type {
                InjectType::ResponseHeader => {
                    self.merge_rule_headers(script, headers, Ghost(st_pre.headers));
                    if script.headers.entry_count() > 0 {
                        result.modified = true;
                    }
                },
                InjectType::ResponseBody => {
                    if !script.script_content.as_str().is_empty() {
                        let pb = script.script_content.as_str().as_bytes_vec();
                        let anchor = body_anchor_vec();
                        if contains_bytes(body, &anchor) {
                            let out = splice_all(body, &anchor, &pb);
                            *body = out;
                        } else {
                            push_all(body, &pb);
                        }
                        result.modified = true;
                    }
                },
                InjectType::JavaScriptInjection => {
                    if !script.script_content.as_str().is_empty() {
                        let anchor = head_anchor_vec();
                        if contains_bytes(body, &anchor) {
                            let pb = script.script_content.as_str().as_bytes_vec();
                            let open = "<script>".as_bytes_vec();
                            let close = "</script>".as_bytes_vec();
                            let mut ins = open;
                            push_all(&mut ins, &pb);
                            push_all(&mut ins, &close);
                            let out = splice_all(body, &anchor, &ins);
                            *body = out;
                            result.modified = true;
                        }
                    }
                },
                InjectType::CssInjection => {
                    if !script.script_content.as_str().is_empty() {
                        let anchor = head_anchor_vec();
                        if contains_bytes(body, &anchor) {
                            let pb = script.script_content.as_str().as_bytes_vec();
                            let open = "<style>".as_bytes_vec();
                            let close = "</style>".as_bytes_vec();
                            let mut ins = open;
                            push_all(&mut ins, &pb);
                            push_all(&mut ins, &close);
                            let out = splice_all(body, &anchor, &ins);
                            *body = out;
                            result.modified = true;
                        }
                    }
                },
                InjectType::RequestHeader => {},
                InjectType::RequestBody => {},
            }
            proof {
                assert(apply_rules_response(matched.subrange(0, i + 1), st0) == step_response(
                    matched[i as int],
                    st_pre,
                ));
            }
            i += 1;
        }
        proof {
            assert(matched.subrange(0, i as int) =~= matched);
        }
        result
    }

    /// Merges one rule's header entries, in order, into the message headers.
    fn merge_rule_headers(
        &self,
        script: &InjectionScript,
        headers: &mut Headers,
        Ghost(base): Ghost<Map<Seq<u8>, Seq<u8>>>,
    )
        requires
            old(headers).as_map() == base,
        ensures
            final(headers).as_map() == merge_entries(base, script@.headers),
    {
        let n = script.headers.entry_count();
        let mut j: usize = 0;
        proof {
            assert(script@.headers.subrange(0, 0) =~= Seq::<(Seq<u8>, Seq<u8>)>::empty());
        }
        while j < n
            invariant
                j <= n,
                n == script@.headers.len(),
                headers.as_map() == merge_entries(base, script@.headers.subrange(0, j as int)),
            decreases n - j,
        {
            let e = script.headers.entry_at(j);
            let name = copy_bytes(&e.0);
            let value = copy_bytes(&e.1);
            proof {
                assert(e.0.deep_view() =~= e.0@);
                assert(e.1.deep_view() =~= e.1@);
                assert(script@.headers.subrange(0, j + 1).drop_last() =~= script@.headers.subrange(
                    0,
                    j as int,
                ));
                assert(script@.headers.subrange(0, j + 1).last() == script@.headers[j as int]);
            }
            headers.insert(name, value);
            j += 1;
        }
        proof {
            assert(script@.headers.subrange(0, n as int) =~= script@.headers);
        }
    }
}

impl ScriptManager {
    /// The example rules written out on first start so operators have
    /// templates to edit. All three ship disabled.
    pub fn create_example_scripts() -> (r: Vec<InjectionScript>)
        ensures
            r.deep_view().len() == 3,
            r.deep_view()[0].name == "custom-headers"@,
            r.deep_view()[0].inject_type is RequestHeader,
            r.deep_view()[0].target_domains =~= seq!["*.example.com"@],
            r.deep_view()[0].headers.len() == 2,
            !r.deep_view()[0].enabled,
            r.deep_view()[1].name == "debug-console"@,
            r.deep_view()[1].inject_type is JavaScriptInjection,
            r.deep_view()[1].target_domains =~= seq!["*"@],
            r.deep_view()[1].headers.len() == 0,
            !r.deep_view()[1].enabled,
            r.deep_view()[2].name == "cors-bypass"@,
            r.deep_view()[2].inject_type is ResponseHeader,
            r.deep_view()[2].target_domains =~= seq!["*"@],
            r.deep_view()[2].headers.len() == 3,
            !r.deep_view()[2].enabled,
    {
        let mut headers0 = Headers::new();
        headers0.insert("X-Debug".as_bytes_vec(), "true".as_bytes_vec());
        headers0.insert("X-Proxy".as_bytes_vec(), "rusty-proxy".as_bytes_vec());
        let mut domains0: Vec<String> = Vec::new();
        domains0.push("*.example.com".to_owned());
        let example0 = InjectionScript {
            name: "custom-headers".to_owned(),
            description: "Inject custom headers for debugging".to_owned(),
            version: "1.0.0".to_owned(),
            author: "Rusty Proxy".to_owned(),
            target_domains: domains0,
            inject_type: InjectType::RequestHeader,
            script_content: String::new(),
            headers: headers0,
            enabled: false,
        };
        let mut domains1: Vec<String> = Vec::new();
        domains1.push("*".to_owned());
        let example1 = InjectionScript {
            name: "debug-console".to_owned(),
            description: "Inject debug console for web debugging".to_owned(),
            version: "1.0.0".to_owned(),
            author: "Rusty Proxy".to_owned(),
            target_domains: domains1,
            inject_type: InjectType::JavaScriptInjection,
            script_content: "console.log('Rusty Proxy debug console loaded');".to_owned(),
            headers: Headers::new(),
            enabled: false,
        };
        let mut headers2 = Headers::new();
        headers2.insert("Access-Control-Allow-Origin".as_bytes_vec(), "*".as_bytes_vec());
        headers2.insert(
            "Access-Control-Allow-Methods".as_bytes_vec(),
            "GET, POST, PUT, DELETE, OPTIONS".as_bytes_vec(),
        );
        headers2.insert(
            "Access-Control-Allow-Headers".as_bytes_vec(),
            "Content-Type, Authorization".as_bytes_vec(),
        );
        let mut domains2: Vec<String> = Vec::new();
        domains2.push("*".to_owned());
        let example2 = InjectionScript {
            name: "cors-bypass".to_owned(),
            description: "Add CORS headers to responses".to_owned(),
            version: "1.0.0".to_owned(),
            author: "Rusty Proxy".to_owned(),
            target_domains: domains2,
            inject_type: InjectType::ResponseHeader,
            script_content: String::new(),
            headers: headers2,
            enabled: false,
        };
        let mut r: Vec<InjectionScript> = Vec::new();
        r.push(example0);
        r.push(example1);
        r.push(example2);
        proof {
            assert(r.deep_view()[0] == r@[0]@);
            assert(r.deep_view()[1] == r@[1]@);
            assert(r.deep_view()[2] == r@[2]@);
            assert(r@[0]@.target_domains =~= seq!["*.example.com"@]);
            assert(r@[1]@.target_domains =~= seq!["*"@]);
            assert(r@[2]@.target_domains =~= seq!["*"@]);
        }
        r
    }
}

/// Folding a rule's header entries gives the value of the last entry for a
/// name, whatever the mapping held before: within one rule, and across
/// rules applied in order, the later write wins.
pub proof fn lemma_merge_entries_last_wins(
    m: Map<Seq<u8>, Seq<u8>>,
    entries: Seq<(Seq<u8>, Seq<u8>)>,
    t: int,
)
    requires
        0 <= t < entries.len(),
        forall|u: int|
            t < u < entries.len() ==> lower_bytes(#[trigger] entries[u].0) != lower_bytes(
                entries[t].0,
            ),
    ensures
        merge_entries(m, entries).contains_key(lower_bytes(entries[t].0)),
        merge_entries(m, entries)[lower_bytes(entries[t].0)] == entries[t].1,
    decreases entries.len(),
{
    if t < entries.len() - 1 {
        lemma_merge_entries_last_wins(m, entries.drop_last(), t);
    }
}

/// Applying two enabled `RequestHeader` rules in registry order `[a, b]`
/// yields `b`'s value for a header name that both rules set: the later rule
/// overwrites the earlier one. `t` points at `b`'s last entry for the name.
pub proof fn lemma_later_header_rule_wins(a: RuleView, b: RuleView, st: MessageState, t: int)
    requires
        a.inject_type is RequestHeader,
        b.inject_type is RequestHeader,
        0 <= t < b.headers.len(),
        forall|u: int|
            t < u < b.headers.len() ==> lower_bytes(#[trigger] b.headers[u].0) != lower_bytes(
                b.headers[t].0,
            ),
    ensures
        apply_rules_request(seq![a, b], st).headers.contains_key(lower_bytes(b.headers[t].0)),
        apply_rules_request(seq![a, b], st).headers[lower_bytes(b.headers[t].0)] == b.headers[t].1,
{
    let s = seq![a, b];
    assert(s.drop_last() =~= seq![a]);
    assert(seq![a].drop_last() =~= Seq::<RuleView>::empty());
    let st_a = apply_rules_request(seq![a], st);
    lemma_merge_entries_last_wins(st_a.headers, b.headers, t);
    assert(s.last() == b);
}

proof fn lemma_splice_grows(hay: Seq<u8>, pat: Seq<u8>, ins: Seq<u8>)
    requires
        pat.len() > 0,
        ins.len() > 0,
    ensures
        splice_before_all(hay, pat, ins).len() >= hay.len(),
        contains_sub(hay, pat) ==> splice_before_all(hay, pat, ins).len() >= hay.len()
            + ins.len(),
    decreases hay.len(),
{
    if hay.len() >= pat.len() {
        if hay.subrange(0, pat.len() as int) == pat {
            lemma_splice_grows(hay.skip(pat.len() as int), pat, ins);
        } else {
            lemma_splice_grows(hay.drop_first(), pat, ins);
        }
    }
}

proof fn lemma_engine_text_lens()
    ensures
        body_anchor().len() > 0,
        head_anchor().len() > 0,
        script_open().len() > 0,
        style_open().len() > 0,
{
    reveal_strlit("</body>");
    reveal_strlit("</head>");
    reveal_strlit("<script>");
    reveal_strlit("<style>");
    lemma_encode_utf8_len_ge("</body>"@);
    lemma_encode_utf8_len_ge("</head>"@);
    lemma_encode_utf8_len_ge("<script>"@);
    lemma_encode_utf8_len_ge("<style>"@);
}

proof fn lemma_step_response_grows(r: RuleView, st: MessageState)
    ensures
        step_response(r, st).body.len() >= st.body.len(),
        step_response(r, st).body.len() == st.body.len() ==> step_response(r, st).body == st.body,
{
    lemma_engine_text_lens();
    match r.inject_type {
        InjectType::ResponseBody => {
            if r.payload.len() > 0 {
                lemma_encode_utf8_len_ge(r.payload);
                if contains_sub(st.body, body_anchor()) {
                    lemma_splice_grows(st.body, body_anchor(), encode_utf8(r.payload));
                }
            }
        },
        InjectType::JavaScriptInjection => {
            if r.payload.len() > 0 && contains_sub(st.body, head_anchor()) {
                lemma_splice_grows(
                    st.body,
                    head_anchor(),
                    script_open() + encode_utf8(r.payload) + script_close(),
                );
            }
        },
        InjectType::CssInjection => {
            if r.payload.len() > 0 && contains_sub(st.body, head_anchor()) {
                lemma_splice_grows(
                    st.body,
                    head_anchor(),
                    style_open() + encode_utf8(r.payload) + style_close(),
                );
            }
        },
        _ => {},
    }
}

/// A response pass only ever grows the body: splicing and appending insert
/// non-empty payloads and never remove bytes. So a final body of unchanged
/// byte length is the unchanged body, and the content-length update in
/// `process_response_message` — which fires exactly when the byte length
/// changed — fires exactly when the body changed, setting the header to the
/// byte length of the final body.
pub proof fn lemma_response_pass_grows(rules: Seq<RuleView>, st: MessageState)
    ensures
        apply_rules_response(rules, st).body.len() >= st.body.len(),
        apply_rules_response(rules, st).body.len() == st.body.len() ==> apply_rules_response(
            rules,
            st,
        ).body == st.body,
    decreases rules.len(),
{
    if rules.len() > 0 {
        lemma_response_pass_grows(rules.drop_last(), st);
        lemma_step_response_grows(rules.last(), apply_rules_response(rules.drop_last(), st));
    }
}

/// The rule selection for a domain is a function of the registry and the
/// domain alone: two selections from the same registry are equal.
pub proof fn lemma_rules_for_domain_deterministic(
    rules: Seq<RuleView>,
    d: Seq<char>,
    r1: Seq<RuleView>,
    r2: Seq<RuleView>,
)
    requires
        r1 == rules_matching(rules, d),
        r2 == rules_matching(rules, d),
    ensures
        r1 == r2,
{
}

/// A disabled rule, or one whose patterns do not match the domain, never
/// takes part in a pass: appending it to the registry leaves the selected
/// rule sequence — and with it every engine result — unchanged.
pub proof fn lemma_inert_rule_is_noop(rules: Seq<RuleView>, r: RuleView, d: Seq<char>)
    requires
        !r.enabled || !spec_domain_matches(d, r.target_domains),
    ensures
        rules_matching(rules.push(r), d) == rules_matching(rules, d),
{
    assert(rules.push(r).drop_last() =~= rules);
    assert(rules_matching(rules.push(r), d) =~= rules_matching(rules, d));
}

/// The same, at any position: a disabled or non-matching rule standing
/// anywhere in the registry leaves the selected rule sequence for `d` as if
/// it were not registered at all.
pub proof fn lemma_inert_rule_is_noop_anywhere(
    before: Seq<RuleView>,
    r: RuleView,
    after: Seq<RuleView>,
    d: Seq<char>,
)
    requires
        !r.enabled || !spec_domain_matches(d, r.target_domains),
    ensures
        rules_matching(before + seq![r] + after, d) == rules_matching(before + after, d),
    decreases after.len(),
{
    if after.len() == 0 {
        assert((before + seq![r] + after) =~= before.push(r));
        assert(before + after =~= before);
        lemma_inert_rule_is_noop(before, r, d);
    } else {
        lemma_inert_rule_is_noop_anywhere(before, r, after.drop_last(), d);
        assert((before + seq![r] + after).drop_last() =~= before + seq![r] + after.drop_last());
        assert((before + seq![r] + after).last() == after.last());
        assert((before + after).drop_last() =~= before + after.drop_last());
        assert((before + after).last() == after.last());
    }
}

} // verus!
