//! Decision logic of the forwarding/tunnel protocol layer.
//!
//! The embedding program performs the socket work: it forwards requests,
//! opens CONNECT tunnels and bridges bytes. Everything it must decide —
//! which scheme a schemeless target gets, what `host:port` a CONNECT target
//! denotes, what reply each outcome earns, and which stage follows which —
//! is a pure function here, with the outcomes it reacts to passed in as
//! plain events.

use crate::config::Config;
use crate::headers::Headers;
use crate::http_injector::BuiltResponse;
use crate::ProxyError;
use vstd::prelude::*;
use vstd::string::StrSliceExecFns;
use vstd::utf8::encode_utf8;

verus! {

// ---------------------------------------------------------------------------
// Scheme inference for schemeless targets
// ---------------------------------------------------------------------------

/// The scheme a forwarded request is sent with.
#[derive(Clone, Copy, Debug, PartialEq, Eq, Structural)]
pub enum Scheme {
    Http,
    Https,
}

impl Scheme {
    /// The scheme's text, as it stands in a URI.
    pub fn text(&self) -> (t: &str)
        ensures
            *self is Https ==> t@ == "https"@,
            *self is Http ==> t@ == "http"@,
    {
        match self {
            Scheme::Https => "https",
            Scheme::Http => "http",
        }
    }
}

/// The scheme inferred for a target without one: `https` exactly when the
/// target port is 443, else `http`.
pub fn infer_scheme(port: Option<u16>) -> (s: Scheme)
    ensures
        s is Https <==> port == Some(443u16),
{
    match port {
        Some(443) => Scheme::Https,
        _ => Scheme::Http,
    }
}

// ---------------------------------------------------------------------------
// CONNECT target parsing
// ---------------------------------------------------------------------------

/// The index of the first `:` in `s`, if any.
pub open spec fn find_colon(s: Seq<char>) -> Option<int>
    decreases s.len(),
{
    if s.len() == 0 {
        None
    } else if s[0] == ':' {
        Some(0)
    } else {
        match find_colon(s.drop_first()) {
            Option::Some(j) => Some(j + 1),
            Option::None => None,
        }
    }
}

proof fn lemma_find_colon_at(s: Seq<char>, i: int)
    requires
        0 <= i < s.len(),
        s[i] == ':',
        forall|k: int| 0 <= k < i ==> s[k] != ':',
    ensures
        find_colon(s) == Some(i),
    decreases i,
{
    if i > 0 {
        lemma_find_colon_at(s.drop_first(), i - 1);
    }
}

proof fn lemma_find_colon_none(s: Seq<char>)
    requires
        forall|k: int| 0 <= k < s.len() ==> s[k] != ':',
    ensures
        find_colon(s) is None,
    decreases s.len(),
{
    if s.len() > 0 {
        lemma_find_colon_none(s.drop_first());
    }
}

/// True when every character of `s` is a decimal digit.
pub open spec fn all_digits(s: Seq<char>) -> bool {
    forall|i: int| 0 <= i < s.len() ==> '0' <= #[trigger] s[i] && s[i] <= '9'
}

/// The numeric value of a decimal digit string.
pub open spec fn dec_value(s: Seq<char>) -> int
    decreases s.len(),
{
    if s.len() == 0 {
        0
    } else {
        dec_value(s.drop_last()) * 10 + (s.last() as int - 48)
    }
}

/// True when `s` denotes a port: non-empty, all digits, and at most 65535.
pub open spec fn valid_port(s: Seq<char>) -> bool {
    s.len() > 0 && all_digits(s) && dec_value(s) <= 65535
}

proof fn lemma_dec_value_nonneg(s: Seq<char>)
    requires
        all_digits(s),
    ensures
        dec_value(s) >= 0,
    decreases s.len(),
{
    if s.len() > 0 {
        assert(all_digits(s.drop_last()));
        lemma_dec_value_nonneg(s.drop_last());
    }
}

proof fn lemma_dec_value_prefix_le(s: Seq<char>, j: int)
    requires
        all_digits(s),
        0 <= j <= s.len(),
    ensures
        dec_value(s.take(j)) <= dec_value(s),
    decreases s.len() - j,
{
    if j == s.len() {
        assert(s.take(j) =~= s);
    } else {
        assert(all_digits(s.take(j)));
        lemma_dec_value_nonneg(s.take(j));
        assert(s.take(j + 1).drop_last() =~= s.take(j));
        assert(s.take(j + 1).last() == s[j]);
        lemma_dec_value_prefix_le(s, j + 1);
    }
}

/// What a CONNECT request target denotes: the host before the first `:`,
/// and the port between the first and second `:` (443 when there is no
/// colon); `None` when the port text is not a valid port number.
pub open spec fn connect_target_spec(t: Seq<char>) -> Option<(Seq<char>, int)> {
    match find_colon(t) {
        Option::None => Some((t, 443)),
        Option::Some(c1) => {
            let host = t.take(c1);
            let rest = t.skip(c1 + 1);
            let seg = match find_colon(rest) {
                Option::Some(c2) => rest.take(c2),
                Option::None => rest,
            };
            if valid_port(seg) {
                Some((host, dec_value(seg)))
            } else {
                None
            }
        },
    }
}

/// A CONNECT target: the host to reach and the TCP port to dial.
pub struct ConnectTarget {
    pub host: String,
    pub port: u16,
}

/// Parses `host[:port]` from a CONNECT request target; the port defaults to
/// 443 when absent. Text after a second `:` is ignored. Fails exactly when
/// the port text is not a decimal number that fits a port.
pub fn parse_connect_target(target: &str) -> (r: Result<ConnectTarget, ProxyError>)
    ensures
        r matches Ok(ct) ==> connect_target_spec(target@) matches Some(hp) && ct.host@ == hp.0
            && ct.port as int == hp.1,
        r is Err <==> connect_target_spec(target@) is None,
        r matches Err(e) ==> e is TunnelEstablishFailed,
{
    let tlen = target.unicode_len();
    let mut i: usize = 0;
    let mut c1: usize = tlen;
    let mut found_c1: bool = false;
    while i < tlen && !found_c1
        invariant
            i <= tlen,
            tlen == target@.len(),
            found_c1 ==> i < tlen && target@[i as int] == ':' && c1 == i,
            found_c1 ==> forall|k: int| 0 <= k < c1 ==> target@[k] != ':',
            !found_c1 ==> forall|k: int| 0 <= k < i ==> target@[k] != ':',
        decreases tlen - i + if found_c1 {
            0int
        } else {
            1int
        },
    {
        if target.get_char(i) == ':' {
            c1 = i;
            found_c1 = true;
        } else {
            i += 1;
        }
    }
    if !found_c1 {
        proof {
            lemma_find_colon_none(target@);
        }
        return Ok(ConnectTarget { host: target.to_owned(), port: 443 });
    }
    proof {
        lemma_find_colon_at(target@, c1 as int);
    }
    let host = target.substring_char(0, c1).to_owned();
    proof {
        assert(host@ =~= target@.take(c1 as int));
    }
    // the port text runs from after the first colon to the next colon or end
    let start = c1 + 1;
    let mut j: usize = start;
    let mut pend: usize = tlen;
    let mut found_c2: bool = false;
    while j < tlen && !found_c2
        invariant
            start <= j <= tlen,
            tlen == target@.len(),
            start == c1 + 1,
            c1 < tlen,
            found_c2 ==> j < tlen && target@[j as int] == ':' && pend == j,
            found_c2 ==> forall|k: int| start <= k < pend ==> target@[k] != ':',
            !found_c2 ==> forall|k: int| start <= k < j ==> target@[k] != ':',
            !found_c2 ==> pend == tlen,
        decreases tlen - j + if found_c2 {
            0int
        } else {
            1int
        },
    {
        if target.get_char(j) == ':' {
            pend = j;
            found_c2 = true;
        } else {
            j += 1;
        }
    }
    let ghost rest = target@.skip(c1 + 1);
    let ghost seg = target@.subrange(start as int, pend as int);
    proof {
        if found_c2 {
            assert(rest[pend - start] == ':');
            assert forall|k: int| 0 <= k < pend - start implies rest[k] != ':' by {
                assert(rest[k] == target@[start + k]);
            }
            lemma_find_colon_at(rest, pend - start);
            assert(seg =~= rest.take(pend - start));
        } else {
            assert forall|k: int| 0 <= k < rest.len() implies rest[k] != ':' by {
                assert(rest[k] == target@[start + k]);
            }
            lemma_find_colon_none(rest);
            assert(seg =~= rest);
        }
    }
    if start == pend {
        proof {
            assert(seg.len() == 0);
            assert(!valid_port(seg));
            assert(connect_target_spec(target@) is None);
        }
        return Err(ProxyError::TunnelEstablishFailed);
    }
    proof {
        assert(connect_target_spec(target@) == (if valid_port(seg) {
            Option::Some((target@.take(c1 as int), dec_value(seg)))
        } else {
            Option::<(Seq<char>, int)>::None
        }));
    }
    let mut k: usize = start;
    let mut val: u32 = 0;
    while k < pend
        invariant
            start <= k <= pend,
            pend <= tlen,
            tlen == target@.len(),
            seg == target@.subrange(start as int, pend as int),
            seg.len() == pend - start,
            host@ == target@.take(c1 as int),
            connect_target_spec(target@) == (if valid_port(seg) {
                Option::Some((target@.take(c1 as int), dec_value(seg)))
            } else {
                Option::<(Seq<char>, int)>::None
            }),
            forall|u: int| 0 <= u < k - start ==> '0' <= #[trigger] seg[u] && seg[u] <= '9',
            val <= 65535,
            val as int == dec_value(seg.take(k - start)),
        decreases pend - k,
    {
        let c = target.get_char(k);
        proof {
            assert(seg[k - start] == target@[k as int]);
        }
        if c < '0' || c > '9' {
            proof {
                assert(!all_digits(seg));
                assert(!valid_port(seg));
                assert(connect_target_spec(target@) is None);
            }
            return Err(ProxyError::TunnelEstablishFailed);
        }
        let d: u32 = (c as u32) - 48;
        let next: u32 = val * 10 + d;
        proof {
            assert(seg.take(k - start + 1).drop_last() =~= seg.take(k - start));
            assert(seg.take(k - start + 1).last() == seg[k - start]);
            assert(next as int == dec_value(seg.take(k - start + 1)));
        }
        if next > 65535 {
            proof {
                if all_digits(seg) {
                    lemma_dec_value_prefix_le(seg, k - start + 1);
                }
            }
            return Err(ProxyError::TunnelEstablishFailed);
        }
        val = next;
        k += 1;
    }
    proof {
        assert(seg.take(pend - start) =~= seg);
        assert(all_digits(seg));
        assert(valid_port(seg));
    }
    Ok(ConnectTarget { host, port: val as u16 })
}

// ---------------------------------------------------------------------------
// Replies and outcome classification
// ---------------------------------------------------------------------------

impl ProxyError {
    /// The status the client sees for this failure.
    pub fn status_code(&self) -> (s: u16)
        ensures
            *self is PolicyDenied ==> s == 403,
            !(*self is PolicyDenied) ==> s == 500,
    {
        match self {
            ProxyError::PolicyDenied => 403,
            _ => 500,
        }
    }

    /// A short human-readable cause, inserted into the error page.
    pub fn message(&self) -> (m: &str)
        ensures
            *self is PolicyDenied ==> m@ == "request denied by proxy policy"@,
            *self is UpstreamTimeout ==> m@ == "upstream request timed out"@,
            *self is UpstreamConnectFailed ==> m@ == "failed to reach the upstream server"@,
            *self is HeaderEncodingError ==> m@ == "a rewritten header was not a valid protocol header"@,
            *self is TunnelEstablishFailed ==> m@ == "failed to establish tunnel"@,
    {
        match self {
            ProxyError::PolicyDenied => "request denied by proxy policy",
            ProxyError::UpstreamTimeout => "upstream request timed out",
            ProxyError::UpstreamConnectFailed => "failed to reach the upstream server",
            ProxyError::HeaderEncodingError => "a rewritten header was not a valid protocol header",
            ProxyError::TunnelEstablishFailed => "failed to establish tunnel",
        }
    }
}

/// The first decision for every inbound connection: a client IP the policy
/// denies is turned away with `PolicyDenied` (a 403 page) before the
/// registry or the upstream is touched.
pub fn authorize_client(config: &Config, client_ip: &str) -> (r: Result<(), ProxyError>)
    ensures
        r is Ok <==> config.ip_allowed_spec(client_ip@),
        r matches Err(e) ==> e is PolicyDenied,
{
    if config.is_ip_allowed(client_ip) {
        Ok(())
    } else {
        Err(ProxyError::PolicyDenied)
    }
}

/// How one forwarding attempt ended, as the embedding program observed it.
#[derive(Clone, Copy, Debug)]
pub enum ForwardEvent {
    /// The upstream answered within the configured timeout.
    Responded,
    /// The configured timeout elapsed first.
    TimedOut,
    /// The connection or request itself failed.
    ConnectFailed,
}

/// Maps a forwarding outcome to the proxy's conclusion: a timeout is
/// `UpstreamTimeout`, a connection failure is `UpstreamConnectFailed`, and
/// only an answered request proceeds. There is no retry.
pub fn classify_forward_outcome(e: &ForwardEvent) -> (r: Result<(), ProxyError>)
    ensures
        r is Ok <==> *e is Responded,
        *e is TimedOut ==> (r matches Err(pe) && pe is UpstreamTimeout),
        *e is ConnectFailed ==> (r matches Err(pe) && pe is UpstreamConnectFailed),
{
    match e {
        ForwardEvent::Responded => Ok(()),
        ForwardEvent::TimedOut => Err(ProxyError::UpstreamTimeout),
        ForwardEvent::ConnectFailed => Err(ProxyError::UpstreamConnectFailed),
    }
}

/// The reply to a CONNECT request: on success, status 200 with an empty
/// body and no headers, sent before any byte bridging begins; on failure, a
/// non-200 status naming the problem, after which the connection is closed.
pub fn tunnel_reply(established: bool) -> (r: BuiltResponse)
    ensures
        established ==> r.status == 200 && r.body@ =~= Seq::<u8>::empty() && r.headers@ =~= Seq::<
            (Seq<u8>, Seq<u8>),
        >::empty(),
        !established ==> r.status == 500 && r.body@ == encode_utf8("Failed to establish tunnel"@),
{
    if established {
        BuiltResponse { status: 200, headers: Headers::new(), body: Vec::new() }
    } else {
        let body = "Failed to establish tunnel".as_bytes_vec();
        BuiltResponse { status: 500, headers: Headers::new(), body }
    }
}

// ---------------------------------------------------------------------------
// The per-connection flow
// ---------------------------------------------------------------------------

/// Where one inbound connection stands.
#[derive(Clone, Copy, Debug, PartialEq, Eq, Structural)]
pub enum FlowState {
    /// A request arrived; nothing is decided yet.
    Received,
    /// The client IP passed the policy.
    IpChecked,
    /// Request-direction injection ran and the message was rebuilt.
    RequestInjected,
    /// The upstream answered within the timeout.
    Forwarded,
    /// The CONNECT tunnel is open and the 200 reply is owed to the client.
    TunnelEstablished,
    /// Response-direction injection ran and the message was rebuilt.
    ResponseInjected,
    /// Terminal: the client was refused with a 403 page.
    Blocked,
    /// Terminal: the client was sent a 500 page.
    Failed,
    /// Terminal: the reply left for the client.
    Sent,
}

/// What the embedding program observed at the current stage.
#[derive(Clone, Copy, Debug, PartialEq, Eq, Structural)]
pub enum FlowEvent {
    IpAllowed,
    IpDenied,
    RequestReady,
    RequestFailed,
    UpstreamResponded,
    UpstreamTimedOut,
    UpstreamFailed,
    TunnelOpened,
    TunnelFailed,
    ResponseReady,
    ResponseFailed,
    Delivered,
}

/// The connection state machine: IP check, then request injection, then
/// forwarding or tunnel establishment, then (for forwarded traffic only)
/// response injection, then delivery. A denied IP short-circuits to
/// `Blocked`; every failure ends in `Failed`; an event that does not belong
/// to the current stage is a failure too.
pub open spec fn spec_flow_step(s: FlowState, e: FlowEvent) -> FlowState {
    match (s, e) {
        (FlowState::Received, FlowEvent::IpAllowed) => FlowState::IpChecked,
        (FlowState::Received, FlowEvent::IpDenied) => FlowState::Blocked,
        (FlowState::IpChecked, FlowEvent::RequestReady) => FlowState::RequestInjected,
        (FlowState::IpChecked, FlowEvent::RequestFailed) => FlowState::Failed,
        (FlowState::RequestInjected, FlowEvent::UpstreamResponded) => FlowState::Forwarded,
        (FlowState::RequestInjected, FlowEvent::UpstreamTimedOut) => FlowState::Failed,
        (FlowState::RequestInjected, FlowEvent::UpstreamFailed) => FlowState::Failed,
        (FlowState::RequestInjected, FlowEvent::TunnelOpened) => FlowState::TunnelEstablished,
        (FlowState::RequestInjected, FlowEvent::TunnelFailed) => FlowState::Failed,
        (FlowState::Forwarded, FlowEvent::ResponseReady) => FlowState::ResponseInjected,
        (FlowState::Forwarded, FlowEvent::ResponseFailed) => FlowState::Failed,
        (FlowState::TunnelEstablished, FlowEvent::Delivered) => FlowState::Sent,
        (FlowState::ResponseInjected, FlowEvent::Delivered) => FlowState::Sent,
        _ => FlowState::Failed,
    }
}

/// Advances the connection state machine by one observed event.
pub fn flow_step(s: FlowState, e: FlowEvent) -> (n: FlowState)
    ensures
        n == spec_flow_step(s, e),
{
    match (s, e) {
        (FlowState::Received, FlowEvent::IpAllowed) => FlowState::IpChecked,
        (FlowState::Received, FlowEvent::IpDenied) => FlowState::Blocked,
        (FlowState::IpChecked, FlowEvent::RequestReady) => FlowState::RequestInjected,
        (FlowState::IpChecked, FlowEvent::RequestFailed) => FlowState::Failed,
        (FlowState::RequestInjected, FlowEvent::UpstreamResponded) => FlowState::Forwarded,
        (FlowState::RequestInjected, FlowEvent::UpstreamTimedOut) => FlowState::Failed,
        (FlowState::RequestInjected, FlowEvent::UpstreamFailed) => FlowState::Failed,
        (FlowState::RequestInjected, FlowEvent::TunnelOpened) => FlowState::TunnelEstablished,
        (FlowState::RequestInjected, FlowEvent::TunnelFailed) => FlowState::Failed,
        (FlowState::Forwarded, FlowEvent::ResponseReady) => FlowState::ResponseInjected,
        (FlowState::Forwarded, FlowEvent::ResponseFailed) => FlowState::Failed,
        (FlowState::TunnelEstablished, FlowEvent::Delivered) => FlowState::Sent,
        (FlowState::ResponseInjected, FlowEvent::Delivered) => FlowState::Sent,
        _ => FlowState::Failed,
    }
}

/// A denied client IP short-circuits to `Blocked` before request injection,
/// forwarding or tunneling can happen.
pub proof fn lemma_denied_ip_short_circuits()
    ensures
        spec_flow_step(FlowState::Received, FlowEvent::IpDenied) == FlowState::Blocked,
{
}

/// Tunneled traffic is an opaque byte pipe: from an established tunnel the
/// flow goes straight to delivery, never through response injection.
pub proof fn lemma_tunnel_skips_response_injection(e: FlowEvent)
    ensures
        !(spec_flow_step(FlowState::TunnelEstablished, e) is ResponseInjected),
{
}

/// Within one request, response injection strictly follows forwarding: the
/// only way into `ResponseInjected` is a response from a forwarded request.
pub proof fn lemma_response_injection_follows_forwarding(s: FlowState, e: FlowEvent)
    ensures
        spec_flow_step(s, e) is ResponseInjected ==> s is Forwarded && e is ResponseReady,
{
}

/// Forwarding and tunneling strictly follow request injection.
pub proof fn lemma_forwarding_follows_request_injection(s: FlowState, e: FlowEvent)
    ensures
        (spec_flow_step(s, e) is Forwarded || spec_flow_step(s, e) is TunnelEstablished) ==> s
            is RequestInjected,
{
}

} // verus!
