//! The request pipeline's decisions: extracting the JSON-RPC method from a
//! request body, the credential-gate decision, choosing a backend and
//! building the outbound URI, and mapping forward outcomes to response
//! statuses.
use vstd::prelude::*;
use vstd::seq_lib::*;
use vstd::string::StrSliceExecFns;
use vstd::string::StringExecFns;

use crate::health::BackendHealthStatus;
use crate::health::HealthState;
use crate::health::spec_carried_status;
use crate::keystore::KeyInfo;
use crate::routing::RouterState;
use crate::routing::spec_eligible;
use crate::routing::spec_route_for_from;
use crate::routing::spec_find_labeled;
use crate::strutil::eq_str;
use crate::strutil::find_char;
use crate::strutil::find_sub;
use crate::strutil::spec_find_sub_from;
use crate::strutil::spec_first_at;
use crate::strutil::spec_starts_with;
use crate::strutil::spec_u64_string;
use crate::strutil::starts_with;
use crate::strutil::u64_to_string;

verus! {

/// Request bodies above this size are not buffered for method extraction.
pub const MAX_BODY_SIZE: usize = 10 * 1024 * 1024;

/// The JSON-RPC method tag a request carries once extracted.
#[derive(Debug)]
pub struct RpcMethod(pub String);

impl Clone for RpcMethod {
    fn clone(&self) -> (res: Self)
        ensures
            res == *self,
    {
        RpcMethod(self.0.clone())
    }
}

/// The label of the upstream a response came from.
#[derive(Debug)]
pub struct SelectedBackend(pub String);

impl Clone for SelectedBackend {
    fn clone(&self) -> (res: Self)
        ensures
            res == *self,
    {
        SelectedBackend(self.0.clone())
    }
}

/// The query parameters the proxy reads.
#[derive(Debug)]
pub struct Params {
    pub api_key: Option<String>,
}

/// Whether a buffered body of `len` bytes is within the extraction bound.
pub fn body_within_limit(len: usize) -> (r: bool)
    ensures
        r == (len <= MAX_BODY_SIZE),
{
    len <= MAX_BODY_SIZE
}

// ---------------------------------------------------------------------
// Method extraction: a targeted keyed parse of the request body.
// ---------------------------------------------------------------------

pub open spec fn spec_is_ws(c: char) -> bool {
    c == ' ' || c == '\t' || c == '\r' || c == '\n'
}

/// The first position at or after `i` holding a non-whitespace character.
pub open spec fn spec_skip_ws(s: Seq<char>, i: int) -> int
    decreases s.len() - i,
{
    if i < 0 || i >= s.len() {
        i
    } else if spec_is_ws(s[i]) {
        spec_skip_ws(s, i + 1)
    } else {
        i
    }
}

/// What the targeted parse yields on `s`: the string value following the
/// first occurrence of a `"method"` key, or nothing when the shape does
/// not match. Escape sequences in the value are not interpreted.
pub open spec fn spec_extract_method(s: Seq<char>) -> Option<Seq<char>> {
    match spec_find_sub_from(s, "\"method\""@, 0) {
        None => None,
        Some(kpos) => {
            let a = spec_skip_ws(s, kpos + "\"method\""@.len());
            if a < s.len() && s[a] == ':' {
                let b = spec_skip_ws(s, a + 1);
                if b < s.len() && s[b] == '"' {
                    let e = b + 1 + spec_first_at(s.skip(b + 1), '"');
                    if e < s.len() {
                        Some(s.subrange(b + 1, e))
                    } else {
                        None
                    }
                } else {
                    None
                }
            } else {
                None
            }
        },
    }
}

fn is_ws_char(c: char) -> (r: bool)
    ensures
        r == spec_is_ws(c),
{
    c == ' ' || c == '\t' || c == '\r' || c == '\n'
}

/// Advances past whitespace.
fn skip_ws(s: &str, from: usize) -> (j: usize)
    requires
        from <= s@.len(),
    ensures
        j == spec_skip_ws(s@, from as int),
        from <= j <= s@.len(),
{
    let n = s.unicode_len();
    let mut j = from;
    while j < n && is_ws_char(s.get_char(j))
        invariant
            from <= j <= n,
            n == s@.len(),
            spec_skip_ws(s@, from as int) == spec_skip_ws(s@, j as int),
        decreases n - j,
    {
        j = j + 1;
    }
    j
}

/// Reads the JSON-RPC `method` tag out of a request body by a targeted
/// keyed parse: it finds the first `"method"` key, expects a colon and a
/// quoted value, and never materialises the rest of the document.
pub fn extract_rpc_method(body: &str) -> (r: Option<String>)
    ensures
        r is Some <==> spec_extract_method(body@) is Some,
        r matches Some(m) ==> spec_extract_method(body@) == Some(m@),
{
    proof {
        reveal_strlit("\"method\"");
    }
    let n = body.unicode_len();
    let kpos = match find_sub(body, "\"method\"") {
        Some(k) => k,
        None => {
            return None;
        },
    };
    let a = skip_ws(body, kpos + 8);
    if !(a < n && body.get_char(a) == ':') {
        return None;
    }
    let b = skip_ws(body, a + 1);
    if !(b < n && body.get_char(b) == '"') {
        return None;
    }
    let tail = body.substring_char(b + 1, n);
    proof {
        assert(tail@ =~= body@.skip(b + 1));
    }
    let q = find_char(tail, '"');
    if q >= tail.unicode_len() {
        proof {
            crate::strutil::lemma_first_at_bounds(body@.skip(b + 1), '"');
        }
        return None;
    }
    let e = b + 1 + q;
    let value = body.substring_char(b + 1, e);
    Some(value.to_owned())
}

// ---------------------------------------------------------------------
// Outbound URI construction.
// ---------------------------------------------------------------------

/// Splitting at every `sep`: the concatenation of the result, with `sep`
/// between consecutive parts, is the input again.
pub open spec fn spec_split(s: Seq<char>, sep: char) -> Seq<Seq<char>>
    decreases s.len(),
    via spec_split_decreases
{
    let j = spec_first_at(s, sep);
    if j < s.len() {
        seq![s.take(j)] + spec_split(s.skip(j + 1), sep)
    } else {
        seq![s]
    }
}

#[via_fn]
proof fn spec_split_decreases(s: Seq<char>, sep: char) {
    crate::strutil::lemma_first_at_bounds(s, sep);
}

pub open spec fn spec_join(parts: Seq<Seq<char>>, sep: char) -> Seq<char>
    decreases parts.len(),
{
    if parts.len() == 0 {
        Seq::empty()
    } else if parts.len() == 1 {
        parts[0]
    } else {
        parts[0] + seq![sep] + spec_join(parts.skip(1), sep)
    }
}

/// Joining after appending a part: the separator goes between the old
/// parts and the new one.
pub proof fn lemma_join_push(parts: Seq<Seq<char>>, x: Seq<char>, sep: char)
    ensures
        parts.len() == 0 ==> spec_join(parts.push(x), sep) == x,
        parts.len() > 0 ==> spec_join(parts.push(x), sep) =~= spec_join(parts, sep) + seq![sep]
            + x,
    decreases parts.len(),
{
    if parts.len() == 0 {
        assert(parts.push(x)[0] == x);
    } else if parts.len() == 1 {
        assert(parts.push(x)[0] == parts[0]);
        assert(parts.push(x).skip(1) =~= seq![x]);
        assert(spec_join(seq![x], sep) == x);
    } else {
        lemma_join_push(parts.skip(1), x, sep);
        assert(parts.push(x).skip(1) =~= parts.skip(1).push(x));
        assert(parts.push(x)[0] == parts[0]);
    }
}

/// Whether a query segment survives credential stripping.
pub open spec fn spec_keeps_segment(seg: Seq<char>) -> bool {
    !spec_starts_with(seg, "api-key="@)
}

/// The query string with every `api-key=...` parameter removed and all
/// others kept in order.
pub open spec fn spec_clean_query(q: Seq<char>) -> Seq<char> {
    spec_join(spec_split(q, '&').filter(|seg: Seq<char>| spec_keeps_segment(seg)), '&')
}

/// Removes the `api-key` parameters of a query string; `r.1` tells
/// whether any parameter (possibly empty) survived.
fn clean_query_parts(q: &str) -> (r: (String, bool))
    ensures
        r.0@ == spec_clean_query(q@),
        r.1 == (spec_split(q@, '&').filter(|seg: Seq<char>| spec_keeps_segment(seg)).len() > 0),
    decreases q@.len(),
{
    let ghost pred = |seg: Seq<char>| spec_keeps_segment(seg);
    let n = q.unicode_len();
    let j = find_char(q, '&');
    proof {
        crate::strutil::lemma_first_at_bounds(q@, '&');
    }
    if j < n {
        let head = q.substring_char(0, j);
        let tail = q.substring_char(j + 1, n);
        proof {
            assert(head@ =~= q@.take(j as int));
            assert(tail@ =~= q@.skip(j + 1));
        }
        let keep = !starts_with(head, "api-key=");
        let rest = clean_query_parts(tail);
        let ghost parts = spec_split(q@, '&');
        let ghost rest_parts = spec_split(tail@, '&');
        proof {
            assert(parts == seq![head@] + rest_parts);
            Seq::filter_distributes_over_add(seq![head@], rest_parts, pred);
            reveal_with_fuel(Seq::filter, 2);
            assert(seq![head@].drop_last() =~= Seq::<Seq<char>>::empty());
            if pred(head@) {
                assert(seq![head@].filter(pred) =~= seq![head@]);
            } else {
                assert(seq![head@].filter(pred) =~= Seq::<Seq<char>>::empty());
            }
        }
        if keep {
            let ghost kept = parts.filter(pred);
            proof {
                assert(kept =~= seq![head@] + rest_parts.filter(pred));
                assert(kept[0] == head@);
                assert(kept.skip(1) =~= rest_parts.filter(pred));
            }
            let mut out = head.to_owned();
            if rest.1 {
                out.append("&");
                out.append(rest.0.as_str());
                proof {
                    reveal_strlit("&");
                    assert(("&")@ =~= seq!['&']);
                    assert(spec_join(kept, '&') == kept[0] + seq!['&'] + spec_join(
                        kept.skip(1),
                        '&',
                    ));
                }
                return (out, true);
            } else {
                proof {
                    assert(kept.len() == 1);
                    assert(spec_join(kept, '&') == head@);
                }
                return (out, true);
            }
        } else {
            proof {
                assert(parts.filter(pred) =~= rest_parts.filter(pred));
            }
            return rest;
        }
    } else {
        proof {
            assert(spec_split(q@, '&') == seq![q@]);
            reveal_with_fuel(Seq::filter, 2);
            assert(seq![q@].drop_last() =~= Seq::<Seq<char>>::empty());
        }
        let keep = !starts_with(q, "api-key=");
        if keep {
            proof {
                assert(seq![q@].filter(pred) =~= seq![q@]);
            }
            return (q.to_owned(), true);
        } else {
            proof {
                assert(seq![q@].filter(pred) =~= Seq::<Seq<char>>::empty());
            }
            return (String::new(), false);
        }
    }
}

/// Strips every `api-key=...` parameter from a query string, preserving
/// the other parameters and their order.
pub fn clean_query(q: &str) -> (r: String)
    ensures
        r@ == spec_clean_query(q@),
{
    let parts = clean_query_parts(q);
    parts.0
}

/// The inbound path and cleaned query, reassembled.
pub fn compose_path_and_query(path: &str, cleaned_query: &str) -> (r: String)
    ensures
        cleaned_query@.len() == 0 ==> r@ == path@,
        cleaned_query@.len() > 0 ==> r@ == path@ + "?"@ + cleaned_query@,
{
    let mut out = path.to_owned();
    if cleaned_query.unicode_len() > 0 {
        out.append("?");
        out.append(cleaned_query);
    }
    out
}

/// The outbound URI rule: a bare `/` collapses to no suffix; a base
/// ending in `/` absorbs the suffix's leading `/`; anything else is plain
/// concatenation.
pub open spec fn spec_build_uri(base: Seq<char>, suffix: Seq<char>) -> Seq<char> {
    if suffix == "/"@ {
        base
    } else if base.len() > 0 && base[base.len() - 1] == '/' && suffix.len() > 0 && suffix[0]
        == '/' {
        base + suffix.skip(1)
    } else {
        base + suffix
    }
}

/// Builds the URI a request is forwarded to, from the backend origin and
/// the cleaned inbound path-and-query.
pub fn build_upstream_uri(base: &str, suffix: &str) -> (r: String)
    ensures
        r@ == spec_build_uri(base@, suffix@),
{
    if eq_str(suffix, "/") {
        return base.to_owned();
    }
    let bn = base.unicode_len();
    let sn = suffix.unicode_len();
    let mut out = base.to_owned();
    if bn > 0 && base.get_char(bn - 1) == '/' && sn > 0 && suffix.get_char(0) == '/' {
        let rest = suffix.substring_char(1, sn);
        proof {
            assert(rest@ =~= suffix@.skip(1));
        }
        out.append(rest);
    } else {
        out.append(suffix);
    }
    out
}

/// The authority (host, with its port if any) of an URI of the shape
/// `scheme://authority/...`, or nothing when the shape does not match.
pub open spec fn spec_authority_of(url: Seq<char>) -> Option<Seq<char>> {
    match spec_find_sub_from(url, "://"@, 0) {
        None => None,
        Some(i) => {
            let rest = url.skip(i + 3);
            let slash = spec_first_at(rest, '/');
            let question = spec_first_at(rest, '?');
            let end = if question < slash {
                question
            } else {
                slash
            };
            if end == 0 {
                None
            } else {
                Some(rest.take(end))
            }
        },
    }
}

/// Extracts the authority of an URI, the value the outbound `Host` header
/// takes.
pub fn authority_of(url: &str) -> (r: Option<String>)
    ensures
        r is Some <==> spec_authority_of(url@) is Some,
        r matches Some(a) ==> spec_authority_of(url@) == Some(a@),
{
    proof {
        reveal_strlit("://");
    }
    let n = url.unicode_len();
    let i = match find_sub(url, "://") {
        Some(i) => i,
        None => {
            return None;
        },
    };
    proof {
        assert(("://")@.len() == 3);
    }
    let rest = url.substring_char(i + 3, n);
    proof {
        assert(rest@ =~= url@.skip(i + 3));
    }
    let slash = find_char(rest, '/');
    let question = find_char(rest, '?');
    let end = if question < slash {
        question
    } else {
        slash
    };
    proof {
        crate::strutil::lemma_first_at_bounds(rest@, '/');
        crate::strutil::lemma_first_at_bounds(rest@, '?');
    }
    if end == 0 {
        return None;
    }
    let auth = rest.substring_char(0, end);
    proof {
        assert(auth@ =~= rest@.take(end as int));
    }
    Some(auth.to_owned())
}

// ---------------------------------------------------------------------
// The authorisation outcome and the routing plan.
// ---------------------------------------------------------------------

pub const STATUS_UNAUTHORIZED: u16 = 401;

pub const STATUS_TOO_MANY_REQUESTS: u16 = 429;

pub const STATUS_INTERNAL_SERVER_ERROR: u16 = 500;

pub const STATUS_BAD_GATEWAY: u16 = 502;

pub const STATUS_SERVICE_UNAVAILABLE: u16 = 503;

pub const STATUS_GATEWAY_TIMEOUT: u16 = 504;

/// The credential gate's decision on a request.
#[derive(Debug)]
pub enum AuthOutcome {
    Authorized(KeyInfo),
    Unauthorized,
    RateLimited,
    StoreError(String),
}

/// Reads the key store's answer: an error is the rate-limit refusal
/// exactly when it carries that message; any other error is a store
/// failure.
pub fn classify_validation(r: Result<Option<KeyInfo>, String>) -> (a: AuthOutcome)
    ensures
        r matches Ok(Some(info)) ==> a == AuthOutcome::Authorized(info),
        r == Ok::<Option<KeyInfo>, String>(None) ==> a == AuthOutcome::Unauthorized,
        r matches Err(e) ==> a == (if e@ == "Rate limit exceeded"@ {
            AuthOutcome::RateLimited
        } else {
            AuthOutcome::StoreError(e)
        }),
{
    match r {
        Ok(Some(info)) => AuthOutcome::Authorized(info),
        Ok(None) => AuthOutcome::Unauthorized,
        Err(e) => {
            if eq_str(e.as_str(), "Rate limit exceeded") {
                AuthOutcome::RateLimited
            } else {
                AuthOutcome::StoreError(e)
            }
        },
    }
}

/// What the proxy decides to do with a request before any bytes go out:
/// answer immediately with a status, or forward to a chosen upstream.
#[derive(Debug)]
pub enum RoutePlan {
    Reject { status: u16, body: String },
    Forward { label: String, url: String },
}

impl RouterState {
    /// The proxy handler's decision, given whether an `api-key` parameter
    /// was present, the authorisation outcome, and the request's method tag:
    /// missing or unknown keys answer 401 before any backend is
    /// consulted, the rate limit answers 429, a store failure 500, an
    /// empty healthy set 503; otherwise the request is forwarded to a
    /// healthy backend, honouring a healthy method override.
    pub fn plan_proxy_request(
        &self,
        api_key_present: bool,
        auth: &AuthOutcome,
        rpc_method: Option<&str>,
    ) -> (p: RoutePlan)
        requires
            self.backends@.len() <= 0xFFFF_FFFF,
        ensures
            p matches RoutePlan::Reject { status, .. } ==> (status == 401 || status == 429
                || status == 500 || status == 503),
            p is Forward <==> (api_key_present && auth is Authorized && exists|i: int|
                0 <= i < self.backends@.len() && (#[trigger] self.backends@[i]).healthy),
            (p matches RoutePlan::Reject { status, body } && status == 401) <==> (!api_key_present
                || (api_key_present && auth is Unauthorized)),
            !api_key_present ==> (p matches RoutePlan::Reject { status, body } && status == 401
                && body@ == "Unauthorized"@),
            api_key_present && auth is Unauthorized ==> (p matches RoutePlan::Reject {
                status,
                body,
            } && status == 401 && body@ == "Unauthorized"@),
            api_key_present && auth is RateLimited ==> (p matches RoutePlan::Reject {
                status,
                body,
            } && status == 429 && body@ == "Rate limit exceeded"@),
            api_key_present && auth is StoreError ==> (p matches RoutePlan::Reject {
                status,
                body,
            } && status == 500 && body@ == "Internal Server Error"@),
            api_key_present && auth is Authorized && !(exists|i: int|
                0 <= i < self.backends@.len() && (#[trigger] self.backends@[i]).healthy) ==> (
            p matches RoutePlan::Reject { status, body } && status == 503 && body@
                == "No healthy backends available"@),
            p matches RoutePlan::Forward { label, url } ==> exists|i: int|
                0 <= i < self.backends@.len() && (#[trigger] self.backends@[i]).healthy
                    && self.backends@[i].config.label@ == label@ && self.backends@[i].config.url@
                    == url@,
            api_key_present && auth is Authorized ==> (match rpc_method {
                Some(m) => match spec_route_for_from(self.method_routes@, m@, 0) {
                    Some(l) => match spec_find_labeled(self.backends@, l, 0) {
                        Some(bi) => self.backends@[bi].healthy ==> (p matches RoutePlan::Forward {
                            label,
                            url,
                        } && label@ == self.backends@[bi].config.label@ && url@
                            == self.backends@[bi].config.url@),
                        None => true,
                    },
                    None => true,
                },
                None => true,
            }),
    {
        if !api_key_present {
            return RoutePlan::Reject {
                status: STATUS_UNAUTHORIZED,
                body: String::from_str("Unauthorized"),
            };
        }
        match auth {
            AuthOutcome::Unauthorized => RoutePlan::Reject {
                status: STATUS_UNAUTHORIZED,
                body: String::from_str("Unauthorized"),
            },
            AuthOutcome::RateLimited => RoutePlan::Reject {
                status: STATUS_TOO_MANY_REQUESTS,
                body: String::from_str("Rate limit exceeded"),
            },
            AuthOutcome::StoreError(_) => RoutePlan::Reject {
                status: STATUS_INTERNAL_SERVER_ERROR,
                body: String::from_str("Internal Server Error"),
            },
            AuthOutcome::Authorized(_) => {
                match self.select_backend(rpc_method) {
                    Some((label, url)) => RoutePlan::Forward { label, url },
                    None => RoutePlan::Reject {
                        status: STATUS_SERVICE_UNAVAILABLE,
                        body: String::from_str("No healthy backends available"),
                    },
                }
            },
        }
    }

    /// The WebSocket upgrade's decision, the analogue of
    /// `plan_proxy_request`: missing or unknown keys answer 401 before any
    /// backend is consulted, the rate limit answers 429, a store failure
    /// 500, and an empty eligible set (healthy with a WebSocket origin)
    /// 503; otherwise the session is bridged to a selected eligible
    /// backend's WebSocket origin.
    pub fn plan_ws_request(&self, api_key_present: bool, auth: &AuthOutcome) -> (p: RoutePlan)
        requires
            self.backends@.len() <= 0xFFFF_FFFF,
        ensures
            p matches RoutePlan::Reject { status, .. } ==> (status == 401 || status == 429
                || status == 500 || status == 503),
            p is Forward <==> (api_key_present && auth is Authorized && exists|i: int|
                0 <= i < self.backends@.len() && spec_eligible(
                    #[trigger] self.backends@[i],
                    true,
                )),
            (p matches RoutePlan::Reject { status, body } && status == 401) <==> (!api_key_present
                || (api_key_present && auth is Unauthorized)),
            !api_key_present ==> (p matches RoutePlan::Reject { status, body } && status == 401
                && body@ == "Unauthorized"@),
            api_key_present && auth is Unauthorized ==> (p matches RoutePlan::Reject {
                status,
                body,
            } && status == 401 && body@ == "Unauthorized"@),
            api_key_present && auth is RateLimited ==> (p matches RoutePlan::Reject {
                status,
                body,
            } && status == 429 && body@ == "Rate limit exceeded"@),
            api_key_present && auth is StoreError ==> (p matches RoutePlan::Reject {
                status,
                body,
            } && status == 500 && body@ == "Internal Server Error"@),
            api_key_present && auth is Authorized && !(exists|i: int|
                0 <= i < self.backends@.len() && spec_eligible(#[trigger] self.backends@[i], true))
                ==> (p matches RoutePlan::Reject { status, body } && status == 503 && body@
                == "No healthy WebSocket backends available"@),
            p matches RoutePlan::Forward { label, url } ==> exists|i: int|
                0 <= i < self.backends@.len() && spec_eligible(#[trigger] self.backends@[i], true)
                    && self.backends@[i].config.label@ == label@ && self.backends@[i].config.ws_url
                    == Some(url),
    {
        if !api_key_present {
            return RoutePlan::Reject {
                status: STATUS_UNAUTHORIZED,
                body: String::from_str("Unauthorized"),
            };
        }
        match auth {
            AuthOutcome::Unauthorized => RoutePlan::Reject {
                status: STATUS_UNAUTHORIZED,
                body: String::from_str("Unauthorized"),
            },
            AuthOutcome::RateLimited => RoutePlan::Reject {
                status: STATUS_TOO_MANY_REQUESTS,
                body: String::from_str("Rate limit exceeded"),
            },
            AuthOutcome::StoreError(_) => RoutePlan::Reject {
                status: STATUS_INTERNAL_SERVER_ERROR,
                body: String::from_str("Internal Server Error"),
            },
            AuthOutcome::Authorized(_) => {
                match self.select_ws_backend() {
                    Some((label, url)) => RoutePlan::Forward { label, url },
                    None => RoutePlan::Reject {
                        status: STATUS_SERVICE_UNAVAILABLE,
                        body: String::from_str("No healthy WebSocket backends available"),
                    },
                }
            },
        }
    }
}

// ---------------------------------------------------------------------
// Mapping the forward's outcome to the response.
// ---------------------------------------------------------------------

/// How forwarding a request to the chosen upstream ended.
#[derive(Debug)]
pub enum ForwardOutcome {
    /// The upstream answered; its status, headers, and body pass through.
    Replied { status: u16 },
    /// The transport failed before an answer arrived.
    TransportError { detail: String },
    /// The forward deadline expired.
    TimedOut,
}

/// The status and body the client receives for each forward outcome: an
/// upstream answer passes through unchanged (no body of ours), a
/// transport failure answers 502, an expired deadline 504.
pub fn forward_response_status(outcome: ForwardOutcome, timeout_secs: u64) -> (r: (
    u16,
    Option<String>,
))
    ensures
        outcome matches ForwardOutcome::Replied { status } ==> r.0 == status && r.1 is None,
        outcome matches ForwardOutcome::TransportError { detail } ==> r.0 == 502 && (r.1
            matches Some(b) && b@ == "Proxy error: "@ + detail@),
        outcome is TimedOut ==> r.0 == 504 && (r.1 matches Some(b) && b@
            == "Upstream request timed out after "@ + spec_u64_string(timeout_secs as int)
            + "s"@),
{
    match outcome {
        ForwardOutcome::Replied { status } => (status, None),
        ForwardOutcome::TransportError { detail } => {
            let mut b = String::from_str("Proxy error: ");
            b.append(detail.as_str());
            (STATUS_BAD_GATEWAY, Some(b))
        },
        ForwardOutcome::TimedOut => {
            let mut b = String::from_str("Upstream request timed out after ");
            let num = u64_to_string(timeout_secs);
            b.append(num.as_str());
            b.append("s");
            (STATUS_GATEWAY_TIMEOUT, Some(b))
        },
    }
}

// ---------------------------------------------------------------------
// The health report.
// ---------------------------------------------------------------------

/// One upstream's entry in the health report.
#[derive(Debug)]
pub struct BackendHealth {
    pub label: String,
    pub healthy: bool,
    pub last_check: Option<u64>,
    pub consecutive_failures: u32,
    pub consecutive_successes: u32,
    pub last_error: Option<String>,
}

/// The health report: overall status and one entry per upstream.
#[derive(Debug)]
pub struct HealthResponse {
    pub overall_status: String,
    pub backends: Vec<BackendHealth>,
}

/// Whether report entry `i` faithfully renders the record of upstream `i`.
pub open spec fn spec_report_entry_matches(
    b: BackendHealth,
    label: Seq<char>,
    st: BackendHealthStatus,
) -> bool {
    &&& b.label@ == label
    &&& b.healthy == st.healthy
    &&& b.last_check == st.last_check_time
    &&& b.consecutive_failures == st.consecutive_failures
    &&& b.consecutive_successes == st.consecutive_successes
    &&& b.last_error == st.last_error
}

/// Builds the health report for a routing table: one entry per upstream in
/// configuration order (an upstream the monitor has not recorded yet
/// reports the optimistic default), and `overall_status` is `healthy`
/// exactly when some upstream's record is healthy.
pub fn health_report(table: &RouterState, health: &HealthState) -> (r: HealthResponse)
    requires
        health.wf(),
    ensures
        r.backends@.len() == table.backends@.len(),
        forall|i: int| 0 <= i < table.backends@.len() ==> spec_report_entry_matches(
            #[trigger] r.backends@[i],
            table.backends@[i].config.label@,
            spec_carried_status(health.as_map(), table.backends@[i].config.label@),
        ),
        (r.overall_status@ == "healthy"@) <==> (exists|i: int|
            0 <= i < table.backends@.len() && spec_carried_status(
                health.as_map(),
                (#[trigger] table.backends@[i]).config.label@,
            ).healthy),
        r.overall_status@ == "healthy"@ || r.overall_status@ == "unhealthy"@,
{
    let n = table.backends.len();
    let mut entries: Vec<BackendHealth> = Vec::new();
    let mut any_healthy = false;
    let mut i: usize = 0;
    while i < n
        invariant
            0 <= i <= n,
            n == table.backends@.len(),
            health.wf(),
            entries@.len() == i,
            forall|k: int| 0 <= k < i ==> spec_report_entry_matches(
                #[trigger] entries@[k],
                table.backends@[k].config.label@,
                spec_carried_status(health.as_map(), table.backends@[k].config.label@),
            ),
            any_healthy <==> (exists|k: int|
                0 <= k < i && spec_carried_status(
                    health.as_map(),
                    (#[trigger] table.backends@[k]).config.label@,
                ).healthy),
        decreases n - i,
    {
        let label = &table.backends[i].config.label;
        let status = match health.get_status(label.as_str()) {
            Some(st) => st,
            None => BackendHealthStatus::default(),
        };
        if status.healthy {
            any_healthy = true;
            assert(spec_carried_status(
                health.as_map(),
                table.backends@[i as int].config.label@,
            ).healthy);
        }
        let last_error = match &status.last_error {
            Some(e) => Some(e.clone()),
            None => None,
        };
        entries.push(BackendHealth {
            label: label.clone(),
            healthy: status.healthy,
            last_check: status.last_check_time,
            consecutive_failures: status.consecutive_failures,
            consecutive_successes: status.consecutive_successes,
            last_error,
        });
        i = i + 1;
    }
    let overall_status = if any_healthy {
        String::from_str("healthy")
    } else {
        String::from_str("unhealthy")
    };
    proof {
        reveal_strlit("healthy");
        reveal_strlit("unhealthy");
        assert(("healthy")@.len() == 7);
        assert(("unhealthy")@.len() == 9);
    }
    HealthResponse { overall_status, backends: entries }
}

// ---------------------------------------------------------------------
// The WebSocket bridge's relay rule.
// ---------------------------------------------------------------------

/// A WebSocket frame as the bridge sees it.
#[derive(Debug)]
pub enum WsFrame {
    Text(String),
    Binary(Vec<u8>),
    Ping(Vec<u8>),
    Pong(Vec<u8>),
    Close,
}

/// The bridge's per-frame rule for either direction: Text, Binary, Ping,
/// and Pong frames are relayed verbatim; a Close frame ends the
/// direction and relays nothing.
pub fn ws_relay_action(frame: WsFrame) -> (r: Option<WsFrame>)
    ensures
        frame is Close <==> r is None,
        !(frame is Close) ==> r == Some(frame),
{
    match frame {
        WsFrame::Close => None,
        other => Some(other),
    }
}

} // verus!
