//! The routing table and its selection algorithms: weighted draws over the
//! eligible upstreams, method-pinned overrides with health-aware fallback,
//! and the facts that make the draw fair and health-respecting.
use vstd::prelude::*;
use vstd::set_lib::lemma_int_range;
use vstd::set_lib::set_int_range;
use rand::RngExt;

use crate::config::Backend;
use crate::config::HealthCheckConfig;
use crate::config::MethodRoute;
use crate::strutil::eq_str;

verus! {

/// A configured upstream together with its published health bit. The bit
/// is written by the health monitor and read by every selection.
#[derive(Debug)]
pub struct RuntimeBackend {
    pub config: Backend,
    pub healthy: bool,
}

impl Clone for RuntimeBackend {
    fn clone(&self) -> (res: Self)
        ensures
            res == *self,
    {
        RuntimeBackend { config: self.config.clone(), healthy: self.healthy }
    }
}

/// An immutable snapshot of the routing state: upstreams in configuration
/// order, method overrides, and the timeouts the handlers need. Replaced
/// wholesale on reload, never edited in place.
#[derive(Debug)]
pub struct RouterState {
    pub backends: Vec<RuntimeBackend>,
    pub method_routes: Vec<MethodRoute>,
    pub proxy_timeout_secs: u64,
    pub health_check_config: HealthCheckConfig,
}

/// The character-sequence view of an optional method name.
pub open spec fn spec_opt_str_view(m: Option<&str>) -> Option<Seq<char>> {
    match m {
        Some(s) => Some(s@),
        None => None,
    }
}

/// Whether a backend may serve a request: it must be healthy, and for a
/// WebSocket request it must also have a WebSocket origin configured.
pub open spec fn spec_eligible(b: RuntimeBackend, ws: bool) -> bool {
    b.healthy && (ws ==> b.config.ws_url is Some)
}

/// Total weight of the eligible backends at indices `i..`.
pub open spec fn spec_weight_from(bs: Seq<RuntimeBackend>, ws: bool, i: int) -> int
    decreases bs.len() - i,
{
    if i < 0 || i >= bs.len() {
        0
    } else {
        (if spec_eligible(bs[i], ws) {
            bs[i].config.weight as int
        } else {
            0
        }) + spec_weight_from(bs, ws, i + 1)
    }
}

/// Total weight of the eligible backends at indices `i..k`.
pub open spec fn spec_weight_range(bs: Seq<RuntimeBackend>, ws: bool, i: int, k: int) -> int
    decreases k - i,
{
    if i < 0 || i >= k {
        0
    } else {
        (if spec_eligible(bs[i], ws) {
            bs[i].config.weight as int
        } else {
            0
        }) + spec_weight_range(bs, ws, i + 1, k)
    }
}

/// The cumulative walk: starting at index `i` with residual draw `r`, the
/// first eligible backend whose weight exceeds the residual wins;
/// `bs.len()` is the sentinel for a draw past the total weight.
pub open spec fn spec_pick_from(bs: Seq<RuntimeBackend>, ws: bool, i: int, r: int) -> int
    decreases bs.len() - i,
{
    if i < 0 || i >= bs.len() {
        bs.len() as int
    } else if spec_eligible(bs[i], ws) {
        if r < bs[i].config.weight {
            i
        } else {
            spec_pick_from(bs, ws, i + 1, r - bs[i].config.weight)
        }
    } else {
        spec_pick_from(bs, ws, i + 1, r)
    }
}

pub proof fn lemma_weight_from_nonneg(bs: Seq<RuntimeBackend>, ws: bool, i: int)
    ensures
        spec_weight_from(bs, ws, i) >= 0,
    decreases bs.len() - i,
{
    if 0 <= i < bs.len() {
        lemma_weight_from_nonneg(bs, ws, i + 1);
    }
}

pub proof fn lemma_weight_range_nonneg(bs: Seq<RuntimeBackend>, ws: bool, i: int, k: int)
    ensures
        spec_weight_range(bs, ws, i, k) >= 0,
    decreases k - i,
{
    if 0 <= i < k {
        lemma_weight_range_nonneg(bs, ws, i + 1, k);
    }
}

/// The total from `i` splits at any `k` between `i` and the end.
pub proof fn lemma_weight_split(bs: Seq<RuntimeBackend>, ws: bool, i: int, k: int)
    requires
        0 <= i <= k <= bs.len(),
    ensures
        spec_weight_from(bs, ws, i) == spec_weight_range(bs, ws, i, k) + spec_weight_from(
            bs,
            ws,
            k,
        ),
    decreases k - i,
{
    if i < k {
        lemma_weight_split(bs, ws, i + 1, k);
    }
}

/// A draw below the residual total lands on an eligible backend at or
/// after the current index.
pub proof fn lemma_pick_valid(bs: Seq<RuntimeBackend>, ws: bool, i: int, r: int)
    requires
        0 <= i <= bs.len(),
        0 <= r < spec_weight_from(bs, ws, i),
    ensures
        i <= spec_pick_from(bs, ws, i, r) < bs.len(),
        spec_eligible(bs[spec_pick_from(bs, ws, i, r)], ws),
    decreases bs.len() - i,
{
    if i < bs.len() {
        if spec_eligible(bs[i], ws) {
            if r >= bs[i].config.weight {
                lemma_pick_valid(bs, ws, i + 1, r - bs[i].config.weight);
            }
        } else {
            lemma_pick_valid(bs, ws, i + 1, r);
        }
    }
}

/// The pick never lands before the start index.
pub proof fn lemma_pick_lower_bound(bs: Seq<RuntimeBackend>, ws: bool, i: int, r: int)
    ensures
        spec_pick_from(bs, ws, i, r) >= i || spec_pick_from(bs, ws, i, r) == bs.len(),
    decreases bs.len() - i,
{
    if 0 <= i < bs.len() {
        if spec_eligible(bs[i], ws) {
            if r >= bs[i].config.weight {
                lemma_pick_lower_bound(bs, ws, i + 1, r - bs[i].config.weight);
            }
        } else {
            lemma_pick_lower_bound(bs, ws, i + 1, r);
        }
    }
}

/// The draw lands on eligible backend `k` exactly when it falls in `k`'s
/// cumulative-weight interval.
pub proof fn lemma_pick_iff_interval(bs: Seq<RuntimeBackend>, ws: bool, i: int, r: int, k: int)
    requires
        0 <= i <= k < bs.len(),
        spec_eligible(bs[k], ws),
        r >= 0,
    ensures
        spec_pick_from(bs, ws, i, r) == k <==> spec_weight_range(bs, ws, i, k) <= r
            < spec_weight_range(bs, ws, i, k) + bs[k].config.weight,
    decreases k - i,
{
    if i == k {
        if r >= bs[i].config.weight {
            lemma_pick_lower_bound(bs, ws, i + 1, r - bs[i].config.weight);
        }
    } else {
        if spec_eligible(bs[i], ws) {
            if r < bs[i].config.weight {
                lemma_weight_range_nonneg(bs, ws, i + 1, k);
            } else {
                lemma_pick_iff_interval(bs, ws, i + 1, r - bs[i].config.weight, k);
            }
        } else {
            lemma_pick_iff_interval(bs, ws, i + 1, r, k);
        }
    }
}

/// Fairness of the weighted draw: out of the `W` equally likely draws
/// (`W` the total eligible weight), each eligible backend wins exactly
/// its own weight's worth, so selection frequencies converge to
/// `w_i / W` over the eligible set.
pub proof fn lemma_weighted_draw_density(bs: Seq<RuntimeBackend>, ws: bool, k: int)
    requires
        0 <= k < bs.len(),
        spec_eligible(bs[k], ws),
    ensures
        Set::new(
            |r: int| 0 <= r < spec_weight_from(bs, ws, 0) && spec_pick_from(bs, ws, 0, r) == k,
        ).len() == bs[k].config.weight as int,
        Set::new(
            |r: int| 0 <= r < spec_weight_from(bs, ws, 0) && spec_pick_from(bs, ws, 0, r) == k,
        ).finite(),
{
    let lo = spec_weight_range(bs, ws, 0, k);
    let hi = lo + bs[k].config.weight;
    let w = Set::new(
        |r: int| 0 <= r < spec_weight_from(bs, ws, 0) && spec_pick_from(bs, ws, 0, r) == k,
    );
    lemma_weight_range_nonneg(bs, ws, 0, k);
    lemma_weight_split(bs, ws, 0, k);
    assert(spec_weight_from(bs, ws, k) >= bs[k].config.weight) by {
        lemma_weight_from_nonneg(bs, ws, k + 1);
    }
    assert forall|r: int| w.contains(r) implies set_int_range(lo, hi).contains(r) by {
        lemma_pick_iff_interval(bs, ws, 0, r, k);
    }
    assert forall|r: int| set_int_range(lo, hi).contains(r) implies w.contains(r) by {
        lemma_pick_iff_interval(bs, ws, 0, r, k);
    }
    assert(w =~= set_int_range(lo, hi));
    lemma_int_range(lo, hi);
}

/// An upstream whose health bit is off is never selected by the weighted
/// walk, whatever the draw.
pub proof fn lemma_unhealthy_never_picked(bs: Seq<RuntimeBackend>, ws: bool, r: int, k: int)
    requires
        0 <= r < spec_weight_from(bs, ws, 0),
        0 <= k < bs.len(),
        !bs[k].healthy,
    ensures
        spec_pick_from(bs, ws, 0, r) != k,
{
    lemma_pick_valid(bs, ws, 0, r);
}

/// The label the override table pins `m` to, scanning from entry `i`.
pub open spec fn spec_route_for_from(routes: Seq<MethodRoute>, m: Seq<char>, i: int) -> Option<
    Seq<char>,
>
    decreases routes.len() - i,
{
    if i < 0 || i >= routes.len() {
        None
    } else if routes[i].method@ == m {
        Some(routes[i].label@)
    } else {
        spec_route_for_from(routes, m, i + 1)
    }
}

/// The first backend carrying label `l`, scanning from index `i`.
pub open spec fn spec_find_labeled(bs: Seq<RuntimeBackend>, l: Seq<char>, i: int) -> Option<int>
    decreases bs.len() - i,
{
    if i < 0 || i >= bs.len() {
        None
    } else if bs[i].config.label@ == l {
        Some(i)
    } else {
        spec_find_labeled(bs, l, i + 1)
    }
}

/// A label is found exactly when some backend carries it.
pub proof fn lemma_find_labeled_some(bs: Seq<RuntimeBackend>, l: Seq<char>, i: int)
    requires
        0 <= i,
    ensures
        spec_find_labeled(bs, l, i) is Some <==> exists|j: int|
            i <= j < bs.len() && (#[trigger] bs[j]).config.label@ == l,
    decreases bs.len() - i,
{
    if i < bs.len() {
        if bs[i].config.label@ == l {
            assert(bs[i].config.label@ == l);
        } else {
            lemma_find_labeled_some(bs, l, i + 1);
            if exists|j: int| i <= j < bs.len() && (#[trigger] bs[j]).config.label@ == l {
                let j = choose|j: int| i <= j < bs.len() && (#[trigger] bs[j]).config.label@ == l;
                assert(i + 1 <= j < bs.len() && bs[j].config.label@ == l);
            }
        }
    }
}

/// Sums the weights of the eligible backends.
fn total_eligible_weight(backends: &Vec<RuntimeBackend>, ws: bool) -> (t: u64)
    requires
        backends@.len() <= 0xFFFF_FFFF,
    ensures
        t == spec_weight_from(backends@, ws, 0),
{
    let n = backends.len();
    let mut acc: u64 = 0;
    let mut i: usize = 0;
    while i < n
        invariant
            0 <= i <= n,
            n == backends@.len(),
            n <= 0xFFFF_FFFF,
            acc == spec_weight_range(backends@, ws, 0, i as int),
            acc <= i * 0xFFFF_FFFFu64,
        decreases n - i,
    {
        let b = &backends[i];
        let eligible = b.healthy && (!ws || b.ws_capable());
        proof {
            lemma_weight_range_snoc(backends@, ws, 0, i as int);
        }
        if eligible {
            acc = acc + (b.config.weight as u64);
        }
        i = i + 1;
    }
    proof {
        lemma_weight_split(backends@, ws, 0, n as int);
    }
    acc
}

/// Appending index `k` to a weight range adds `k`'s contribution.
proof fn lemma_weight_range_snoc(bs: Seq<RuntimeBackend>, ws: bool, i: int, k: int)
    requires
        0 <= i <= k < bs.len(),
    ensures
        spec_weight_range(bs, ws, i, k + 1) == spec_weight_range(bs, ws, i, k) + (if spec_eligible(
            bs[k],
            ws,
        ) {
            bs[k].config.weight as int
        } else {
            0
        }),
    decreases k - i,
{
    if i < k {
        lemma_weight_range_snoc(bs, ws, i + 1, k);
    } else {
        assert(spec_weight_range(bs, ws, i, k) == 0);
        assert(spec_weight_range(bs, ws, k + 1, k + 1) == 0);
        assert(spec_weight_range(bs, ws, k, k + 1) == (if spec_eligible(bs[k], ws) {
            bs[k].config.weight as int
        } else {
            0
        }) + spec_weight_range(bs, ws, k + 1, k + 1));
    }
}

impl RuntimeBackend {
    /// Whether a WebSocket origin is configured.
    pub fn ws_capable(&self) -> (r: bool)
        ensures
            r == (self.config.ws_url is Some),
    {
        match &self.config.ws_url {
            Some(_) => true,
            None => false,
        }
    }
}

/// Walks the eligible backends in configuration order and returns the
/// index the draw lands on.
fn pick_eligible(backends: &Vec<RuntimeBackend>, ws: bool, draw: u64) -> (idx: usize)
    requires
        draw < spec_weight_from(backends@, ws, 0),
    ensures
        idx == spec_pick_from(backends@, ws, 0, draw as int),
        idx < backends@.len(),
        spec_eligible(backends@[idx as int], ws),
{
    proof {
        lemma_pick_valid(backends@, ws, 0, draw as int);
    }
    let n = backends.len();
    let mut i: usize = 0;
    let mut rem: u64 = draw;
    while i < n
        invariant
            0 <= i <= n,
            n == backends@.len(),
            0 <= rem < spec_weight_from(backends@, ws, i as int),
            spec_pick_from(backends@, ws, 0, draw as int) == spec_pick_from(
                backends@,
                ws,
                i as int,
                rem as int,
            ),
            spec_pick_from(backends@, ws, 0, draw as int) < n,
            spec_eligible(backends@[spec_pick_from(backends@, ws, 0, draw as int)], ws),
        decreases n - i,
    {
        let b = &backends[i];
        let eligible = b.healthy && (!ws || b.ws_capable());
        if eligible {
            if rem < b.config.weight as u64 {
                return i;
            }
            rem = rem - b.config.weight as u64;
        }
        i = i + 1;
    }
    proof {
        assert(spec_weight_from(backends@, ws, n as int) == 0);
        assert(false);
    }
    0
}

/// The least index of an eligible backend at or after `i`, if any.
pub open spec fn spec_first_eligible_from(bs: Seq<RuntimeBackend>, ws: bool, i: int) -> Option<
    int,
>
    decreases bs.len() - i,
{
    if i < 0 || i >= bs.len() {
        None
    } else if spec_eligible(bs[i], ws) {
        Some(i)
    } else {
        spec_first_eligible_from(bs, ws, i + 1)
    }
}

proof fn lemma_first_eligible_skip(bs: Seq<RuntimeBackend>, ws: bool, i: int)
    requires
        0 <= i <= bs.len(),
        forall|k: int| 0 <= k < i ==> !spec_eligible(#[trigger] bs[k], ws),
    ensures
        spec_first_eligible_from(bs, ws, 0) == spec_first_eligible_from(bs, ws, i),
    decreases i,
{
    if i > 0 {
        lemma_first_eligible_skip(bs, ws, i - 1);
    }
}

/// The first eligible backend in configuration order, if any.
fn first_eligible(backends: &Vec<RuntimeBackend>, ws: bool) -> (r: Option<usize>)
    ensures
        r matches Some(i) ==> i < backends@.len() && spec_eligible(backends@[i as int], ws)
            && spec_first_eligible_from(backends@, ws, 0) == Some(i as int),
        r is None ==> forall|i: int|
            0 <= i < backends@.len() ==> !spec_eligible(#[trigger] backends@[i], ws),
        r is None ==> spec_first_eligible_from(backends@, ws, 0) is None,
{
    let n = backends.len();
    let mut i: usize = 0;
    while i < n
        invariant
            0 <= i <= n,
            n == backends@.len(),
            forall|k: int| 0 <= k < i ==> !spec_eligible(#[trigger] backends@[k], ws),
        decreases n - i,
    {
        let b = &backends[i];
        if b.healthy && (!ws || b.ws_capable()) {
            proof {
                lemma_first_eligible_skip(backends@, ws, i as int);
            }
            return Some(i);
        }
        i = i + 1;
    }
    proof {
        lemma_first_eligible_skip(backends@, ws, n as int);
    }
    None
}

/// Finds the override for `m`, if any: the index of the first matching
/// route.
fn find_route(routes: &Vec<MethodRoute>, m: &str) -> (r: Option<usize>)
    ensures
        r matches Some(t) ==> t < routes@.len() && routes@[t as int].method@ == m@
            && spec_route_for_from(routes@, m@, 0) == Some(routes@[t as int].label@),
        r is None ==> spec_route_for_from(routes@, m@, 0) is None,
{
    let n = routes.len();
    let mut i: usize = 0;
    while i < n
        invariant
            0 <= i <= n,
            n == routes@.len(),
            spec_route_for_from(routes@, m@, 0) == spec_route_for_from(routes@, m@, i as int),
        decreases n - i,
    {
        if eq_str(routes[i].method.as_str(), m) {
            return Some(i);
        }
        i = i + 1;
    }
    None
}

/// Finds the first backend carrying label `l`, if any.
fn find_labeled(backends: &Vec<RuntimeBackend>, l: &str) -> (r: Option<usize>)
    ensures
        r matches Some(i) ==> spec_find_labeled(backends@, l@, 0) == Some(i as int)
            && i < backends@.len() && backends@[i as int].config.label@ == l@,
        r is None ==> spec_find_labeled(backends@, l@, 0) is None,
{
    let n = backends.len();
    let mut i: usize = 0;
    while i < n
        invariant
            0 <= i <= n,
            n == backends@.len(),
            spec_find_labeled(backends@, l@, 0) == spec_find_labeled(backends@, l@, i as int),
        decreases n - i,
    {
        if eq_str(backends[i].config.label.as_str(), l) {
            return Some(i);
        }
        i = i + 1;
    }
    None
}

/// Relies on rand: `rand::rng().random_range(0..n)` returns a value drawn
/// uniformly from `0..n`; it panics only on an empty range, which the
/// precondition rules out.
#[verifier::external_body]
fn draw_below(n: u64) -> (r: u64)
    requires
        n > 0,
    ensures
        r < n,
{
    rand::rng().random_range(0..n)
}

impl RouterState {
    /// Every method override names the label of some backend in the table.
    pub open spec fn wf(&self) -> bool {
        forall|t: int|
            0 <= t < self.method_routes@.len() ==> spec_find_labeled(
                self.backends@,
                (#[trigger] self.method_routes@[t]).label@,
                0,
            ) is Some
    }

    /// The backend a method override pins this request to, when that
    /// backend is healthy; an unhealthy pinned backend demotes the
    /// request to the weighted draw.
    pub open spec fn spec_healthy_override(&self, rpc_method: Option<Seq<char>>) -> Option<int> {
        match rpc_method {
            None => None,
            Some(m) => match spec_route_for_from(self.method_routes@, m, 0) {
                None => None,
                Some(l) => match spec_find_labeled(self.backends@, l, 0) {
                    None => None,
                    Some(bi) => if self.backends@[bi].healthy {
                        Some(bi)
                    } else {
                        None
                    },
                },
            },
        }
    }

    /// Selects a backend for a unary request. A method pinned to a healthy
    /// backend goes there; otherwise a weighted draw over the healthy set
    /// decides: the result is the cumulative-walk pick of some draw below
    /// the total weight. An empty healthy set yields nothing, and a healthy
    /// set whose total weight is zero falls back to the first healthy
    /// backend in configuration order.
    pub fn select_backend(&self, rpc_method: Option<&str>) -> (r: Option<(String, String)>)
        requires
            self.backends@.len() <= 0xFFFF_FFFF,
        ensures
            r is Some <==> exists|i: int|
                0 <= i < self.backends@.len() && (#[trigger] self.backends@[i]).healthy,
            r matches Some(sel) ==> exists|i: int|
                0 <= i < self.backends@.len() && (#[trigger] self.backends@[i]).healthy
                    && self.backends@[i].config.label@ == sel.0@ && self.backends@[i].config.url@
                    == sel.1@,
            self.spec_healthy_override(spec_opt_str_view(rpc_method)) matches Some(bi) ==> (
            r matches Some(sel) && sel.0@ == self.backends@[bi].config.label@ && sel.1@
                == self.backends@[bi].config.url@),
            (self.spec_healthy_override(spec_opt_str_view(rpc_method)) is None
                && spec_weight_from(self.backends@, false, 0) == 0 && spec_first_eligible_from(
                self.backends@,
                false,
                0,
            ) is Some) ==> (r matches Some(sel) && sel.0@ == self.backends@[
                spec_first_eligible_from(self.backends@, false, 0)->Some_0
            ].config.label@ && sel.1@ == self.backends@[
                spec_first_eligible_from(self.backends@, false, 0)->Some_0
            ].config.url@),
            self.spec_healthy_override(spec_opt_str_view(rpc_method)) is None
                && spec_weight_from(self.backends@, false, 0) > 0 ==> (r matches Some(sel)
                && exists|d: int|
                0 <= d < spec_weight_from(self.backends@, false, 0) && sel.0@ == self.backends@[
                    spec_pick_from(self.backends@, false, 0, d)
                ].config.label@ && sel.1@ == self.backends@[
                    spec_pick_from(self.backends@, false, 0, d)
                ].config.url@),
    {
        let ghost bs = self.backends@;
        if let Some(m) = rpc_method {
            if let Some(t) = find_route(&self.method_routes, m) {
                let label = &self.method_routes[t].label;
                if let Some(bi) = find_labeled(&self.backends, label.as_str()) {
                    if self.backends[bi].healthy {
                        let b = &self.backends[bi];
                        return Some((b.config.label.clone(), b.config.url.clone()));
                    }
                }
            }
        }
        let total = total_eligible_weight(&self.backends, false);
        if total == 0 {
            match first_eligible(&self.backends, false) {
                Some(i) => {
                    let b = &self.backends[i];
                    return Some((b.config.label.clone(), b.config.url.clone()));
                },
                None => {
                    return None;
                },
            }
        }
        let draw = draw_below(total);
        let idx = pick_eligible(&self.backends, false, draw);
        let b = &self.backends[idx];
        let sel = (b.config.label.clone(), b.config.url.clone());
        proof {
            let d = draw as int;
            assert(0 <= d < spec_weight_from(self.backends@, false, 0) && sel.0@
                == self.backends@[spec_pick_from(self.backends@, false, 0, d)].config.label@
                && sel.1@ == self.backends@[
                spec_pick_from(self.backends@, false, 0, d)
            ].config.url@);
        }
        Some(sel)
    }

    /// Selects a backend for a WebSocket session: a weighted draw over the
    /// healthy backends that have a WebSocket origin; method overrides do
    /// not apply. The same selection rule as for unary requests: the
    /// cumulative-walk pick of some draw below the total weight, and the
    /// first eligible backend when the total weight is zero.
    pub fn select_ws_backend(&self) -> (r: Option<(String, String)>)
        requires
            self.backends@.len() <= 0xFFFF_FFFF,
        ensures
            r is Some <==> exists|i: int|
                0 <= i < self.backends@.len() && spec_eligible(#[trigger] self.backends@[i], true),
            r matches Some(sel) ==> exists|i: int|
                0 <= i < self.backends@.len() && spec_eligible(#[trigger] self.backends@[i], true)
                    && self.backends@[i].config.label@ == sel.0@
                    && self.backends@[i].config.ws_url == Some(sel.1),
            (spec_weight_from(self.backends@, true, 0) == 0 && spec_first_eligible_from(
                self.backends@,
                true,
                0,
            ) is Some) ==> (r matches Some(sel) && sel.0@ == self.backends@[
                spec_first_eligible_from(self.backends@, true, 0)->Some_0
            ].config.label@ && self.backends@[
                spec_first_eligible_from(self.backends@, true, 0)->Some_0
            ].config.ws_url == Some(sel.1)),
            spec_weight_from(self.backends@, true, 0) > 0 ==> (r matches Some(sel) && exists|d: int|
                0 <= d < spec_weight_from(self.backends@, true, 0) && sel.0@ == self.backends@[
                    spec_pick_from(self.backends@, true, 0, d)
                ].config.label@ && self.backends@[
                    spec_pick_from(self.backends@, true, 0, d)
                ].config.ws_url == Some(sel.1)),
    {
        let total = total_eligible_weight(&self.backends, true);
        if total == 0 {
            match first_eligible(&self.backends, true) {
                Some(i) => {
                    let b = &self.backends[i];
                    match &b.config.ws_url {
                        Some(u) => {
                            return Some((b.config.label.clone(), u.clone()));
                        },
                        None => {
                            proof {
                                assert(false);
                            }
                            return None;
                        },
                    }
                },
                None => {
                    return None;
                },
            }
        }
        let draw = draw_below(total);
        let idx = pick_eligible(&self.backends, true, draw);
        let b = &self.backends[idx];
        match &b.config.ws_url {
            Some(u) => {
                let sel = (b.config.label.clone(), u.clone());
                proof {
                    let d = draw as int;
                    assert(0 <= d < spec_weight_from(self.backends@, true, 0) && sel.0@
                        == self.backends@[
                        spec_pick_from(self.backends@, true, 0, d)
                    ].config.label@ && self.backends@[
                        spec_pick_from(self.backends@, true, 0, d)
                    ].config.ws_url == Some(sel.1));
                }
                Some(sel)
            },
            None => {
                proof {
                    assert(false);
                }
                None
            },
        }
    }
}

} // verus!
