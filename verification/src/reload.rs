//! The configuration supervisor's core: building a routing table from a
//! validated configuration while carrying health history over by label,
//! and applying a reload so that an invalid document leaves the previous
//! table in place.
use vstd::prelude::*;

use crate::config::Config;
use crate::config::ConfigError;
use crate::config::spec_valid_config;
use crate::health::BackendHealthStatus;
use crate::health::HealthEntry;
use crate::health::HealthState;
use crate::health::spec_carried_status;
use crate::routing::RouterState;
use crate::routing::RuntimeBackend;
use crate::routing::spec_find_labeled;

verus! {

/// What a freshly built table and health store satisfy: the table mirrors
/// the configuration (upstreams in order, overrides, timeouts), every
/// upstream's record is its old one when the label was already known and
/// the optimistic default otherwise, the published health bit agrees
/// with that record, and every override names a present label.
pub open spec fn spec_rebuilt_ok(
    c: Config,
    hist: Map<Seq<char>, BackendHealthStatus>,
    table: RouterState,
    h: HealthState,
) -> bool {
    &&& table.backends@.len() == c.backends@.len()
    &&& forall|i: int|
        0 <= i < c.backends@.len() ==> (#[trigger] table.backends@[i]).config == c.backends@[i]
            && table.backends@[i].healthy == spec_carried_status(
            hist,
            c.backends@[i].label@,
        ).healthy
    &&& table.method_routes@ == c.method_routes@
    &&& table.proxy_timeout_secs == c.proxy.timeout_secs
    &&& table.health_check_config == c.health_check
    &&& table.wf()
    &&& h.wf()
    &&& forall|i: int|
        0 <= i < c.backends@.len() ==> h.as_map().contains_key(
            (#[trigger] c.backends@[i]).label@,
        ) && h.as_map()[c.backends@[i].label@] == spec_carried_status(
            hist,
            c.backends@[i].label@,
        )
    &&& forall|k: Seq<char>| #[trigger]
        h.as_map().contains_key(k) ==> exists|i: int|
            0 <= i < c.backends@.len() && (#[trigger] c.backends@[i]).label@ == k
}

/// Builds the runtime table and the health store for a validated
/// configuration, carrying over the record of every label that `history`
/// already knows.
pub fn build_router_state(c: &Config, history: &HealthState) -> (r: (RouterState, HealthState))
    requires
        history.wf(),
        spec_valid_config(*c),
    ensures
        spec_rebuilt_ok(*c, history.as_map(), r.0, r.1),
{
    let n = c.backends.len();
    let mut backends: Vec<RuntimeBackend> = Vec::new();
    let mut entries: Vec<HealthEntry> = Vec::new();
    let mut i: usize = 0;
    while i < n
        invariant
            0 <= i <= n,
            n == c.backends@.len(),
            history.wf(),
            spec_valid_config(*c),
            backends@.len() == i,
            entries@.len() == i,
            forall|k: int| 0 <= k < i ==> (#[trigger] backends@[k]).config == c.backends@[k]
                && backends@[k].healthy == spec_carried_status(
                history.as_map(),
                c.backends@[k].label@,
            ).healthy,
            forall|k: int| 0 <= k < i ==> (#[trigger] entries@[k]).label@ == c.backends@[k].label@
                && entries@[k].status == spec_carried_status(
                history.as_map(),
                c.backends@[k].label@,
            ),
        decreases n - i,
    {
        let cfg = &c.backends[i];
        let status = match history.get_status(cfg.label.as_str()) {
            Some(st) => st,
            None => BackendHealthStatus::default(),
        };
        backends.push(RuntimeBackend { config: cfg.clone(), healthy: status.healthy });
        entries.push(HealthEntry { label: cfg.label.clone(), status });
        i = i + 1;
    }
    let mut routes = Vec::new();
    let mut t: usize = 0;
    while t < c.method_routes.len()
        invariant
            0 <= t <= c.method_routes@.len(),
            routes@ =~= c.method_routes@.take(t as int),
        decreases c.method_routes@.len() - t,
    {
        routes.push(c.method_routes[t].clone());
        proof {
            assert(routes@ =~= c.method_routes@.take(t as int + 1));
        }
        t = t + 1;
    }
    proof {
        assert(routes@ =~= c.method_routes@);
    }
    let health = HealthState { entries };
    let table = RouterState {
        backends,
        method_routes: routes,
        proxy_timeout_secs: c.proxy.timeout_secs,
        health_check_config: c.health_check.clone(),
    };
    proof {
        assert(health.wf()) by {
            assert forall|p: int, q: int| 0 <= p < q < health.entries@.len()
                implies health.entries@[p].label@ != health.entries@[q].label@ by {
                assert(c.backends@[p].label@ != c.backends@[q].label@);
            }
        }
        assert forall|k: int| 0 <= k < n
            implies health.as_map().contains_key((#[trigger] c.backends@[k]).label@)
                && health.as_map()[c.backends@[k].label@] == spec_carried_status(
                history.as_map(),
                c.backends@[k].label@,
            ) by {
            HealthState::lemma_entry_lookup(health.entries@, k);
        }
        assert forall|k: Seq<char>| #[trigger] health.as_map().contains_key(k)
            implies exists|i2: int| 0 <= i2 < c.backends@.len()
                && (#[trigger] c.backends@[i2]).label@ == k by {
            HealthState::lemma_entries_map_characterization(health.entries@);
            let w = choose|w: int|
                0 <= w < health.entries@.len() && health.entries@[w].label@ == k;
            assert(c.backends@[w].label@ == k);
        }
        assert(table.wf()) by {
            assert forall|r2: int| 0 <= r2 < table.method_routes@.len()
                implies spec_find_labeled(
                    table.backends@,
                    (#[trigger] table.method_routes@[r2]).label@,
                    0,
                ) is Some by {
                let l = table.method_routes@[r2].label@;
                assert(crate::config::spec_has_label(c.backends@, l));
                let j = choose|j: int|
                    0 <= j < c.backends@.len() && (#[trigger] c.backends@[j]).label@ == l;
                assert(table.backends@[j].config.label@ == l);
                crate::routing::lemma_find_labeled_some(table.backends@, l, 0);
            }
        }
    }
    (table, health)
}

/// Applies a reload: a configuration that failed to parse or validate
/// changes nothing, and a valid one replaces the table wholesale while
/// health history is carried over by label.
pub fn apply_reload(
    current: RouterState,
    current_health: HealthState,
    parsed: Result<Config, ConfigError>,
) -> (r: (RouterState, HealthState))
    requires
        current_health.wf(),
        parsed matches Ok(c) ==> spec_valid_config(c),
    ensures
        parsed is Err ==> r.0 == current && r.1 == current_health,
        parsed matches Ok(c) ==> spec_rebuilt_ok(c, current_health.as_map(), r.0, r.1),
{
    match parsed {
        Err(_) => (current, current_health),
        Ok(c) => build_router_state(&c, &current_health),
    }
}

/// Reloading with a configuration whose labels the history already knows
/// preserves every upstream's health record unchanged.
pub proof fn lemma_reload_preserves_history(
    c: Config,
    hist: Map<Seq<char>, BackendHealthStatus>,
    table: RouterState,
    h: HealthState,
)
    requires
        spec_rebuilt_ok(c, hist, table, h),
        forall|i: int|
            0 <= i < c.backends@.len() ==> hist.contains_key((#[trigger] c.backends@[i]).label@),
    ensures
        forall|i: int|
            0 <= i < c.backends@.len() ==> h.as_map().contains_key(
                (#[trigger] c.backends@[i]).label@,
            ) && h.as_map()[c.backends@[i].label@] == hist[c.backends@[i].label@],
{
}

} // verus!
