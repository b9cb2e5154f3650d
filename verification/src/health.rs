//! Per-upstream health: the hysteretic probe state machine and the shared
//! label-to-status table that the monitor writes and the report endpoint
//! reads.
use vstd::prelude::*;
use vstd::string::StringExecFns;

use crate::strutil::eq_str;
use crate::strutil::spec_u64_string;
use crate::strutil::u64_to_string;

verus! {

/// The rich health record kept for each upstream, keyed by its label.
/// `last_check_time` is a Unix timestamp in seconds.
#[derive(Debug)]
pub struct BackendHealthStatus {
    pub healthy: bool,
    pub last_check_time: Option<u64>,
    pub consecutive_failures: u32,
    pub consecutive_successes: u32,
    pub last_error: Option<String>,
}

impl Clone for BackendHealthStatus {
    fn clone(&self) -> (res: Self)
        ensures
            res == *self,
    {
        BackendHealthStatus {
            healthy: self.healthy,
            last_check_time: self.last_check_time,
            consecutive_failures: self.consecutive_failures,
            consecutive_successes: self.consecutive_successes,
            last_error: match &self.last_error {
                Some(e) => Some(e.clone()),
                None => None,
            },
        }
    }
}

/// The record a fresh upstream starts from.
pub open spec fn spec_default_status() -> BackendHealthStatus {
    BackendHealthStatus {
        healthy: true,
        last_check_time: None,
        consecutive_failures: 0,
        consecutive_successes: 0,
        last_error: None,
    }
}

impl Default for BackendHealthStatus {
    /// Upstreams start optimistic: healthy, with all counters at zero, so
    /// that the first request is not rejected before the first probe lands.
    fn default() -> (res: Self)
        ensures
            res == spec_default_status(),
    {
        BackendHealthStatus {
            healthy: true,
            last_check_time: None,
            consecutive_failures: 0,
            consecutive_successes: 0,
            last_error: None,
        }
    }
}

/// The health-state transition one probe causes: a success bumps the
/// success streak and recovers the upstream once the streak reaches
/// `success_threshold`; a failure bumps the failure streak and trips the
/// upstream once it reaches `failure_threshold`. The opposing streak
/// resets either way, and the check time is stamped with `now`.
pub open spec fn spec_apply_probe(
    status: BackendHealthStatus,
    result: Result<(), String>,
    failure_threshold: u32,
    success_threshold: u32,
    now: u64,
) -> BackendHealthStatus {
    match result {
        Ok(()) => BackendHealthStatus {
            healthy: if status.consecutive_successes + 1 >= success_threshold {
                true
            } else {
                status.healthy
            },
            last_check_time: Some(now),
            consecutive_failures: 0,
            consecutive_successes: (status.consecutive_successes + 1) as u32,
            last_error: None,
        },
        Err(e) => BackendHealthStatus {
            healthy: if status.consecutive_failures + 1 >= failure_threshold {
                false
            } else {
                status.healthy
            },
            last_check_time: Some(now),
            consecutive_failures: (status.consecutive_failures + 1) as u32,
            consecutive_successes: 0,
            last_error: Some(e),
        },
    }
}

/// Folds one probe outcome into an upstream's health record.
pub fn apply_probe_result(
    status: &BackendHealthStatus,
    result: Result<(), String>,
    failure_threshold: u32,
    success_threshold: u32,
    now: u64,
) -> (updated: BackendHealthStatus)
    requires
        status.consecutive_failures < u32::MAX,
        status.consecutive_successes < u32::MAX,
    ensures
        updated == spec_apply_probe(*status, result, failure_threshold, success_threshold, now),
{
    match result {
        Ok(()) => {
            let successes = status.consecutive_successes + 1;
            BackendHealthStatus {
                healthy: if successes >= success_threshold { true } else { status.healthy },
                last_check_time: Some(now),
                consecutive_failures: 0,
                consecutive_successes: successes,
                last_error: None,
            }
        },
        Err(e) => {
            let failures = status.consecutive_failures + 1;
            BackendHealthStatus {
                healthy: if failures >= failure_threshold { false } else { status.healthy },
                last_check_time: Some(now),
                consecutive_failures: failures,
                consecutive_successes: 0,
                last_error: Some(e),
            }
        },
    }
}

/// Hysteresis: when both thresholds are at least 2, a single probe
/// outcome arriving against no opposing streak never flips the published
/// health bit, whichever way it goes.
pub proof fn lemma_single_probe_never_flips(
    status: BackendHealthStatus,
    result: Result<(), String>,
    failure_threshold: u32,
    success_threshold: u32,
    now: u64,
)
    requires
        failure_threshold >= 2,
        success_threshold >= 2,
        status.healthy ==> status.consecutive_failures == 0,
        !status.healthy ==> status.consecutive_successes == 0,
        status.consecutive_failures < u32::MAX,
        status.consecutive_successes < u32::MAX,
    ensures
        spec_apply_probe(status, result, failure_threshold, success_threshold, now).healthy
            == status.healthy,
{
}

/// The record an upstream keeps across a reload: its old one when the
/// label was already known, a fresh optimistic one otherwise.
pub open spec fn spec_carried_status(
    old_map: Map<Seq<char>, BackendHealthStatus>,
    l: Seq<char>,
) -> BackendHealthStatus {
    if old_map.contains_key(l) {
        old_map[l]
    } else {
        spec_default_status()
    }
}

/// How the transport layer reported a probe.
#[derive(Debug)]
pub enum ProbeTransport {
    /// The upstream answered with a status code.
    Replied { status: u16 },
    /// The request failed before an answer arrived.
    Failed { detail: String },
    /// The probe deadline expired.
    TimedOut,
}

/// The probe decision: any 2xx answer is a success, everything else a
/// failure with a description; the body is not inspected.
pub fn classify_probe_response(transport: ProbeTransport, timeout_secs: u64) -> (r: Result<
    (),
    String,
>)
    ensures
        transport matches ProbeTransport::Replied { status } ==> (if 200 <= status < 300 {
            r == Ok::<(), String>(())
        } else {
            r matches Err(e) && e@ == "Health check returned status: "@ + spec_u64_string(
                status as int,
            )
        }),
        transport matches ProbeTransport::Failed { detail } ==> (r matches Err(e) && e@
            == "Health check request failed: "@ + detail@),
        transport is TimedOut ==> (r matches Err(e) && e@ == "Health check timed out after "@
            + spec_u64_string(timeout_secs as int) + "s"@),
{
    match transport {
        ProbeTransport::Replied { status } => {
            if 200 <= status && status < 300 {
                Ok(())
            } else {
                let mut e = String::from_str("Health check returned status: ");
                let num = u64_to_string(status as u64);
                e.append(num.as_str());
                Err(e)
            }
        },
        ProbeTransport::Failed { detail } => {
            let mut e = String::from_str("Health check request failed: ");
            e.append(detail.as_str());
            Err(e)
        },
        ProbeTransport::TimedOut => {
            let mut e = String::from_str("Health check timed out after ");
            let num = u64_to_string(timeout_secs);
            e.append(num.as_str());
            e.append("s");
            Err(e)
        },
    }
}

/// The JSON-RPC document a probe posts, for a probe method free of
/// characters that JSON strings escape.
pub fn probe_request_body(method: &str) -> (r: String)
    ensures
        r@ == "{\"jsonrpc\":\"2.0\",\"id\":1,\"method\":\""@ + method@ + "\",\"params\":[]}"@,
{
    let mut r = String::from_str("{\"jsonrpc\":\"2.0\",\"id\":1,\"method\":\"");
    r.append(method);
    r.append("\",\"params\":[]}");
    r
}

/// An upstream label paired with its health record.
#[derive(Debug)]
pub struct HealthEntry {
    pub label: String,
    pub status: BackendHealthStatus,
}

impl Clone for HealthEntry {
    fn clone(&self) -> (res: Self)
        ensures
            res == *self,
    {
        HealthEntry { label: self.label.clone(), status: self.status.clone() }
    }
}

/// The mapping from upstream label to rich health record. The monitor is
/// its only writer; the report endpoint reads it.
#[derive(Debug)]
pub struct HealthState {
    pub entries: Vec<HealthEntry>,
}

impl HealthState {
    /// The mathematical content: a map from label to status.
    pub open spec fn as_map(&self) -> Map<Seq<char>, BackendHealthStatus> {
        Self::entries_map(self.entries@)
    }

    pub open spec fn entries_map(entries: Seq<HealthEntry>) -> Map<Seq<char>, BackendHealthStatus>
        decreases entries.len(),
    {
        if entries.len() == 0 {
            Map::empty()
        } else {
            Self::entries_map(entries.drop_last()).insert(
                entries.last().label@,
                entries.last().status,
            )
        }
    }

    /// Labels are pairwise distinct, so the entry list and the map carry
    /// the same information.
    pub open spec fn wf(&self) -> bool {
        forall|i: int, j: int|
            0 <= i < j < self.entries@.len() ==> self.entries@[i].label@ != self.entries@[j].label@
    }

    pub proof fn lemma_entries_map_characterization(entries: Seq<HealthEntry>)
        ensures
            forall|k: Seq<char>| #[trigger] Self::entries_map(entries).contains_key(k)
                <==> exists|i: int| 0 <= i < entries.len() && entries[i].label@ == k,
        decreases entries.len(),
    {
        if entries.len() > 0 {
            Self::lemma_entries_map_characterization(entries.drop_last());
            assert forall|k: Seq<char>| #[trigger] Self::entries_map(entries).contains_key(k)
                implies exists|i: int| 0 <= i < entries.len() && entries[i].label@ == k by {
                if k == entries.last().label@ {
                    let w = entries.len() - 1;
                    assert(0 <= w < entries.len() && entries[w].label@ == k);
                } else {
                    assert(Self::entries_map(entries.drop_last()).contains_key(k));
                    let i = choose|i: int|
                        0 <= i < entries.drop_last().len() && entries.drop_last()[i].label@ == k;
                    assert(entries.drop_last()[i] == entries[i]);
                    assert(0 <= i < entries.len() && entries[i].label@ == k);
                }
            }
            assert forall|k: Seq<char>|
                exists|i: int| 0 <= i < entries.len() && entries[i].label@ == k
                implies #[trigger] Self::entries_map(entries).contains_key(k) by {
                let i = choose|i: int| 0 <= i < entries.len() && entries[i].label@ == k;
                if i < entries.len() - 1 {
                    assert(entries.drop_last()[i] == entries[i]);
                    assert(0 <= i < entries.drop_last().len() && entries.drop_last()[i].label@
                        == k);
                    assert(Self::entries_map(entries.drop_last()).contains_key(k));
                }
            }
        }
    }

    /// In a well-formed state, entry `i` is what the map holds at its label.
    pub proof fn lemma_entry_lookup(entries: Seq<HealthEntry>, i: int)
        requires
            0 <= i < entries.len(),
            forall|p: int, q: int|
                0 <= p < q < entries.len() ==> entries[p].label@ != entries[q].label@,
        ensures
            Self::entries_map(entries).contains_key(entries[i].label@),
            Self::entries_map(entries)[entries[i].label@] == entries[i].status,
        decreases entries.len(),
    {
        if i == entries.len() - 1 {
            Self::lemma_entries_map_characterization(entries);
        } else {
            Self::lemma_entry_lookup(entries.drop_last(), i);
            assert(entries.drop_last()[i] == entries[i]);
            assert(entries.last().label@ != entries[i].label@);
        }
    }

    /// Builds a table with one optimistic default record per distinct label.
    pub fn new(backend_labels: Vec<String>) -> (s: Self)
        ensures
            s.wf(),
            forall|i: int| 0 <= i < backend_labels@.len()
                ==> s.as_map().contains_key(#[trigger] backend_labels@[i]@)
                    && s.as_map()[backend_labels@[i]@] == spec_default_status(),
            forall|k: Seq<char>| #[trigger] s.as_map().contains_key(k)
                ==> exists|i: int| 0 <= i < backend_labels@.len() && backend_labels@[i]@ == k,
    {
        let mut s = HealthState { entries: Vec::new() };
        let n = backend_labels.len();
        let mut idx: usize = 0;
        while idx < n
            invariant
                n == backend_labels@.len(),
                0 <= idx <= n,
                s.wf(),
                forall|i: int| 0 <= i < idx
                    ==> s.as_map().contains_key(#[trigger] backend_labels@[i]@)
                        && s.as_map()[backend_labels@[i]@] == spec_default_status(),
                forall|k: Seq<char>| #[trigger] s.as_map().contains_key(k)
                    ==> exists|i: int| 0 <= i < idx && backend_labels@[i]@ == k,
                forall|j: int| 0 <= j < s.entries@.len()
                    ==> s.as_map().contains_key(#[trigger] s.entries@[j].label@)
                        && s.as_map()[s.entries@[j].label@] == s.entries@[j].status,
            decreases n - idx,
        {
            let label = &backend_labels[idx];
            if s.get_status(label.as_str()).is_none() {
                let ghost old_entries = s.entries@;
                s.entries.push(HealthEntry {
                    label: label.clone(),
                    status: BackendHealthStatus::default(),
                });
                proof {
                    assert(s.entries@.drop_last() =~= old_entries);
                    assert forall|j: int| 0 <= j < s.entries@.len()
                        implies s.as_map().contains_key(#[trigger] s.entries@[j].label@)
                            && s.as_map()[s.entries@[j].label@] == s.entries@[j].status by {
                        Self::lemma_entry_lookup(s.entries@, j);
                    }
                }
            }
            idx = idx + 1;
        }
        s
    }

    /// Looks up the record under `label`, if any.
    pub fn get_status(&self, label: &str) -> (r: Option<BackendHealthStatus>)
        requires
            self.wf(),
        ensures
            r matches Some(st) ==> self.as_map().contains_key(label@)
                && self.as_map()[label@] == st,
            r is None ==> !self.as_map().contains_key(label@),
            r is Some <==> self.as_map().contains_key(label@),
    {
        proof {
            Self::lemma_entries_map_characterization(self.entries@);
        }
        let n = self.entries.len();
        let mut i: usize = 0;
        while i < n
            invariant
                0 <= i <= n,
                self.wf(),
                n == self.entries@.len(),
                forall|k: int| 0 <= k < i ==> #[trigger] self.entries@[k].label@ != label@,
            decreases n - i,
        {
            if eq_str(self.entries[i].label.as_str(), label) {
                proof {
                    assert(forall|k: int| i < k < self.entries@.len()
                        ==> #[trigger] self.entries@[k].label@ != self.entries@[i as int].label@);
                    Self::lemma_last_binding_wins(self.entries@, i as int);
                }
                return Some(self.entries[i].status.clone());
            }
            i = i + 1;
        }
        return None;
    }

    /// In the entry map, the binding for a label is the status of the last
    /// entry carrying it; when no later entry repeats the label, that is
    /// entry `i` itself.
    proof fn lemma_last_binding_wins(entries: Seq<HealthEntry>, i: int)
        requires
            0 <= i < entries.len(),
            forall|k: int| i < k < entries.len() ==> #[trigger] entries[k].label@ != entries[i].label@,
        ensures
            Self::entries_map(entries).contains_key(entries[i].label@),
            Self::entries_map(entries)[entries[i].label@] == entries[i].status,
        decreases entries.len(),
    {
        if i == entries.len() - 1 {
        } else {
            Self::lemma_last_binding_wins(entries.drop_last(), i);
            assert(entries.drop_last()[i] == entries[i]);
        }
    }

    /// Replaces the record under `label` when one exists; a miss changes
    /// nothing (records are created only at construction or reload).
    pub fn update_status(&mut self, label: &str, status: BackendHealthStatus)
        requires
            old(self).wf(),
        ensures
            final(self).wf(),
            old(self).as_map().contains_key(label@)
                ==> final(self).as_map() == old(self).as_map().insert(label@, status),
            !old(self).as_map().contains_key(label@)
                ==> final(self).as_map() == old(self).as_map(),
    {
        proof {
            Self::lemma_entries_map_characterization(self.entries@);
        }
        let n = self.entries.len();
        let mut i: usize = 0;
        while i < n
            invariant
                0 <= i <= n,
                *self == *old(self),
                self.wf(),
                n == self.entries@.len(),
                forall|k: int| 0 <= k < i ==> #[trigger] self.entries@[k].label@ != label@,
            decreases n - i,
        {
            if eq_str(self.entries[i].label.as_str(), label) {
                let ghost old_entries = self.entries@;
                let lbl = self.entries[i].label.clone();
                self.entries.set(i, HealthEntry { label: lbl, status });
                proof {
                    let e = self.entries@[i as int];
                    assert(e.label@ == label@);
                    assert(self.entries@ =~= old_entries.update(i as int, e));
                    assert(forall|k: int| i < k < old_entries.len()
                        ==> #[trigger] old_entries[k].label@ != old_entries[i as int].label@);
                    Self::lemma_map_after_update(old_entries, i as int, e);
                    assert(self.as_map() =~= old(self).as_map().insert(label@, status));
                    Self::lemma_entries_map_characterization(old_entries);
                    assert(0 <= i < old_entries.len() && old_entries[i as int].label@ == label@);
                    assert(old(self).as_map().contains_key(label@));
                    assert forall|p: int, q: int| 0 <= p < q < self.entries@.len()
                        implies self.entries@[p].label@ != self.entries@[q].label@ by {
                        assert(self.entries@[p].label@ == old_entries[p].label@);
                        assert(self.entries@[q].label@ == old_entries[q].label@);
                    }
                }
                return;
            }
            i = i + 1;
        }
    }

    /// Updating entry `i` to an entry with the same label updates the map
    /// binding of that label, provided no later entry repeats it.
    proof fn lemma_map_after_update(entries: Seq<HealthEntry>, i: int, e: HealthEntry)
        requires
            0 <= i < entries.len(),
            e.label@ == entries[i].label@,
            forall|k: int| i < k < entries.len() ==> #[trigger] entries[k].label@ != entries[i].label@,
        ensures
            Self::entries_map(entries.update(i, e))
                =~= Self::entries_map(entries).insert(e.label@, e.status),
        decreases entries.len(),
    {
        Self::lemma_entries_map_characterization(entries);
        Self::lemma_entries_map_characterization(entries.update(i, e));
        if i == entries.len() - 1 {
            assert(entries.update(i, e).drop_last() =~= entries.drop_last());
            assert(entries.update(i, e).last() == e);
        } else {
            Self::lemma_map_after_update(entries.drop_last(), i, e);
            assert(entries.update(i, e).drop_last() =~= entries.drop_last().update(i, e));
            assert(entries.update(i, e).last() == entries.last());
        }
    }

    /// A copy of every entry, in insertion order.
    pub fn get_all_statuses(&self) -> (r: Vec<HealthEntry>)
        ensures
            r@ == self.entries@,
    {
        let n = self.entries.len();
        let mut out: Vec<HealthEntry> = Vec::new();
        let mut i: usize = 0;
        while i < n
            invariant
                0 <= i <= n,
                n == self.entries@.len(),
                out@ =~= self.entries@.take(i as int),
            decreases n - i,
        {
            out.push(self.entries[i].clone());
            proof {
                assert(out@ =~= self.entries@.take(i as int + 1));
            }
            i = i + 1;
        }
        proof {
            assert(self.entries@.take(n as int) =~= self.entries@);
        }
        out
    }
}

} // verus!
