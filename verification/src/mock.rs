//! A configurable in-memory credential store for tests: a key table plus
//! lists of inactive, rate-limited, and error-injected keys, with a call
//! counter per key. It satisfies the same `KeyStore` contract as the
//! production store.
use vstd::prelude::*;
use vstd::string::StringExecFns;

use crate::keystore::KeyInfo;
use crate::keystore::KeyStore;
use crate::strutil::eq_str;

verus! {

/// Association-list lookup where the most recently pushed binding wins,
/// mirroring repeated inserts into a map.
pub open spec fn spec_assoc_last<V>(s: Seq<(String, V)>, k: Seq<char>) -> Option<V>
    decreases s.len(),
{
    if s.len() == 0 {
        None
    } else if s.last().0@ == k {
        Some(s.last().1)
    } else {
        spec_assoc_last(s.drop_last(), k)
    }
}

/// Whether some element of `s` reads `k`.
pub open spec fn spec_contains_str(s: Seq<String>, k: Seq<char>) -> bool {
    exists|i: int| 0 <= i < s.len() && (#[trigger] s[i])@ == k
}

/// The recorded call count for `k` (zero when never recorded).
pub open spec fn spec_call_count(s: Seq<(String, u64)>, k: Seq<char>) -> u64 {
    match spec_assoc_last(s, k) {
        Some(n) => n,
        None => 0,
    }
}

fn contains_str(s: &Vec<String>, k: &str) -> (r: bool)
    ensures
        r == spec_contains_str(s@, k@),
{
    let n = s.len();
    let mut i: usize = 0;
    while i < n
        invariant
            0 <= i <= n,
            n == s@.len(),
            forall|j: int| 0 <= j < i ==> (#[trigger] s@[j])@ != k@,
        decreases n - i,
    {
        if eq_str(s[i].as_str(), k) {
            assert(s@[i as int]@ == k@);
            return true;
        }
        i = i + 1;
    }
    false
}

fn lookup_key_info(s: &Vec<(String, KeyInfo)>, k: &str) -> (r: Option<KeyInfo>)
    ensures
        r == spec_assoc_last(s@, k@),
{
    let mut i = s.len();
    proof {
        assert(s@.take(s@.len() as int) =~= s@);
    }
    while i > 0
        invariant
            0 <= i <= s@.len(),
            spec_assoc_last(s@, k@) == spec_assoc_last(s@.take(i as int), k@),
        decreases i,
    {
        i = i - 1;
        proof {
            assert(s@.take(i as int + 1).last() == s@[i as int]);
            assert(s@.take(i as int + 1).drop_last() =~= s@.take(i as int));
        }
        if eq_str(s[i].0.as_str(), k) {
            return Some(s[i].1.clone());
        }
    }
    proof {
        assert(s@.take(0) =~= Seq::<(String, KeyInfo)>::empty());
    }
    None
}

fn lookup_string(s: &Vec<(String, String)>, k: &str) -> (r: Option<String>)
    ensures
        r == spec_assoc_last(s@, k@),
{
    let mut i = s.len();
    proof {
        assert(s@.take(s@.len() as int) =~= s@);
    }
    while i > 0
        invariant
            0 <= i <= s@.len(),
            spec_assoc_last(s@, k@) == spec_assoc_last(s@.take(i as int), k@),
        decreases i,
    {
        i = i - 1;
        proof {
            assert(s@.take(i as int + 1).last() == s@[i as int]);
            assert(s@.take(i as int + 1).drop_last() =~= s@.take(i as int));
        }
        if eq_str(s[i].0.as_str(), k) {
            return Some(s[i].1.clone());
        }
    }
    proof {
        assert(s@.take(0) =~= Seq::<(String, String)>::empty());
    }
    None
}

fn lookup_u64(s: &Vec<(String, u64)>, k: &str) -> (r: Option<u64>)
    ensures
        r == spec_assoc_last(s@, k@),
{
    let mut i = s.len();
    proof {
        assert(s@.take(s@.len() as int) =~= s@);
    }
    while i > 0
        invariant
            0 <= i <= s@.len(),
            spec_assoc_last(s@, k@) == spec_assoc_last(s@.take(i as int), k@),
        decreases i,
    {
        i = i - 1;
        proof {
            assert(s@.take(i as int + 1).last() == s@[i as int]);
            assert(s@.take(i as int + 1).drop_last() =~= s@.take(i as int));
        }
        if eq_str(s[i].0.as_str(), k) {
            return Some(s[i].1);
        }
    }
    proof {
        assert(s@.take(0) =~= Seq::<(String, u64)>::empty());
    }
    None
}

/// The test credential store.
#[derive(Debug)]
pub struct MockKeyStore {
    pub keys: Vec<(String, KeyInfo)>,
    pub call_counts: Vec<(String, u64)>,
    pub inactive_keys: Vec<String>,
    pub rate_limited_keys: Vec<String>,
    pub error_keys: Vec<(String, String)>,
}

impl Default for MockKeyStore {
    fn default() -> (s: Self)
        ensures
            s.keys@.len() == 0,
            s.call_counts@.len() == 0,
            s.inactive_keys@.len() == 0,
            s.rate_limited_keys@.len() == 0,
            s.error_keys@.len() == 0,
    {
        MockKeyStore::new()
    }
}

impl MockKeyStore {
    /// An empty store: every key is unknown.
    pub fn new() -> (s: Self)
        ensures
            s.keys@.len() == 0,
            s.call_counts@.len() == 0,
            s.inactive_keys@.len() == 0,
            s.rate_limited_keys@.len() == 0,
            s.error_keys@.len() == 0,
    {
        MockKeyStore {
            keys: Vec::new(),
            call_counts: Vec::new(),
            inactive_keys: Vec::new(),
            rate_limited_keys: Vec::new(),
            error_keys: Vec::new(),
        }
    }

    /// Registers (or overwrites) a key with its owner and limit.
    pub fn add_key(&mut self, key: &str, owner: &str, rate_limit: u64)
        ensures
            spec_assoc_last(final(self).keys@, key@) matches Some(info) && info.owner@ == owner@
                && info.rate_limit == rate_limit,
            forall|k2: Seq<char>| k2 != key@
                ==> spec_assoc_last(final(self).keys@, k2) == spec_assoc_last(old(self).keys@, k2),
            final(self).call_counts@ == old(self).call_counts@,
            final(self).inactive_keys@ == old(self).inactive_keys@,
            final(self).rate_limited_keys@ == old(self).rate_limited_keys@,
            final(self).error_keys@ == old(self).error_keys@,
    {
        let entry = (key.to_owned(), KeyInfo { owner: owner.to_owned(), rate_limit });
        self.keys.push(entry);
        proof {
            assert(self.keys@.drop_last() =~= old(self).keys@);
        }
    }

    /// Marks a key inactive; validation then treats it as revoked.
    pub fn set_inactive(&mut self, key: &str)
        ensures
            forall|k2: Seq<char>| #[trigger] spec_contains_str(final(self).inactive_keys@, k2)
                <==> (k2 == key@ || spec_contains_str(old(self).inactive_keys@, k2)),
            final(self).keys@ == old(self).keys@,
            final(self).call_counts@ == old(self).call_counts@,
            final(self).rate_limited_keys@ == old(self).rate_limited_keys@,
            final(self).error_keys@ == old(self).error_keys@,
    {
        self.inactive_keys.push(key.to_owned());
        proof {
            let s = self.inactive_keys@;
            let o = old(self).inactive_keys@;
            assert forall|k2: Seq<char>| #[trigger] spec_contains_str(s, k2)
                implies (k2 == key@ || spec_contains_str(o, k2)) by {
                let i = choose|i: int| 0 <= i < s.len() && (#[trigger] s[i])@ == k2;
                if i < o.len() {
                    assert(o[i]@ == k2);
                }
            }
            assert forall|k2: Seq<char>| (k2 == key@ || spec_contains_str(o, k2))
                implies #[trigger] spec_contains_str(s, k2) by {
                if k2 == key@ {
                    assert(s[s.len() - 1]@ == k2);
                } else {
                    let i = choose|i: int| 0 <= i < o.len() && (#[trigger] o[i])@ == k2;
                    assert(s[i]@ == k2);
                }
            }
        }
    }

    /// Marks a key rate-limited; validation then refuses it.
    pub fn set_rate_limited(&mut self, key: &str)
        ensures
            forall|k2: Seq<char>| #[trigger] spec_contains_str(final(self).rate_limited_keys@, k2)
                <==> (k2 == key@ || spec_contains_str(old(self).rate_limited_keys@, k2)),
            final(self).keys@ == old(self).keys@,
            final(self).call_counts@ == old(self).call_counts@,
            final(self).inactive_keys@ == old(self).inactive_keys@,
            final(self).error_keys@ == old(self).error_keys@,
    {
        self.rate_limited_keys.push(key.to_owned());
        proof {
            let s = self.rate_limited_keys@;
            let o = old(self).rate_limited_keys@;
            assert forall|k2: Seq<char>| #[trigger] spec_contains_str(s, k2)
                implies (k2 == key@ || spec_contains_str(o, k2)) by {
                let i = choose|i: int| 0 <= i < s.len() && (#[trigger] s[i])@ == k2;
                if i < o.len() {
                    assert(o[i]@ == k2);
                }
            }
            assert forall|k2: Seq<char>| (k2 == key@ || spec_contains_str(o, k2))
                implies #[trigger] spec_contains_str(s, k2) by {
                if k2 == key@ {
                    assert(s[s.len() - 1]@ == k2);
                } else {
                    let i = choose|i: int| 0 <= i < o.len() && (#[trigger] o[i])@ == k2;
                    assert(s[i]@ == k2);
                }
            }
        }
    }

    /// How many times `validate_key` has been asked about `key`.
    pub fn get_call_count(&self, key: &str) -> (r: u64)
        ensures
            r == spec_call_count(self.call_counts@, key@),
    {
        match lookup_u64(&self.call_counts, key) {
            Some(n) => n,
            None => 0,
        }
    }

    /// Injects a store failure for `key`: validation reports `msg`.
    pub fn set_error(&mut self, key: &str, msg: &str)
        ensures
            spec_assoc_last(final(self).error_keys@, key@) matches Some(m) && m@ == msg@,
            forall|k2: Seq<char>| k2 != key@
                ==> spec_assoc_last(final(self).error_keys@, k2) == spec_assoc_last(
                    old(self).error_keys@,
                    k2,
                ),
            final(self).keys@ == old(self).keys@,
            final(self).call_counts@ == old(self).call_counts@,
            final(self).inactive_keys@ == old(self).inactive_keys@,
            final(self).rate_limited_keys@ == old(self).rate_limited_keys@,
    {
        self.error_keys.push((key.to_owned(), msg.to_owned()));
        proof {
            assert(self.error_keys@.drop_last() =~= old(self).error_keys@);
        }
    }

    fn bump_call_count(&mut self, key: &str)
        ensures
            spec_call_count(final(self).call_counts@, key@) == (if spec_call_count(
                old(self).call_counts@,
                key@,
            ) < u64::MAX {
                spec_call_count(old(self).call_counts@, key@) + 1
            } else {
                u64::MAX as int
            }),
            forall|k2: Seq<char>| k2 != key@
                ==> spec_assoc_last(final(self).call_counts@, k2) == spec_assoc_last(
                    old(self).call_counts@,
                    k2,
                ),
            final(self).keys@ == old(self).keys@,
            final(self).inactive_keys@ == old(self).inactive_keys@,
            final(self).rate_limited_keys@ == old(self).rate_limited_keys@,
            final(self).error_keys@ == old(self).error_keys@,
    {
        let current = match lookup_u64(&self.call_counts, key) {
            Some(n) => n,
            None => 0,
        };
        let next = if current < u64::MAX {
            current + 1
        } else {
            current
        };
        self.call_counts.push((key.to_owned(), next));
        proof {
            assert(self.call_counts@.drop_last() =~= old(self).call_counts@);
        }
    }
}

impl KeyStore for MockKeyStore {
    /// Decides `key` against the configured tables, in the order the
    /// store-backed validator would: injected errors first, then inactive
    /// and unknown keys, then the rate limiter. Every call is counted.
    fn validate_key(&mut self, key: &str) -> (r: Result<Option<KeyInfo>, String>)
        ensures
            spec_call_count(final(self).call_counts@, key@) == (if spec_call_count(
                old(self).call_counts@,
                key@,
            ) < u64::MAX {
                spec_call_count(old(self).call_counts@, key@) + 1
            } else {
                u64::MAX as int
            }),
            final(self).keys@ == old(self).keys@,
            final(self).inactive_keys@ == old(self).inactive_keys@,
            final(self).rate_limited_keys@ == old(self).rate_limited_keys@,
            final(self).error_keys@ == old(self).error_keys@,
            spec_assoc_last(old(self).error_keys@, key@) matches Some(msg) ==> r == Err::<
                Option<KeyInfo>,
                String,
            >(msg),
            spec_assoc_last(old(self).error_keys@, key@) is None && spec_contains_str(
                old(self).inactive_keys@,
                key@,
            ) ==> r == Ok::<Option<KeyInfo>, String>(None),
            spec_assoc_last(old(self).error_keys@, key@) is None && !spec_contains_str(
                old(self).inactive_keys@,
                key@,
            ) && spec_assoc_last(old(self).keys@, key@) is None ==> r == Ok::<
                Option<KeyInfo>,
                String,
            >(None),
            spec_assoc_last(old(self).error_keys@, key@) is None && !spec_contains_str(
                old(self).inactive_keys@,
                key@,
            ) && spec_assoc_last(old(self).keys@, key@) is Some && spec_contains_str(
                old(self).rate_limited_keys@,
                key@,
            ) ==> (r matches Err(e) && e@ == "Rate limit exceeded"@),
            spec_assoc_last(old(self).error_keys@, key@) is None && !spec_contains_str(
                old(self).inactive_keys@,
                key@,
            ) && spec_assoc_last(old(self).keys@, key@) is Some && !spec_contains_str(
                old(self).rate_limited_keys@,
                key@,
            ) ==> r == Ok::<Option<KeyInfo>, String>(spec_assoc_last(old(self).keys@, key@)),
    {
        self.bump_call_count(key);
        if let Some(msg) = lookup_string(&self.error_keys, key) {
            return Err(msg);
        }
        if contains_str(&self.inactive_keys, key) {
            return Ok(None);
        }
        match lookup_key_info(&self.keys, key) {
            Some(info) => {
                if contains_str(&self.rate_limited_keys, key) {
                    Err(String::from_str("Rate limit exceeded"))
                } else {
                    Ok(Some(info))
                }
            },
            None => Ok(None),
        }
    }
}

} // verus!
