//! The credential gate: key metadata, the capability the proxy consults on
//! every request, and the decision rules of the store-backed validator
//! (what a fetched record means, and when the rate limiter admits a
//! request).
use vstd::prelude::*;
use vstd::string::StringExecFns;

use crate::strutil::eq_str;

verus! {

/// Metadata of one credential.
#[derive(Debug)]
pub struct KeyInfo {
    pub owner: String,
    pub rate_limit: u64,
}

impl Clone for KeyInfo {
    fn clone(&self) -> (res: Self)
        ensures
            res == *self,
    {
        KeyInfo { owner: self.owner.clone(), rate_limit: self.rate_limit }
    }
}

/// The single capability the proxy needs: deciding a key. `Ok(Some)` is a
/// valid key, `Ok(None)` an unknown or inactive one, and `Err` either the
/// rate-limit refusal or a store failure.
pub trait KeyStore {
    fn validate_key(&mut self, key: &str) -> Result<Option<KeyInfo>, String>;
}

/// What a record fetched from the external store means: a key is usable
/// exactly when its record exists and is not explicitly inactive.
pub fn interpret_key_record(exists: bool, active: &str, owner: String, rate_limit: u64) -> (r:
    Option<KeyInfo>)
    ensures
        r == (if exists && active@ != "false"@ {
            Some(KeyInfo { owner, rate_limit })
        } else {
            None::<KeyInfo>
        }),
{
    if !exists {
        return None;
    }
    if eq_str(active, "false") {
        return None;
    }
    Some(KeyInfo { owner, rate_limit })
}

/// Whether a key's limit requires touching the external counter at all:
/// a limit of zero means unlimited.
pub fn needs_rate_limit_counter(rate_limit: u64) -> (r: bool)
    ensures
        r == (rate_limit != 0),
{
    rate_limit != 0
}

/// The admission rule once the external counter has been bumped: the
/// request passes while the 1-second counter stays within the limit.
pub fn rate_limit_allows(rate_limit: u64, count_after_increment: u64) -> (r: bool)
    ensures
        r == (count_after_increment <= rate_limit),
{
    count_after_increment <= rate_limit
}

/// Folds the fetched metadata and the rate-limit decision into the
/// validator's answer.
pub fn finish_validation(info: Option<KeyInfo>, allowed: bool) -> (r: Result<
    Option<KeyInfo>,
    String,
>)
    ensures
        info is None ==> r == Ok::<Option<KeyInfo>, String>(None),
        info is Some && allowed ==> r == Ok::<Option<KeyInfo>, String>(info),
        info is Some && !allowed ==> (r matches Err(e) && e@ == "Rate limit exceeded"@),
{
    match info {
        None => Ok(None),
        Some(i) => {
            if allowed {
                Ok(Some(i))
            } else {
                Err(String::from_str("Rate limit exceeded"))
            }
        },
    }
}

} // verus!
