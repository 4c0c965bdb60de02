//! Values that are kept for a while.

use crate::text_map::TextMap;
use vstd::prelude::*;

verus! {

/// How long a certificate is used.
pub const CERT_CACHE_TTL_SECS: u64 = 3600;

/// How long a resolved name is used.
pub const DNS_CACHE_TTL_SECS: u64 = 300;

/// A value and when it was made, in milliseconds of a clock that never goes
/// back.
pub struct Kept<V> {
    pub value: V,
    pub created_ms: u64,
}

/// Values under texts, each used for a number of seconds.
pub struct Cache<V> {
    pub entries: TextMap<Kept<V>>,
    pub ttl_secs: u64,
}

/// Whether an entry may still be used: fewer whole seconds have gone by than
/// it is kept for.
pub open spec fn is_fresh(created_ms: u64, now_ms: u64, ttl_secs: u64) -> bool {
    let age = if now_ms < created_ms {
        0
    } else {
        now_ms - created_ms
    };
    age / 1000 < ttl_secs
}

impl<V> Cache<V> {
    pub fn new(ttl_secs: u64) -> (r: Self)
        ensures
            r.entries@ == Map::<Seq<char>, Kept<V>>::empty(),
            r.ttl_secs == ttl_secs,
    {
        Cache { entries: TextMap::new(), ttl_secs }
    }

    /// What may be used of what is kept under a key.
    pub fn lookup(&self, key: &str, now_ms: u64) -> (r: Option<&V>)
        ensures
            match r {
                Some(v) => {
                    &&& self.entries@.dom().contains(key@)
                    &&& is_fresh(self.entries@[key@].created_ms, now_ms, self.ttl_secs)
                    &&& *v == self.entries@[key@].value
                },
                None => self.entries@.dom().contains(key@) ==> !is_fresh(
                    self.entries@[key@].created_ms,
                    now_ms,
                    self.ttl_secs,
                ),
            },
    {
        match self.entries.get(key) {
            None => None,
            Some(k) => {
                let age: u64 = if now_ms < k.created_ms {
                    0
                } else {
                    now_ms - k.created_ms
                };
                if age / 1000 < self.ttl_secs {
                    Some(&k.value)
                } else {
                    None
                }
            },
        }
    }

    /// Keeps a value under a key from now on.
    pub fn store(&mut self, key: String, value: V, now_ms: u64)
        ensures
            final(self).entries@ == old(self).entries@.insert(
                key@,
                (Kept { value, created_ms: now_ms }),
            ),
            final(self).ttl_secs == old(self).ttl_secs,
    {
        self.entries.insert(key, Kept { value, created_ms: now_ms });
    }
}

/// What was stored is found again until its time is over, and not after.
pub proof fn law_stored_until_stale<V>(
    entries: Map<Seq<char>, Kept<V>>,
    key: Seq<char>,
    value: V,
    stored_ms: u64,
    now_ms: u64,
    ttl_secs: u64,
)
    requires
        stored_ms <= now_ms,
    ensures
        ({
            let after = entries.insert(key, Kept { value, created_ms: stored_ms });
            &&& after.dom().contains(key)
            &&& after[key].value == value
            &&& is_fresh(after[key].created_ms, now_ms, ttl_secs) <==> now_ms - stored_ms < ttl_secs
                * 1000
        }),
{
}

} // verus!
