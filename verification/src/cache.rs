//! A single-slot cache whose value expires a fixed time after it was set.
//!
//! Reading does not renew the value, and there is one slot only. The cache
//! holds no clock: every call is told the time, in seconds.

use vstd::prelude::*;

verus! {

/// How long a value stays in the cache: one hour.
pub const TTL_SECONDS: u64 = 3600;

/// What a cache holds.
pub struct CacheState<T> {
    /// The value that was set last, expired or not.
    pub value: Option<T>,
    /// The second at which it was set.
    pub set_at: u64,
}

/// The value that a cache in state `s` gives at `now`: the value that was
/// set, for [`TTL_SECONDS`] from the second it was set. A clock that reads
/// earlier than that second gives nothing.
pub open spec fn live<T>(s: CacheState<T>, now: u64) -> Option<T> {
    if s.set_at <= now < s.set_at + TTL_SECONDS {
        s.value
    } else {
        None
    }
}

/// A value with the second it was set at.
pub struct CachedObject<T> {
    value: Option<T>,
    set_at: u64,
}

impl<T> View for CachedObject<T> {
    type V = CacheState<T>;

    closed spec fn view(&self) -> CacheState<T> {
        CacheState { value: self.value, set_at: self.set_at }
    }
}

impl<T: Clone> CachedObject<T> {
    /// The empty cache.
    pub fn new() -> (cache: Self)
        ensures
            cache@ == (CacheState::<T> { value: None, set_at: 0 }),
            forall|now: u64| live(cache@, now) is None,
    {
        CachedObject { value: None, set_at: 0 }
    }

    /// Stores `value` as set at `now`, whatever the cache held before.
    pub fn set_to(&mut self, value: T, now: u64)
        ensures
            final(self)@ == (CacheState { value: Some(value), set_at: now }),
    {
        self.value = Some(value);
        self.set_at = now;
    }

    /// A copy of the value, where one was set and has not expired at `now`.
    pub fn get(&self, now: u64) -> (r: Option<T>)
        ensures
            match live(self@, now) {
                Some(v) => r matches Some(x) && cloned(v, x),
                None => r is None,
            },
    {
        if self.set_at <= now && now - self.set_at < TTL_SECONDS {
            self.value.clone()
        } else {
            None
        }
    }

    /// The value itself, where one was set and has not expired at `now`.
    pub fn peek(&self, now: u64) -> (r: Option<&T>)
        ensures
            match live(self@, now) {
                Some(v) => r == Some(&v),
                None => r is None,
            },
    {
        if self.set_at <= now && now - self.set_at < TTL_SECONDS {
            self.value.as_ref()
        } else {
            None
        }
    }

    /// Whether a value was set and has not expired at `now`.
    pub fn is_fresh(&self, now: u64) -> (r: bool)
        ensures
            r == live(self@, now) is Some,
    {
        self.set_at <= now && now - self.set_at < TTL_SECONDS && self.value.is_some()
    }

    /// Drops the value.
    pub fn clear(&mut self)
        ensures
            final(self)@ == (CacheState::<T> { value: None, set_at: old(self)@.set_at }),
            forall|now: u64| live(final(self)@, now) is None,
    {
        self.value = None;
    }
}

/// A value is there from the second it is set until it expires, and gone from
/// then on, whether or not it was read in between.
pub proof fn lemma_value_lives_for_ttl<T>(value: T, set_at: u64, now: u64)
    ensures
        ({
            let s = CacheState { value: Some(value), set_at };
            &&& set_at <= now < set_at + TTL_SECONDS ==> live(s, now) == Some(value)
            &&& now >= set_at + TTL_SECONDS ==> live(s, now) is None
        }),
{
}

} // verus!
