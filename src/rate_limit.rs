//! Per-identity, per-operation cooldown tracking.
use crate::shared_map::{new_stamp_map, stamp_entries, stamp_get, stamp_insert};
use dashmap::DashMap;
use vstd::prelude::*;

verus! {

/// Time passed from `last` to `now`, in milliseconds; a clock that reads
/// earlier than the recorded action counts as no time passed.
pub open spec fn elapsed(last: u64, now: u64) -> int {
    if now >= last {
        now - last
    } else {
        0
    }
}

/// Whether an action by `identity` at time `now` is allowed, given the last
/// recorded action of each identity and the cooldown.
pub open spec fn admits(last: Map<u64, u64>, identity: u64, now: u64, cooldown: u64) -> bool {
    !last.contains_key(identity) || elapsed(last[identity], now) >= cooldown
}

/// An identity with no recorded action may act; after an action recorded at
/// `first`, a second attempt before the cooldown has elapsed is refused, and
/// an attempt once it has elapsed is allowed.
pub proof fn lemma_cooldown_window(
    last: Map<u64, u64>,
    identity: u64,
    first: u64,
    second: u64,
    third: u64,
    cooldown: u64,
)
    requires
        !last.contains_key(identity),
        first <= second,
        second - first < cooldown,
        first + cooldown <= third,
    ensures
        admits(last, identity, first, cooldown),
        !admits(last.insert(identity, first), identity, second, cooldown),
        admits(last.insert(identity, first), identity, third, cooldown),
{
}

/// Cooldown tracker for one operation class.
pub struct RateLimiter {
    stamps: DashMap<u64, u64>,
    cooldown_ms: u64,
}

impl RateLimiter {
    /// The time of the last recorded action of each identity.
    pub closed spec fn last_actions(&self) -> Map<u64, u64> {
        stamp_entries(self.stamps)
    }

    /// The cooldown of this operation class, in milliseconds.
    pub closed spec fn cooldown(&self) -> u64 {
        self.cooldown_ms
    }

    /// Whether `identity` may act at time `now`.
    pub open spec fn allows(&self, identity: u64, now: u64) -> bool {
        admits(self.last_actions(), identity, now, self.cooldown())
    }

    /// `post` is this tracker after a gate at time `now` for `identity`: the
    /// action is noted when allowed, and nothing changes otherwise.
    pub open spec fn gated(&self, post: RateLimiter, identity: u64, now: u64) -> bool {
        &&& post.cooldown() == self.cooldown()
        &&& post.last_actions() == if self.allows(identity, now) {
            self.last_actions().insert(identity, now)
        } else {
            self.last_actions()
        }
    }

    /// A tracker with no recorded action.
    pub fn new(cooldown_ms: u64) -> (r: RateLimiter)
        ensures
            r.last_actions() == Map::<u64, u64>::empty(),
            r.cooldown() == cooldown_ms,
    {
        let r = RateLimiter { stamps: new_stamp_map(), cooldown_ms };
        assert(r.last_actions() =~= Map::<u64, u64>::empty());
        r
    }

    /// The cooldown of this operation class, in milliseconds.
    pub fn cooldown_ms(&self) -> (r: u64)
        ensures
            r == self.cooldown(),
    {
        self.cooldown_ms
    }

    /// Whether `identity` may act at time `now`.
    pub fn check(&self, identity: u64, now: u64) -> (r: bool)
        ensures
            r == admits(self.last_actions(), identity, now, self.cooldown()),
    {
        match stamp_get(&self.stamps, identity) {
            None => true,
            Some(last) => {
                let passed: u64 = if now >= last {
                    now - last
                } else {
                    0
                };
                passed >= self.cooldown_ms
            },
        }
    }

    /// Records an action of `identity` at time `now`.
    pub fn record(&mut self, identity: u64, now: u64)
        ensures
            final(self).last_actions() == old(self).last_actions().insert(identity, now),
            final(self).cooldown() == old(self).cooldown(),
    {
        stamp_insert(&mut self.stamps, identity, now);
    }

    /// Whether `identity` may act at time `now`; if so, the action is noted
    /// before any protected work starts.
    pub fn try_acquire(&mut self, identity: u64, now: u64) -> (r: bool)
        ensures
            r == old(self).allows(identity, now),
            old(self).gated(*final(self), identity, now),
    {
        if self.check(identity, now) {
            self.record(identity, now);
            true
        } else {
            false
        }
    }
}

} // verus!
