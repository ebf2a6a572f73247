//! Per-sender token-bucket rate limiting: 60 requests a
//! minute with bursts of 10. Applied to paired senders keyed by pubkey.

use vstd::prelude::*;
use crate::keyed::KeyedMap;

verus! {

/// Tokens refilled per second.
pub const TOKENS_PER_SEC: u64 = 1;
/// Bucket capacity.
pub const BURST: u64 = 10;

/// One sender's bucket. Token counts are whole numbers: buckets start
/// full, refill by one per elapsed second and are drawn one at a time.
#[derive(Debug, Clone, Copy, PartialEq, Eq, Structural)]
pub struct Bucket {
    pub tokens: u64,
    pub last_refill: u64,
}

/// The bucket before a request at `now`: a new sender starts full.
pub open spec fn bucket_before(prev: Option<Bucket>, now: u64) -> Bucket {
    match prev {
        Some(b) => b,
        None => Bucket { tokens: BURST, last_refill: now },
    }
}

/// The bucket refilled to `now`, capped at `BURST`.
pub open spec fn refilled(b: Bucket, now: u64) -> Bucket {
    let elapsed: int = if now >= b.last_refill { now - b.last_refill } else { 0 };
    let t: int = b.tokens + elapsed * TOKENS_PER_SEC;
    Bucket { tokens: if t > BURST { BURST } else { t as u64 }, last_refill: now }
}

/// Whether a request at `now` is allowed.
pub open spec fn allows(prev: Option<Bucket>, now: u64) -> bool {
    refilled(bucket_before(prev, now), now).tokens >= 1
}

/// The bucket after a request at `now`.
pub open spec fn bucket_after(prev: Option<Bucket>, now: u64) -> Bucket {
    let r = refilled(bucket_before(prev, now), now);
    if r.tokens >= 1 {
        Bucket { tokens: (r.tokens - 1) as u64, last_refill: now }
    } else {
        r
    }
}

pub struct RateLimiter {
    buckets: KeyedMap<Bucket>,
}

impl View for RateLimiter {
    type V = Map<Seq<char>, Bucket>;

    closed spec fn view(&self) -> Map<Seq<char>, Bucket> {
        self.buckets@
    }
}

impl RateLimiter {
    #[verifier::type_invariant]
    spec fn inv(self) -> bool {
        &&& self.buckets.wf()
        &&& forall|k: Seq<char>| #[trigger] self.buckets@.contains_key(k) ==> self.buckets@[k].tokens <= BURST
    }

    pub fn new() -> (r: RateLimiter)
        ensures
            r@ == Map::<Seq<char>, Bucket>::empty(),
    {
        RateLimiter { buckets: KeyedMap::new() }
    }

    /// Consumes one token for `key`. Returns false when the bucket is empty
    /// (the caller responds `rate_limited`).
    pub fn allow(&mut self, key: &str, now: u64) -> (r: bool)
        ensures
            r == allows(if old(self)@.contains_key(key@) { Some(old(self)@[key@]) } else { None }, now),
            final(self)@ == old(self)@.insert(
                key@,
                bucket_after(if old(self)@.contains_key(key@) { Some(old(self)@[key@]) } else { None }, now),
            ),
            forall|k: Seq<char>| #[trigger] final(self)@.contains_key(k) ==> final(self)@[k].tokens <= BURST,
    {
        proof {
            use_type_invariant(&*self);
        }
        let b = match self.buckets.get(key) {
            Some(b) => *b,
            None => Bucket { tokens: BURST, last_refill: now },
        };
        let elapsed = now.saturating_sub(b.last_refill);
        let tokens = if elapsed >= BURST - b.tokens {
            BURST
        } else {
            b.tokens + elapsed * TOKENS_PER_SEC
        };
        let (allowed, after) = if tokens >= 1 {
            (true, Bucket { tokens: tokens - 1, last_refill: now })
        } else {
            (false, Bucket { tokens, last_refill: now })
        };
        let mut buckets = KeyedMap::new();
        std::mem::swap(&mut buckets, &mut self.buckets);
        buckets.insert(key, after);
        self.buckets = buckets;
        allowed
    }
}

} // verus!
