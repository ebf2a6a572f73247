//! The Electrs backend's call discipline, as a state machine over
//! millisecond timestamps: at most one call batch in flight (the app holds
//! a one-permit semaphore), at least `CALL_SPACING_MS` between the starts
//! of two calls, and a `COOLDOWN_MS` circuit breaker after a timed-out
//! call during which calls fast-fail instead of queueing.

use vstd::prelude::*;
use crate::text::owned;

verus! {

/// Minimum spacing between the starts of two backend calls.
pub const CALL_SPACING_MS: u64 = 100;

/// How long calls fast-fail after a call timed out.
pub const COOLDOWN_MS: u64 = 15_000;

/// Per-call timeout of ordinary calls.
pub const DEFAULT_TIMEOUT_MS: u64 = 30_000;

/// Timeout of the startup probe.
pub const PREFLIGHT_TIMEOUT_MS: u64 = 5_000;

/// `s` holds "://" somewhere.
pub open spec fn has_scheme(s: Seq<char>) -> bool {
    exists|i: int| 0 <= i && i + 3 <= s.len() && #[trigger] s.subrange(i, i + 3) == "://"@
}

/// The Electrum URL for a configured backend address: "host:port" gets
/// the `tcp://` scheme, an address that already names a scheme is kept.
pub open spec fn backend_url(addr: Seq<char>) -> Seq<char> {
    if has_scheme(addr) {
        addr
    } else {
        "tcp://"@ + addr
    }
}

/// Builds the Electrum URL for a configured backend address.
pub fn electrs_url(addr: &str) -> (r: String)
    ensures
        r@ == backend_url(addr@),
{
    proof {
        reveal_strlit("://");
        reveal_strlit("tcp://");
    }
    let chars = crate::text::chars_of(addr);
    let n = chars.len();
    let mut i: usize = 0;
    while i < n
        invariant
            chars@ == addr@,
            n == chars@.len(),
            "://"@ =~= seq![':', '/', '/'],
            forall|j: int| 0 <= j < i && j + 3 <= n ==> #[trigger] addr@.subrange(j, j + 3) != "://"@,
        decreases n - i,
    {
        if n - i >= 3 && chars[i] == ':' && chars[i + 1] == '/' && chars[i + 2] == '/' {
            assert(addr@.subrange(i as int, i + 3) =~= "://"@);
            return owned(addr);
        }
        assert(i + 3 <= n ==> addr@.subrange(i as int, i + 3) != "://"@) by {
            if i + 3 <= n && addr@.subrange(i as int, i + 3) == "://"@ {
                assert(addr@.subrange(i as int, i + 3)[0] == ':');
                assert(addr@.subrange(i as int, i + 3)[1] == '/');
                assert(addr@.subrange(i as int, i + 3)[2] == '/');
            }
        }
        i = i + 1;
    }
    assert(!has_scheme(addr@)) by {
        if has_scheme(addr@) {
            let j = choose|j: int| 0 <= j && j + 3 <= addr@.len() && #[trigger] addr@.subrange(j, j + 3) == "://"@;
            assert(addr@.subrange(j, j + 3) != "://"@);
        }
    }
    let mut r = owned("tcp://");
    let mut k: usize = 0;
    while k < n
        invariant
            k <= n,
            n == chars@.len(),
            chars@ == addr@,
            r@ == "tcp://"@ + addr@.take(k as int),
        decreases n - k,
    {
        crate::text::push_char(&mut r, chars[k]);
        assert(addr@.take(k + 1) =~= addr@.take(k as int).push(addr@[k as int]));
        assert(r@ =~= "tcp://"@ + addr@.take(k + 1));
        k = k + 1;
    }
    assert(addr@.take(n as int) =~= addr@);
    r
}

/// The state of the call gate: when the cooldown ends, and when the last
/// call started.
pub struct CallGate {
    pub cooldown_until: Option<u64>,
    pub last_call: Option<u64>,
}

/// Time since `then`, zero if the clock reads earlier.
pub open spec fn elapsed(then: u64, now: u64) -> u64 {
    if now >= then {
        (now - then) as u64
    } else {
        0
    }
}

/// How long a call starting at `now` waits so that calls start at least
/// `CALL_SPACING_MS` apart.
pub open spec fn spacing_wait(last: Option<u64>, now: u64) -> u64 {
    match last {
        Some(t) => if elapsed(t, now) >= CALL_SPACING_MS {
            0
        } else {
            (CALL_SPACING_MS - elapsed(t, now)) as u64
        },
        None => 0,
    }
}

/// A call is admitted at `now` unless a cooldown runs past `now`.
pub open spec fn admitted(cooldown_until: Option<u64>, now: u64) -> bool {
    match cooldown_until {
        Some(until) => now >= until,
        None => true,
    }
}

impl CallGate {
    /// A gate that has seen no call.
    pub fn new() -> (r: CallGate)
        ensures
            r.cooldown_until is None,
            r.last_call is None,
    {
        CallGate { cooldown_until: None, last_call: None }
    }

    /// Whether a call may proceed at `now`; a refused call fails with
    /// `BackendError::Cooldown` without reaching the backend.
    pub fn may_call(&self, now: u64) -> (r: bool)
        ensures
            r == admitted(self.cooldown_until, now),
    {
        match self.cooldown_until {
            Some(until) => now >= until,
            None => true,
        }
    }

    /// Starts a call at `now` (holding the single permit): returns how long
    /// to wait before calling and records `now` as the last start.
    pub fn start(&mut self, now: u64) -> (wait: u64)
        ensures
            wait == spacing_wait(old(self).last_call, now),
            wait <= CALL_SPACING_MS,
            final(self).last_call == Some(now),
            final(self).cooldown_until == old(self).cooldown_until,
    {
        let wait = match self.last_call {
            Some(t) => {
                let e = if now >= t { now - t } else { 0 };
                if e >= CALL_SPACING_MS { 0 } else { CALL_SPACING_MS - e }
            },
            None => 0,
        };
        self.last_call = Some(now);
        wait
    }

    /// Records that a call timed out at `now`: calls fast-fail until
    /// `now + COOLDOWN_MS`.
    pub fn on_timeout(&mut self, now: u64)
        requires
            now + COOLDOWN_MS <= u64::MAX,
        ensures
            final(self).cooldown_until == Some((now + COOLDOWN_MS) as u64),
            final(self).last_call == old(self).last_call,
    {
        self.cooldown_until = Some(now + COOLDOWN_MS);
    }
}

} // verus!
