//! Properties of the server as a whole: how pairing secrets, replay
//! protection, rate limiting, routing, the watcher and the backend gate
//! behave across calls, stated over the views the operations' contracts
//! speak of.

use vstd::prelude::*;
use crate::backend::{admitted, spacing_wait, CALL_SPACING_MS, COOLDOWN_MS};
use crate::keyed::{ascending, entries_map, lemma_entries_map_contains, lemma_seq_lt_asymmetric, lemma_seq_lt_irreflexive, seq_lt};
use crate::pairing::{accepts_attempts, after_attempt, is_live, SecretView, MAX_ATTEMPTS};
use crate::protocol::{ErrorCode, RequestEnvelope};
use crate::ratelimit::{allows, bucket_after, Bucket, BURST, TOKENS_PER_SEC};
use crate::replay::{pruned, RETENTION_SECS};
use crate::router::{dispatch_outcome, route_outcome, unchanged, Routed, SharedView};
use crate::config::Network;
use crate::store::{watch_step, watch_steps, WatchStep};
use crate::watcher::{is_diff, is_news};
use crate::handlers::{confirmations, confirmed_total, history_limit, unconfirmed_total, DEFAULT_HISTORY_LIMIT, MAX_HISTORY_LIMIT};
use crate::router::{chain_query_of, ChainQuery};
use crate::json::{json_get, json_u64, JsonValue};

verus! {

/// A pairing secret pairs at most once: after a correct proof, the secret
/// accepts no further attempt, at any time and with any proof.
pub proof fn law_secret_single_use(s: SecretView, now: u64, later: u64)
    requires
        accepts_attempts(s, now),
    ensures
        !accepts_attempts(after_attempt(s, true), later),
{
}

/// The secret after `n` wrong proofs.
pub open spec fn after_failures(s: SecretView, n: nat) -> SecretView
    decreases n,
{
    if n == 0 {
        s
    } else {
        after_attempt(after_failures(s, (n - 1) as nat), false)
    }
}

/// A fresh secret takes `MAX_ATTEMPTS` wrong proofs and is then burned: it
/// accepts each of the first `MAX_ATTEMPTS` attempts, and after the last
/// one there is no secret left to pair with.
pub proof fn law_secret_burns_after_max_failures(secret: Seq<u8>, exp: u64, now: u64)
    requires
        exp > now,
    ensures
        forall|n: nat| n < MAX_ATTEMPTS ==> #[trigger] accepts_attempts(after_failures(Some((secret, exp, false, 0u8)), n), now),
        after_failures(Some((secret, exp, false, 0u8)), MAX_ATTEMPTS as nat) is None,
{
    let s0: SecretView = Some((secret, exp, false, 0u8));
    reveal_with_fuel(after_failures, 6);
    assert(after_failures(s0, 1) == Some((secret, exp, false, 1u8)));
    assert(after_failures(s0, 2) == Some((secret, exp, false, 2u8)));
    assert(after_failures(s0, 3) == Some((secret, exp, false, 3u8)));
    assert(after_failures(s0, 4) == Some((secret, exp, false, 4u8)));
    assert(after_failures(s0, 5) is None);
    assert forall|n: nat| n < MAX_ATTEMPTS implies #[trigger] accepts_attempts(after_failures(s0, n), now) by {
        if n == 0 {
        } else if n == 1 {
        } else if n == 2 {
        } else if n == 3 {
        } else {
            assert(n == 4);
        }
    }
}

/// A secret whose expiry has passed neither pairs nor is shown again.
pub proof fn law_expired_secret_refused(s: SecretView, now: u64)
    requires
        s matches Some(t) && t.1 <= now,
    ensures
        !accepts_attempts(s, now),
        !is_live(s, now),
{
}

/// An envelope id accepted at `t1` is remembered, so its replay is
/// dropped, exactly until `RETENTION_SECS` have passed.
pub proof fn law_replay_window(seen: Map<Seq<char>, u64>, id: Seq<char>, t1: u64, t2: u64)
    ensures
        pruned(pruned(seen, t1).insert(id, t1), t2).contains_key(id) <==> t2 < t1 + RETENTION_SECS,
{
}

/// The same envelope delivered again within the retention window is
/// dropped and changes nothing, whoever sends it and whatever it asks.
pub proof fn law_replayed_request_dropped(
    replay0: Map<Seq<char>, u64>,
    buckets0: Map<Seq<char>, Bucket>,
    s0: SharedView,
    replay1: Map<Seq<char>, u64>,
    buckets1: Map<Seq<char>, Bucket>,
    s1: SharedView,
    replay2: Map<Seq<char>, u64>,
    buckets2: Map<Seq<char>, Bucket>,
    s2: SharedView,
    network: Network,
    sender1: Seq<char>,
    sender2: Seq<char>,
    env1: RequestEnvelope,
    env2: RequestEnvelope,
    t1: u64,
    t2: u64,
    r1: Routed,
    r2: Routed,
)
    requires
        !pruned(replay0, t1).contains_key(env1.id@),
        route_outcome(replay0, buckets0, s0, replay1, buckets1, s1, network, sender1, env1, t1, r1),
        route_outcome(replay1, buckets1, s1, replay2, buckets2, s2, network, sender2, env2, t2, r2),
        env2.id@ == env1.id@,
        t2 < t1 + RETENTION_SECS,
    ensures
        r2 is Drop,
        unchanged(s1, s2),
        buckets2 == buckets1,
{
    law_replay_window(replay0, env1.id@, t1, t2);
}

/// A key that is not paired can only pair: any other request of it is
/// dropped as a replay, answered `rate_limited`, or answered `not_paired`,
/// and changes nothing of the shared state.
pub proof fn law_stranger_only_pairs(
    replay0: Map<Seq<char>, u64>,
    buckets0: Map<Seq<char>, Bucket>,
    s0: SharedView,
    replay1: Map<Seq<char>, u64>,
    buckets1: Map<Seq<char>, Bucket>,
    s1: SharedView,
    network: Network,
    sender: Seq<char>,
    env: RequestEnvelope,
    now: u64,
    r: Routed,
)
    requires
        route_outcome(replay0, buckets0, s0, replay1, buckets1, s1, network, sender, env, now, r),
        !s0.allowlist.contains(sender),
        env.msg_type@ != "pair"@,
    ensures
        unchanged(s0, s1),
        r is Drop || (r matches Routed::Reply(e) && e.error matches Some(b)
            && (b.code == ErrorCode::RateLimited || b.code == ErrorCode::NotPaired)),
{
}

/// Every answer to a request carries the request's envelope id.
pub proof fn law_answers_echo_id(
    replay0: Map<Seq<char>, u64>,
    buckets0: Map<Seq<char>, Bucket>,
    s0: SharedView,
    replay1: Map<Seq<char>, u64>,
    buckets1: Map<Seq<char>, Bucket>,
    s1: SharedView,
    network: Network,
    sender: Seq<char>,
    env: RequestEnvelope,
    now: u64,
    r: Routed,
)
    requires
        route_outcome(replay0, buckets0, s0, replay1, buckets1, s1, network, sender, env, now, r),
    ensures
        r matches Routed::Reply(e) ==> e.id@ == env.id@,
        r matches Routed::Paired(e) ==> e.id@ == env.id@,
        r matches Routed::Unpaired(e) ==> e.id@ == env.id@,
        r matches Routed::Watched(e) ==> e.id@ == env.id@,
        r matches Routed::Chain(_, e) ==> e == env,
{
}

/// `r` refuses a request as coming from a key that is not paired.
pub open spec fn refused_not_paired(r: Routed) -> bool {
    r matches Routed::Reply(e) && e.error matches Some(b) && b.code == ErrorCode::NotPaired
}

/// After a wallet pairs, its next request that is neither a replay nor
/// over its rate is not refused as unpaired.
pub proof fn law_paired_wallet_is_served(
    replay0: Map<Seq<char>, u64>,
    buckets0: Map<Seq<char>, Bucket>,
    s0: SharedView,
    replay1: Map<Seq<char>, u64>,
    buckets1: Map<Seq<char>, Bucket>,
    s1: SharedView,
    replay2: Map<Seq<char>, u64>,
    buckets2: Map<Seq<char>, Bucket>,
    s2: SharedView,
    network: Network,
    wallet: Seq<char>,
    env1: RequestEnvelope,
    env2: RequestEnvelope,
    t1: u64,
    t2: u64,
    r1: Routed,
    r2: Routed,
)
    requires
        route_outcome(replay0, buckets0, s0, replay1, buckets1, s1, network, wallet, env1, t1, r1),
        r1 is Paired,
        route_outcome(replay1, buckets1, s1, replay2, buckets2, s2, network, wallet, env2, t2, r2),
        !pruned(replay1, t2).contains_key(env2.id@),
        allows(if buckets1.contains_key(wallet) { Some(buckets1[wallet]) } else { None }, t2),
    ensures
        s1.allowlist.contains(wallet),
        !refused_not_paired(r2),
{
}

/// After a wallet unpairs, its next request other than `pair` that is
/// neither a replay nor over its rate is refused as unpaired.
pub proof fn law_unpaired_wallet_is_refused(
    replay0: Map<Seq<char>, u64>,
    buckets0: Map<Seq<char>, Bucket>,
    s0: SharedView,
    replay1: Map<Seq<char>, u64>,
    buckets1: Map<Seq<char>, Bucket>,
    s1: SharedView,
    replay2: Map<Seq<char>, u64>,
    buckets2: Map<Seq<char>, Bucket>,
    s2: SharedView,
    network: Network,
    wallet: Seq<char>,
    env1: RequestEnvelope,
    env2: RequestEnvelope,
    t1: u64,
    t2: u64,
    r1: Routed,
    r2: Routed,
)
    requires
        route_outcome(replay0, buckets0, s0, replay1, buckets1, s1, network, wallet, env1, t1, r1),
        r1 is Unpaired,
        route_outcome(replay1, buckets1, s1, replay2, buckets2, s2, network, wallet, env2, t2, r2),
        env2.msg_type@ != "pair"@,
        !pruned(replay1, t2).contains_key(env2.id@),
        allows(if buckets1.contains_key(wallet) { Some(buckets1[wallet]) } else { None }, t2),
    ensures
        !s1.allowlist.contains(wallet),
        refused_not_paired(r2),
        unchanged(s1, s2),
{
}

/// The bucket of a new sender after `n` requests at the same instant.
pub open spec fn after_requests(n: nat, now: u64) -> Option<Bucket>
    decreases n,
{
    if n == 0 {
        None
    } else {
        Some(bucket_after(after_requests((n - 1) as nat, now), now))
    }
}

proof fn lemma_burst_tokens(n: nat, now: u64)
    requires
        1 <= n <= BURST,
    ensures
        after_requests(n, now) == Some(Bucket { tokens: (BURST - n) as u64, last_refill: now }),
    decreases n,
{
    let prev = after_requests((n - 1) as nat, now);
    assert(after_requests(n, now) == Some(bucket_after(prev, now)));
    if n > 1 {
        lemma_burst_tokens((n - 1) as nat, now);
    } else {
        assert(prev is None);
    }
    let before = crate::ratelimit::bucket_before(prev, now);
    assert(before == Bucket { tokens: (BURST - n + 1) as u64, last_refill: now });
    assert(crate::ratelimit::refilled(before, now) == before);
}

/// A new sender gets a burst of exactly `BURST` requests at one instant:
/// each of the first `BURST` is allowed, the next is refused.
pub proof fn law_burst_then_refuse(now: u64)
    ensures
        forall|n: nat| n < BURST ==> #[trigger] allows(after_requests(n, now), now),
        !allows(after_requests(BURST as nat, now), now),
{
    assert forall|n: nat| n < BURST implies #[trigger] allows(after_requests(n, now), now) by {
        if n > 0 {
            lemma_burst_tokens(n, now);
        }
    }
    lemma_burst_tokens(BURST as nat, now);
}

/// A bucket never holds more than `BURST` tokens, however long its sender
/// was idle.
pub proof fn law_tokens_capped(prev: Option<Bucket>, now: u64)
    requires
        prev matches Some(b) ==> b.tokens <= BURST,
    ensures
        bucket_after(prev, now).tokens <= BURST,
{
}

/// Observing a wallet twice with nothing changed notifies nothing.
pub proof fn law_unchanged_observation_silent(m: Map<Seq<char>, u64>, r: Seq<(String, u64)>)
    requires
        is_diff(Some(m), m, r),
    ensures
        r.len() == 0,
{
    if r.len() > 0 {
        assert(m.contains_key(r[0].0@) && m[r[0].0@] == r[0].1 && is_news(m, r[0].0@, r[0].1));
    }
}

/// A transaction seen in the mempool and now confirmed is notified, with
/// its confirmation height.
pub proof fn law_confirmation_notified(known: Map<Seq<char>, u64>, current: Map<Seq<char>, u64>, r: Seq<(String, u64)>, txid: Seq<char>)
    requires
        is_diff(Some(known), current, r),
        known.contains_key(txid) && known[txid] == 0,
        current.contains_key(txid) && current[txid] > 0,
    ensures
        exists|i: int| 0 <= i < r.len() && (#[trigger] r[i]).0@ == txid && r[i].1 == current[txid],
{
    assert(is_news(known, txid, current[txid]));
    let i = choose|i: int| 0 <= i < r.len() && (#[trigger] r[i]).0@ == txid;
    assert(r[i].1 == current[txid]);
}

/// After a backend call times out at `now`, calls are refused exactly
/// until `COOLDOWN_MS` have passed.
pub proof fn law_cooldown_after_timeout(now: u64, later: u64)
    requires
        now + COOLDOWN_MS <= u64::MAX,
    ensures
        admitted(Some((now + COOLDOWN_MS) as u64), later) <==> later >= now + COOLDOWN_MS,
{
}

/// A call that starts after another waits until at least
/// `CALL_SPACING_MS` after the other's start.
pub proof fn law_calls_spaced(first: u64, next: u64)
    requires
        first <= next,
    ensures
        next + spacing_wait(Some(first), next) >= first + CALL_SPACING_MS,
{
}

/// Persisted watcher state reads back as the state it was written from:
/// the entries of a state, read back, give every wallet its txid heights.
pub proof fn law_watcher_state_roundtrip(
    state: Map<Seq<char>, Map<Seq<char>, u64>>,
    entries: Seq<(String, Vec<(String, u64)>)>,
)
    requires
        ascending(entries),
        forall|w: Seq<char>| #[trigger] state.contains_key(w) <==> entries_map(entries).contains_key(w),
        forall|i: int| 0 <= i < entries.len() ==> ascending((#[trigger] entries[i]).1@)
            && entries_map(entries[i].1@) == state[entries[i].0@],
    ensures
        forall|w: Seq<char>| #[trigger] state.contains_key(w) ==> entries_map(entries_map(entries)[w]@) == state[w],
{
    assert forall|w: Seq<char>| #[trigger] state.contains_key(w) implies entries_map(entries_map(entries)[w]@) == state[w] by {
        lemma_entries_map_contains(entries, w);
        let i = choose|i: int| 0 <= i < entries.len() && (#[trigger] entries[i]).0@ == w;
        assert(entries_map(entries)[w] == entries[i].1);
    }
}

/// `watch_addresses` replaces a wallet's watch set: asking twice with the
/// same addresses leaves the same watch sets as asking once.
pub proof fn law_watch_replace_idempotent(
    s0: SharedView,
    s1: SharedView,
    s2: SharedView,
    network: Network,
    wallet: Seq<char>,
    env: RequestEnvelope,
    t1: u64,
    t2: u64,
    r1: Routed,
    r2: Routed,
)
    requires
        env.msg_type@ == "watch_addresses"@,
        s0.allowlist.contains(wallet),
        dispatch_outcome(s0, s1, network, wallet, env, t1, r1),
        dispatch_outcome(s1, s2, network, wallet, env, t2, r2),
    ensures
        s2.watch == s1.watch,
        s2.allowlist == s0.allowlist,
{
    assert("watch_addresses"@ != "pair"@ && "watch_addresses"@ != "unpair"@) by {
        reveal_strlit("watch_addresses");
        reveal_strlit("pair");
        reveal_strlit("unpair");
        assert("watch_addresses"@[0] == 'w');
        assert("pair"@[0] == 'p');
        assert("unpair"@[0] == 'u');
    }
    assert(s2.watch =~= s1.watch);
}

/// Each change a watcher pass finds (a new transaction, or one confirmed
/// since) is notified exactly once, with its current height, and nothing
/// else is notified.
pub proof fn law_each_change_notified_once(
    known: Map<Seq<char>, u64>,
    current: Map<Seq<char>, u64>,
    r: Seq<(String, u64)>,
    txid: Seq<char>,
)
    requires
        is_diff(Some(known), current, r),
    ensures
        current.contains_key(txid) && is_news(known, txid, current[txid]) ==> exists|i: int|
            0 <= i < r.len() && (#[trigger] r[i]).0@ == txid && r[i].1 == current[txid],
        forall|i: int, j: int| 0 <= i < r.len() && 0 <= j < r.len() && (#[trigger] r[i]).0@ == txid
            && (#[trigger] r[j]).0@ == txid ==> i == j,
        forall|i: int| 0 <= i < r.len() && (#[trigger] r[i]).0@ == txid ==> current.contains_key(txid)
            && is_news(known, txid, current[txid]),
{
    assert forall|i: int, j: int| 0 <= i < r.len() && 0 <= j < r.len() && (#[trigger] r[i]).0@ == txid
        && (#[trigger] r[j]).0@ == txid implies i == j by {
        lemma_seq_lt_irreflexive(txid);
        if i < j {
            assert(seq_lt(r[i].0@, r[j].0@));
        } else if j < i {
            assert(seq_lt(r[j].0@, r[i].0@));
        }
    }
    if current.contains_key(txid) && is_news(known, txid, current[txid]) {
        let i = choose|i: int| 0 <= i < r.len() && (#[trigger] r[i]).0@ == txid;
        assert(r[i].1 == current[txid]);
    }
}

/// Requests of one sender at the instants `times`, starting from its bucket
/// `prev`: the bucket after them and how many were allowed.
pub open spec fn run_requests(prev: Option<Bucket>, times: Seq<u64>) -> (Option<Bucket>, nat)
    decreases times.len(),
{
    if times.len() == 0 {
        (prev, 0)
    } else {
        let before = run_requests(prev, times.drop_last());
        let t = times.last();
        (
            Some(bucket_after(before.0, t)),
            before.1 + (if allows(before.0, t) { 1nat } else { 0nat }),
        )
    }
}

/// The instants never go back.
pub open spec fn non_decreasing(times: Seq<u64>) -> bool {
    forall|i: int, j: int| 0 <= i <= j < times.len() ==> times[i] <= times[j]
}

proof fn lemma_run_requests(prev: Option<Bucket>, times: Seq<u64>)
    requires
        times.len() > 0,
        non_decreasing(times),
        prev matches Some(b) ==> b.tokens <= BURST,
    ensures
        run_requests(prev, times).0 matches Some(b) && b.last_refill == times.last() && b.tokens <= BURST
            && run_requests(prev, times).1 + b.tokens <= BURST + times.last() - times[0],
    decreases times.len(),
{
    let pre = times.drop_last();
    let before = run_requests(prev, pre);
    let t = times.last();
    assert(run_requests(prev, times) == (
        Some(bucket_after(before.0, t)),
        before.1 + (if allows(before.0, t) { 1nat } else { 0nat }),
    ));
    let r = crate::ratelimit::refilled(crate::ratelimit::bucket_before(before.0, t), t);
    assert(r.tokens <= BURST);
    if pre.len() > 0 {
        lemma_run_requests(prev, pre);
        assert(pre[0] == times[0]);
        assert(pre.last() == times[pre.len() - 1]);
        assert(pre.last() <= t);
        let b = before.0.unwrap();
        assert(crate::ratelimit::bucket_before(before.0, t) == b);
        assert(r.tokens <= b.tokens + (t - b.last_refill));
    } else {
        assert(before == (prev, 0nat));
    }
}

/// The rate limit over any window: of a sender's requests at instants
/// `times` (never going back, its bucket before them `prev`), at most
/// `BURST` plus the seconds from the first to the last are allowed. Other
/// senders' requests do not touch this sender's bucket (`RateLimiter::allow`
/// changes only the requester's).
pub proof fn law_rate_window(prev: Option<Bucket>, times: Seq<u64>)
    requires
        times.len() > 0,
        non_decreasing(times),
        prev matches Some(b) ==> b.tokens <= BURST,
    ensures
        run_requests(prev, times).1 <= BURST + times.last() - times[0],
{
    lemma_run_requests(prev, times);
}

/// A sender's first request is allowed, and so is any request a second or
/// more after its previous one.
pub proof fn law_rate_refill(prev: Option<Bucket>, t: u64, later: u64)
    requires
        later >= t + TOKENS_PER_SEC,
    ensures
        allows(None, t),
        allows(Some(bucket_after(prev, t)), later),
{
}

/// The changes a wallet makes to its watch set, from an empty store: the
/// last change of a wallet decides its set, which is the list of its last
/// replacement when that list is not empty, and absent otherwise; so no
/// wallet ever holds an empty set.
pub proof fn law_last_replace_wins(steps: Seq<WatchStep>, pk: Seq<char>)
    ensures
        watch_steps(Map::empty(), steps).contains_key(pk) ==> watch_steps(Map::empty(), steps)[pk].len() > 0,
        watch_steps(Map::empty(), steps).contains_key(pk) <==> last_set_for(steps, pk) is Some,
        watch_steps(Map::empty(), steps).contains_key(pk) ==> watch_steps(Map::empty(), steps)[pk] == last_set_for(steps, pk).unwrap(),
    decreases steps.len(),
{
    if steps.len() > 0 {
        law_last_replace_wins(steps.drop_last(), pk);
    }
}

/// Whose watch set a change is about.
pub open spec fn step_owner(step: WatchStep) -> Seq<char> {
    match step {
        WatchStep::Replace(pk, _) => pk,
        WatchStep::Remove(pk) => pk,
    }
}

/// The last change of `pk`'s watch set among `steps`.
pub open spec fn last_step_for(steps: Seq<WatchStep>, pk: Seq<char>) -> Option<WatchStep>
    decreases steps.len(),
{
    if steps.len() == 0 {
        None
    } else if step_owner(steps.last()) == pk {
        Some(steps.last())
    } else {
        last_step_for(steps.drop_last(), pk)
    }
}

/// The list of `pk`'s last change when that change replaced its set with
/// a non-empty list; `None` otherwise.
pub open spec fn last_set_for(steps: Seq<WatchStep>, pk: Seq<char>) -> Option<Seq<Seq<char>>> {
    match last_step_for(steps, pk) {
        Some(WatchStep::Replace(_, a)) => if a.len() > 0 { Some(a) } else { None },
        _ => None,
    }
}

/// Two strictly ascending lists with the same elements are the same list;
/// so the paired wallets' list (strictly ascending, the allowlist's
/// elements) is the same on every call while the allowlist is unchanged.
pub proof fn law_sorted_list_unique(a: Seq<Seq<char>>, b: Seq<Seq<char>>)
    requires
        forall|i: int, j: int| 0 <= i < j < a.len() ==> seq_lt(#[trigger] a[i], #[trigger] a[j]),
        forall|i: int, j: int| 0 <= i < j < b.len() ==> seq_lt(#[trigger] b[i], #[trigger] b[j]),
        a.to_set() == b.to_set(),
    ensures
        a == b,
    decreases a.len() + b.len(),
{
    if a.len() == 0 {
        if b.len() > 0 {
            assert(b.to_set().contains(b[0]));
        }
        assert(a =~= b);
    } else if b.len() == 0 {
        assert(a.to_set().contains(a[0]));
    } else {
        assert(b.to_set().contains(a[0]));
        assert(a.to_set().contains(b[0]));
        let i = choose|i: int| 0 <= i < a.len() && a[i] == b[0];
        let j = choose|j: int| 0 <= j < b.len() && b[j] == a[0];
        if j > 0 {
            assert(seq_lt(b[0], b[j]));
            if i > 0 {
                assert(seq_lt(a[0], a[i]));
                lemma_seq_lt_asymmetric(a[0], b[0]);
            } else {
                lemma_seq_lt_irreflexive(a[0]);
            }
        }
        assert(a[0] == b[0]);
        let a1 = a.drop_first();
        let b1 = b.drop_first();
        assert forall|x: Seq<char>| a1.to_set().contains(x) == b1.to_set().contains(x) by {
            if a1.to_set().contains(x) {
                let k = choose|k: int| 0 <= k < a1.len() && a1[k] == x;
                assert(a[k + 1] == x);
                assert(seq_lt(a[0], a[k + 1]));
                lemma_seq_lt_irreflexive(x);
                assert(b.to_set().contains(x));
                let m = choose|m: int| 0 <= m < b.len() && b[m] == x;
                if m == 0 {
                    assert(false);
                }
                assert(b1[m - 1] == x);
            }
            if b1.to_set().contains(x) {
                let k = choose|k: int| 0 <= k < b1.len() && b1[k] == x;
                assert(b[k + 1] == x);
                assert(seq_lt(b[0], b[k + 1]));
                lemma_seq_lt_irreflexive(x);
                assert(a.to_set().contains(x));
                let m = choose|m: int| 0 <= m < a.len() && a[m] == x;
                if m == 0 {
                    assert(false);
                }
                assert(a1[m - 1] == x);
            }
        }
        assert(a1.to_set() =~= b1.to_set());
        assert forall|i: int, j: int| 0 <= i < j < a1.len() implies seq_lt(#[trigger] a1[i], #[trigger] a1[j]) by {
            assert(seq_lt(a[i + 1], a[j + 1]));
        }
        assert forall|i: int, j: int| 0 <= i < j < b1.len() implies seq_lt(#[trigger] b1[i], #[trigger] b1[j]) by {
            assert(seq_lt(b[i + 1], b[j + 1]));
        }
        law_sorted_list_unique(a1, b1);
        assert(a =~= seq![a[0]] + a1);
        assert(b =~= seq![b[0]] + b1);
    }
}

/// What a watcher pass notifies, said over the two observations alone: a
/// transaction not seen before is notified with its current height,
/// whatever that height (mempool or already mined); one seen in the
/// mempool and now mined is notified with its height; one seen mined, or
/// still in the mempool, is not notified.
pub proof fn law_notifications_by_observation(
    known: Map<Seq<char>, u64>,
    current: Map<Seq<char>, u64>,
    r: Seq<(String, u64)>,
    txid: Seq<char>,
)
    requires
        is_diff(Some(known), current, r),
        current.contains_key(txid),
    ensures
        !known.contains_key(txid) ==> exists|i: int| 0 <= i < r.len() && (#[trigger] r[i]).0@ == txid && r[i].1 == current[txid],
        known.contains_key(txid) && known[txid] == 0 && current[txid] > 0 ==> exists|i: int|
            0 <= i < r.len() && (#[trigger] r[i]).0@ == txid && r[i].1 == current[txid],
        known.contains_key(txid) && (known[txid] > 0 || current[txid] == 0) ==> forall|i: int|
            0 <= i < r.len() ==> (#[trigger] r[i]).0@ != txid,
{
    if !known.contains_key(txid) || (known[txid] == 0 && current[txid] > 0) {
        let i = choose|i: int| 0 <= i < r.len() && (#[trigger] r[i]).0@ == txid;
        assert(r[i].1 == current[txid]);
    }
    if known.contains_key(txid) && (known[txid] > 0 || current[txid] == 0) {
        assert forall|i: int| 0 <= i < r.len() implies (#[trigger] r[i]).0@ != txid by {
            if r[i].0@ == txid {
                assert(is_news(known, txid, r[i].1));
            }
        }
    }
}

/// The balance totals add up every address's balance, each on its own
/// side: a list's totals are the totals of its parts added, and one
/// address's totals are its own confirmed and unconfirmed amounts, whatever
/// the other amount is.
pub proof fn law_balance_totals_add(a: Seq<(u64, i64)>, b: Seq<(u64, i64)>, x: (u64, i64))
    ensures
        confirmed_total(a + b) == confirmed_total(a) + confirmed_total(b),
        unconfirmed_total(a + b) == unconfirmed_total(a) + unconfirmed_total(b),
        confirmed_total(seq![x]) == x.0,
        unconfirmed_total(seq![x]) == x.1,
        confirmed_total(Seq::<(u64, i64)>::empty()) == 0,
        unconfirmed_total(Seq::<(u64, i64)>::empty()) == 0,
    decreases b.len(),
{
    let one = seq![x];
    assert(one.drop_last() =~= Seq::<(u64, i64)>::empty());
    assert(one.last() == x);
    assert(confirmed_total(one.drop_last()) == 0);
    assert(unconfirmed_total(one.drop_last()) == 0);
    assert(confirmed_total(one) == confirmed_total(one.drop_last()) + one.last().0);
    assert(unconfirmed_total(one) == unconfirmed_total(one.drop_last()) + one.last().1);
    if b.len() > 0 {
        law_balance_totals_add(a, b.drop_last(), x);
        assert((a + b).drop_last() =~= a + b.drop_last());
        assert((a + b).last() == b.last());
    } else {
        assert(a + b =~= a);
    }
}

/// A confirmed output has one confirmation in the tip's block and one more
/// for every block after it, without cap; an output in the mempool has
/// none.
pub proof fn law_confirmations_count_blocks(height: u64, tip: u64)
    ensures
        height == 0 ==> confirmations(height, tip) == 0,
        0 < height <= tip ==> confirmations(height, tip) == tip - height + 1,
        0 < height && height == tip ==> confirmations(height, tip) == 1,
        0 < height <= tip && tip < u64::MAX ==> confirmations(height, (tip + 1) as u64) == confirmations(height, tip) + 1,
{
}

/// Each chain-data type names its own query: no two type names lead to the
/// same query, and each of the seven names leads to the query of that name.
pub proof fn law_chain_queries_distinct(a: Seq<char>, b: Seq<char>)
    ensures
        chain_query_of(a) is Some && chain_query_of(a) == chain_query_of(b) ==> a == b,
        chain_query_of("ping"@) == Some(ChainQuery::Ping),
        chain_query_of("get_balance"@) == Some(ChainQuery::Balance),
        chain_query_of("get_utxos"@) == Some(ChainQuery::Utxos),
        chain_query_of("get_history"@) == Some(ChainQuery::History),
        chain_query_of("get_transactions"@) == Some(ChainQuery::Transactions),
        chain_query_of("get_fee_estimates"@) == Some(ChainQuery::FeeEstimates),
        chain_query_of("broadcast_tx"@) == Some(ChainQuery::Broadcast),
{
    reveal_strlit("ping");
    reveal_strlit("get_balance");
    reveal_strlit("get_utxos");
    reveal_strlit("get_history");
    reveal_strlit("get_transactions");
    reveal_strlit("get_fee_estimates");
    reveal_strlit("broadcast_tx");
    assert("ping"@[0] == 'p');
    assert("broadcast_tx"@[0] == 'b');
    assert("get_balance"@[4] == 'b');
    assert("get_utxos"@[4] == 'u');
    assert("get_history"@[4] == 'h');
    assert("get_transactions"@[4] == 't');
    assert("get_fee_estimates"@[4] == 'f');
    assert("get_balance"@[0] == 'g');
}

/// A requested history limit is kept when it is between 1 and
/// `MAX_HISTORY_LIMIT`, raised to 1 below and cut to the maximum above; a
/// request without an integer limit gets `DEFAULT_HISTORY_LIMIT`. A larger
/// request never gets fewer rows.
pub proof fn law_history_limit(p: JsonValue, q: JsonValue, n: u64, m: u64)
    ensures
        limit_given(p, n) && 1 <= n <= MAX_HISTORY_LIMIT ==> history_limit(p) == n,
        limit_given(p, n) && n == 0 ==> history_limit(p) == 1,
        limit_given(p, n) && MAX_HISTORY_LIMIT < n <= usize::MAX ==> history_limit(p) == MAX_HISTORY_LIMIT,
        !(json_get(p, "limit"@) matches Some(l) && json_u64(l) is Some) ==> history_limit(p) == DEFAULT_HISTORY_LIMIT,
        1 <= history_limit(p) <= MAX_HISTORY_LIMIT,
        limit_given(p, n) && limit_given(q, m) && n <= m <= usize::MAX ==> history_limit(p) <= history_limit(q),
{
    if limit_given(p, n) && n <= usize::MAX {
        assert((n as usize) as int == n as int);
    }
    if limit_given(q, m) && m <= usize::MAX {
        assert((m as usize) as int == m as int);
    }
}

/// The request's `limit` member is the integer `n`.
pub open spec fn limit_given(p: JsonValue, n: u64) -> bool {
    json_get(p, "limit"@) matches Some(l) && json_u64(l) == Some(n)
}

} // verus!
