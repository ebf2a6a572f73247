//! Routing of unwrapped requests: replay
//! check, rate limit, authorization, then pairing, unpairing, watch-set
//! updates, or hand-off to the chain-data handlers. Authorization happens
//! before any backend work.

use vstd::prelude::*;
use crate::config::Network;
use crate::handlers::{address_error, address_texts, single_count, watch_addresses, MAX_WATCH_ADDRESSES};
use crate::json::{json_get, json_str, member_names, member_value, put, JsonValue};
use crate::pairing::{accepts_attempts, after_attempt, expected_tag, proof_matches, PairingManager, SecretView};
use crate::protocol::{is_error, is_success, member_str, member_u8, nil_uuid, parse_request, request_from, request_shape, valid_id, ErrorCode, RequestEnvelope, ResponseEnvelope, MAX_CONTENT_LEN, PROTOCOL_VERSION};
use crate::ratelimit::{allows, bucket_after, Bucket, RateLimiter};
use crate::replay::{pruned, ReplayCache};
use crate::store::{Allowlist, WatchStore};
use crate::text::str_eq;

verus! {

/// The server's name and version, as reported to wallets.
pub open spec fn server_version() -> Seq<char> {
    "nomad-server/0.1.0"@
}

/// The server's name and version.
pub fn server_version_text() -> (r: &'static str)
    ensures
        r@ == server_version(),
{
    "nomad-server/0.1.0"
}

/// The chain-data request types, answered through the Electrs backend.
#[derive(Debug, Clone, Copy, PartialEq, Eq, Structural)]
pub enum ChainQuery {
    Ping,
    Balance,
    Utxos,
    History,
    Transactions,
    FeeEstimates,
    Broadcast,
}

/// The chain-data query a request type names.
pub open spec fn chain_query_of(t: Seq<char>) -> Option<ChainQuery> {
    if t == "ping"@ {
        Some(ChainQuery::Ping)
    } else if t == "get_balance"@ {
        Some(ChainQuery::Balance)
    } else if t == "get_utxos"@ {
        Some(ChainQuery::Utxos)
    } else if t == "get_history"@ {
        Some(ChainQuery::History)
    } else if t == "get_transactions"@ {
        Some(ChainQuery::Transactions)
    } else if t == "get_fee_estimates"@ {
        Some(ChainQuery::FeeEstimates)
    } else if t == "broadcast_tx"@ {
        Some(ChainQuery::Broadcast)
    } else {
        None
    }
}

/// The chain-data query a request type names.
pub fn chain_query(t: &str) -> (r: Option<ChainQuery>)
    ensures
        r == chain_query_of(t@),
{
    if str_eq(t, "ping") {
        Some(ChainQuery::Ping)
    } else if str_eq(t, "get_balance") {
        Some(ChainQuery::Balance)
    } else if str_eq(t, "get_utxos") {
        Some(ChainQuery::Utxos)
    } else if str_eq(t, "get_history") {
        Some(ChainQuery::History)
    } else if str_eq(t, "get_transactions") {
        Some(ChainQuery::Transactions)
    } else if str_eq(t, "get_fee_estimates") {
        Some(ChainQuery::FeeEstimates)
    } else if str_eq(t, "broadcast_tx") {
        Some(ChainQuery::Broadcast)
    } else {
        None
    }
}

/// State shared between the transport, the LAN UI and the watcher.
pub struct SharedState {
    pub allowlist: Allowlist,
    pub watch: WatchStore,
    pub pairing: PairingManager,
}

/// The shared state as values: the paired pubkeys, the watch sets, and the
/// pairing secret.
pub struct SharedView {
    pub allowlist: Set<Seq<char>>,
    pub watch: Map<Seq<char>, Seq<Seq<char>>>,
    pub pairing: SecretView,
}

impl View for SharedState {
    type V = SharedView;

    open spec fn view(&self) -> SharedView {
        SharedView { allowlist: self.allowlist@, watch: self.watch@, pairing: self.pairing@ }
    }
}

/// Nothing of the shared state changed.
pub open spec fn unchanged(s0: SharedView, s1: SharedView) -> bool {
    &&& s1.allowlist == s0.allowlist
    &&& s1.watch == s0.watch
    &&& s1.pairing == s0.pairing
}

/// What to do with a request.
#[derive(Debug)]
pub enum Routed {
    /// A replay: drop silently.
    Drop,
    /// Send this response.
    Reply(ResponseEnvelope),
    /// A wallet was paired: save the allowlist, then send what `after_save`
    /// gives for this response.
    Paired(ResponseEnvelope),
    /// The sender was unpaired: save the allowlist, then let
    /// `finish_unpair` drop its watch set and give the response to send.
    Unpaired(ResponseEnvelope),
    /// The sender's watch set was replaced: save the watch sets, then send
    /// what `after_save` gives for this response.
    Watched(ResponseEnvelope),
    /// A chain-data request for the backend handlers.
    Chain(ChainQuery, RequestEnvelope),
}

/// The `proof` string of a pair payload; empty when missing.
pub open spec fn proof_text(payload: JsonValue) -> Seq<char> {
    match json_get(payload, "proof"@) {
        Some(p) => match json_str(p) {
            Some(s) => s,
            None => Seq::empty(),
        },
        None => Seq::empty(),
    }
}

/// A pair request from `sender` succeeds: the secret accepts attempts and
/// the proof is the HMAC of the sender's pubkey under it.
pub open spec fn pairing_succeeds(pairing: crate::pairing::SecretView, now: u64, sender: Seq<char>, proof: Seq<char>) -> bool {
    accepts_attempts(pairing, now) && proof_matches(proof, expected_tag(pairing.unwrap().0, sender))
}

/// A success response whose result is `{"server": <version>}`.
pub open spec fn server_result(resp: ResponseEnvelope, id: Seq<char>) -> bool {
    &&& is_success(resp, id)
    &&& member_names(resp.result.unwrap()) == seq!["server"@]
    &&& json_str(member_value(resp.result.unwrap(), 0)) == Some(server_version())
}

fn pair_payload_proof(payload: &JsonValue) -> (r: &str)
    ensures
        r@ == proof_text(*payload),
{
    match payload.get("proof") {
        Some(p) => match p.as_str() {
            Some(s) => s,
            None => {
                proof { reveal_strlit(""); }
                ""
            },
        },
        None => {
            proof { reveal_strlit(""); }
            ""
        },
    }
}

/// What a `pair` request from `sender` does, with the checks in order: the
/// secret accepts attempts, the proof is the HMAC of the sender's pubkey
/// under it, and the sender is not already allowlisted. When all pass the
/// secret is burned by use and the sender allowlisted; any later check that
/// fails counts as a failed attempt. Every refusal is the same
/// `pairing_failed`.
pub open spec fn pair_outcome(s0: SharedView, s1: SharedView, sender: Seq<char>, env: RequestEnvelope, now: u64, r: Routed) -> bool {
    let ok = !s0.allowlist.contains(sender) && pairing_succeeds(s0.pairing, now, sender, proof_text(env.payload));
    &&& s1.watch == s0.watch
    &&& s1.pairing == (if accepts_attempts(s0.pairing, now) {
        after_attempt(s0.pairing, ok)
    } else {
        s0.pairing
    })
    &&& ok ==> (r matches Routed::Paired(resp) && server_result(resp, env.id@))
    &&& ok ==> s1.allowlist == s0.allowlist.insert(sender)
    &&& !ok ==> (r matches Routed::Reply(e) && is_error(e, env.id@, ErrorCode::PairingFailed, "pairing failed"@))
    &&& !ok ==> s1.allowlist == s0.allowlist
}

/// Where a request goes once it passed the replay and rate checks: `pair`
/// is the only type open to keys that are not allowlisted; every other
/// request from such a key is answered `not_paired` and changes nothing.
/// A paired key may unpair, replace its watch set, or ask a chain-data
/// query; any other type is answered `unknown_type`.
pub open spec fn dispatch_outcome(s0: SharedView, s1: SharedView, network: Network, sender: Seq<char>, env: RequestEnvelope, now: u64, r: Routed) -> bool {
    let t = env.msg_type@;
    if t == "pair"@ {
        pair_outcome(s0, s1, sender, env, now, r)
    } else if !s0.allowlist.contains(sender) {
        &&& r matches Routed::Reply(e) && is_error(e, env.id@, ErrorCode::NotPaired, "not paired"@)
        &&& unchanged(s0, s1)
    } else if t == "unpair"@ {
        &&& s1.allowlist == s0.allowlist.remove(sender)
        &&& s1.watch == s0.watch
        &&& s1.pairing == s0.pairing
        &&& r matches Routed::Unpaired(resp) && is_success(resp, env.id@)
            && member_names(resp.result.unwrap()) == Seq::<Seq<char>>::empty()
    } else if t == "watch_addresses"@ {
        &&& s1.allowlist == s0.allowlist
        &&& s1.pairing == s0.pairing
        &&& match address_error(env.payload, network, MAX_WATCH_ADDRESSES) {
            Some(m) => (r matches Routed::Reply(e) && is_error(e, env.id@, ErrorCode::InvalidRequest, m))
                && s1.watch == s0.watch,
            None => {
                &&& r matches Routed::Watched(resp) && is_success(resp, env.id@)
                    && single_count(resp.result.unwrap(), "watching"@, address_texts(env.payload).len() as u64)
                &&& address_texts(env.payload).len() == 0 ==> s1.watch == s0.watch.remove(sender)
                &&& address_texts(env.payload).len() > 0 ==> s1.watch == s0.watch.insert(sender, address_texts(env.payload))
            },
        }
    } else {
        &&& unchanged(s0, s1)
        &&& chain_query_of(t) matches Some(q) ==> (r matches Routed::Chain(q2, e2) && q2 == q && e2 == env)
        &&& chain_query_of(t) is None ==> (r matches Routed::Reply(e) && is_error(e, env.id@, ErrorCode::UnknownType, "unknown type"@))
    }
}

/// What routing one request does to the replay cache `replay0`, the rate
/// buckets `buckets0` and the shared state `s0`: a replayed envelope id is
/// dropped and changes nothing else; a sender over its rate is answered
/// `rate_limited`; anything else is dispatched.
pub open spec fn route_outcome(
    replay0: Map<Seq<char>, u64>,
    buckets0: Map<Seq<char>, Bucket>,
    s0: SharedView,
    replay1: Map<Seq<char>, u64>,
    buckets1: Map<Seq<char>, Bucket>,
    s1: SharedView,
    network: Network,
    sender: Seq<char>,
    env: RequestEnvelope,
    now: u64,
    r: Routed,
) -> bool {
    if pruned(replay0, now).contains_key(env.id@) {
        &&& r is Drop
        &&& replay1 == pruned(replay0, now)
        &&& buckets1 == buckets0
        &&& unchanged(s0, s1)
    } else {
        let prev = if buckets0.contains_key(sender) { Some(buckets0[sender]) } else { None };
        &&& replay1 == pruned(replay0, now).insert(env.id@, now)
        &&& buckets1 == buckets0.insert(sender, bucket_after(prev, now))
        &&& if !allows(prev, now) {
            &&& r matches Routed::Reply(e) && is_error(e, env.id@, ErrorCode::RateLimited, "slow down"@)
            &&& unchanged(s0, s1)
        } else {
            dispatch_outcome(s0, s1, network, sender, env, now, r)
        }
    }
}

/// Handles a `pair` request: the secret and the proof are checked first,
/// then that the sender is not already allowlisted. A full pass burns the
/// secret and allowlists the sender. Every refusal is the same
/// `pairing_failed`, with no hint of which check failed.
pub fn handle_pair(shared: &mut SharedState, sender: &str, env: &RequestEnvelope, now: u64) -> (r: Routed)
    ensures
        pair_outcome(old(shared)@, final(shared)@, sender@, *env, now, r),
{
    let proof = pair_payload_proof(&env.payload);
    let eligible = !shared.allowlist.is_paired(sender);
    let ok = shared.pairing.verify_for(now, sender, proof, eligible);
    if !ok {
        return Routed::Reply(ResponseEnvelope::err(env.id.as_str(), ErrorCode::PairingFailed, "pairing failed"));
    }
    shared.allowlist.add(sender);
    let mut fields: Vec<(String, JsonValue)> = Vec::new();
    put(&mut fields, "server", JsonValue::string(server_version_text()));
    let result = JsonValue::Object(fields);
    assert(member_names(result) =~= seq!["server"@]);
    Routed::Paired(ResponseEnvelope::ok(env.id.as_str(), result))
}

/// Handles an `unpair` request from an allowlisted sender: removes it and answers with an empty result.
pub fn handle_unpair(shared: &mut SharedState, sender: &str, env: &RequestEnvelope) -> (r: Routed)
    ensures
        final(shared).allowlist@ == old(shared).allowlist@.remove(sender@),
        final(shared).watch@ == old(shared).watch@,
        final(shared).pairing@ == old(shared).pairing@,
        old(shared).allowlist@.contains(sender@) ==> (r matches Routed::Unpaired(resp) && is_success(resp, env.id@)
            && member_names(resp.result.unwrap()) == Seq::<Seq<char>>::empty()),
        !old(shared).allowlist@.contains(sender@) ==> (r matches Routed::Reply(e) && is_error(e, env.id@, ErrorCode::NotPaired, "not paired"@)),
{
    if shared.allowlist.remove(sender) {
        let fields: Vec<(String, JsonValue)> = Vec::new();
        let result = JsonValue::Object(fields);
        assert(member_names(result) =~= Seq::<Seq<char>>::empty());
        Routed::Unpaired(ResponseEnvelope::ok(env.id.as_str(), result))
    } else {
        Routed::Reply(ResponseEnvelope::err(env.id.as_str(), ErrorCode::NotPaired, "not paired"))
    }
}

/// Routes a request by type once it passed the replay and rate checks.
/// `pair` is the only type open to keys that are not allowlisted; every
/// other request from such a key is answered `not_paired`.
pub fn dispatch(shared: &mut SharedState, network: Network, sender: &str, env: RequestEnvelope, now: u64) -> (r: Routed)
    ensures
        dispatch_outcome(old(shared)@, final(shared)@, network, sender@, env, now, r),
{
    if str_eq(env.msg_type.as_str(), "pair") {
        return handle_pair(shared, sender, &env, now);
    }
    if !shared.allowlist.is_paired(sender) {
        return Routed::Reply(ResponseEnvelope::err(env.id.as_str(), ErrorCode::NotPaired, "not paired"));
    }
    if str_eq(env.msg_type.as_str(), "unpair") {
        return handle_unpair(shared, sender, &env);
    }
    if str_eq(env.msg_type.as_str(), "watch_addresses") {
        let resp = watch_addresses(&mut shared.watch, sender, &env, network);
        if resp.ok {
            return Routed::Watched(resp);
        } else {
            return Routed::Reply(resp);
        }
    }
    match chain_query(env.msg_type.as_str()) {
        Some(q) => Routed::Chain(q, env),
        None => Routed::Reply(ResponseEnvelope::err(env.id.as_str(), ErrorCode::UnknownType, "unknown type")),
    }
}

/// The response to send once the state change behind `resp` was saved, or
/// failed to save: `resp` itself, or an `internal` error for its request.
pub fn after_save(resp: ResponseEnvelope, saved: bool) -> (r: ResponseEnvelope)
    ensures
        saved ==> r == resp,
        !saved ==> is_error(r, resp.id@, ErrorCode::Internal, "internal error"@),
{
    if saved {
        resp
    } else {
        ResponseEnvelope::err(resp.id.as_str(), ErrorCode::Internal, "internal error")
    }
}

/// Finishes an unpairing once the allowlist was saved (`saved`) or failed
/// to save: when saved, the sender's watch set is dropped too and `resp` is
/// sent; otherwise nothing more changes and the answer is an `internal`
/// error. The flag tells whether the watch sets changed and must be saved.
pub fn finish_unpair(shared: &mut SharedState, sender: &str, resp: ResponseEnvelope, saved: bool) -> (r: (ResponseEnvelope, bool))
    ensures
        final(shared).allowlist@ == old(shared).allowlist@,
        final(shared).pairing@ == old(shared).pairing@,
        saved ==> {
            &&& final(shared).watch@ == old(shared).watch@.remove(sender@)
            &&& r.0 == resp
            &&& r.1 == old(shared).watch@.contains_key(sender@)
        },
        !saved ==> {
            &&& final(shared).watch@ == old(shared).watch@
            &&& is_error(r.0, resp.id@, ErrorCode::Internal, "internal error"@)
            &&& !r.1
        },
{
    if saved {
        let removed = shared.watch.remove_wallet(sender);
        (resp, removed)
    } else {
        (after_save(resp, false), false)
    }
}

/// Rumor content that is not read as a request and is dropped unanswered:
/// oversized, not JSON, or not shaped like a request envelope.
pub open spec fn unreadable_request(content_len: usize, doc: Option<JsonValue>) -> bool {
    content_len > MAX_CONTENT_LEN || doc is None || !request_shape(doc.unwrap())
}

/// The per-request gate of the transport: replay cache and rate limiter.
pub struct Router {
    pub replay: ReplayCache,
    pub ratelimit: RateLimiter,
    pub network: Network,
}

impl Router {
    pub fn new(replay: ReplayCache, network: Network) -> (r: Router)
        ensures
            r.replay@ == replay@,
            r.ratelimit@ == Map::<Seq<char>, crate::ratelimit::Bucket>::empty(),
            r.network == network,
    {
        Router { replay, ratelimit: RateLimiter::new(), network }
    }

    /// Routes one request: a replayed envelope id is dropped; a sender over
    /// its rate is answered `rate_limited`; anything else is dispatched.
    pub fn route(&mut self, shared: &mut SharedState, sender: &str, env: RequestEnvelope, now: u64) -> (r: Routed)
        ensures
            final(self).network == old(self).network,
            route_outcome(
                old(self).replay@, old(self).ratelimit@, old(shared)@,
                final(self).replay@, final(self).ratelimit@, final(shared)@,
                old(self).network, sender@, env, now, r,
            ),
    {
        if !self.replay.check_and_insert(env.id.as_str(), now) {
            return Routed::Drop;
        }
        if !self.ratelimit.allow(sender, now) {
            return Routed::Reply(ResponseEnvelope::err(env.id.as_str(), ErrorCode::RateLimited, "slow down"));
        }
        dispatch(shared, self.network, sender, env, now)
    }

    /// Handles the content of a request rumor, given its length in bytes
    /// and the JSON document it holds (`None` when it is not JSON): content
    /// that cannot be read as a request is dropped or answered as
    /// `parse_request` decides, and touches no state; a request is routed.
    pub fn handle_request(&mut self, shared: &mut SharedState, sender: &str, content_len: usize, doc: Option<JsonValue>, now: u64) -> (r: Routed)
        ensures
            final(self).network == old(self).network,
            unreadable_request(content_len, doc) ==> {
                &&& r is Drop
                &&& final(self).replay@ == old(self).replay@
                &&& final(self).ratelimit@ == old(self).ratelimit@
                &&& unchanged(old(shared)@, final(shared)@)
            },
            !unreadable_request(content_len, doc) && member_u8(doc.unwrap(), "v"@) != Some(PROTOCOL_VERSION) ==> {
                &&& r matches Routed::Reply(e) && is_error(e, member_str(doc.unwrap(), "id"@).unwrap(),
                    ErrorCode::UnsupportedVersion, "unsupported protocol version"@)
                &&& final(self).replay@ == old(self).replay@
                &&& final(self).ratelimit@ == old(self).ratelimit@
                &&& unchanged(old(shared)@, final(shared)@)
            },
            !unreadable_request(content_len, doc) && member_u8(doc.unwrap(), "v"@) == Some(PROTOCOL_VERSION)
                && !valid_id(member_str(doc.unwrap(), "id"@).unwrap()) ==> {
                &&& r matches Routed::Reply(e) && is_error(e, nil_uuid(), ErrorCode::InvalidRequest, "id must be a UUID"@)
                &&& final(self).replay@ == old(self).replay@
                &&& final(self).ratelimit@ == old(self).ratelimit@
                &&& unchanged(old(shared)@, final(shared)@)
            },
            !unreadable_request(content_len, doc) && member_u8(doc.unwrap(), "v"@) == Some(PROTOCOL_VERSION)
                && valid_id(member_str(doc.unwrap(), "id"@).unwrap()) ==> exists|env: RequestEnvelope| {
                &&& #[trigger] request_from(doc.unwrap(), env)
                &&& route_outcome(
                    old(self).replay@, old(self).ratelimit@, old(shared)@,
                    final(self).replay@, final(self).ratelimit@, final(shared)@,
                    old(self).network, sender@, env, now, r,
                )
            },
    {
        match parse_request(content_len, doc) {
            Ok(env) => self.route(shared, sender, env, now),
            Err(Some(resp)) => Routed::Reply(resp),
            Err(None) => Routed::Drop,
        }
    }
}

} // verus!
