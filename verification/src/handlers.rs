//! Request handlers for the chain-data message types.
//! Validation and limits happen before any backend call;
//! the backend's answers are turned into results here.

use vstd::prelude::*;
use vstd::string::StringSliceAdditionalSpecFns;
use crate::chain::{address_script, block_hash_display, consensus_output_scripts, consensus_txid, tx_output_scripts, hash_display, parse_address, parse_txid, txid_display, txid_of, txid_text};
use crate::encoding::{hex_decode, hex_decoded, hex_encode, hex_lower};
use crate::config::Network;
use crate::json::{json_array, json_get, json_str, json_u64, member_names, member_value, put, JsonValue};
use crate::protocol::{is_error, is_success, ErrorCode, RequestEnvelope, ResponseEnvelope};
use crate::store::{texts, WatchStore};
use crate::text::{decimal, owned, to_decimal};
use crate::history::{best_height, same_txid, HistoryEntry};

verus! {

pub const MAX_QUERY_ADDRESSES: usize = 200;
pub const MAX_WATCH_ADDRESSES: usize = 5000;
pub const MAX_TXIDS: usize = 25;
/// 100 KB of transaction, as hex.
pub const MAX_TXHEX_LEN: usize = 200000;
/// Confirmation targets, in blocks, of the fast, medium and slow fee
/// estimates.
pub const FAST_BLOCKS: usize = 1;
pub const MEDIUM_BLOCKS: usize = 6;
pub const SLOW_BLOCKS: usize = 12;
pub const DEFAULT_HISTORY_LIMIT: usize = 50;
pub const MAX_HISTORY_LIMIT: usize = 200;

/// The `addresses` array of a payload.
pub open spec fn address_items(payload: JsonValue) -> Option<Seq<JsonValue>> {
    match json_get(payload, "addresses"@) {
        Some(a) => json_array(a),
        None => None,
    }
}

/// Every item is an address string valid for `network`.
pub open spec fn all_valid_addresses(items: Seq<JsonValue>, network: Network) -> bool {
    forall|i: int|
        0 <= i < items.len() ==> (json_str(#[trigger] items[i]) matches Some(s) && address_script(
            s,
            network,
        ) is Some)
}

/// The message for an over-long address list.
pub open spec fn too_many_message(max: usize) -> Seq<char> {
    "too many addresses (max "@ + decimal(max as nat) + ")"@
}

/// Why a payload's `addresses` are refused: not an array, more than `max`
/// items, or an item that is not an address of `network`.
pub open spec fn address_error(payload: JsonValue, network: Network, max: usize) -> Option<Seq<char>> {
    match address_items(payload) {
        None => Some("invalid addresses"@),
        Some(items) => if items.len() > max {
            Some(too_many_message(max))
        } else if !all_valid_addresses(items, network) {
            Some("invalid addresses"@)
        } else {
            None
        },
    }
}

/// The address strings of a payload.
pub open spec fn address_texts(payload: JsonValue) -> Seq<Seq<char>> {
    address_items(payload).unwrap().map_values(|x: JsonValue| json_str(x).unwrap())
}

/// The outcome of address validation: the error to answer, or each address
/// with its scriptPubKey, in order.
pub open spec fn addresses_checked(
    r: Result<Vec<(String, Vec<u8>)>, ResponseEnvelope>,
    id: Seq<char>,
    payload: JsonValue,
    network: Network,
    max: usize,
) -> bool {
    match address_error(payload, network, max) {
        Some(m) => r matches Err(e) && is_error(e, id, ErrorCode::InvalidRequest, m),
        None => r matches Ok(v) && v@.len() == address_texts(payload).len() && forall|i: int|
            0 <= i < v@.len() ==> (#[trigger] v@[i]).0@ == address_texts(payload)[i]
                && Some(v@[i].1@) == address_script(v@[i].0@, network),
    }
}

fn concat3(a: &str, b: String, c: &str) -> (r: String)
    ensures
        r@ == a@ + b@ + c@,
{
    let s = owned(a);
    let s = <String as vstd::string::StringExecFns>::concat(s, b.as_str());
    <String as vstd::string::StringExecFns>::concat(s, c)
}

/// Checks a payload's `addresses`: an array of at most `max` strings, each
/// an address of `network`. Errors echo `id`.
pub fn validate_addresses(id: &str, payload: &JsonValue, network: Network, max: usize) -> (r: Result<
    Vec<(String, Vec<u8>)>,
    ResponseEnvelope,
>)
    ensures
        addresses_checked(r, id@, *payload, network, max),
{
    let list = match payload.get("addresses") {
        Some(a) => match a.as_array() {
            Some(l) => l,
            None => return Err(ResponseEnvelope::err(id, ErrorCode::InvalidRequest, "invalid addresses")),
        },
        None => return Err(ResponseEnvelope::err(id, ErrorCode::InvalidRequest, "invalid addresses")),
    };
    if list.len() > max {
        let message = concat3("too many addresses (max ", to_decimal(max as u64), ")");
        return Err(ResponseEnvelope::err(id, ErrorCode::InvalidRequest, message.as_str()));
    }
    let mut out: Vec<(String, Vec<u8>)> = Vec::new();
    let mut i: usize = 0;
    while i < list.len()
        invariant
            i <= list@.len(),
            address_items(*payload) == Some(list@),
            list@.len() <= max,
            out@.len() == i,
            forall|j: int| 0 <= j < i ==> (json_str(#[trigger] list@[j]) matches Some(s) && address_script(s, network) is Some),
            forall|j: int|
                0 <= j < i ==> Some((#[trigger] out@[j]).0@) == json_str(list@[j])
                    && Some(out@[j].1@) == address_script(out@[j].0@, network),
        decreases list@.len() - i,
    {
        let s = match list[i].as_str() {
            Some(s) => s,
            None => return Err(ResponseEnvelope::err(id, ErrorCode::InvalidRequest, "invalid addresses")),
        };
        let script = match parse_address(s, network) {
            Some(script) => script,
            None => return Err(ResponseEnvelope::err(id, ErrorCode::InvalidRequest, "invalid addresses")),
        };
        out.push((owned(s), script));
        i = i + 1;
    }
    Ok(out)
}

/// A result object with one integer member `key`.
pub open spec fn single_count(result: JsonValue, key: Seq<char>, n: u64) -> bool {
    &&& result is Object
    &&& member_names(result) == seq![key]
    &&& json_u64(member_value(result, 0)) == Some(n)
}

/// Answers `watch_addresses`: the given set replaces the
/// sender's entire watch set (an empty set clears it); the result counts
/// the watched addresses. On a refused payload nothing changes.
pub fn watch_addresses(watch: &mut WatchStore, sender: &str, env: &RequestEnvelope, network: Network) -> (r: ResponseEnvelope)
    ensures
        match address_error(env.payload, network, MAX_WATCH_ADDRESSES) {
            Some(m) => is_error(r, env.id@, ErrorCode::InvalidRequest, m) && final(watch)@ == old(watch)@,
            None => {
                &&& is_success(r, env.id@)
                &&& single_count(r.result.unwrap(), "watching"@, address_texts(env.payload).len() as u64)
                &&& address_texts(env.payload).len() == 0 ==> final(watch)@ == old(watch)@.remove(sender@)
                &&& address_texts(env.payload).len() > 0 ==> final(watch)@ == old(watch)@.insert(sender@, address_texts(env.payload))
            },
        },
{
    let addrs = match validate_addresses(env.id.as_str(), &env.payload, network, MAX_WATCH_ADDRESSES) {
        Ok(a) => a,
        Err(e) => return e,
    };
    let ghost a = addrs@;
    let mut list: Vec<String> = Vec::new();
    let mut addrs = addrs;
    // keep the strings, in order
    let mut rev: Vec<String> = Vec::new();
    while addrs.len() > 0
        invariant
            addrs@.len() + rev@.len() == a.len(),
            forall|j: int| 0 <= j < addrs@.len() ==> (#[trigger] addrs@[j]).0@ == a[j].0@,
            forall|j: int| 0 <= j < rev@.len() ==> (#[trigger] rev@[j])@ == a[a.len() - 1 - j].0@,
        decreases addrs@.len(),
    {
        let (s, _) = addrs.pop().unwrap();
        rev.push(s);
    }
    while rev.len() > 0
        invariant
            list@.len() + rev@.len() == a.len(),
            forall|j: int| 0 <= j < rev@.len() ==> (#[trigger] rev@[j])@ == a[a.len() - 1 - j].0@,
            forall|j: int| 0 <= j < list@.len() ==> (#[trigger] list@[j])@ == a[j].0@,
        decreases rev@.len(),
    {
        let s = rev.pop().unwrap();
        list.push(s);
    }
    assert(texts(list@) =~= address_texts(env.payload));
    let n = watch.replace(sender, list);
    let mut fields: Vec<(String, JsonValue)> = Vec::new();
    put(&mut fields, "watching", JsonValue::uint(n as u64));
    let result = JsonValue::Object(fields);
    assert(member_names(result) =~= seq!["watching"@]);
    ResponseEnvelope::ok(env.id.as_str(), result)
}

/// Failures of the Electrs backend.
#[derive(Debug)]
pub enum BackendError {
    /// The backend is in cooldown after a timeout.
    Cooldown,
    /// The backend call timed out.
    Timeout,
    /// The backend answered with an error.
    Electrum(String),
}

/// The answer to a request whose backend call failed: always
/// `backend_unavailable`, with a message that never repeats the backend's.
pub fn backend_err(id: &str, e: &BackendError) -> (r: ResponseEnvelope)
    ensures
        e is Electrum ==> is_error(r, id@, ErrorCode::BackendUnavailable, "backend error"@),
        !(e is Electrum) ==> is_error(r, id@, ErrorCode::BackendUnavailable, "backend temporarily unavailable"@),
{
    match e {
        BackendError::Electrum(_) => ResponseEnvelope::err(id, ErrorCode::BackendUnavailable, "backend error"),
        _ => ResponseEnvelope::err(id, ErrorCode::BackendUnavailable, "backend temporarily unavailable"),
    }
}

/// The addresses of a balance, UTXO or history query: validated (at most
/// `MAX_QUERY_ADDRESSES`) and non-empty.
pub open spec fn query_checked(
    r: Result<Vec<(String, Vec<u8>)>, ResponseEnvelope>,
    id: Seq<char>,
    payload: JsonValue,
    network: Network,
) -> bool {
    match address_error(payload, network, MAX_QUERY_ADDRESSES) {
        Some(m) => r matches Err(e) && is_error(e, id, ErrorCode::InvalidRequest, m),
        None => if address_texts(payload).len() == 0 {
            r matches Err(e) && is_error(e, id, ErrorCode::InvalidRequest, "addresses must be non-empty"@)
        } else {
            addresses_checked(r, id, payload, network, MAX_QUERY_ADDRESSES)
        },
    }
}

/// Validates the addresses of a balance, UTXO or history query.
pub fn query_addresses(env: &RequestEnvelope, network: Network) -> (r: Result<Vec<(String, Vec<u8>)>, ResponseEnvelope>)
    ensures
        query_checked(r, env.id@, env.payload, network),
{
    let addrs = match validate_addresses(env.id.as_str(), &env.payload, network, MAX_QUERY_ADDRESSES) {
        Ok(a) => a,
        Err(e) => return Err(e),
    };
    if addrs.len() == 0 {
        return Err(ResponseEnvelope::err(env.id.as_str(), ErrorCode::InvalidRequest, "addresses must be non-empty"));
    }
    Ok(addrs)
}

/// The scriptPubKeys of validated addresses, in order.
pub fn scripts_of(addrs: &Vec<(String, Vec<u8>)>) -> (r: Vec<Vec<u8>>)
    ensures
        r@.len() == addrs@.len(),
        forall|i: int| 0 <= i < r@.len() ==> (#[trigger] r@[i])@ == addrs@[i].1@,
{
    let mut out: Vec<Vec<u8>> = Vec::new();
    let mut i: usize = 0;
    while i < addrs.len()
        invariant
            i <= addrs@.len(),
            out@.len() == i,
            forall|j: int| 0 <= j < i ==> (#[trigger] out@[j])@ == addrs@[j].1@,
        decreases addrs@.len() - i,
    {
        out.push(copy_bytes(&addrs[i].1));
        i = i + 1;
    }
    out
}

/// A copy of some bytes.
pub fn copy_bytes(b: &Vec<u8>) -> (r: Vec<u8>)
    ensures
        r@ == b@,
{
    let mut out: Vec<u8> = Vec::new();
    let mut i: usize = 0;
    while i < b.len()
        invariant
            i <= b@.len(),
            out@ == b@.take(i as int),
        decreases b@.len() - i,
    {
        out.push(b[i]);
        i = i + 1;
        assert(out@ =~= b@.take(i as int));
    }
    assert(b@.take(b@.len() as int) =~= b@);
    out
}

/// The sum of the confirmed balances.
pub open spec fn confirmed_total(rows: Seq<(u64, i64)>) -> int
    decreases rows.len(),
{
    if rows.len() == 0 {
        0
    } else {
        confirmed_total(rows.drop_last()) + rows.last().0
    }
}

/// The sum of the unconfirmed balances.
pub open spec fn unconfirmed_total(rows: Seq<(u64, i64)>) -> int
    decreases rows.len(),
{
    if rows.len() == 0 {
        0
    } else {
        unconfirmed_total(rows.drop_last()) + rows.last().1
    }
}

/// Summing the unconfirmed balances left to right never leaves `i64`.
pub open spec fn unconfirmed_sums_fit(rows: Seq<(u64, i64)>) -> bool {
    forall|n: int| 0 <= n <= rows.len() ==> i64::MIN <= #[trigger] unconfirmed_total(rows.take(n)) <= i64::MAX
}

proof fn lemma_confirmed_grows(rows: Seq<(u64, i64)>, n: int)
    requires
        0 <= n <= rows.len(),
    ensures
        confirmed_total(rows.take(n)) <= confirmed_total(rows),
    decreases rows.len() - n,
{
    if n < rows.len() {
        lemma_confirmed_grows(rows, n + 1);
        assert(rows.take(n + 1).drop_last() =~= rows.take(n));
    } else {
        assert(rows.take(n) =~= rows);
    }
}

/// The summed balances of several addresses; `None`
/// when a sum leaves its integer type.
pub fn sum_balances(rows: &Vec<(u64, i64)>) -> (r: Option<(u64, i64)>)
    ensures
        r is Some <==> confirmed_total(rows@) <= u64::MAX && unconfirmed_sums_fit(rows@),
        r matches Some(t) ==> t.0 == confirmed_total(rows@) && t.1 == unconfirmed_total(rows@),
{
    let mut confirmed: u64 = 0;
    let mut unconfirmed: i64 = 0;
    let mut i: usize = 0;
    assert(rows@.take(0) =~= Seq::<(u64, i64)>::empty());
    while i < rows.len()
        invariant
            i <= rows@.len(),
            confirmed == confirmed_total(rows@.take(i as int)),
            unconfirmed == unconfirmed_total(rows@.take(i as int)),
            forall|n: int| 0 <= n <= i ==> i64::MIN <= #[trigger] unconfirmed_total(rows@.take(n)) <= i64::MAX,
        decreases rows@.len() - i,
    {
        let (c, u) = rows[i];
        assert(rows@.take(i + 1).drop_last() =~= rows@.take(i as int));
        let c2 = match confirmed.checked_add(c) {
            Some(v) => v,
            None => {
                proof {
                    lemma_confirmed_grows(rows@, i + 1);
                }
                return None;
            },
        };
        let u2 = match unconfirmed.checked_add(u) {
            Some(v) => v,
            None => {
                assert(!(i64::MIN <= unconfirmed_total(rows@.take(i + 1)) <= i64::MAX));
                return None;
            },
        };
        confirmed = c2;
        unconfirmed = u2;
        i = i + 1;
    }
    assert(rows@.take(rows@.len() as int) =~= rows@);
    Some((confirmed, unconfirmed))
}

/// A result object `{"confirmed": c, "unconfirmed": u}`.
pub open spec fn balance_result(result: JsonValue, c: u64, u: i64) -> bool {
    &&& result is Object
    &&& member_names(result) == seq!["confirmed"@, "unconfirmed"@]
    &&& json_u64(member_value(result, 0)) == Some(c)
    &&& member_value(result, 1) == (if u >= 0 {
        JsonValue::Number(crate::json::JsonNumber::PosInt(u as u64))
    } else {
        JsonValue::Number(crate::json::JsonNumber::NegInt(u))
    })
}

/// Answers `get_balance` from the per-address balances the backend gave;
/// `None` when the totals overflow.
pub fn balance_response(id: &str, rows: &Vec<(u64, i64)>) -> (r: Option<ResponseEnvelope>)
    ensures
        r is Some <==> confirmed_total(rows@) <= u64::MAX && unconfirmed_sums_fit(rows@),
        r matches Some(resp) ==> is_success(resp, id@) && balance_result(
            resp.result.unwrap(),
            confirmed_total(rows@) as u64,
            unconfirmed_total(rows@) as i64,
        ),
{
    match sum_balances(rows) {
        Some((c, u)) => {
            let mut fields: Vec<(String, JsonValue)> = Vec::new();
            put(&mut fields, "confirmed", JsonValue::uint(c));
            put(&mut fields, "unconfirmed", JsonValue::signed(u));
            let result = JsonValue::Object(fields);
            assert(member_names(result) =~= seq!["confirmed"@, "unconfirmed"@]);
            Some(ResponseEnvelope::ok(id, result))
        },
        None => None,
    }
}

/// An unspent output as the backend reports it.
#[derive(Debug, Clone, Copy)]
pub struct Unspent {
    pub txid: [u8; 32],
    pub vout: u64,
    pub value: u64,
    pub height: u64,
}

/// Confirmations of an output at `height` with the chain tip at `tip`;
/// height 0 is the mempool.
pub open spec fn confirmations(height: u64, tip: u64) -> u64 {
    if height == 0 {
        0
    } else {
        ((if tip >= height { tip - height } else { 0 }) + 1) as u64
    }
}

/// The UTXO rows: each address's outputs, addresses in order (pairing
/// addresses with the backend's lists up to the shorter of the two).
pub open spec fn utxo_rows(addrs: Seq<Seq<char>>, per: Seq<Seq<Unspent>>) -> Seq<(Seq<char>, Unspent)>
    decreases per.len(),
{
    if per.len() == 0 || addrs.len() == 0 {
        Seq::empty()
    } else {
        let n = if addrs.len() < per.len() { addrs.len() } else { per.len() };
        utxo_rows(addrs.take(n - 1), per.take(n - 1)) + per[n - 1].map_values(|u: Unspent| (addrs[n - 1], u))
    }
}

/// One UTXO object: txid, vout, value, address, confirmations.
pub open spec fn utxo_item(j: JsonValue, addr: Seq<char>, u: Unspent, tip: u64) -> bool {
    &&& j is Object
    &&& member_names(j) == seq!["txid"@, "vout"@, "value"@, "address"@, "confirmations"@]
    &&& json_str(member_value(j, 0)) == Some(hash_display(u.txid@))
    &&& json_u64(member_value(j, 1)) == Some(u.vout)
    &&& json_u64(member_value(j, 2)) == Some(u.value)
    &&& json_str(member_value(j, 3)) == Some(addr)
    &&& json_u64(member_value(j, 4)) == Some(confirmations(u.height, tip))
}

fn utxo_json(addr: &str, u: &Unspent, tip: u64) -> (r: JsonValue)
    ensures
        utxo_item(r, addr@, *u, tip),
{
    let conf = if u.height == 0 { 0 } else { tip.saturating_sub(u.height) + 1 };
    let mut fields: Vec<(String, JsonValue)> = Vec::new();
    put(&mut fields, "txid", JsonValue::Str(txid_display(&u.txid)));
    put(&mut fields, "vout", JsonValue::uint(u.vout));
    put(&mut fields, "value", JsonValue::uint(u.value));
    put(&mut fields, "address", JsonValue::string(addr));
    put(&mut fields, "confirmations", JsonValue::uint(conf));
    let r = JsonValue::Object(fields);
    assert(member_names(r) =~= seq!["txid"@, "vout"@, "value"@, "address"@, "confirmations"@]);
    r
}

/// Answers `get_utxos` from the chain tip height and each
/// address's unspent outputs: `{"utxos": [...]}`.
pub fn utxos_response(id: &str, addrs: &Vec<(String, Vec<u8>)>, tip: u64, per_addr: &Vec<Vec<Unspent>>) -> (r: ResponseEnvelope)
    ensures
        is_success(r, id@),
        member_names(r.result.unwrap()) == seq!["utxos"@],
        json_array(member_value(r.result.unwrap(), 0)) matches Some(items) && {
            let rows = utxo_rows(addrs@.map_values(|a: (String, Vec<u8>)| a.0@), per_addr@.map_values(|v: Vec<Unspent>| v@));
            &&& items.len() == rows.len()
            &&& forall|k: int| 0 <= k < items.len() ==> utxo_item(#[trigger] items[k], rows[k].0, rows[k].1, tip)
        },
{
    let ghost names = addrs@.map_values(|a: (String, Vec<u8>)| a.0@);
    let ghost per = per_addr@.map_values(|v: Vec<Unspent>| v@);
    let n = if addrs.len() < per_addr.len() { addrs.len() } else { per_addr.len() };
    let mut items: Vec<JsonValue> = Vec::new();
    let mut i: usize = 0;
    assert(per.take(0).len() == 0);
    assert(utxo_rows(names.take(0), per.take(0)).len() == 0);
    while i < n
        invariant
            n <= addrs@.len(),
            n <= per_addr@.len(),
            n == (if addrs@.len() < per_addr@.len() { addrs@.len() } else { per_addr@.len() }),
            i <= n,
            names == addrs@.map_values(|a: (String, Vec<u8>)| a.0@),
            per == per_addr@.map_values(|v: Vec<Unspent>| v@),
            items@.len() == utxo_rows(names.take(i as int), per.take(i as int)).len(),
            forall|k: int| 0 <= k < items@.len() ==> utxo_item(
                #[trigger] items@[k],
                utxo_rows(names.take(i as int), per.take(i as int))[k].0,
                utxo_rows(names.take(i as int), per.take(i as int))[k].1,
                tip,
            ),
        decreases n - i,
    {
        let ghost before = utxo_rows(names.take(i as int), per.take(i as int));
        let ghost start = items@.len();
        let list = &per_addr[i];
        let addr = addrs[i].0.as_str();
        let mut j: usize = 0;
        while j < list.len()
            invariant
                j <= list@.len(),
                i < n,
                n <= names.len(),
                n <= per.len(),
                list@ == per[i as int],
                addr@ == names[i as int],
                items@.len() == start + j,
                start == before.len(),
                forall|k: int| 0 <= k < start ==> utxo_item(#[trigger] items@[k], before[k].0, before[k].1, tip),
                forall|k: int| start <= k < items@.len() ==> utxo_item(#[trigger] items@[k], addr@, list@[k - start], tip),
            decreases list@.len() - j,
        {
            items.push(utxo_json(addr, &list[j], tip));
            j = j + 1;
        }
        proof {
            lemma_utxo_rows_step(names, per, i as int);
        }
        i = i + 1;
    }
    proof {
        lemma_utxo_rows_prefix(names, per, n as int);
    }
    let mut fields: Vec<(String, JsonValue)> = Vec::new();
    put(&mut fields, "utxos", JsonValue::Array(items));
    let result = JsonValue::Object(fields);
    assert(member_names(result) =~= seq!["utxos"@]);
    ResponseEnvelope::ok(id, result)
}

proof fn lemma_utxo_rows_step(names: Seq<Seq<char>>, per: Seq<Seq<Unspent>>, i: int)
    requires
        0 <= i < names.len(),
        i < per.len(),
    ensures
        utxo_rows(names.take(i + 1), per.take(i + 1)) == utxo_rows(names.take(i), per.take(i)) + per[i].map_values(|u: Unspent| (names[i], u)),
{
    let a = names.take(i + 1);
    let p = per.take(i + 1);
    assert(a.take(i) =~= names.take(i));
    assert(p.take(i) =~= per.take(i));
}

proof fn lemma_utxo_rows_prefix(names: Seq<Seq<char>>, per: Seq<Seq<Unspent>>, n: int)
    requires
        0 <= n,
        n == (if names.len() < per.len() { names.len() as int } else { per.len() as int }),
    ensures
        utxo_rows(names.take(n), per.take(n)) == utxo_rows(names, per),
    decreases names.len() + per.len(),
{
    if names.len() == per.len() {
        assert(names.take(n) =~= names);
        assert(per.take(n) =~= per);
    } else if names.len() < per.len() {
        assert(names.take(n) =~= names);
        if n > 0 {
            assert(utxo_rows(names, per) == utxo_rows(names.take(n - 1), per.take(n - 1)) + per[n - 1].map_values(|u: Unspent| (names[n - 1], u)));
            let p = per.take(n);
            assert(p.take(n - 1) =~= per.take(n - 1));
            assert(names.take(n).take(n - 1) =~= names.take(n - 1));
        } else {
            assert(names.take(0) =~= names);
        }
    } else {
        assert(per.take(n) =~= per);
        if n > 0 {
            let a = names.take(n);
            assert(a.take(n - 1) =~= names.take(n - 1));
            assert(per.take(n).take(n - 1) =~= per.take(n - 1));
        } else {
            assert(per.take(0) =~= per);
        }
    }
}

/// The `txids` array of a payload.
pub open spec fn txid_items(payload: JsonValue) -> Option<Seq<JsonValue>> {
    match json_get(payload, "txids"@) {
        Some(a) => json_array(a),
        None => None,
    }
}

/// Every item is a txid string.
pub open spec fn all_txids(items: Seq<JsonValue>) -> bool {
    forall|i: int| 0 <= i < items.len() ==> (json_str(#[trigger] items[i]) matches Some(s) && txid_text(vstd::utf8::encode_utf8(s)) is Some)
}

/// Reads the txids of a `get_transactions` request: 1 to `MAX_TXIDS`
/// strings, each a txid.
pub fn txids_request(env: &RequestEnvelope) -> (r: Result<Vec<[u8; 32]>, ResponseEnvelope>)
    ensures
        !(txid_items(env.payload) matches Some(items) && 0 < items.len() <= MAX_TXIDS) ==>
            (r matches Err(e) && is_error(e, env.id@, ErrorCode::InvalidRequest, "txids must be 1..=25"@)),
        (txid_items(env.payload) matches Some(items) && 0 < items.len() <= MAX_TXIDS && !all_txids(items)) ==>
            (r matches Err(e) && is_error(e, env.id@, ErrorCode::InvalidRequest, "invalid txid"@)),
        (txid_items(env.payload) matches Some(items) && 0 < items.len() <= MAX_TXIDS && all_txids(items)) ==>
            (r matches Ok(v) && v@.len() == txid_items(env.payload).unwrap().len() && forall|i: int| 0 <= i < v@.len()
                ==> Some((#[trigger] v@[i])@) == txid_text(vstd::utf8::encode_utf8(json_str(txid_items(env.payload).unwrap()[i]).unwrap()))),
{
    let list = match env.payload.get("txids") {
        Some(t) => match t.as_array() {
            Some(a) => a,
            None => return Err(ResponseEnvelope::err(env.id.as_str(), ErrorCode::InvalidRequest, "txids must be 1..=25")),
        },
        None => return Err(ResponseEnvelope::err(env.id.as_str(), ErrorCode::InvalidRequest, "txids must be 1..=25")),
    };
    if list.len() == 0 || list.len() > MAX_TXIDS {
        return Err(ResponseEnvelope::err(env.id.as_str(), ErrorCode::InvalidRequest, "txids must be 1..=25"));
    }
    let mut v: Vec<[u8; 32]> = Vec::new();
    let mut i: usize = 0;
    while i < list.len()
        invariant
            i <= list@.len(),
            txid_items(env.payload) == Some(list@),
            0 < list@.len() <= MAX_TXIDS,
            v@.len() == i,
            forall|j: int| 0 <= j < i ==> (json_str(#[trigger] list@[j]) matches Some(s) && txid_text(vstd::utf8::encode_utf8(s)) is Some),
            forall|j: int| 0 <= j < i ==> Some((#[trigger] v@[j])@) == txid_text(vstd::utf8::encode_utf8(json_str(list@[j]).unwrap())),
        decreases list@.len() - i,
    {
        let id = match list[i].as_str() {
            Some(s) => match parse_txid(s) {
                Some(t) => t,
                None => return Err(ResponseEnvelope::err(env.id.as_str(), ErrorCode::InvalidRequest, "invalid txid")),
            },
            None => return Err(ResponseEnvelope::err(env.id.as_str(), ErrorCode::InvalidRequest, "invalid txid")),
        };
        v.push(id);
        i = i + 1;
    }
    Ok(v)
}

/// One item of a `get_transactions` answer: the txid, the raw transaction
/// as hex, and the height it confirmed at, with the block's hash and time
/// when confirmed (height 0: unconfirmed, no block members).
pub open spec fn raw_tx_item(j: JsonValue, txid: Seq<u8>, raw: Seq<u8>, height: u64, anchors: Seq<(u64, [u8; 32], u32)>) -> bool {
    &&& j is Object
    &&& json_str(member_value(j, 0)) == Some(hash_display(txid))
    &&& json_str(member_value(j, 1)) == Some(hex_lower(raw))
    &&& json_u64(member_value(j, 2)) == Some(height)
    &&& height == 0 ==> member_names(j) == seq!["txid"@, "hex"@, "height"@]
    &&& height > 0 ==> {
        let a = anchor_for(anchors, height).unwrap();
        &&& member_names(j) == seq!["txid"@, "hex"@, "height"@, "block_hash"@, "block_time"@]
        &&& json_str(member_value(j, 3)) == Some(hash_display(a.0@))
        &&& json_u64(member_value(j, 4)) == Some(a.1 as u64)
    }
}

/// Answers `get_transactions` from the raw transactions the backend gave,
/// each with the height it confirmed at, and the block anchors of those
/// heights, in request order: `{"txs": [...]}`.
pub fn transactions_response(id: &str, txs: &Vec<([u8; 32], Vec<u8>, u64)>, anchors: &Vec<(u64, [u8; 32], u32)>) -> (r: ResponseEnvelope)
    requires
        forall|k: int| 0 <= k < txs@.len() && (#[trigger] txs@[k]).2 > 0 ==> anchor_for(anchors@, txs@[k].2) is Some,
    ensures
        is_success(r, id@),
        member_names(r.result.unwrap()) == seq!["txs"@],
        json_array(member_value(r.result.unwrap(), 0)) matches Some(items) && items.len() == txs@.len()
            && forall|k: int| 0 <= k < items.len() ==> raw_tx_item(#[trigger] items[k], txs@[k].0@, txs@[k].1@, txs@[k].2, anchors@),
{
    let mut items: Vec<JsonValue> = Vec::new();
    let mut i: usize = 0;
    while i < txs.len()
        invariant
            i <= txs@.len(),
            items@.len() == i,
            forall|k: int| 0 <= k < txs@.len() && (#[trigger] txs@[k]).2 > 0 ==> anchor_for(anchors@, txs@[k].2) is Some,
            forall|k: int| 0 <= k < i ==> raw_tx_item(#[trigger] items@[k], txs@[k].0@, txs@[k].1@, txs@[k].2, anchors@),
        decreases txs@.len() - i,
    {
        let height = txs[i].2;
        let mut fields: Vec<(String, JsonValue)> = Vec::new();
        put(&mut fields, "txid", JsonValue::Str(txid_display(&txs[i].0)));
        put(&mut fields, "hex", JsonValue::Str(hex_encode(txs[i].1.as_slice())));
        put(&mut fields, "height", JsonValue::uint(height));
        if height > 0 {
            match anchor_for_height(anchors, height) {
                Some((hash, time)) => {
                    put(&mut fields, "block_hash", JsonValue::Str(block_hash_display(&hash)));
                    put(&mut fields, "block_time", JsonValue::uint(time as u64));
                },
                None => {
                    assert(txs@[i as int].2 > 0);
                },
            }
        }
        let item = JsonValue::Object(fields);
        if height > 0 {
            assert(member_names(item) =~= seq!["txid"@, "hex"@, "height"@, "block_hash"@, "block_time"@]);
        } else {
            assert(member_names(item) =~= seq!["txid"@, "hex"@, "height"@]);
        }
        items.push(item);
        i = i + 1;
    }
    let mut fields: Vec<(String, JsonValue)> = Vec::new();
    put(&mut fields, "txs", JsonValue::Array(items));
    let result = JsonValue::Object(fields);
    assert(member_names(result) =~= seq!["txs"@]);
    ResponseEnvelope::ok(id, result)
}

/// The `txHex` string of a payload.
pub open spec fn tx_hex_text(payload: JsonValue) -> Option<Seq<char>> {
    match json_get(payload, "txHex"@) {
        Some(t) => json_str(t),
        None => None,
    }
}

/// Reads and checks the transaction of a `broadcast_tx` request: 1 to `MAX_TXHEX_LEN` bytes of hex that decode to a transaction.
pub fn broadcast_request(env: &RequestEnvelope) -> (r: Result<Vec<u8>, ResponseEnvelope>)
    ensures
        !(tx_hex_text(env.payload) matches Some(h) && 0 < vstd::utf8::encode_utf8(h).len() <= MAX_TXHEX_LEN) ==>
            (r matches Err(e) && is_error(e, env.id@, ErrorCode::InvalidRequest, "txHex must be 1..=200000 hex chars"@)),
        (tx_hex_text(env.payload) matches Some(h) && 0 < vstd::utf8::encode_utf8(h).len() <= MAX_TXHEX_LEN) ==> match hex_decoded(vstd::utf8::encode_utf8(tx_hex_text(env.payload).unwrap())) {
            None => r matches Err(e) && is_error(e, env.id@, ErrorCode::InvalidTx, "invalid hex"@),
            Some(raw) => if consensus_txid(raw) is None {
                r matches Err(e) && is_error(e, env.id@, ErrorCode::InvalidTx, "invalid transaction"@)
            } else {
                r matches Ok(v) && v@ == raw
            },
        },
{
    let tx_hex = match env.payload.get("txHex") {
        Some(t) => match t.as_str() {
            Some(h) => h,
            None => return Err(ResponseEnvelope::err(env.id.as_str(), ErrorCode::InvalidRequest, "txHex must be 1..=200000 hex chars")),
        },
        None => return Err(ResponseEnvelope::err(env.id.as_str(), ErrorCode::InvalidRequest, "txHex must be 1..=200000 hex chars")),
    };
    let n = tx_hex.as_bytes().len();
    if n == 0 || n > MAX_TXHEX_LEN {
        return Err(ResponseEnvelope::err(env.id.as_str(), ErrorCode::InvalidRequest, "txHex must be 1..=200000 hex chars"));
    }
    let raw = match hex_decode(tx_hex) {
        Some(r) => r,
        None => return Err(ResponseEnvelope::err(env.id.as_str(), ErrorCode::InvalidTx, "invalid hex")),
    };
    if txid_of(raw.as_slice()).is_none() {
        return Err(ResponseEnvelope::err(env.id.as_str(), ErrorCode::InvalidTx, "invalid transaction"));
    }
    Ok(raw)
}

/// Answers `broadcast_tx` from the backend's outcome: the txid, a
/// `broadcast_failed` carrying the node's message, or `backend_unavailable`.
pub fn broadcast_response(id: &str, outcome: &Result<[u8; 32], BackendError>) -> (r: ResponseEnvelope)
    ensures
        outcome matches Ok(t) ==> is_success(r, id@) && member_names(r.result.unwrap()) == seq!["txid"@]
            && json_str(member_value(r.result.unwrap(), 0)) == Some(hash_display(t@)),
        outcome matches Err(BackendError::Electrum(m)) ==> is_error(r, id@, ErrorCode::BroadcastFailed, "broadcast failed: "@ + m@),
        (outcome matches Err(e) && !(e is Electrum)) ==> is_error(r, id@, ErrorCode::BackendUnavailable, "backend temporarily unavailable"@),
{
    match outcome {
        Ok(t) => {
            let mut fields: Vec<(String, JsonValue)> = Vec::new();
            put(&mut fields, "txid", JsonValue::Str(txid_display(t)));
            let result = JsonValue::Object(fields);
            assert(member_names(result) =~= seq!["txid"@]);
            ResponseEnvelope::ok(id, result)
        },
        Err(BackendError::Electrum(m)) => {
            let message = <String as vstd::string::StringExecFns>::concat(owned("broadcast failed: "), m.as_str());
            ResponseEnvelope::err(id, ErrorCode::BroadcastFailed, message.as_str())
        },
        Err(e) => backend_err(id, e),
    }
}

/// Answers `ping`: the server version and the chain tip.
pub fn ping_response(id: &str, height: u64, hash: &[u8; 32], time: u32) -> (r: ResponseEnvelope)
    ensures
        is_success(r, id@),
        member_names(r.result.unwrap()) == seq!["server"@, "tip"@],
        json_str(member_value(r.result.unwrap(), 0)) == Some(crate::router::server_version()),
        ({
            let tip = member_value(r.result.unwrap(), 1);
            &&& member_names(tip) == seq!["height"@, "hash"@, "time"@]
            &&& json_u64(member_value(tip, 0)) == Some(height)
            &&& json_str(member_value(tip, 1)) == Some(hash_display(hash@))
            &&& json_u64(member_value(tip, 2)) == Some(time as u64)
        }),
{
    let mut tip: Vec<(String, JsonValue)> = Vec::new();
    put(&mut tip, "height", JsonValue::uint(height));
    put(&mut tip, "hash", JsonValue::Str(block_hash_display(hash)));
    put(&mut tip, "time", JsonValue::uint(time as u64));
    let tip = JsonValue::Object(tip);
    assert(member_names(tip) =~= seq!["height"@, "hash"@, "time"@]);
    let mut fields: Vec<(String, JsonValue)> = Vec::new();
    put(&mut fields, "server", JsonValue::string(crate::router::server_version_text()));
    put(&mut fields, "tip", tip);
    let result = JsonValue::Object(fields);
    assert(member_names(result) =~= seq!["server"@, "tip"@]);
    ResponseEnvelope::ok(id, result)
}

/// Answers `get_fee_estimates` from the three sat/vB
/// estimates.
pub fn fee_response(id: &str, fast: u64, medium: u64, slow: u64) -> (r: ResponseEnvelope)
    ensures
        is_success(r, id@),
        member_names(r.result.unwrap()) == seq!["fast"@, "medium"@, "slow"@],
        json_u64(member_value(r.result.unwrap(), 0)) == Some(fast),
        json_u64(member_value(r.result.unwrap(), 1)) == Some(medium),
        json_u64(member_value(r.result.unwrap(), 2)) == Some(slow),
{
    let mut fields: Vec<(String, JsonValue)> = Vec::new();
    put(&mut fields, "fast", JsonValue::uint(fast));
    put(&mut fields, "medium", JsonValue::uint(medium));
    put(&mut fields, "slow", JsonValue::uint(slow));
    let result = JsonValue::Object(fields);
    assert(member_names(result) =~= seq!["fast"@, "medium"@, "slow"@]);
    ResponseEnvelope::ok(id, result)
}

/// The history limit a payload asks for: `limit` clamped to
/// 1..=`MAX_HISTORY_LIMIT`, or `DEFAULT_HISTORY_LIMIT` when absent.
pub open spec fn history_limit(payload: JsonValue) -> usize {
    match json_get(payload, "limit"@) {
        Some(l) => match json_u64(l) {
            Some(n) => {
                let v = n as usize;
                if v < 1 {
                    1
                } else if v > MAX_HISTORY_LIMIT {
                    MAX_HISTORY_LIMIT
                } else {
                    v
                }
            },
            None => DEFAULT_HISTORY_LIMIT,
        },
        None => DEFAULT_HISTORY_LIMIT,
    }
}

/// Reads the limit of a `get_history` request.
pub fn history_limit_of(payload: &JsonValue) -> (r: usize)
    ensures
        r == history_limit(*payload),
{
    match payload.get("limit") {
        Some(l) => match l.as_u64() {
            Some(n) => {
                let v = n as usize;
                if v < 1 {
                    1
                } else if v > MAX_HISTORY_LIMIT {
                    MAX_HISTORY_LIMIT
                } else {
                    v
                }
            },
            None => DEFAULT_HISTORY_LIMIT,
        },
        None => DEFAULT_HISTORY_LIMIT,
    }
}

/// The distinct confirmed heights of some history rows, for which block
/// anchors are needed.
pub fn anchor_heights(txs: &Vec<([u8; 32], u64)>) -> (r: Vec<u64>)
    ensures
        forall|i: int, j: int| 0 <= i < j < r@.len() ==> r@[i] != r@[j],
        forall|i: int| 0 <= i < r@.len() ==> r@[i] > 0 && exists|k: int| 0 <= k < txs@.len() && txs@[k].1 == #[trigger] r@[i],
        forall|k: int| 0 <= k < txs@.len() && (#[trigger] txs@[k]).1 > 0 ==> r@.contains(txs@[k].1),
{
    let mut out: Vec<u64> = Vec::new();
    let mut k: usize = 0;
    while k < txs.len()
        invariant
            k <= txs@.len(),
            forall|i: int, j: int| 0 <= i < j < out@.len() ==> out@[i] != out@[j],
            forall|i: int| 0 <= i < out@.len() ==> out@[i] > 0 && exists|q: int| 0 <= q < txs@.len() && txs@[q].1 == #[trigger] out@[i],
            forall|q: int| 0 <= q < k && (#[trigger] txs@[q]).1 > 0 ==> out@.contains(txs@[q].1),
        decreases txs@.len() - k,
    {
        let h = txs[k].1;
        if h > 0 {
            let mut j: usize = 0;
            while j < out.len() && out[j] != h
                invariant
                    j <= out@.len(),
                    forall|q: int| 0 <= q < j ==> out@[q] != h,
                decreases out@.len() - j,
            {
                j = j + 1;
            }
            if j == out.len() {
                let ghost before = out@;
                out.push(h);
                assert(out@[before.len() as int] == txs@[k as int].1);
                assert forall|q: int| 0 <= q < k + 1 && (#[trigger] txs@[q]).1 > 0 implies out@.contains(txs@[q].1) by {
                    if q < k {
                        assert(before.contains(txs@[q].1));
                        let w = choose|w: int| 0 <= w < before.len() && before[w] == txs@[q].1;
                        assert(out@[w] == txs@[q].1);
                    } else {
                        assert(out@[before.len() as int] == txs@[q].1);
                    }
                }
            } else {
                assert(out@[j as int] == h);
            }
        }
        k = k + 1;
    }
    out
}

/// The anchor (block hash and time) recorded for `height`, the first one if
/// several are.
pub open spec fn anchor_for(anchors: Seq<(u64, [u8; 32], u32)>, height: u64) -> Option<([u8; 32], u32)>
    decreases anchors.len(),
{
    if anchors.len() == 0 {
        None
    } else if anchors[0].0 == height {
        Some((anchors[0].1, anchors[0].2))
    } else {
        anchor_for(anchors.drop_first(), height)
    }
}

/// The block hash and time fetched for `height` (the first entry for it).
pub fn anchor_for_height(anchors: &Vec<(u64, [u8; 32], u32)>, height: u64) -> (r: Option<([u8; 32], u32)>)
    ensures
        r == anchor_for(anchors@, height),
{
    let mut i: usize = 0;
    assert(anchors@.skip(0) =~= anchors@);
    while i < anchors.len()
        invariant
            i <= anchors@.len(),
            anchor_for(anchors@, height) == anchor_for(anchors@.skip(i as int), height),
        decreases anchors@.len() - i,
    {
        let ghost rest = anchors@.skip(i as int);
        assert(rest[0] == anchors@[i as int]);
        if anchors[i].0 == height {
            return Some((anchors[i].1, anchors[i].2));
        }
        assert(rest.drop_first() =~= anchors@.skip(i + 1));
        i = i + 1;
    }
    assert(anchors@.skip(i as int).len() == 0);
    None
}

/// One history object: `{"txid", "height": 0}` for the mempool, otherwise
/// with `block_hash` and `block_time` of the block at that height.
pub open spec fn history_item(j: JsonValue, txid: Seq<u8>, height: u64, anchors: Seq<(u64, [u8; 32], u32)>) -> bool {
    &&& j is Object
    &&& json_str(member_value(j, 0)) == Some(hash_display(txid))
    &&& json_u64(member_value(j, 1)) == Some(height)
    &&& height == 0 ==> member_names(j) == seq!["txid"@, "height"@]
    &&& height > 0 ==> {
        let a = anchor_for(anchors, height).unwrap();
        &&& member_names(j) == seq!["txid"@, "height"@, "block_hash"@, "block_time"@]
        &&& json_str(member_value(j, 2)) == Some(hash_display(a.0@))
        &&& json_u64(member_value(j, 3)) == Some(a.1 as u64)
    }
}

/// Answers `get_history` from the merged rows and the
/// block anchors of their confirmed heights: `{"txs": [...]}`.
pub fn history_response(id: &str, txs: &Vec<([u8; 32], u64)>, anchors: &Vec<(u64, [u8; 32], u32)>) -> (r: ResponseEnvelope)
    requires
        forall|k: int| 0 <= k < txs@.len() && (#[trigger] txs@[k]).1 > 0 ==> anchor_for(anchors@, txs@[k].1) is Some,
    ensures
        is_success(r, id@),
        member_names(r.result.unwrap()) == seq!["txs"@],
        json_array(member_value(r.result.unwrap(), 0)) matches Some(items) && items.len() == txs@.len()
            && forall|k: int| 0 <= k < items.len() ==> history_item(#[trigger] items[k], txs@[k].0@, txs@[k].1, anchors@),
{
    let mut items: Vec<JsonValue> = Vec::new();
    let mut i: usize = 0;
    while i < txs.len()
        invariant
            i <= txs@.len(),
            items@.len() == i,
            forall|k: int| 0 <= k < txs@.len() && (#[trigger] txs@[k]).1 > 0 ==> anchor_for(anchors@, txs@[k].1) is Some,
            forall|k: int| 0 <= k < i ==> history_item(#[trigger] items@[k], txs@[k].0@, txs@[k].1, anchors@),
        decreases txs@.len() - i,
    {
        let (txid, height) = txs[i];
        let mut fields: Vec<(String, JsonValue)> = Vec::new();
        put(&mut fields, "txid", JsonValue::Str(txid_display(&txid)));
        put(&mut fields, "height", JsonValue::uint(height));
        if height > 0 {
            match anchor_for_height(anchors, height) {
                Some((hash, time)) => {
                    put(&mut fields, "block_hash", JsonValue::Str(block_hash_display(&hash)));
                    put(&mut fields, "block_time", JsonValue::uint(time as u64));
                },
                None => {
                    assert(txs@[i as int].1 > 0);
                },
            }
        }
        let item = JsonValue::Object(fields);
        if height > 0 {
            assert(member_names(item) =~= seq!["txid"@, "height"@, "block_hash"@, "block_time"@]);
        } else {
            assert(member_names(item) =~= seq!["txid"@, "height"@]);
        }
        items.push(item);
        i = i + 1;
    }
    let mut fields: Vec<(String, JsonValue)> = Vec::new();
    put(&mut fields, "txs", JsonValue::Array(items));
    let result = JsonValue::Object(fields);
    assert(member_names(result) =~= seq!["txs"@]);
    ResponseEnvelope::ok(id, result)
}

/// The script whose history tells where a transaction confirmed: its first
/// output's; `None` when the bytes are no transaction or it has no output.
pub fn anchor_script(raw: &Vec<u8>) -> (r: Option<Vec<u8>>)
    ensures
        match consensus_output_scripts(raw@) {
            Some(scripts) => if scripts.len() > 0 {
                r matches Some(v) && v@ == scripts[0]
            } else {
                r is None
            },
            None => r is None,
        },
{
    match tx_output_scripts(raw.as_slice()) {
        Some(scripts) => {
            if scripts.len() > 0 {
                Some(copy_bytes(&scripts[0]))
            } else {
                None
            }
        },
        None => None,
    }
}

/// The height a transaction confirmed at, read from a history of one of its
/// scripts: its highest height there; 0 (unconfirmed) when the history does
/// not hold it.
pub fn tx_height(txid: &[u8; 32], rows: &Vec<HistoryEntry>) -> (r: u64)
    ensures
        r == match best_height(rows@, txid@) {
            Some(h) => h,
            None => 0,
        },
{
    let mut best: Option<u64> = None;
    let mut i: usize = 0;
    while i < rows.len()
        invariant
            i <= rows@.len(),
            best == best_height(rows@.take(i as int), txid@),
        decreases rows@.len() - i,
    {
        assert(rows@.take(i + 1).drop_last() =~= rows@.take(i as int));
        assert(rows@.take(i + 1).last() == rows@[i as int]);
        let e = rows[i];
        if same_txid(&e.txid, txid) {
            let h: u64 = if e.height < 0 { 0 } else { e.height as u64 };
            best = match best {
                Some(p) => Some(if p >= h { p } else { h }),
                None => Some(h),
            };
        }
        i = i + 1;
    }
    assert(rows@.take(rows@.len() as int) =~= rows@);
    match best {
        Some(h) => h,
        None => 0,
    }
}

} // verus!
