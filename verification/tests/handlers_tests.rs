use base64::Engine;
use hmac::{Hmac, Mac};
use nomad_server::config::{Config, Network};
use nomad_server::handlers::{
    anchor_heights, anchor_script, tx_height, backend_err, balance_response, broadcast_request, broadcast_response,
    fee_response, history_limit_of, history_response, ping_response, query_addresses,
    scripts_of, transactions_response, txids_request, utxos_response, validate_addresses,
    BackendError, Unspent,
};
use nomad_server::history::{merge_histories, HistoryEntry};
use nomad_server::json::{JsonNumber, JsonValue};
use nomad_server::pairing::{now_secs, PairingManager};
use nomad_server::protocol::{ErrorCode, RequestEnvelope, ResponseEnvelope};
use nomad_server::replay::ReplayCache;
use nomad_server::router::{after_save, finish_unpair, ChainQuery, Routed, Router, SharedState};
use nomad_server::store::{Allowlist, WatchStore};
use nomad_server::ui::{current_payload, pairing_qr, revoke, status_page, AppState};

const MAINNET_ADDR: &str = "bc1qxy2kgdygjrsqtzq2n0yrf2493p83kkfjhx0wlh";

fn model(v: &serde_json::Value) -> JsonValue {
    match v {
        serde_json::Value::Null => JsonValue::Null,
        serde_json::Value::Bool(b) => JsonValue::Bool(*b),
        serde_json::Value::Number(n) => {
            if let Some(u) = n.as_u64() {
                JsonValue::Number(JsonNumber::PosInt(u))
            } else if let Some(i) = n.as_i64() {
                JsonValue::Number(JsonNumber::NegInt(i))
            } else {
                JsonValue::Number(JsonNumber::Float)
            }
        }
        serde_json::Value::String(s) => JsonValue::Str(s.clone()),
        serde_json::Value::Array(a) => JsonValue::Array(a.iter().map(model).collect()),
        serde_json::Value::Object(o) => {
            JsonValue::Object(o.iter().map(|(k, v)| (k.clone(), model(v))).collect())
        }
    }
}

fn plain(j: &JsonValue) -> serde_json::Value {
    match j {
        JsonValue::Null => serde_json::Value::Null,
        JsonValue::Bool(b) => serde_json::Value::Bool(*b),
        JsonValue::Number(JsonNumber::PosInt(u)) => serde_json::Value::from(*u),
        JsonValue::Number(JsonNumber::NegInt(i)) => serde_json::Value::from(*i),
        JsonValue::Number(JsonNumber::Float) => serde_json::Value::Null,
        JsonValue::Str(s) => serde_json::Value::String(s.clone()),
        JsonValue::Array(a) => serde_json::Value::Array(a.iter().map(plain).collect()),
        JsonValue::Object(o) => {
            let mut m = serde_json::Map::new();
            for (k, v) in o {
                m.insert(k.clone(), plain(v));
            }
            serde_json::Value::Object(m)
        }
    }
}

fn js(text: &str) -> serde_json::Value {
    serde_json::from_str(text).unwrap()
}

fn payload(text: &str) -> JsonValue {
    model(&serde_json::from_str::<serde_json::Value>(text).unwrap())
}

fn envelope(id: &str, msg_type: &str, payload_text: &str) -> RequestEnvelope {
    RequestEnvelope {
        v: 1,
        id: id.to_string(),
        ts: 1,
        msg_type: msg_type.to_string(),
        payload: payload(payload_text),
    }
}

fn uuid(i: u128) -> String {
    uuid::Uuid::from_u128(i).to_string()
}

fn result_of(resp: &ResponseEnvelope) -> serde_json::Value {
    assert!(resp.ok);
    plain(resp.result.as_ref().unwrap())
}

fn code_of(resp: &ResponseEnvelope) -> ErrorCode {
    assert!(!resp.ok);
    resp.error.as_ref().unwrap().code
}

fn reply_code(r: &Routed) -> ErrorCode {
    match r {
        Routed::Reply(e) => code_of(e),
        _ => panic!("not a reply"),
    }
}

fn shared() -> SharedState {
    SharedState {
        allowlist: Allowlist::new(),
        watch: WatchStore::new(),
        pairing: PairingManager::new(),
    }
}

fn make_proof(shared: &mut SharedState, wallet: &str) -> String {
    let payload = shared.pairing.payload_at(now_secs(), "nodepk", &[]);
    let secret = base64::engine::general_purpose::URL_SAFE_NO_PAD
        .decode(&payload.pair_secret)
        .unwrap();
    let mut mac = Hmac::<sha2::Sha256>::new_from_slice(&secret).unwrap();
    mac.update(wallet.as_bytes());
    hex::encode(mac.finalize().into_bytes())
}

#[test]
fn rejects_bad_network_and_counts() {
    // testnet address against a mainnet server
    let p = payload(r#"{ "addresses": ["tb1qxy2kgdygjrsqtzq2n0yrf2493p83kkfjhx0wlh"] }"#);
    assert!(validate_addresses("id", &p, Network::Bitcoin, 200).is_err());
    // too many
    let many: Vec<String> = (0..201).map(|_| MAINNET_ADDR.to_string()).collect();
    let p = model(&serde_json::Value::Object(
        [("addresses".to_string(), serde_json::Value::from(many))].into_iter().collect(),
    ));
    let err = validate_addresses("id", &p, Network::Bitcoin, 200).unwrap_err();
    assert_eq!(err.error.unwrap().code, ErrorCode::InvalidRequest);
}

#[test]
fn accepts_mainnet_p2wpkh() {
    let p = payload(r#"{ "addresses": ["bc1qxy2kgdygjrsqtzq2n0yrf2493p83kkfjhx0wlh"] }"#);
    let out = validate_addresses("id", &p, Network::Bitcoin, 200).unwrap();
    assert_eq!(out.len(), 1);
    assert_eq!(out[0].1.len(), 22); // P2WPKH scriptPubKey
}

#[test]
fn address_error_messages() {
    let e = validate_addresses("q", &payload(r#"{}"#), Network::Bitcoin, 200).unwrap_err();
    assert_eq!(e.id, "q");
    assert_eq!(e.error.unwrap().message, "invalid addresses");
    let e = validate_addresses("q", &payload(r#"{"addresses":[1]}"#), Network::Bitcoin, 200).unwrap_err();
    assert_eq!(e.error.unwrap().message, "invalid addresses");
    let e = validate_addresses("q", &payload(r#"{"addresses":["a","b"]}"#), Network::Bitcoin, 1).unwrap_err();
    assert_eq!(e.error.unwrap().message, "too many addresses (max 1)");
    let env = envelope("q", "get_balance", r#"{"addresses":[]}"#);
    let e = query_addresses(&env, Network::Bitcoin).unwrap_err();
    assert_eq!(e.error.unwrap().message, "addresses must be non-empty");
    let env = envelope("q", "get_balance", r#"{"addresses":["bc1qxy2kgdygjrsqtzq2n0yrf2493p83kkfjhx0wlh"]}"#);
    let ok = query_addresses(&env, Network::Bitcoin).unwrap();
    assert_eq!(scripts_of(&ok), vec![ok[0].1.clone()]);
}

#[test]
fn pair_then_ping_then_unpair() {
    let mut sh = shared();
    let mut t = Router::new(ReplayCache::new(), Network::Regtest);
    let wallet = "ab".repeat(32);

    // unknown type from stranger: not_paired beats unknown_type
    let r = t.route(&mut sh, &wallet, envelope(&uuid(1), "bogus", "{}"), now_secs());
    assert_eq!(reply_code(&r), ErrorCode::NotPaired);

    // pair with the correct proof
    let proof = make_proof(&mut sh, &wallet);
    let body = format!(r#"{{"proof": "{proof}"}}"#);
    let r = t.route(&mut sh, &wallet, envelope(&uuid(2), "pair", &body), now_secs());
    assert!(matches!(&r, Routed::Paired(resp) if resp.ok));
    assert!(sh.allowlist.is_paired(&wallet));

    // known type passes authz; the request fails validation before any backend call
    let r = t.route(&mut sh, &wallet, envelope(&uuid(3), "get_balance", r#"{"addresses":[]}"#), now_secs());
    match r {
        Routed::Chain(ChainQuery::Balance, env) => {
            let e = query_addresses(&env, Network::Regtest).unwrap_err();
            assert_eq!(e.error.unwrap().code, ErrorCode::InvalidRequest);
        }
        _ => panic!("expected a balance query"),
    }

    // unknown type from paired wallet
    let r = t.route(&mut sh, &wallet, envelope(&uuid(4), "bogus", "{}"), now_secs());
    assert_eq!(reply_code(&r), ErrorCode::UnknownType);

    // replayed id is dropped
    let r = t.route(&mut sh, &wallet, envelope(&uuid(4), "bogus", "{}"), now_secs());
    assert!(matches!(r, Routed::Drop));

    // unpair works, and a second unpair is not_paired
    let r = t.route(&mut sh, &wallet, envelope(&uuid(5), "unpair", "{}"), now_secs());
    assert!(matches!(&r, Routed::Unpaired(resp) if resp.ok));
    let r = t.route(&mut sh, &wallet, envelope(&uuid(6), "unpair", "{}"), now_secs());
    assert_eq!(reply_code(&r), ErrorCode::NotPaired);
}

#[test]
fn pair_rejects_bad_proof_and_second_pairing() {
    let mut sh = shared();
    let mut t = Router::new(ReplayCache::new(), Network::Regtest);
    let wallet = "cd".repeat(32);
    let r = t.route(&mut sh, &wallet, envelope(&uuid(1), "pair", r#"{"proof": "00"}"#), now_secs());
    assert_eq!(reply_code(&r), ErrorCode::PairingFailed);
    assert!(!sh.allowlist.is_paired(&wallet));

    let proof = make_proof(&mut sh, &wallet);
    let body = format!(r#"{{"proof": "{proof}"}}"#);
    let r = t.route(&mut sh, &wallet, envelope(&uuid(2), "pair", &body), now_secs());
    assert!(matches!(&r, Routed::Paired(resp) if resp.ok));
    // already paired: rejected even with a fresh-looking attempt
    let r = t.route(&mut sh, &wallet, envelope(&uuid(3), "pair", r#"{"proof": "00"}"#), now_secs());
    assert_eq!(reply_code(&r), ErrorCode::PairingFailed);
}

#[test]
fn pair_result_names_the_server() {
    let mut sh = shared();
    let mut t = Router::new(ReplayCache::new(), Network::Regtest);
    let wallet = "ef".repeat(32);
    let proof = make_proof(&mut sh, &wallet);
    let body = format!(r#"{{"proof": "{proof}", "client": "test"}}"#);
    match t.route(&mut sh, &wallet, envelope(&uuid(7), "pair", &body), now_secs()) {
        Routed::Paired(resp) => {
            assert_eq!(resp.id, uuid(7));
            assert_eq!(result_of(&resp), js(r#"{"server": "nomad-server/0.1.0"}"#));
        }
        _ => panic!("pairing failed"),
    }
}

#[test]
fn rate_limited_after_burst() {
    let mut sh = shared();
    sh.allowlist.add("w");
    let mut t = Router::new(ReplayCache::new(), Network::Bitcoin);
    for i in 0..10u128 {
        let r = t.route(&mut sh, "w", envelope(&uuid(100 + i), "ping", "{}"), 5000);
        assert!(matches!(r, Routed::Chain(ChainQuery::Ping, _)));
    }
    let r = t.route(&mut sh, "w", envelope(&uuid(200), "ping", "{}"), 5000);
    assert_eq!(reply_code(&r), ErrorCode::RateLimited);
    match r {
        Routed::Reply(e) => assert_eq!(e.error.unwrap().message, "slow down"),
        _ => unreachable!(),
    }
}

#[test]
fn watch_addresses_through_the_router() {
    let mut sh = shared();
    sh.allowlist.add("w");
    let mut t = Router::new(ReplayCache::new(), Network::Bitcoin);
    let body = format!(r#"{{"addresses": ["{MAINNET_ADDR}"]}}"#);
    match t.route(&mut sh, "w", envelope(&uuid(1), "watch_addresses", &body), 10) {
        Routed::Watched(resp) => assert_eq!(result_of(&resp), js(r#"{"watching": 1}"#)),
        _ => panic!("not watched"),
    }
    assert_eq!(sh.watch.snapshot(), vec![("w".to_string(), vec![MAINNET_ADDR.to_string()])]);
    // asking again with the same addresses changes nothing
    assert!(matches!(t.route(&mut sh, "w", envelope(&uuid(9), "watch_addresses", &body), 10), Routed::Watched(_)));
    assert_eq!(sh.watch.snapshot(), vec![("w".to_string(), vec![MAINNET_ADDR.to_string()])]);
    let r = t.route(&mut sh, "w", envelope(&uuid(2), "watch_addresses", r#"{"addresses": ["nope"]}"#), 11);
    assert_eq!(reply_code(&r), ErrorCode::InvalidRequest);
    match t.route(&mut sh, "w", envelope(&uuid(3), "watch_addresses", r#"{"addresses": []}"#), 12) {
        Routed::Watched(resp) => assert_eq!(result_of(&resp), js(r#"{"watching": 0}"#)),
        _ => panic!("not watched"),
    }
    assert!(sh.watch.snapshot().is_empty());
}

#[test]
fn request_content_is_parsed_then_routed() {
    let mut sh = shared();
    sh.allowlist.add("w");
    let mut t = Router::new(ReplayCache::new(), Network::Bitcoin);
    let good = r#"{"v":1,"id":"7c9e6679-7425-40de-944b-e07fc1f90ae7","ts":1,"type":"ping","payload":{}}"#;
    let doc = Some(payload(good));
    assert!(matches!(t.handle_request(&mut sh, "w", good.len(), doc, 1), Routed::Chain(ChainQuery::Ping, _)));
    assert!(matches!(t.handle_request(&mut sh, "w", 8, None, 2), Routed::Drop));
    let v2 = r#"{"v":2,"id":"x","ts":1,"type":"ping"}"#;
    let r = t.handle_request(&mut sh, "w", v2.len(), Some(payload(v2)), 3);
    assert_eq!(reply_code(&r), ErrorCode::UnsupportedVersion);
    // the replay of the first request is dropped
    assert!(matches!(t.handle_request(&mut sh, "w", good.len(), Some(payload(good)), 4), Routed::Drop));
}

#[test]
fn ping_and_fee_results() {
    let hash = [0x11u8; 32];
    let r = ping_response("p", 800000, &hash, 1700000000);
    let expected = format!(
        r#"{{"server": "nomad-server/0.1.0", "tip": {{"height": 800000, "hash": "{}", "time": 1700000000}}}}"#,
        "11".repeat(32)
    );
    assert_eq!(result_of(&r), js(&expected));
    let r = fee_response("f", 20, 10, 1);
    assert_eq!(result_of(&r), js(r#"{"fast": 20, "medium": 10, "slow": 1}"#));
}

#[test]
fn balance_sums_and_overflow() {
    let r = balance_response("b", &vec![(1000, -200), (50, 30)]).unwrap();
    assert_eq!(result_of(&r), js(r#"{"confirmed": 1050, "unconfirmed": -170}"#));
    assert!(balance_response("b", &vec![(u64::MAX, 0), (1, 0)]).is_none());
}

#[test]
fn utxo_rows_with_confirmations() {
    let addrs = vec![("a1".to_string(), vec![0u8]), ("a2".to_string(), vec![1u8])];
    let per = vec![
        vec![Unspent { txid: [3u8; 32], vout: 1, value: 5000, height: 100 }],
        vec![Unspent { txid: [4u8; 32], vout: 0, value: 7, height: 0 }],
    ];
    let r = utxos_response("u", &addrs, 105, &per);
    let expected = format!(
        r#"{{"utxos": [
            {{"txid": "{}", "vout": 1, "value": 5000, "address": "a1", "confirmations": 6}},
            {{"txid": "{}", "vout": 0, "value": 7, "address": "a2", "confirmations": 0}}
        ]}}"#,
        "03".repeat(32),
        "04".repeat(32)
    );
    assert_eq!(result_of(&r), js(&expected));
}

#[test]
fn txids_are_checked() {
    let e = txids_request(&envelope("t", "get_transactions", r#"{"txids": []}"#)).unwrap_err();
    assert_eq!(e.error.unwrap().message, "txids must be 1..=25");
    let e = txids_request(&envelope("t", "get_transactions", r#"{"txids": ["zz"]}"#)).unwrap_err();
    assert_eq!(e.error.unwrap().message, "invalid txid");
    let txid = format!("{}{}", "00".repeat(31), "ff");
    let body = format!(r#"{{"txids": ["{txid}"]}}"#);
    let ok = txids_request(&envelope("t", "get_transactions", &body)).unwrap();
    // display order is the reverse of the internal byte order
    let mut expected = [0u8; 32];
    expected[0] = 0xff;
    assert_eq!(ok, vec![expected]);
    let r = transactions_response("t", &vec![(expected, vec![0xde, 0xad], 0)], &vec![]);
    assert_eq!(result_of(&r), js(&format!(r#"{{"txs": [{{"txid": "{txid}", "hex": "dead", "height": 0}}]}}"#)));
    let anchors = vec![(812000u64, [0x0au8; 32], 1755600000u32)];
    let r = transactions_response("t", &vec![(expected, vec![0xbe, 0xef], 812000)], &anchors);
    let expected_json = format!(
        r#"{{"txs": [{{"txid": "{txid}", "hex": "beef", "height": 812000, "block_hash": "{}", "block_time": 1755600000}}]}}"#,
        "0a".repeat(32)
    );
    assert_eq!(result_of(&r), js(&expected_json));
}

#[test]
fn broadcast_checks_and_answers() {
    let tx = bitcoin::Transaction {
        version: bitcoin::transaction::Version::TWO,
        lock_time: bitcoin::absolute::LockTime::ZERO,
        input: vec![bitcoin::TxIn::default()],
        output: vec![bitcoin::TxOut { value: bitcoin::Amount::from_sat(1234), script_pubkey: bitcoin::ScriptBuf::new() }],
    };
    let raw = bitcoin::consensus::encode::serialize(&tx);
    let body = format!(r#"{{"txHex": "{}"}}"#, hex::encode(&raw));
    let got = broadcast_request(&envelope("b", "broadcast_tx", &body)).unwrap();
    assert_eq!(got, raw);

    let e = broadcast_request(&envelope("b", "broadcast_tx", r#"{"txHex": ""}"#)).unwrap_err();
    assert_eq!(code_of(&e), ErrorCode::InvalidRequest);
    let e = broadcast_request(&envelope("b", "broadcast_tx", r#"{"txHex": "xyz1"}"#)).unwrap_err();
    assert_eq!(e.error.unwrap().message, "invalid hex");
    let e = broadcast_request(&envelope("b", "broadcast_tx", r#"{"txHex": "00"}"#)).unwrap_err();
    assert_eq!(code_of(&e), ErrorCode::InvalidTx);
    assert_eq!(e.error.unwrap().message, "invalid transaction");

    let txid = tx.compute_txid();
    let internal: [u8; 32] = <bitcoin::Txid as bitcoin::hashes::Hash>::to_byte_array(txid);
    let r = broadcast_response("b", &Ok(internal));
    assert_eq!(result_of(&r), js(&format!(r#"{{"txid": "{txid}"}}"#)));
    let r = broadcast_response("b", &Err(BackendError::Electrum("bad-txns".to_string())));
    assert_eq!(code_of(&r), ErrorCode::BroadcastFailed);
    assert_eq!(r.error.unwrap().message, "broadcast failed: bad-txns");
    let r = broadcast_response("b", &Err(BackendError::Timeout));
    assert_eq!(code_of(&r), ErrorCode::BackendUnavailable);
}

#[test]
fn backend_errors_never_leak_messages() {
    let r = backend_err("x", &BackendError::Electrum("secret detail".to_string()));
    assert_eq!(code_of(&r), ErrorCode::BackendUnavailable);
    assert_eq!(r.error.unwrap().message, "backend error");
    let r = backend_err("x", &BackendError::Cooldown);
    assert_eq!(r.error.unwrap().message, "backend temporarily unavailable");
    let r = ResponseEnvelope::err("x", ErrorCode::Internal, "internal error");
    assert_eq!(code_of(&r), ErrorCode::Internal);
}

#[test]
fn history_merge_dedupes_sorts_and_limits() {
    let a = [1u8; 32];
    let b = [2u8; 32];
    let c = [3u8; 32];
    let histories = vec![
        vec![HistoryEntry { txid: a, height: 100 }, HistoryEntry { txid: b, height: 0 }],
        vec![HistoryEntry { txid: a, height: 90 }, HistoryEntry { txid: c, height: 120 }, HistoryEntry { txid: b, height: -1 }],
    ];
    let merged = merge_histories(&histories, 50);
    assert_eq!(merged, vec![(c, 120), (a, 100), (b, 0)]);
    assert_eq!(merge_histories(&histories, 2), vec![(c, 120), (a, 100)]);
    let mut heights = anchor_heights(&merged);
    heights.sort();
    assert_eq!(heights, vec![100, 120]);
    let anchors = vec![(100u64, [9u8; 32], 1111u32), (120u64, [8u8; 32], 2222u32)];
    let r = history_response("h", &merged, &anchors);
    let expected = format!(
        r#"{{"txs": [
            {{"txid": "{}", "height": 120, "block_hash": "{}", "block_time": 2222}},
            {{"txid": "{}", "height": 100, "block_hash": "{}", "block_time": 1111}},
            {{"txid": "{}", "height": 0}}
        ]}}"#,
        "03".repeat(32),
        "08".repeat(32),
        "01".repeat(32),
        "09".repeat(32),
        "02".repeat(32)
    );
    assert_eq!(result_of(&r), js(&expected));
}

#[test]
fn history_limit_is_clamped() {
    assert_eq!(history_limit_of(&payload(r#"{}"#)), 50);
    assert_eq!(history_limit_of(&payload(r#"{"limit": 0}"#)), 1);
    assert_eq!(history_limit_of(&payload(r#"{"limit": 7}"#)), 7);
    assert_eq!(history_limit_of(&payload(r#"{"limit": 5000}"#)), 200);
    assert_eq!(history_limit_of(&payload(r#"{"limit": "x"}"#)), 50);
}

#[test]
fn lan_ui_page_payload_and_revoke() {
    let config = Config::from_settings(None, None, None, Some("wss://r1"), None, Some("regtest")).unwrap();
    let mut state = AppState { config, server_pubkey: "serverpk".to_string(), shared: shared() };
    state.shared.allowlist.add("wb");
    state.shared.allowlist.add("wa");
    let page = status_page(&state);
    assert!(page.starts_with("<!doctype html>"));
    assert!(page.contains("Pubkey: <code>serverpk</code>"));
    assert!(page.contains("Network: Regtest \u{b7} Electrs: <code>electrs:50001</code>"));
    assert!(page.contains("<li><code>wss://r1</code></li>"));
    assert!(page.contains("Paired wallets (2)"));
    let wa = page.find("value='wa'").unwrap();
    let wb = page.find("value='wb'").unwrap();
    assert!(wa < wb);

    let p = current_payload(&mut state, 1000);
    assert_eq!(p.node_pubkey, "serverpk");
    assert_eq!(p.relays, vec!["wss://r1".to_string()]);
    assert_eq!(current_payload(&mut state, 1001).pair_secret, p.pair_secret);

    assert!(revoke(&mut state, "wa"));
    assert!(!revoke(&mut state, "wa"));
    assert!(!state.shared.allowlist.is_paired("wa"));
    assert!(status_page(&state).contains("Paired wallets (1)"));
}

#[test]
fn pairing_qr_renders_svg() {
    let svg = pairing_qr(r#"{"v":1,"app":"nomad-server"}"#).unwrap();
    assert!(svg.contains("<svg"));
    let huge = "x".repeat(10_000);
    assert_eq!(pairing_qr(&huge), Err(500));
}

#[test]
fn confirmation_height_from_a_script_history() {
    let tx = bitcoin::Transaction {
        version: bitcoin::transaction::Version::TWO,
        lock_time: bitcoin::absolute::LockTime::ZERO,
        input: vec![bitcoin::TxIn::default()],
        output: vec![
            bitcoin::TxOut { value: bitcoin::Amount::from_sat(1), script_pubkey: bitcoin::ScriptBuf::from_bytes(vec![0x51]) },
            bitcoin::TxOut { value: bitcoin::Amount::from_sat(2), script_pubkey: bitcoin::ScriptBuf::from_bytes(vec![0x52]) },
        ],
    };
    let raw = bitcoin::consensus::encode::serialize(&tx);
    assert_eq!(anchor_script(&raw), Some(vec![0x51]));
    assert_eq!(anchor_script(&vec![0x00]), None);

    let a = [1u8; 32];
    let b = [2u8; 32];
    let rows = vec![
        HistoryEntry { txid: b, height: 700 },
        HistoryEntry { txid: a, height: 0 },
        HistoryEntry { txid: a, height: 812 },
    ];
    assert_eq!(tx_height(&a, &rows), 812);
    assert_eq!(tx_height(&b, &rows), 700);
    assert_eq!(tx_height(&[3u8; 32], &rows), 0);
    assert_eq!(tx_height(&a, &vec![HistoryEntry { txid: a, height: -1 }]), 0);
}

#[test]
fn unpair_drops_the_watch_set_once_saved() {
    let mut sh = shared();
    sh.allowlist.add("w");
    sh.watch.replace("w", vec![MAINNET_ADDR.to_string()]);
    sh.watch.replace("v", vec![MAINNET_ADDR.to_string()]);
    let mut t = Router::new(ReplayCache::new(), Network::Bitcoin);
    let r = match t.route(&mut sh, "w", envelope(&uuid(1), "unpair", "{}"), 5) {
        Routed::Unpaired(r) => r,
        _ => panic!("not unpaired"),
    };
    // saving the allowlist failed: internal error, watch sets untouched
    let (resp, changed) = finish_unpair(&mut sh, "w", ResponseEnvelope::ok(&r.id, payload("{}")), false);
    assert_eq!(code_of(&resp), ErrorCode::Internal);
    assert_eq!(resp.id, uuid(1));
    assert!(!changed);
    assert_eq!(sh.watch.snapshot().len(), 2);
    // saved: the sender's watch set goes, the others stay
    let (resp, changed) = finish_unpair(&mut sh, "w", r, true);
    assert!(resp.ok);
    assert!(changed);
    assert_eq!(sh.watch.snapshot(), vec![("v".to_string(), vec![MAINNET_ADDR.to_string()])]);
    assert!(!sh.allowlist.is_paired("w"));
}

#[test]
fn failed_save_is_an_internal_error() {
    let ok = ResponseEnvelope::ok("s", payload(r#"{"watching": 1}"#));
    let r = after_save(ok, true);
    assert!(r.ok);
    let ok = ResponseEnvelope::ok("s", payload(r#"{"watching": 1}"#));
    let r = after_save(ok, false);
    assert_eq!(code_of(&r), ErrorCode::Internal);
    assert_eq!(r.id, "s");
    assert_eq!(r.error.unwrap().message, "internal error");
}

#[test]
fn paired_key_attempts_count_toward_the_burn() {
    let mut sh = shared();
    sh.allowlist.add("paired");
    let mut t = Router::new(ReplayCache::new(), Network::Regtest);
    let newcomer = "12".repeat(32);
    let proof = make_proof(&mut sh, &newcomer);
    // the already-paired key's wrong proof is a failed attempt
    let r = t.route(&mut sh, "paired", envelope(&uuid(1), "pair", r#"{"proof": "00"}"#), now_secs());
    assert_eq!(reply_code(&r), ErrorCode::PairingFailed);
    for i in 0..4u128 {
        let r = t.route(&mut sh, &newcomer, envelope(&uuid(10 + i), "pair", r#"{"proof": "00"}"#), now_secs());
        assert_eq!(reply_code(&r), ErrorCode::PairingFailed);
    }
    // five failures in all: the secret is burned, the right proof fails
    let body = format!(r#"{{"proof": "{proof}"}}"#);
    let r = t.route(&mut sh, &newcomer, envelope(&uuid(20), "pair", &body), now_secs());
    assert_eq!(reply_code(&r), ErrorCode::PairingFailed);
    assert!(!sh.allowlist.is_paired(&newcomer));
}

#[test]
fn paired_key_with_the_right_proof_does_not_use_the_secret() {
    let mut sh = shared();
    let mut t = Router::new(ReplayCache::new(), Network::Regtest);
    let wallet = "34".repeat(32);
    sh.allowlist.add(&wallet);
    let proof = make_proof(&mut sh, &wallet);
    let body = format!(r#"{{"proof": "{proof}"}}"#);
    let r = t.route(&mut sh, &wallet, envelope(&uuid(1), "pair", &body), now_secs());
    assert_eq!(reply_code(&r), ErrorCode::PairingFailed);
    // the secret is still live: another wallet can pair with it
    let other = "56".repeat(32);
    let proof = make_proof(&mut sh, &other);
    let body = format!(r#"{{"proof": "{proof}"}}"#);
    assert!(matches!(t.route(&mut sh, &other, envelope(&uuid(2), "pair", &body), now_secs()), Routed::Paired(_)));
}
