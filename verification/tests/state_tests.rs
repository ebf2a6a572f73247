use base64::Engine;
use hmac::{Hmac, Mac};
use nomad_server::backend::{electrs_url, CallGate, CALL_SPACING_MS, COOLDOWN_MS};
use nomad_server::identity::{key_file_text, stored_identity};
use nomad_server::pairing::{now_secs, PairingManager, MAX_ATTEMPTS, SECRET_TTL_SECS};
use nomad_server::ratelimit::{RateLimiter, BURST};
use nomad_server::replay::{ReplayCache, RETENTION_SECS};
use nomad_server::store::{Allowlist, WatchStore};

fn proof_for(secret_b64: &str, pubkey: &str) -> String {
    let secret = base64::engine::general_purpose::URL_SAFE_NO_PAD
        .decode(secret_b64)
        .unwrap();
    let mut mac = Hmac::<sha2::Sha256>::new_from_slice(&secret).unwrap();
    mac.update(pubkey.as_bytes());
    hex::encode(mac.finalize().into_bytes())
}

fn set_of<'a>(snapshot: &'a [(String, Vec<String>)], owner: &str) -> Option<&'a Vec<String>> {
    snapshot.iter().find(|(k, _)| k == owner).map(|(_, v)| v)
}

#[test]
fn happy_path_single_use() {
    let mut pm = PairingManager::new();
    let p = pm.payload_at(1000, "nodepk", &["wss://r".to_string()]);
    assert_eq!(p.v, 1);
    assert_eq!(p.exp, 1000 + SECRET_TTL_SECS);

    // same live secret is re-shown
    let p2 = pm.payload_at(1001, "nodepk", &["wss://r".to_string()]);
    assert_eq!(p.pair_secret, p2.pair_secret);

    let proof = proof_for(&p.pair_secret, "walletpk");
    assert!(pm.verify_at(1002, "walletpk", &proof));
    // single-use: a second success with the same proof fails
    assert!(!pm.verify_at(1003, "walletpk", &proof));
    // next payload carries a fresh secret
    let p3 = pm.payload_at(1004, "nodepk", &["wss://r".to_string()]);
    assert_ne!(p.pair_secret, p3.pair_secret);
}

#[test]
fn wrong_proof_and_expiry() {
    let mut pm = PairingManager::new();
    let _p = pm.payload_at(1000, "nodepk", &[]);
    assert!(!pm.verify_at(1001, "walletpk", "00".repeat(32).as_str()));
    // expired
    assert!(!pm.verify_at(1000 + SECRET_TTL_SECS, "walletpk", "00".repeat(32).as_str()));
}

#[test]
fn burns_after_max_attempts() {
    let mut pm = PairingManager::new();
    let p = pm.payload_at(1000, "nodepk", &[]);
    for _ in 0..MAX_ATTEMPTS {
        assert!(!pm.verify_at(1001, "walletpk", "ff".repeat(32).as_str()));
    }
    // secret is gone: even the correct proof now fails
    let proof = proof_for(&p.pair_secret, "walletpk");
    assert!(!pm.verify_at(1002, "walletpk", &proof));
}

#[test]
fn payload_fields_and_secret_shape() {
    let mut pm = PairingManager::new();
    let p = pm.payload_at(50, "nodepk", &["wss://a".to_string(), "wss://b".to_string()]);
    assert_eq!(p.app, "nomad-server");
    assert_eq!(p.node_pubkey, "nodepk");
    assert_eq!(p.relays, vec!["wss://a".to_string(), "wss://b".to_string()]);
    // 32 bytes, base64url without padding
    assert_eq!(p.pair_secret.len(), 43);
    let raw = base64::engine::general_purpose::URL_SAFE_NO_PAD
        .decode(&p.pair_secret)
        .unwrap();
    assert_eq!(raw.len(), 32);
    // an expired secret is replaced
    let q = pm.payload_at(50 + SECRET_TTL_SECS, "nodepk", &[]);
    assert_ne!(p.pair_secret, q.pair_secret);
    assert_eq!(q.exp, 50 + 2 * SECRET_TTL_SECS);
}

#[test]
fn proof_must_be_for_the_sender() {
    let mut pm = PairingManager::new();
    let p = pm.payload_at(1000, "nodepk", &[]);
    let proof = proof_for(&p.pair_secret, "walletpk");
    assert!(!pm.verify_at(1001, "otherpk", &proof));
    assert!(!pm.verify_at(1001, "walletpk", "not hex"));
    // two failures do not burn it, and the proof's hex case does not matter
    assert!(pm.verify_at(1001, "walletpk", &proof.to_uppercase()));
}

#[test]
fn no_secret_no_pairing() {
    let mut pm = PairingManager::new();
    assert!(!pm.verify_at(1, "walletpk", "00"));
    assert!(now_secs() > 1_600_000_000);
}

#[test]
fn burst_then_deny_then_refill() {
    let mut rl = RateLimiter::new();
    for _ in 0..10 {
        assert!(rl.allow("pk", 1000));
    }
    assert!(!rl.allow("pk", 1000));
    // one token/sec: after 3s, 3 requests allowed
    for _ in 0..3 {
        assert!(rl.allow("pk", 1003));
    }
    assert!(!rl.allow("pk", 1003));
    // independent buckets per key
    assert!(rl.allow("other", 1003));
}

#[test]
fn caps_at_burst() {
    let mut rl = RateLimiter::new();
    rl.allow("pk", 1000);
    // long idle: tokens cap at BURST, not 1000
    for _ in 0..10 {
        assert!(rl.allow("pk", 1000 + 3600));
    }
    assert!(!rl.allow("pk", 1000 + 3600));
}

#[test]
fn burst_law_on_values() {
    let mut rl = RateLimiter::new();
    let mut allowed = 0;
    for _ in 0..(BURST + 5) {
        if rl.allow("k", 7) {
            allowed += 1;
        }
    }
    assert_eq!(allowed, BURST);
    // a clock that reads earlier refills nothing
    assert!(!rl.allow("k", 3));
}

#[test]
fn detects_replays_and_prunes() {
    let mut c = ReplayCache::new();
    let now = 1_000_000u64;
    assert!(c.check_and_insert("id-a", now));
    assert!(!c.check_and_insert("id-a", now + 1));
    assert!(c.check_and_insert("id-b", now + 2));
    // after retention, old ids are pruned (and message idempotency
    // makes this safe)
    assert!(c.check_and_insert("id-a", now + RETENTION_SECS + 1));
}

#[test]
fn persists_across_restarts() {
    let mut c = ReplayCache::new();
    assert!(c.check_and_insert("id-x", 1_000_000));
    let saved = c.entries();
    drop(c);
    let mut c2 = ReplayCache::from_entries(saved);
    assert!(!c2.check_and_insert("id-x", 1_000_001));
}

#[test]
fn replay_window_edges() {
    let mut c = ReplayCache::new();
    assert!(c.check_and_insert("id", 100));
    assert!(!c.check_and_insert("id", 100 + RETENTION_SECS - 1));
    assert!(c.check_and_insert("id", 100 + RETENTION_SECS));
    let e = c.entries();
    assert_eq!(e, vec![("id".to_string(), 100 + RETENTION_SECS)]);
}

#[test]
fn allowlist_roundtrip() {
    let mut a = Allowlist::new();
    assert!(!a.is_paired("aa"));
    a.add("aa");
    a.add("bb");
    assert!(a.is_paired("aa"));
    assert_eq!(a.list(), vec!["aa".to_string(), "bb".to_string()]);

    let mut reloaded = Allowlist::from_list(a.list());
    assert!(reloaded.is_paired("bb"));
    assert!(reloaded.remove("aa"));
    assert!(!reloaded.is_paired("aa"));
    assert!(!reloaded.remove("aa"));
}

#[test]
fn allowlist_lists_sorted_without_duplicates() {
    let a = Allowlist::from_list(vec!["cc".to_string(), "aa".to_string(), "cc".to_string()]);
    assert_eq!(a.list(), vec!["aa".to_string(), "cc".to_string()]);
}

#[test]
fn watchset_replace_semantics() {
    let mut w = WatchStore::new();
    w.replace("pk", vec!["addr1".into(), "addr2".into()]);
    assert_eq!(set_of(&w.snapshot(), "pk").unwrap().len(), 2);
    // replace, not append
    w.replace("pk", vec!["addr3".into()]);
    assert_eq!(set_of(&w.snapshot(), "pk").unwrap(), &vec!["addr3".to_string()]);
    // empty clears
    w.replace("pk", vec![]);
    assert!(set_of(&w.snapshot(), "pk").is_none());
}

#[test]
fn watch_store_roundtrip_and_removal() {
    let mut w = WatchStore::new();
    assert_eq!(w.replace("b", vec!["x".into()]), 1);
    assert_eq!(w.replace("a", vec!["y".into(), "z".into()]), 2);
    let snap = w.snapshot();
    assert_eq!(snap[0].0, "a");
    assert_eq!(snap[1].0, "b");
    let mut back = WatchStore::from_entries(snap);
    assert_eq!(set_of(&back.snapshot(), "a").unwrap(), &vec!["y".to_string(), "z".to_string()]);
    assert!(back.remove_wallet("a"));
    assert!(!back.remove_wallet("a"));
    assert_eq!(back.snapshot().len(), 1);
}

#[test]
fn url_normalization() {
    assert_eq!(electrs_url("192.168.1.10:50001"), "tcp://192.168.1.10:50001");
    assert_eq!(electrs_url("ssl://x:50002"), "ssl://x:50002");
}

#[test]
fn url_scheme_detection_edges() {
    assert_eq!(electrs_url(""), "tcp://");
    assert_eq!(electrs_url("a:/b"), "tcp://a:/b");
    assert_eq!(electrs_url("x://"), "x://");
}

#[test]
fn call_gate_spacing_and_cooldown() {
    let mut g = CallGate::new();
    assert!(g.may_call(0));
    assert_eq!(g.start(1000), 0);
    assert_eq!(g.start(1030), CALL_SPACING_MS - 30);
    assert_eq!(g.start(1200), 0);
    // a clock reading earlier waits the full spacing
    assert_eq!(g.start(1100), CALL_SPACING_MS);
    g.on_timeout(5000);
    assert!(!g.may_call(5000));
    assert!(!g.may_call(5000 + COOLDOWN_MS - 1));
    assert!(g.may_call(5000 + COOLDOWN_MS));
}

#[test]
fn creates_and_reloads_same_identity() {
    let secret = [7u8; 32];
    let text = key_file_text(&secret);
    assert_eq!(text, "07".repeat(32));
    assert_eq!(stored_identity(&format!("{text}\n")), Some(secret));
    assert_eq!(stored_identity(&format!("  {text}  ")), Some(secret));
    assert_eq!(stored_identity("corrupt"), None);
    // the all-zero key is not a valid secret key
    assert_eq!(stored_identity(&"00".repeat(32)), None);
}
