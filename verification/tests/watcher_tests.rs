use nomad_server::history::HistoryEntry;
use nomad_server::json::{JsonNumber, JsonValue};
use nomad_server::store::Allowlist;
use nomad_server::watcher::{
    batch_ranges, diff, new_tx_notification, observe, tick_wallet, wallets_due, watch_interval_secs,
    watchable_addresses, TxHeights, WatcherState,
};
use nomad_server::config::Network;

fn map(pairs: &[(&str, u64)]) -> TxHeights {
    let entries: Vec<(String, u64)> = pairs.iter().map(|(t, h)| (t.to_string(), *h)).collect();
    TxHeights::from_entries(&entries)
}

fn owned(pairs: &[(&str, u64)]) -> Vec<(String, u64)> {
    pairs.iter().map(|(t, h)| (t.to_string(), *h)).collect()
}

fn field<'a>(j: &'a JsonValue, key: &str) -> &'a JsonValue {
    match j {
        JsonValue::Object(fields) => &fields.iter().find(|(k, _)| k == key).unwrap().1,
        _ => panic!("not an object"),
    }
}

fn text(j: &JsonValue) -> &str {
    match j {
        JsonValue::Str(s) => s.as_str(),
        _ => panic!("not a string"),
    }
}

fn uint(j: &JsonValue) -> u64 {
    match j {
        JsonValue::Number(JsonNumber::PosInt(n)) => *n,
        _ => panic!("not an unsigned integer"),
    }
}

#[test]
fn first_observation_is_silent() {
    let current = map(&[("tx1", 800000), ("tx2", 0)]);
    assert!(diff(None, &current).is_empty());
}

#[test]
fn new_and_confirmed_detected() {
    let known = map(&[("tx1", 800000), ("tx2", 0)]);
    let current = map(&[("tx1", 800000), ("tx2", 800003), ("tx3", 0)]);
    let mut d = diff(Some(&known), &current);
    d.sort();
    assert_eq!(
        d,
        vec![
            ("tx2".to_string(), 800003), // confirmed
            ("tx3".to_string(), 0),      // new in mempool
        ]
    );
}

#[test]
fn dropped_and_unchanged_are_silent() {
    let known = map(&[("tx1", 0)]);
    let current = map(&[]); // dropped from mempool
    assert!(diff(Some(&known), &current).is_empty());
    let same = map(&[("tx1", 0)]);
    assert!(diff(Some(&known), &same).is_empty());
}

#[test]
fn reorged_height_change_is_silent() {
    let known = map(&[("tx1", 800000)]);
    let current = map(&[("tx1", 800001)]);
    assert!(diff(Some(&known), &current).is_empty());
    // a confirmed tx falling back to the mempool is silent too
    let current = map(&[("tx1", 0)]);
    assert!(diff(Some(&known), &current).is_empty());
}

#[test]
fn tx_heights_entries_and_lookup() {
    let mut t = TxHeights::new();
    t.insert("b", 5);
    t.insert("a", 7);
    t.insert("b", 9);
    assert_eq!(t.get("b"), Some(9));
    assert_eq!(t.get("c"), None);
    assert_eq!(t.entries(), owned(&[("a", 7), ("b", 9)]));
}

#[test]
fn state_records_and_notifies_once() {
    let mut s = WatcherState::new();
    // first observation of a wallet: silent
    assert!(s.record("w1", map(&[("tx1", 0)])).is_empty());
    // the same observation again: silent
    assert!(s.record("w1", map(&[("tx1", 0)])).is_empty());
    // a confirmation and a new transaction
    let d = s.record("w1", map(&[("tx1", 10), ("tx2", 0)]));
    assert_eq!(d, owned(&[("tx1", 10), ("tx2", 0)]));
    // nothing new since
    assert!(s.record("w1", map(&[("tx1", 10), ("tx2", 0)])).is_empty());
}

#[test]
fn state_forgets_unwatched_wallets_and_roundtrips() {
    let mut s = WatcherState::new();
    s.record("w1", map(&[("tx1", 3)]));
    s.record("w2", map(&[("tx2", 4)]));
    let snapshot = vec![("w2".to_string(), vec!["addr".to_string()])];
    assert!(s.forget_unwatched(&snapshot));
    assert!(!s.forget_unwatched(&snapshot));
    let e = s.entries();
    assert_eq!(e, vec![("w2".to_string(), owned(&[("tx2", 4)]))]);
    let mut back = WatcherState::from_entries(&e);
    assert_eq!(back.entries(), e);
    // a reloaded state keeps the first observation behind it
    assert!(back.record("w2", map(&[("tx2", 4)])).is_empty());
    assert_eq!(back.record("w2", map(&[("tx2", 4), ("tx9", 0)])), owned(&[("tx9", 0)]));
}

#[test]
fn batches_cover_all_rows() {
    assert!(batch_ranges(0).is_empty());
    assert_eq!(batch_ranges(1), vec![(0, 1)]);
    assert_eq!(batch_ranges(200), vec![(0, 200)]);
    assert_eq!(batch_ranges(450), vec![(0, 200), (200, 400), (400, 450)]);
}

#[test]
fn interval_setting() {
    assert_eq!(watch_interval_secs(None), 60);
    assert_eq!(watch_interval_secs(Some("15")), 15);
    assert_eq!(watch_interval_secs(Some("soon")), 60);
    assert_eq!(watch_interval_secs(Some("")), 60);
}

#[test]
fn due_wallets_are_paired_with_addresses() {
    let mut a = Allowlist::new();
    a.add("w1");
    a.add("w3");
    let snapshot = vec![
        ("w1".to_string(), vec!["x".to_string()]),
        ("w2".to_string(), vec!["y".to_string()]),
        ("w3".to_string(), vec![]),
    ];
    assert_eq!(wallets_due(&snapshot, &a), vec![0]);
}

#[test]
fn watchable_addresses_skip_bad_ones() {
    let addrs = vec![
        "bc1qxy2kgdygjrsqtzq2n0yrf2493p83kkfjhx0wlh".to_string(),
        "garbage".to_string(),
    ];
    let ok = watchable_addresses(&addrs, Network::Bitcoin);
    assert_eq!(ok.len(), 1);
    assert_eq!(ok[0].0, addrs[0]);
    assert_eq!(ok[0].1.len(), 22);
    assert!(watchable_addresses(&addrs, Network::Testnet).is_empty());
}

#[test]
fn observation_takes_highest_height_and_touched_addresses() {
    let a = [1u8; 32];
    let b = [2u8; 32];
    let addrs = vec!["addr1".to_string(), "addr2".to_string()];
    let histories = vec![
        vec![HistoryEntry { txid: a, height: 0 }, HistoryEntry { txid: b, height: -1 }],
        vec![HistoryEntry { txid: a, height: 812 }],
    ];
    let (heights, touched) = observe(&addrs, &histories);
    let shown_a = "01".repeat(32);
    let shown_b = "02".repeat(32);
    assert_eq!(heights.get(&shown_a), Some(812));
    assert_eq!(heights.get(&shown_b), Some(0));
    assert_eq!(touched.addresses(&shown_a), vec!["addr1".to_string(), "addr2".to_string()]);
    assert_eq!(touched.addresses(&shown_b), vec!["addr1".to_string()]);
    assert!(touched.addresses("unknown").is_empty());
}

#[test]
fn notification_envelope() {
    let j = new_tx_notification(
        "7c9e6679-7425-40de-944b-e07fc1f90ae7",
        1700000000,
        "ab".repeat(32).as_str(),
        &vec!["addr1".to_string()],
        812,
    );
    assert_eq!(uint(field(&j, "v")), 1);
    assert_eq!(text(field(&j, "id")), "7c9e6679-7425-40de-944b-e07fc1f90ae7");
    assert_eq!(uint(field(&j, "ts")), 1700000000);
    assert_eq!(text(field(&j, "type")), "notify");
    let p = field(&j, "payload");
    assert_eq!(text(field(p, "kind")), "new_tx");
    assert_eq!(text(field(p, "txid")), "ab".repeat(32));
    assert_eq!(uint(field(p, "height")), 812);
    match field(p, "addresses") {
        JsonValue::Array(items) => {
            assert_eq!(items.len(), 1);
            assert_eq!(text(&items[0]), "addr1");
        }
        _ => panic!("addresses is not an array"),
    }
}

#[test]
fn a_wallet_pass_notifies_each_change_once() {
    let mut s = WatcherState::new();
    let a = [1u8; 32];
    let b = [2u8; 32];
    let addrs = vec!["addr1".to_string(), "addr2".to_string()];
    let first = vec![vec![HistoryEntry { txid: a, height: 0 }], vec![]];
    let (d, t) = tick_wallet(&mut s, "w", &addrs, &first);
    assert!(d.is_empty());
    assert!(t.is_empty());
    let second = vec![
        vec![HistoryEntry { txid: a, height: 900 }, HistoryEntry { txid: b, height: 0 }],
        vec![HistoryEntry { txid: b, height: 0 }],
    ];
    let (d, t) = tick_wallet(&mut s, "w", &addrs, &second);
    let ta = "01".repeat(32);
    let tb = "02".repeat(32);
    assert_eq!(d, owned(&[(ta.as_str(), 900), (tb.as_str(), 0)]));
    assert_eq!(t, vec![vec!["addr1".to_string()], vec!["addr1".to_string(), "addr2".to_string()]]);
    let (d, _) = tick_wallet(&mut s, "w", &addrs, &second);
    assert!(d.is_empty());
}
