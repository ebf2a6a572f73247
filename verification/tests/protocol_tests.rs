use nomad_server::config::{parse_port, parse_u64, Config, Network};
use nomad_server::json::{JsonNumber, JsonValue};
use nomad_server::protocol::{
    is_known_type, is_request_kind, parse_request, ErrorCode, RequestEnvelope, ResponseEnvelope,
    KIND_NOTIFY, KIND_REQUEST, KIND_RESPONSE,
};
use nomad_server::encoding::{base64url_encode, hex_decode, hex_encode, uuid_parses};
use nomad_server::text::{to_ascii_lower, to_decimal};

fn model(v: &serde_json::Value) -> JsonValue {
    match v {
        serde_json::Value::Null => JsonValue::Null,
        serde_json::Value::Bool(b) => JsonValue::Bool(*b),
        serde_json::Value::Number(n) => {
            if let Some(u) = n.as_u64() {
                JsonValue::Number(JsonNumber::PosInt(u))
            } else if let Some(i) = n.as_i64() {
                JsonValue::Number(JsonNumber::NegInt(i))
            } else {
                JsonValue::Number(JsonNumber::Float)
            }
        }
        serde_json::Value::String(s) => JsonValue::Str(s.clone()),
        serde_json::Value::Array(a) => JsonValue::Array(a.iter().map(model).collect()),
        serde_json::Value::Object(o) => {
            JsonValue::Object(o.iter().map(|(k, v)| (k.clone(), model(v))).collect())
        }
    }
}

fn plain(j: &JsonValue) -> serde_json::Value {
    match j {
        JsonValue::Null => serde_json::Value::Null,
        JsonValue::Bool(b) => serde_json::Value::Bool(*b),
        JsonValue::Number(JsonNumber::PosInt(u)) => serde_json::Value::from(*u),
        JsonValue::Number(JsonNumber::NegInt(i)) => serde_json::Value::from(*i),
        JsonValue::Number(JsonNumber::Float) => serde_json::Value::Null,
        JsonValue::Str(s) => serde_json::Value::String(s.clone()),
        JsonValue::Array(a) => serde_json::Value::Array(a.iter().map(plain).collect()),
        JsonValue::Object(o) => {
            let mut m = serde_json::Map::new();
            for (k, v) in o {
                m.insert(k.clone(), plain(v));
            }
            serde_json::Value::Object(m)
        }
    }
}

fn parse(text: &str) -> Result<RequestEnvelope, Option<ResponseEnvelope>> {
    let doc = serde_json::from_str::<serde_json::Value>(text).ok().map(|v| model(&v));
    parse_request(text.len(), doc)
}

fn wire(resp: ResponseEnvelope) -> String {
    plain(&resp.to_json()).to_string()
}

#[test]
fn parses_networks() {
    assert_eq!(Network::parse("mainnet").unwrap(), Network::Bitcoin);
    assert_eq!(Network::parse("REGTEST").unwrap(), Network::Regtest);
    assert!(Network::parse("dogecoin").is_err());
}

#[test]
fn network_parse_error_carries_lowered_name() {
    assert_eq!(Network::parse("DogeCoin").unwrap_err(), "dogecoin");
    assert_eq!(Network::parse("Signet").unwrap(), Network::Signet);
    assert_eq!(Network::parse("bitcoin").unwrap(), Network::Bitcoin);
    assert_eq!(Network::parse("TestNet").unwrap(), Network::Testnet);
}

#[test]
fn config_defaults() {
    let c = Config::from_settings(None, None, None, None, None, None).unwrap();
    assert_eq!(c.data_dir, "./data");
    assert_eq!(c.electrs_addr, "electrs:50001");
    assert_eq!(
        c.relays,
        vec![
            "wss://relay.damus.io".to_string(),
            "wss://nos.lol".to_string(),
            "wss://relay.nostr.band".to_string(),
            "wss://nostr.wine".to_string(),
            "wss://relay.snort.social".to_string(),
        ]
    );
    assert_eq!(c.http_port, 3829);
    assert_eq!(c.network, Network::Bitcoin);
}

#[test]
fn config_from_settings_overrides() {
    let c = Config::from_settings(
        Some("/umbrel"),
        Some("/nomad"),
        Some("10.0.0.2:50001"),
        Some(" wss://a , ,wss://b,"),
        Some("8080"),
        Some("Signet"),
    )
    .unwrap();
    assert_eq!(c.data_dir, "/umbrel");
    assert_eq!(c.electrs_addr, "10.0.0.2:50001");
    assert_eq!(c.relays, vec!["wss://a".to_string(), "wss://b".to_string()]);
    assert_eq!(c.http_port, 8080);
    assert_eq!(c.network, Network::Signet);

    let c = Config::from_settings(None, Some("/nomad"), None, None, Some("99999"), None).unwrap();
    assert_eq!(c.data_dir, "/nomad");
    assert_eq!(c.http_port, 3829);

    let e = Config::from_settings(None, None, None, None, None, Some("Litecoin")).unwrap_err();
    assert_eq!(e, "litecoin");
}

#[test]
fn number_parsing_follows_str_parse() {
    assert_eq!(parse_port("+80"), Some(80));
    assert_eq!(parse_port("65535"), Some(65535));
    assert_eq!(parse_port("65536"), None);
    assert_eq!(parse_port(""), None);
    assert_eq!(parse_port("+"), None);
    assert_eq!(parse_port(" 80"), None);
    assert_eq!(parse_u64("18446744073709551615"), Some(u64::MAX));
    assert_eq!(parse_u64("18446744073709551616"), None);
    assert_eq!(parse_u64("0042"), Some(42));
    assert_eq!(parse_u64("-1"), None);
}

#[test]
fn parses_valid_request() {
    let env = parse(r#"{"v":1,"id":"7c9e6679-7425-40de-944b-e07fc1f90ae7","ts":1,"type":"ping","payload":{}}"#)
        .unwrap();
    assert_eq!(env.msg_type, "ping");
}

#[test]
fn rejects_bad_version_with_echoed_id() {
    let err = parse(r#"{"v":2,"id":"7c9e6679-7425-40de-944b-e07fc1f90ae7","ts":1,"type":"ping","payload":{}}"#)
        .unwrap_err()
        .unwrap();
    assert_eq!(err.error.unwrap().code, ErrorCode::UnsupportedVersion);
}

#[test]
fn bad_version_echoes_the_request_id() {
    let err = parse(r#"{"v":2,"id":"7c9e6679-7425-40de-944b-e07fc1f90ae7","ts":1,"type":"ping","payload":{}}"#)
        .unwrap_err()
        .unwrap();
    assert_eq!(err.id, "7c9e6679-7425-40de-944b-e07fc1f90ae7");
    assert_eq!(err.error.unwrap().message, "unsupported protocol version");
}

#[test]
fn drops_unparseable_and_bad_id() {
    assert!(parse("not json").unwrap_err().is_none());
    let err = parse(r#"{"v":1,"id":"nope","ts":1,"type":"ping","payload":{}}"#)
        .unwrap_err()
        .unwrap();
    assert_eq!(err.error.unwrap().code, ErrorCode::InvalidRequest);
}

#[test]
fn bad_id_is_answered_with_nil_uuid() {
    let err = parse(r#"{"v":1,"id":"nope","ts":1,"type":"ping","payload":{}}"#)
        .unwrap_err()
        .unwrap();
    assert_eq!(err.id, "00000000-0000-0000-0000-000000000000");
    assert_eq!(err.error.unwrap().message, "id must be a UUID");
}

#[test]
fn drops_oversized_and_misshapen_content() {
    let ok = r#"{"v":1,"id":"7c9e6679-7425-40de-944b-e07fc1f90ae7","ts":1,"type":"ping","payload":{}}"#;
    let doc = serde_json::from_str::<serde_json::Value>(ok).ok().map(|v| model(&v));
    assert!(parse_request(262_145, doc).unwrap_err().is_none());
    // missing type
    assert!(parse(r#"{"v":1,"id":"7c9e6679-7425-40de-944b-e07fc1f90ae7","ts":1}"#)
        .unwrap_err()
        .is_none());
    // not an object
    assert!(parse("[1,2]").unwrap_err().is_none());
    // payload may be absent
    let env = parse(r#"{"v":1,"id":"7c9e6679-7425-40de-944b-e07fc1f90ae7","ts":5,"type":"get_balance"}"#).unwrap();
    assert_eq!(env.ts, 5);
    assert!(matches!(env.payload, JsonValue::Null));
}

#[test]
fn response_roundtrip_ok_and_err() {
    let mut fields = Vec::new();
    fields.push(("watching".to_string(), JsonValue::Number(JsonNumber::PosInt(3))));
    let ok = ResponseEnvelope::ok("id1", JsonValue::Object(fields));
    let s = wire(ok);
    assert!(s.contains("\"ok\":true"));
    assert!(!s.contains("error"));
    let err = ResponseEnvelope::err("id1", ErrorCode::NotPaired, "no");
    let s = wire(err);
    assert!(s.contains("\"not_paired\""));
    assert!(!s.contains("result"));
}

#[test]
fn response_json_shape() {
    let err = ResponseEnvelope::err("abc", ErrorCode::RateLimited, "slow down");
    let v = plain(&err.to_json());
    assert_eq!(v["v"], 1);
    assert_eq!(v["id"], "abc");
    assert_eq!(v["ok"], false);
    assert_eq!(v["error"]["code"], "rate_limited");
    assert_eq!(v["error"]["message"], "slow down");
}

#[test]
fn error_codes_on_the_wire() {
    let all = [
        (ErrorCode::UnsupportedVersion, "unsupported_version"),
        (ErrorCode::UnknownType, "unknown_type"),
        (ErrorCode::NotPaired, "not_paired"),
        (ErrorCode::PairingFailed, "pairing_failed"),
        (ErrorCode::InvalidRequest, "invalid_request"),
        (ErrorCode::InvalidTx, "invalid_tx"),
        (ErrorCode::BroadcastFailed, "broadcast_failed"),
        (ErrorCode::BackendUnavailable, "backend_unavailable"),
        (ErrorCode::RateLimited, "rate_limited"),
        (ErrorCode::Internal, "internal"),
    ];
    for (code, text) in all {
        assert_eq!(code.as_str(), text);
    }
}

#[test]
fn request_kinds_and_known_types() {
    assert!(is_request_kind(KIND_REQUEST));
    assert!(!is_request_kind(KIND_RESPONSE));
    assert!(!is_request_kind(KIND_NOTIFY));
    for t in [
        "pair", "unpair", "ping", "get_balance", "get_utxos", "get_history", "get_transactions",
        "get_fee_estimates", "broadcast_tx", "watch_addresses",
    ] {
        assert!(is_known_type(t));
    }
    assert!(!is_known_type("bogus"));
    assert!(!is_known_type("PING"));
}

#[test]
fn encoding_wrappers() {
    assert_eq!(hex_encode(&[0x00, 0xab, 0xff]), "00abff");
    assert_eq!(hex_decode("00ABff"), Some(vec![0x00, 0xab, 0xff]));
    assert_eq!(hex_decode("abc"), None);
    assert_eq!(hex_decode("zz"), None);
    assert!(uuid_parses("7c9e6679-7425-40de-944b-e07fc1f90ae7"));
    assert!(!uuid_parses("nope"));
    assert_eq!(base64url_encode(&[0xfb, 0xff]), "-_8");
    assert_eq!(base64url_encode(b"hello"), "aGVsbG8");
}

#[test]
fn text_helpers() {
    assert_eq!(to_ascii_lower("ReGtEsT-Ä"), "regtest-Ä");
    assert_eq!(to_decimal(0), "0");
    assert_eq!(to_decimal(1234567890), "1234567890");
    assert_eq!(to_decimal(u64::MAX), "18446744073709551615");
}
