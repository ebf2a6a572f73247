//! Protocol envelopes: the decrypted content of gift-wrap rumors
//! (requests, responses, notifications) and their validation.

use vstd::prelude::*;
use vstd::string::StringSliceAdditionalSpecFns;
use crate::encoding::{uuid_parses, uuid_text};
use crate::json::{json_get, json_str, json_u64, lemma_field_of_absent, lemma_field_of_first, member_names, put, JsonValue};
use crate::text::{owned, str_eq};

verus! {

pub const PROTOCOL_VERSION: u8 = 1;

/// Rumor kinds (never published bare; only inside NIP-59 seals).
pub const KIND_REQUEST: u16 = 25078;
pub const KIND_RESPONSE: u16 = 25079;
pub const KIND_NOTIFY: u16 = 25080;

/// Only rumors of the request kind are read as requests; any other rumor
/// is discarded.
pub fn is_request_kind(kind: u16) -> (r: bool)
    ensures
        r == (kind == KIND_REQUEST),
{
    kind == KIND_REQUEST
}

/// NIP-40 expiration of gift wraps, counted from their (randomized, up to
/// two days in the past) creation time: at least seven days from the real
/// send time. The replay cache outlives it.
pub const WRAP_EXPIRATION_SECS: u64 = 9 * 24 * 3600;

/// How far back the subscription to gift wraps reaches: the creation-time
/// randomization plus a margin. Wraps already handled are dropped as
/// replays.
pub const BACKFILL_SECS: u64 = 3 * 24 * 3600;

/// Largest rumor content read as a request (bytes).
pub const MAX_CONTENT_LEN: usize = 262144;

/// The v1 request types.
pub open spec fn known_type(t: Seq<char>) -> bool {
    ||| t == "pair"@
    ||| t == "unpair"@
    ||| t == "ping"@
    ||| t == "get_balance"@
    ||| t == "get_utxos"@
    ||| t == "get_history"@
    ||| t == "get_transactions"@
    ||| t == "get_fee_estimates"@
    ||| t == "broadcast_tx"@
    ||| t == "watch_addresses"@
}

/// Whether `t` is one of the v1 request types.
pub fn is_known_type(t: &str) -> (r: bool)
    ensures
        r == known_type(t@),
{
    str_eq(t, "pair") || str_eq(t, "unpair") || str_eq(t, "ping") || str_eq(t, "get_balance")
        || str_eq(t, "get_utxos") || str_eq(t, "get_history") || str_eq(t, "get_transactions")
        || str_eq(t, "get_fee_estimates") || str_eq(t, "broadcast_tx") || str_eq(
        t,
        "watch_addresses",
    )
}

/// A request envelope.
#[derive(Debug)]
pub struct RequestEnvelope {
    pub v: u8,
    pub id: String,
    pub ts: u64,
    pub msg_type: String,
    pub payload: JsonValue,
}

/// Protocol error codes.
#[derive(Debug, Clone, Copy, PartialEq, Eq, Structural)]
pub enum ErrorCode {
    UnsupportedVersion,
    UnknownType,
    NotPaired,
    PairingFailed,
    InvalidRequest,
    InvalidTx,
    BroadcastFailed,
    BackendUnavailable,
    RateLimited,
    Internal,
}

impl ErrorCode {
    /// The code as it appears on the wire.
    pub open spec fn wire(self) -> Seq<char> {
        match self {
            ErrorCode::UnsupportedVersion => "unsupported_version"@,
            ErrorCode::UnknownType => "unknown_type"@,
            ErrorCode::NotPaired => "not_paired"@,
            ErrorCode::PairingFailed => "pairing_failed"@,
            ErrorCode::InvalidRequest => "invalid_request"@,
            ErrorCode::InvalidTx => "invalid_tx"@,
            ErrorCode::BroadcastFailed => "broadcast_failed"@,
            ErrorCode::BackendUnavailable => "backend_unavailable"@,
            ErrorCode::RateLimited => "rate_limited"@,
            ErrorCode::Internal => "internal"@,
        }
    }

    /// The code as it appears on the wire (snake case).
    pub fn as_str(&self) -> (r: &'static str)
        ensures
            r@ == self.wire(),
    {
        match self {
            ErrorCode::UnsupportedVersion => "unsupported_version",
            ErrorCode::UnknownType => "unknown_type",
            ErrorCode::NotPaired => "not_paired",
            ErrorCode::PairingFailed => "pairing_failed",
            ErrorCode::InvalidRequest => "invalid_request",
            ErrorCode::InvalidTx => "invalid_tx",
            ErrorCode::BroadcastFailed => "broadcast_failed",
            ErrorCode::BackendUnavailable => "backend_unavailable",
            ErrorCode::RateLimited => "rate_limited",
            ErrorCode::Internal => "internal",
        }
    }
}

#[derive(Debug)]
pub struct ErrorBody {
    pub code: ErrorCode,
    pub message: String,
}

/// A response envelope.
#[derive(Debug)]
pub struct ResponseEnvelope {
    pub v: u8,
    pub id: String,
    pub ok: bool,
    pub result: Option<JsonValue>,
    pub error: Option<ErrorBody>,
}

/// `b` is the JSON form of error body `e`: `{"code": .., "message": ..}`.
pub open spec fn error_json_matches(b: Option<JsonValue>, e: ErrorBody) -> bool {
    &&& b is Some
    &&& member_names(b.unwrap()) == seq!["code"@, "message"@]
    &&& json_get(b.unwrap(), "code"@) matches Some(c)
    &&& json_str(c) == Some(e.code.wire())
    &&& json_get(b.unwrap(), "message"@) matches Some(m)
    &&& json_str(m) == Some(e.message@)
}

impl ResponseEnvelope {
    /// A success response echoing `id`.
    pub fn ok(id: &str, result: JsonValue) -> (r: ResponseEnvelope)
        ensures
            r.v == PROTOCOL_VERSION,
            r.id@ == id@,
            r.ok,
            r.result == Some(result),
            r.error is None,
    {
        ResponseEnvelope { v: PROTOCOL_VERSION, id: owned(id), ok: true, result: Some(result), error: None }
    }

    /// An error response echoing `id`.
    pub fn err(id: &str, code: ErrorCode, message: &str) -> (r: ResponseEnvelope)
        ensures
            r.v == PROTOCOL_VERSION,
            r.id@ == id@,
            !r.ok,
            r.result is None,
            r.error matches Some(e) && e.code == code && e.message@ == message@,
    {
        ResponseEnvelope {
            v: PROTOCOL_VERSION,
            id: owned(id),
            ok: false,
            result: None,
            error: Some(ErrorBody { code, message: owned(message) }),
        }
    }

    /// The error code of a failure response.
    pub open spec fn code(self) -> Option<ErrorCode> {
        match self.error {
            Some(e) => Some(e.code),
            None => None,
        }
    }

    /// The response as a JSON document: members `v`, `id`, `ok`, then
    /// `result` and `error` only when present; the error code in snake case.
    pub fn to_json(self) -> (r: JsonValue)
        ensures
            json_u64(json_get(r, "v"@).unwrap()) == Some(self.v as u64),
            json_get(r, "v"@) is Some,
            json_get(r, "id"@) matches Some(i) && json_str(i) == Some(self.id@),
            json_get(r, "ok"@) == Some(JsonValue::Bool(self.ok)),
            json_get(r, "result"@) == self.result,
            self.error is None <==> json_get(r, "error"@) is None,
            self.error matches Some(e) ==> error_json_matches(json_get(r, "error"@), e),
            member_names(r) == seq!["v"@, "id"@, "ok"@]
                + (if self.result is Some { seq!["result"@] } else { Seq::<Seq<char>>::empty() })
                + (if self.error is Some { seq!["error"@] } else { Seq::<Seq<char>>::empty() }),
    {
        proof {
            reveal_strlit("v");
            reveal_strlit("id");
            reveal_strlit("ok");
            reveal_strlit("result");
            reveal_strlit("error");
            reveal_strlit("code");
            reveal_strlit("message");
        }
        let ghost orig = self;
        let mut fields: Vec<(String, JsonValue)> = Vec::new();
        put(&mut fields, "v", JsonValue::uint(self.v as u64));
        put(&mut fields, "id", JsonValue::Str(self.id));
        put(&mut fields, "ok", JsonValue::Bool(self.ok));
        let ghost f3 = fields@;
        match self.result {
            Some(res) => put(&mut fields, "result", res),
            None => {},
        }
        let ghost f4 = fields@;
        match self.error {
            Some(e) => {
                let mut body: Vec<(String, JsonValue)> = Vec::new();
                put(&mut body, "code", JsonValue::string(e.code.as_str()));
                put(&mut body, "message", JsonValue::Str(e.message));
                proof {
                    lemma_field_of_first(body@, "code"@, 0);
                    assert(body@[0].0@ == "code"@);
                    assert("code"@.len() != "message"@.len());
                    lemma_field_of_first(body@, "message"@, 1);
                }
                assert(member_names(JsonValue::Object(body)) =~= seq!["code"@, "message"@]);
                put(&mut fields, "error", JsonValue::Object(body));
            },
            None => {},
        }
        proof {
            let f = fields@;
            assert(f[0] == f3[0] && f[1] == f3[1] && f[2] == f3[2]);
            lemma_field_of_first(f, "v"@, 0);
            assert(f[0].0@ == "v"@);
            assert(f[1].0@ == "id"@);
            assert(f[2].0@ == "ok"@);
            assert("v"@ =~= seq!['v']);
            assert("id"@ =~= seq!['i', 'd']);
            assert("ok"@ =~= seq!['o', 'k']);
            assert("result"@ =~= seq!['r', 'e', 's', 'u', 'l', 't']);
            assert("error"@ =~= seq!['e', 'r', 'r', 'o', 'r']);
            if orig.result is Some {
                assert(f[3].0@ == "result"@);
            }
            lemma_field_of_first(f, "id"@, 1);
            lemma_field_of_first(f, "ok"@, 2);
            if orig.result is Some {
                assert(f[3] == f4[3]);
                lemma_field_of_first(f, "result"@, 3);
            } else {
                lemma_field_of_absent(f, "result"@);
            }
            if orig.error is Some {
                lemma_field_of_first(f, "error"@, f.len() - 1);
            } else {
                lemma_field_of_absent(f, "error"@);
            }
            assert(member_names(JsonValue::Object(fields)) =~= seq!["v"@, "id"@, "ok"@]
                + (if orig.result is Some { seq!["result"@] } else { Seq::<Seq<char>>::empty() })
                + (if orig.error is Some { seq!["error"@] } else { Seq::<Seq<char>>::empty() }));
        }
        JsonValue::Object(fields)
    }
}

/// A `u8` member: a non-negative integer no larger than 255.
pub open spec fn member_u8(doc: JsonValue, key: Seq<char>) -> Option<u8> {
    match json_get(doc, key) {
        Some(v) => match json_u64(v) {
            Some(n) => if n <= 255 { Some(n as u8) } else { None },
            None => None,
        },
        None => None,
    }
}

/// A `u64` member.
pub open spec fn member_u64(doc: JsonValue, key: Seq<char>) -> Option<u64> {
    match json_get(doc, key) {
        Some(v) => json_u64(v),
        None => None,
    }
}

/// A string member.
pub open spec fn member_str(doc: JsonValue, key: Seq<char>) -> Option<Seq<char>> {
    match json_get(doc, key) {
        Some(v) => json_str(v),
        None => None,
    }
}

/// The document has the request envelope's shape: an object with `v`
/// (0..=255), `id` (string), `ts` (non-negative integer) and `type`
/// (string); `payload` may be any value or absent; other members are
/// ignored.
pub open spec fn request_shape(doc: JsonValue) -> bool {
    &&& doc is Object
    &&& member_u8(doc, "v"@) is Some
    &&& member_str(doc, "id"@) is Some
    &&& member_u64(doc, "ts"@) is Some
    &&& member_str(doc, "type"@) is Some
}

/// `env` holds the members of `doc`; a missing payload reads as `null`.
pub open spec fn request_from(doc: JsonValue, env: RequestEnvelope) -> bool {
    &&& member_u8(doc, "v"@) == Some(env.v)
    &&& member_str(doc, "id"@) == Some(env.id@)
    &&& member_u64(doc, "ts"@) == Some(env.ts)
    &&& member_str(doc, "type"@) == Some(env.msg_type@)
    &&& env.payload == (match json_get(doc, "payload"@) {
        Some(p) => p,
        None => JsonValue::Null,
    })
}

/// A well-formed envelope id: 1 to 64 bytes, and a UUID.
pub open spec fn valid_id(id: Seq<char>) -> bool {
    let b = vstd::utf8::encode_utf8(id);
    0 < b.len() <= 64 && uuid_text(b)
}

/// The id echoed when a request's own id is unusable.
pub open spec fn nil_uuid() -> Seq<char> {
    "00000000-0000-0000-0000-000000000000"@
}

impl RequestEnvelope {
    /// Reads a request envelope from a JSON document.
    pub fn from_json(doc: JsonValue) -> (r: Option<RequestEnvelope>)
        ensures
            r is Some <==> request_shape(doc),
            r matches Some(env) ==> request_from(doc, env),
    {
        if !doc.is_object() {
            return None;
        }
        let v = match doc.get("v") {
            Some(x) => match x.as_u64() {
                Some(n) => if n <= 255 { n as u8 } else { return None },
                None => return None,
            },
            None => return None,
        };
        let id = match doc.get("id") {
            Some(x) => match x.as_str() {
                Some(s) => owned(s),
                None => return None,
            },
            None => return None,
        };
        let ts = match doc.get("ts") {
            Some(x) => match x.as_u64() {
                Some(n) => n,
                None => return None,
            },
            None => return None,
        };
        let msg_type = match doc.get("type") {
            Some(x) => match x.as_str() {
                Some(s) => owned(s),
                None => return None,
            },
            None => return None,
        };
        let ghost d = doc;
        let payload = match doc.take("payload") {
            Some(p) => p,
            None => JsonValue::Null,
        };
        Some(RequestEnvelope { v, id, ts, msg_type, payload })
    }
}

/// `resp` is an error response to request `id` with `code` and `message`.
pub open spec fn is_error(resp: ResponseEnvelope, id: Seq<char>, code: ErrorCode, message: Seq<char>) -> bool {
    &&& resp.id@ == id
    &&& !resp.ok
    &&& resp.result is None
    &&& resp.error matches Some(e) && e.code == code && e.message@ == message
}

/// `resp` is a success response to request `id`.
pub open spec fn is_success(resp: ResponseEnvelope, id: Seq<char>) -> bool {
    &&& resp.id@ == id
    &&& resp.ok
    &&& resp.result is Some
    &&& resp.error is None
}

/// Parse and minimally validate a request, given the
/// rumor content's length in bytes and the JSON document it holds (`None`
/// when it is not JSON). Returns the envelope, or the error response to send
/// back (`None`: drop silently).
pub fn parse_request(content_len: usize, doc: Option<JsonValue>) -> (r: Result<
    RequestEnvelope,
    Option<ResponseEnvelope>,
>)
    ensures
        content_len > MAX_CONTENT_LEN ==> r == Err::<RequestEnvelope, Option<ResponseEnvelope>>(None),
        content_len <= MAX_CONTENT_LEN ==> match doc {
            None => r == Err::<RequestEnvelope, Option<ResponseEnvelope>>(None),
            Some(d) => if !request_shape(d) {
                r == Err::<RequestEnvelope, Option<ResponseEnvelope>>(None)
            } else if member_u8(d, "v"@) != Some(PROTOCOL_VERSION) {
                r matches Err(Some(resp)) && is_error(resp, member_str(d, "id"@).unwrap(),
                    ErrorCode::UnsupportedVersion, "unsupported protocol version"@)
            } else if !valid_id(member_str(d, "id"@).unwrap()) {
                r matches Err(Some(resp)) && is_error(resp, nil_uuid(), ErrorCode::InvalidRequest,
                    "id must be a UUID"@)
            } else {
                r matches Ok(env) && request_from(d, env)
            },
        },
{
    if content_len > MAX_CONTENT_LEN {
        return Err(None);  // oversized: no id trusted, drop
    }
    let env = match doc {
        Some(d) => match RequestEnvelope::from_json(d) {
            Some(e) => e,
            None => return Err(None),  // unreadable: nothing to correlate, drop
        },
        None => return Err(None),
    };
    if env.v != PROTOCOL_VERSION {
        return Err(
            Some(
                ResponseEnvelope::err(
                    env.id.as_str(),
                    ErrorCode::UnsupportedVersion,
                    "unsupported protocol version",
                ),
            ),
        );
    }
    let n = env.id.as_str().len();
    if n == 0 || n > 64 || !uuid_parses(env.id.as_str()) {
        return Err(
            Some(
                ResponseEnvelope::err(
                    "00000000-0000-0000-0000-000000000000",
                    ErrorCode::InvalidRequest,
                    "id must be a UUID",
                ),
            ),
        );
    }
    Ok(env)
}

} // verus!
