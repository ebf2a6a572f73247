//! Pairing secret lifecycle and proof verification.
//!
//! The secret is the one-time authorization inside the pairing QR. It lives
//! only in memory, is valid for one successful pairing or 10 minutes, and
//! is burned after 5 failed attempts. Verification is HMAC-SHA-256 with a
//! constant-time comparison.

use vstd::prelude::*;
use vstd::string::StringSliceAdditionalSpecFns;
use crate::encoding::{base64url_encode, base64url_nopad, hex_decode, hex_decoded};
use crate::store::{clone_strings, texts};
use crate::text::owned;
use hmac::Mac;
use subtle::ConstantTimeEq;
use rand::RngCore;

verus! {

pub const SECRET_TTL_SECS: u64 = 600;
pub const MAX_ATTEMPTS: u8 = 5;

/// What `Hmac<Sha256>` (crates `hmac` and `sha2`) computes for a key and a
/// message.
pub uninterp spec fn hmac_sha256(key: Seq<u8>, msg: Seq<u8>) -> Seq<u8>;

/// HMAC-SHA-256 of `msg` under `key`. `new_from_slice` accepts keys of any
/// length, so it cannot fail; the tag is the 32-byte SHA-256 output size.
#[verifier::external_body]
fn hmac_sha256_tag(key: &[u8], msg: &[u8]) -> (r: Vec<u8>)
    ensures
        r@ == hmac_sha256(key@, msg@),
        r@.len() == 32,
{
    let mut mac = <hmac::Hmac<sha2::Sha256> as Mac>::new_from_slice(key).expect("any key length");
    mac.update(msg);
    mac.finalize().into_bytes().to_vec()
}

/// `subtle`'s constant-time slice comparison: true exactly when the slices
/// have the same length and the same bytes.
#[verifier::external_body]
fn ct_equal(a: &[u8], b: &[u8]) -> (r: bool)
    ensures
        r == (a@ == b@),
{
    a.ct_eq(b).into()
}

/// Seconds since the Unix epoch by the system clock (`SystemTime::now`), 0
/// if the clock reads earlier. Nothing is stated of the reading.
#[verifier::external_body]
pub fn now_secs() -> (r: u64) {
    std::time::SystemTime::now()
        .duration_since(std::time::UNIX_EPOCH)
        .unwrap_or_default()
        .as_secs()
}

/// 32 bytes from the thread-local CSPRNG of the `rand` crate. Nothing is
/// stated of the bytes themselves.
#[verifier::external_body]
fn random_secret() -> (r: [u8; 32]) {
    let mut secret = [0u8; 32];
    rand::rng().fill_bytes(&mut secret);
    secret
}

/// The pairing payload shown in the QR.
#[derive(Debug)]
pub struct PairingPayload {
    pub v: u8,
    pub app: String,
    pub node_pubkey: String,
    pub relays: Vec<String>,
    pub pair_secret: String,
    pub exp: u64,
}

struct SecretState {
    secret: [u8; 32],
    expires_at: u64,
    used: bool,
    attempts: u8,
}

/// The pairing state: `None`, or the secret with its expiry, whether it
/// was used, and how many attempts failed.
pub type SecretView = Option<(Seq<u8>, u64, bool, u8)>;

/// A secret that can still pair at `now`.
pub open spec fn is_live(s: SecretView, now: u64) -> bool {
    s matches Some(t) && !t.2 && t.1 > now
}

/// A secret that still accepts attempts at `now`.
pub open spec fn accepts_attempts(s: SecretView, now: u64) -> bool {
    s matches Some(t) && !t.2 && t.1 > now && t.3 < MAX_ATTEMPTS
}

/// The state after an attempt on a secret that accepts attempts: a correct
/// proof burns it by use; a wrong one counts, and the fifth removes it.
pub open spec fn after_attempt(s: SecretView, ok: bool) -> SecretView {
    let t = s.unwrap();
    if ok {
        Some((t.0, t.1, true, t.3))
    } else if t.3 + 1 >= MAX_ATTEMPTS {
        None
    } else {
        Some((t.0, t.1, t.2, (t.3 + 1) as u8))
    }
}

/// `proof_hex` is the hex form of `tag`.
pub open spec fn proof_matches(proof_hex: Seq<char>, tag: Seq<u8>) -> bool {
    hex_decoded(vstd::utf8::encode_utf8(proof_hex)) == Some(tag)
}

/// The pairing proof for a wallet: HMAC-SHA-256 keyed by the secret over the
/// wallet pubkey's hex text.
pub open spec fn expected_tag(secret: Seq<u8>, wallet_pubkey_hex: Seq<char>) -> Seq<u8> {
    hmac_sha256(secret, vstd::utf8::encode_utf8(wallet_pubkey_hex))
}

pub struct PairingManager {
    state: Option<SecretState>,
}

impl View for PairingManager {
    type V = SecretView;

    closed spec fn view(&self) -> SecretView {
        match self.state {
            Some(s) => Some((s.secret@, s.expires_at, s.used, s.attempts)),
            None => None,
        }
    }
}

impl PairingManager {
    #[verifier::type_invariant]
    spec fn inv(self) -> bool {
        self.state matches Some(s) ==> s.attempts < MAX_ATTEMPTS
    }

    /// No secret yet.
    pub fn new() -> (r: PairingManager)
        ensures
            r@ is None,
    {
        PairingManager { state: None }
    }

    /// The payload to display: re-shows the live secret, or replaces an
    /// absent, expired or used one by `fresh` (valid `SECRET_TTL_SECS`).
    pub fn payload_with(&mut self, now: u64, node_pubkey: &str, relays: &[String], fresh: [u8; 32]) -> (r: PairingPayload)
        requires
            now <= u64::MAX - SECRET_TTL_SECS,
        ensures
            is_live(old(self)@, now) ==> final(self)@ == old(self)@,
            !is_live(old(self)@, now) ==> final(self)@ == Some((fresh@, (now + SECRET_TTL_SECS) as u64, false, 0u8)),
            r.v == 1,
            r.app@ == "nomad-server"@,
            r.node_pubkey@ == node_pubkey@,
            texts(r.relays@) == texts(relays@),
            final(self)@ matches Some(t) && t.0.len() == 32 && r.pair_secret@ == base64url_nopad(t.0) && r.exp == t.1,
    {
        proof {
            use_type_invariant(&*self);
        }
        let live = match &self.state {
            Some(s) => if !s.used && s.expires_at > now { Some((s.secret, s.expires_at)) } else { None },
            None => None,
        };
        let (secret, exp) = match live {
            Some(p) => p,
            None => {
                let exp = now + SECRET_TTL_SECS;
                self.state = Some(SecretState { secret: fresh, expires_at: exp, used: false, attempts: 0 });
                (fresh, exp)
            },
        };
        let pair_secret = base64url_encode(&secret);
        PairingPayload {
            v: 1,
            app: owned("nomad-server"),
            node_pubkey: owned(node_pubkey),
            relays: clone_strings(relays),
            pair_secret,
            exp,
        }
    }

    /// The payload to display in the QR / serve at /pairing. Generates a
    /// fresh secret if there is none, or the current one expired or was
    /// used; otherwise re-shows the live one (the UI polls).
    pub fn payload_at(&mut self, now: u64, node_pubkey: &str, relays: &[String]) -> (r: PairingPayload)
        requires
            now <= u64::MAX - SECRET_TTL_SECS,
        ensures
            is_live(old(self)@, now) ==> final(self)@ == old(self)@,
            !is_live(old(self)@, now) ==> (final(self)@ matches Some(t) && t.0.len() == 32
                && t.1 == now + SECRET_TTL_SECS && !t.2 && t.3 == 0),
            r.v == 1,
            r.app@ == "nomad-server"@,
            r.node_pubkey@ == node_pubkey@,
            texts(r.relays@) == texts(relays@),
            final(self)@ matches Some(t) && t.0.len() == 32 && r.pair_secret@ == base64url_nopad(t.0) && r.exp == t.1,
    {
        let fresh = random_secret();
        self.payload_with(now, node_pubkey, relays, fresh)
    }

    /// Settles a pairing attempt against the expected proof tag: true
    /// exactly when the secret still accepts attempts, `proof_hex` is the
    /// hex form of `tag`, and the sender may still pair (`eligible`); any
    /// other attempt on a secret that accepts attempts counts as a failure.
    pub fn verify_with_tag(&mut self, now: u64, tag: &[u8], proof_hex: &str, eligible: bool) -> (r: bool)
        ensures
            !accepts_attempts(old(self)@, now) ==> !r && final(self)@ == old(self)@,
            accepts_attempts(old(self)@, now) ==> r == (eligible && proof_matches(proof_hex@, tag@))
                && final(self)@ == after_attempt(old(self)@, r),
    {
        proof {
            use_type_invariant(&*self);
        }
        let accepting = match &self.state {
            Some(s) => !s.used && s.expires_at > now && s.attempts < MAX_ATTEMPTS,
            None => false,
        };
        if !accepting {
            return false;
        }
        let matches = match hex_decode(proof_hex) {
            Some(proof) => ct_equal(proof.as_slice(), tag),
            None => false,
        };
        let ok = eligible && matches;
        let mut st = None;
        std::mem::swap(&mut st, &mut self.state);
        match st {
            Some(s) => {
                if ok {
                    self.state = Some(SecretState { used: true, ..s });
                } else if s.attempts + 1 >= MAX_ATTEMPTS {
                    self.state = None;
                } else {
                    self.state = Some(SecretState { attempts: s.attempts + 1, ..s });
                }
            },
            None => {},
        }
        ok
    }

    /// Verifies a wallet's pairing proof. Returns true exactly once per
    /// secret: on success the secret is burned. Failures count toward
    /// `MAX_ATTEMPTS`, after which the secret is burned and the user must
    /// reload the QR. Gives no indication of which check failed.
    pub fn verify_at(&mut self, now: u64, wallet_pubkey_hex: &str, proof_hex: &str) -> (r: bool)
        ensures
            !accepts_attempts(old(self)@, now) ==> !r && final(self)@ == old(self)@,
            accepts_attempts(old(self)@, now) ==> r == proof_matches(
                proof_hex@,
                expected_tag(old(self)@.unwrap().0, wallet_pubkey_hex@),
            ) && final(self)@ == after_attempt(old(self)@, r),
            accepts_attempts(old(self)@, now) ==> expected_tag(old(self)@.unwrap().0, wallet_pubkey_hex@).len() == 32,
    {
        self.verify_for(now, wallet_pubkey_hex, proof_hex, true)
    }

    /// Settles a pairing attempt in the order of the checks: the secret
    /// exists, is unexpired, unused and not burned; the proof is the HMAC of
    /// the wallet's pubkey; the wallet may still pair (`eligible`: not
    /// already allowlisted). True exactly when all pass, which burns the
    /// secret by use; a failure after the first check counts toward
    /// `MAX_ATTEMPTS`.
    pub fn verify_for(&mut self, now: u64, wallet_pubkey_hex: &str, proof_hex: &str, eligible: bool) -> (r: bool)
        ensures
            !accepts_attempts(old(self)@, now) ==> !r && final(self)@ == old(self)@,
            accepts_attempts(old(self)@, now) ==> r == (eligible && proof_matches(
                proof_hex@,
                expected_tag(old(self)@.unwrap().0, wallet_pubkey_hex@),
            )) && final(self)@ == after_attempt(old(self)@, r),
            accepts_attempts(old(self)@, now) ==> expected_tag(old(self)@.unwrap().0, wallet_pubkey_hex@).len() == 32,
    {
        proof {
            use_type_invariant(&*self);
        }
        let tag = match &self.state {
            Some(s) => {
                if s.used || s.expires_at <= now || s.attempts >= MAX_ATTEMPTS {
                    return false;
                }
                hmac_sha256_tag(&s.secret, wallet_pubkey_hex.as_bytes())
            },
            None => return false,
        };
        self.verify_with_tag(now, tag.as_slice(), proof_hex, eligible)
    }
}

} // verus!
