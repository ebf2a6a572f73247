//! Text encodings the protocol relies on: hex (the `hex` crate), UUID
//! syntax (the `uuid` crate) and unpadded URL-safe base64 (the `base64`
//! crate).

use vstd::prelude::*;
use base64::Engine as _;
use vstd::string::StringSliceAdditionalSpecFns;

verus! {

/// An ASCII hex digit, either case.
pub open spec fn is_hex_digit(b: u8) -> bool {
    (48 <= b && b <= 57) || (65 <= b && b <= 70) || (97 <= b && b <= 102)
}

/// The value of an ASCII hex digit.
pub open spec fn hex_value(b: u8) -> int {
    if 48 <= b && b <= 57 {
        b - 48
    } else if 65 <= b && b <= 70 {
        b - 55
    } else {
        b - 87
    }
}

/// Every byte is a hex digit.
pub open spec fn all_hex(s: Seq<u8>) -> bool {
    forall|i: int| 0 <= i < s.len() ==> #[trigger] is_hex_digit(s[i])
}

/// The bytes a hex text stands for: `None` for an odd length or a byte that
/// is not a hex digit.
pub open spec fn hex_decoded(s: Seq<u8>) -> Option<Seq<u8>> {
    if s.len() % 2 == 0 && all_hex(s) {
        Some(Seq::new(s.len() / 2, |i: int| (hex_value(s[2 * i]) * 16 + hex_value(s[2 * i + 1])) as u8))
    } else {
        None
    }
}

/// The lower-case hex digit for a value below sixteen.
pub open spec fn nibble_char(n: int) -> char {
    if n < 10 {
        ((48 + n) as u32) as char
    } else {
        ((87 + n) as u32) as char
    }
}

/// Lower-case hex text of some bytes, two digits per byte.
pub open spec fn hex_lower(b: Seq<u8>) -> Seq<char> {
    Seq::new(
        2 * b.len(),
        |i: int|
            if i % 2 == 0 {
                nibble_char((b[i / 2] / 16) as int)
            } else {
                nibble_char((b[i / 2] % 16) as int)
            },
    )
}

/// `hex::decode`: accepts upper- and lower-case digits, fails on an odd
/// length or any byte that is not a hex digit; each pair of digits gives
/// one byte, high nibble first.
#[verifier::external_body]
pub fn hex_decode(s: &str) -> (r: Option<Vec<u8>>)
    ensures
        r matches Some(v) ==> hex_decoded(s.spec_bytes()) == Some(v@),
        r is None ==> hex_decoded(s.spec_bytes()) is None,
{
    hex::decode(s).ok()
}

/// `hex::encode`: lower-case hex, two digits per byte.
#[verifier::external_body]
pub fn hex_encode(b: &[u8]) -> (r: String)
    ensures
        r@ == hex_lower(b@),
{
    hex::encode(b)
}

/// An ASCII byte lower-cased.
pub open spec fn ascii_lower_byte(b: u8) -> u8 {
    if 65 <= b && b <= 90 {
        (b + 32) as u8
    } else {
        b
    }
}

/// The hyphenated UUID form: 36 bytes, hyphens at 8, 13, 18 and 23, hex
/// digits elsewhere.
pub open spec fn uuid_hyphenated(s: Seq<u8>) -> bool {
    &&& s.len() == 36
    &&& forall|i: int|
        0 <= i < 36 ==> if i == 8 || i == 13 || i == 18 || i == 23 {
            s[i] == 45
        } else {
            is_hex_digit(#[trigger] s[i])
        }
}

/// The UUID texts `uuid::Uuid::parse_str` accepts: 32 hex digits; the
/// hyphenated form; the hyphenated form in braces; or `urn:uuid:` (any
/// ASCII case) followed by the hyphenated form.
pub open spec fn uuid_text(s: Seq<u8>) -> bool {
    ||| s.len() == 32 && all_hex(s)
    ||| uuid_hyphenated(s)
    ||| s.len() == 38 && s[0] == 123 && s[37] == 125 && uuid_hyphenated(s.subrange(1, 37))
    ||| s.len() == 45 && s.take(9).map_values(|b: u8| ascii_lower_byte(b)) == "urn:uuid:"@.map_values(|c: char| c as u8)
        && uuid_hyphenated(s.skip(9))
}

/// `uuid::Uuid::parse_str` succeeds exactly on the UUID texts above.
#[verifier::external_body]
pub fn uuid_parses(s: &str) -> (r: bool)
    ensures
        r == uuid_text(s.spec_bytes()),
{
    uuid::Uuid::parse_str(s).is_ok()
}

/// The digit of the URL-safe base64 alphabet for a value below 64:
/// `A`-`Z`, `a`-`z`, `0`-`9`, `-`, `_`.
pub open spec fn base64url_digit(n: int) -> char {
    if n < 26 {
        ((65 + n) as u32) as char
    } else if n < 52 {
        ((71 + n) as u32) as char
    } else if n < 62 {
        ((n - 4) as u32) as char
    } else if n == 62 {
        '-'
    } else {
        '_'
    }
}

/// Unpadded URL-safe base64: each group of three bytes gives four digits,
/// six bits each, most significant first; a final group of one or two
/// bytes gives two or three digits, the missing bits read as zero.
pub open spec fn base64url_nopad(b: Seq<u8>) -> Seq<char>
    decreases b.len(),
{
    if b.len() == 0 {
        Seq::empty()
    } else {
        let x = b[0] as int;
        let y = if b.len() > 1 { b[1] as int } else { 0 };
        let z = if b.len() > 2 { b[2] as int } else { 0 };
        let d0 = base64url_digit(x / 4);
        let d1 = base64url_digit((x % 4) * 16 + y / 16);
        let d2 = base64url_digit((y % 16) * 4 + z / 64);
        let d3 = base64url_digit(z % 64);
        if b.len() == 1 {
            seq![d0, d1]
        } else if b.len() == 2 {
            seq![d0, d1, d2]
        } else {
            seq![d0, d1, d2, d3] + base64url_nopad(b.skip(3))
        }
    }
}

/// `URL_SAFE_NO_PAD.encode` of the `base64` crate: unpadded URL-safe
/// base64.
#[verifier::external_body]
pub fn base64url_encode(bytes: &[u8]) -> (r: String)
    ensures
        r@ == base64url_nopad(bytes@),
{
    base64::engine::general_purpose::URL_SAFE_NO_PAD.encode(bytes)
}

} // verus!
