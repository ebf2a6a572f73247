//! The server's Nostr identity as stored in its key file: the secret key's
//! bytes as lower-case hex. Reading the file back accepts surrounding
//! white space and whatever `nostr` reads as a secret key (hex or `nsec`).

use vstd::prelude::*;
use crate::config::{string_of, trim, trimmed};
use crate::encoding::{hex_encode, hex_lower};
use crate::text::chars_of;

verus! {

/// The secret key that `nostr`'s `SecretKey::parse` reads from a text
/// (hex, or a bech32 `nsec`); `None` when it reads none.
pub uninterp spec fn secret_key_text(text: Seq<char>) -> Option<Seq<u8>>;

/// `SecretKey::parse` of the `nostr` crate, giving the key's 32 bytes.
#[verifier::external_body]
fn parse_secret_key(text: &str) -> (r: Option<[u8; 32]>)
    ensures
        r matches Some(k) ==> secret_key_text(text@) == Some(k@),
        r is None ==> secret_key_text(text@) is None,
{
    nostr::key::SecretKey::parse(text).ok().map(|k| k.to_secret_bytes())
}

/// The key file's text for a secret key.
pub fn key_file_text(secret: &[u8; 32]) -> (r: String)
    ensures
        r@ == hex_lower(secret@),
{
    hex_encode(secret)
}

/// The secret key a key file holds: its text without surrounding white
/// space, read as a secret key; `None` when the file is corrupt.
pub fn stored_identity(content: &str) -> (r: Option<[u8; 32]>)
    ensures
        r matches Some(k) ==> secret_key_text(trimmed(content@)) == Some(k@),
        r is None ==> secret_key_text(trimmed(content@)) is None,
{
    let cs = chars_of(content);
    let t = trim(&cs);
    let text = string_of(&t);
    parse_secret_key(text.as_str())
}

} // verus!
