//! Bitcoin data the protocol validates, through the `bitcoin` crate:
//! addresses (checked against the node's network), txids and raw
//! transactions.

use vstd::prelude::*;
use vstd::string::StringSliceAdditionalSpecFns;
use crate::config::Network;
use crate::encoding::{hex_decoded, hex_lower};
use std::str::FromStr;
use bitcoin::consensus::Decodable;

verus! {

/// The scriptPubKey of address `s` when `bitcoin::Address` parses it and it
/// is valid for `network`; `None` otherwise.
pub uninterp spec fn address_script(s: Seq<char>, network: Network) -> Option<Seq<u8>>;

/// Parses an address, requires it to belong to `network`, and returns its
/// scriptPubKey bytes (`Address::from_str`, `require_network`,
/// `script_pubkey`).
#[verifier::external_body]
pub fn parse_address(s: &str, network: Network) -> (r: Option<Vec<u8>>)
    ensures
        r matches Some(v) ==> address_script(s@, network) == Some(v@),
        r is None ==> address_script(s@, network) is None,
{
    let net = match network {
        Network::Bitcoin => bitcoin::Network::Bitcoin,
        Network::Testnet => bitcoin::Network::Testnet,
        Network::Signet => bitcoin::Network::Signet,
        Network::Regtest => bitcoin::Network::Regtest,
    };
    bitcoin::Address::from_str(s).ok()
        .and_then(|a| a.require_network(net).ok())
        .map(|a| a.script_pubkey().into_bytes())
}

/// The txid a hex text names: exactly 64 hex digits (either case), read in
/// display order, so the internal bytes are the decoded bytes reversed.
pub open spec fn txid_text(s: Seq<u8>) -> Option<Seq<u8>> {
    if s.len() == 64 {
        match hex_decoded(s) {
            Some(b) => Some(b.reverse()),
            None => None,
        }
    } else {
        None
    }
}

/// `Txid::from_str`: the internal bytes of the txid `s` names.
#[verifier::external_body]
pub fn parse_txid(s: &str) -> (r: Option<[u8; 32]>)
    ensures
        r matches Some(b) ==> txid_text(s.spec_bytes()) == Some(b@),
        r is None ==> txid_text(s.spec_bytes()) is None,
{
    bitcoin::Txid::from_str(s).ok().map(|t| <bitcoin::Txid as bitcoin::hashes::Hash>::to_byte_array(t))
}

/// How a txid or block hash is displayed: lower-case hex of its bytes in
/// reverse order.
pub open spec fn hash_display(b: Seq<u8>) -> Seq<char> {
    hex_lower(b.reverse())
}

/// `Txid::to_string` for a txid's internal bytes.
#[verifier::external_body]
pub fn txid_display(b: &[u8; 32]) -> (r: String)
    ensures
        r@ == hash_display(b@),
{
    <bitcoin::Txid as bitcoin::hashes::Hash>::from_byte_array(*b).to_string()
}

/// The txid of the transaction at the start of `raw` when
/// `Transaction::consensus_decode` reads one there; `None` when it does not.
pub uninterp spec fn consensus_txid(raw: Seq<u8>) -> Option<Seq<u8>>;

/// Consensus-decodes a transaction from raw bytes and computes its txid.
#[verifier::external_body]
pub fn txid_of(raw: &[u8]) -> (r: Option<[u8; 32]>)
    ensures
        r matches Some(t) ==> consensus_txid(raw@) == Some(t@),
        r is None ==> consensus_txid(raw@) is None,
{
    bitcoin::Transaction::consensus_decode(&mut &raw[..])
        .ok()
        .map(|tx| <bitcoin::Txid as bitcoin::hashes::Hash>::to_byte_array(tx.compute_txid()))
}

/// `BlockHash::to_string` for a block hash's internal bytes.
#[verifier::external_body]
pub fn block_hash_display(b: &[u8; 32]) -> (r: String)
    ensures
        r@ == hash_display(b@),
{
    <bitcoin::BlockHash as bitcoin::hashes::Hash>::from_byte_array(*b).to_string()
}

/// The scriptPubKeys of the outputs, in order, of the transaction at the
/// start of `raw` when `Transaction::consensus_decode` reads one there;
/// `None` when it does not.
pub uninterp spec fn consensus_output_scripts(raw: Seq<u8>) -> Option<Seq<Seq<u8>>>;

/// Consensus-decodes a transaction from raw bytes and gives its outputs'
/// scriptPubKey bytes, in order.
#[verifier::external_body]
pub fn tx_output_scripts(raw: &[u8]) -> (r: Option<Vec<Vec<u8>>>)
    ensures
        r matches Some(v) ==> consensus_output_scripts(raw@) == Some(v@.map_values(|s: Vec<u8>| s@)),
        r is None ==> consensus_output_scripts(raw@) is None,
{
    bitcoin::Transaction::consensus_decode(&mut &raw[..])
        .ok()
        .map(|tx| tx.output.into_iter().map(|o| o.script_pubkey.into_bytes()).collect())
}

} // verus!
