//! The LAN HTTP UI's content: the pairing payload it shows, the status
//! page, the pairing QR, and revocation of a paired wallet. The app serves
//! these over HTTP; this is the server's one unauthenticated surface, and
//! everything sensitive is gated by the one-time pairing secret in the QR.

use vstd::prelude::*;
use vstd::string::StringExecFns;
use vstd::string::StringSliceAdditionalSpecFns;
use crate::config::{Config, Network};
use crate::encoding::base64url_nopad;
use crate::pairing::{is_live, PairingPayload, SECRET_TTL_SECS};
use crate::router::SharedState;
use crate::store::texts;
use crate::text::{decimal, owned, to_decimal};

verus! {

/// What the LAN UI serves from: the configuration, the server's Nostr
/// pubkey (hex), and the state it shares with the transport and watcher.
pub struct AppState {
    pub config: Config,
    pub server_pubkey: String,
    pub shared: SharedState,
}

/// The payload to show at `now`: the live pairing secret, or a fresh one
/// when there is none, or it expired or was used.
pub fn current_payload(state: &mut AppState, now: u64) -> (r: PairingPayload)
    requires
        now <= u64::MAX - SECRET_TTL_SECS,
    ensures
        is_live(old(state).shared.pairing@, now) ==> final(state).shared.pairing@ == old(state).shared.pairing@,
        !is_live(old(state).shared.pairing@, now) ==> (final(state).shared.pairing@ matches Some(t)
            && t.0.len() == 32 && t.1 == now + SECRET_TTL_SECS && !t.2 && t.3 == 0),
        r.v == 1,
        r.app@ == "nomad-server"@,
        r.node_pubkey@ == old(state).server_pubkey@,
        texts(r.relays@) == texts(old(state).config.relays@),
        final(state).shared.pairing@ matches Some(t) && t.0.len() == 32 && r.pair_secret@ == base64url_nopad(t.0) && r.exp == t.1,
        final(state).server_pubkey == old(state).server_pubkey,
        final(state).config == old(state).config,
        final(state).shared.allowlist@ == old(state).shared.allowlist@,
        final(state).shared.watch@ == old(state).shared.watch@,
{
    state.shared.pairing.payload_at(now, state.server_pubkey.as_str(), state.config.relays.as_slice())
}

/// Revokes a paired wallet from the UI; true if it was paired. The app
/// saves the allowlist afterwards.
pub fn revoke(state: &mut AppState, pubkey_hex: &str) -> (r: bool)
    ensures
        r == old(state).shared.allowlist@.contains(pubkey_hex@),
        final(state).shared.allowlist@ == old(state).shared.allowlist@.remove(pubkey_hex@),
        final(state).shared.pairing@ == old(state).shared.pairing@,
        final(state).shared.watch@ == old(state).shared.watch@,
        final(state).server_pubkey == old(state).server_pubkey,
        final(state).config == old(state).config,
{
    state.shared.allowlist.remove(pubkey_hex)
}

/// How the status page names a network.
pub open spec fn network_label(n: Network) -> Seq<char> {
    match n {
        Network::Bitcoin => "Bitcoin"@,
        Network::Testnet => "Testnet"@,
        Network::Signet => "Signet"@,
        Network::Regtest => "Regtest"@,
    }
}

/// The status page's row for a paired wallet, with its revoke button.
pub open spec fn wallet_row(pk: Seq<char>) -> Seq<char> {
    "<tr><td><code>"@ + pk
        + "</code></td><td><form method='post' action='/revoke' style='display:inline'><input type='hidden' name='pubkey' value='"@
        + pk + "'><button type='submit'>revoke</button></form></td></tr>"@
}

/// The rows of the paired wallets, in order.
pub open spec fn wallet_rows(ws: Seq<Seq<char>>) -> Seq<char>
    decreases ws.len(),
{
    if ws.len() == 0 {
        Seq::empty()
    } else {
        wallet_rows(ws.drop_last()) + wallet_row(ws.last())
    }
}

/// The list items of the relays, in order.
pub open spec fn relay_items(rs: Seq<Seq<char>>) -> Seq<char>
    decreases rs.len(),
{
    if rs.len() == 0 {
        Seq::empty()
    } else {
        relay_items(rs.drop_last()) + "<li><code>"@ + rs.last() + "</code></li>"@
    }
}

/// The status page: the server's pubkey, network and Electrs endpoint,
/// how to pair, the relays, and the paired wallets with revoke buttons.
pub open spec fn status_html(pubkey: Seq<char>, network: Network, electrs: Seq<char>, relays: Seq<Seq<char>>, wallets: Seq<Seq<char>>) -> Seq<char> {
    "<!doctype html><html><head><meta charset='utf-8'><meta name='viewport' content='width=device-width, initial-scale=1'><title>Nomad Server</title><style>body{font-family:system-ui,sans-serif;max-width:44em;margin:2em auto;padding:0 1em}code{word-break:break-all}img{max-width:280px}</style></head><body><h1>Nomad Server</h1><p>Pubkey: <code>"@
        + pubkey + "</code><br>Network: "@ + network_label(network) + " \u{b7} Electrs: <code>"@ + electrs
        + "</code></p><h2>Pair a wallet</h2><p>Scan with the Nomad wallet (valid for one pairing, 10 minutes):</p><p><img src='/qr' alt='pairing QR'></p><p><a href='/pairing'>pairing JSON</a> (manual fallback \u{2014} treat it like a password)</p><h2>Relays</h2><ul>"@
        + relay_items(relays) + "</ul><h2>Paired wallets ("@ + decimal(wallets.len()) + ")</h2><table>"@
        + wallet_rows(wallets) + "</table></body></html>"@
}

/// Renders the status page; the wallets are listed in ascending order.
pub fn status_page(state: &AppState) -> (r: String)
    ensures
        exists|ws: Seq<Seq<char>>| #![trigger wallet_rows(ws)]
            ws.to_set() == state.shared.allowlist@
            && (forall|i: int, j: int| 0 <= i < j < ws.len() ==> crate::keyed::seq_lt(#[trigger] ws[i], #[trigger] ws[j]))
            && r@ == status_html(state.server_pubkey@, state.config.network, state.config.electrs_addr@,
                texts(state.config.relays@), ws),
{
    let wallets = state.shared.allowlist.list();
    let ghost ws = texts(wallets@);
    let mut page = owned("<!doctype html><html><head><meta charset='utf-8'><meta name='viewport' content='width=device-width, initial-scale=1'><title>Nomad Server</title><style>body{font-family:system-ui,sans-serif;max-width:44em;margin:2em auto;padding:0 1em}code{word-break:break-all}img{max-width:280px}</style></head><body><h1>Nomad Server</h1><p>Pubkey: <code>");
    page.append(state.server_pubkey.as_str());
    page.append("</code><br>Network: ");
    let label = match state.config.network {
        Network::Bitcoin => "Bitcoin",
        Network::Testnet => "Testnet",
        Network::Signet => "Signet",
        Network::Regtest => "Regtest",
    };
    page.append(label);
    page.append(" \u{b7} Electrs: <code>");
    page.append(state.config.electrs_addr.as_str());
    page.append("</code></p><h2>Pair a wallet</h2><p>Scan with the Nomad wallet (valid for one pairing, 10 minutes):</p><p><img src='/qr' alt='pairing QR'></p><p><a href='/pairing'>pairing JSON</a> (manual fallback \u{2014} treat it like a password)</p><h2>Relays</h2><ul>");
    let ghost head = page@;
    let relays = &state.config.relays;
    let mut i: usize = 0;
    while i < relays.len()
        invariant
            i <= relays@.len(),
            page@ == head + relay_items(texts(relays@.take(i as int))),
        decreases relays@.len() - i,
    {
        assert(texts(relays@.take(i + 1)).drop_last() =~= texts(relays@.take(i as int)));
        page.append("<li><code>");
        page.append(relays[i].as_str());
        page.append("</code></li>");
        assert(page@ =~= head + relay_items(texts(relays@.take(i + 1))));
        i = i + 1;
    }
    assert(relays@.take(relays@.len() as int) =~= relays@);
    page.append("</ul><h2>Paired wallets (");
    let count = to_decimal(wallets.len() as u64);
    page.append(count.as_str());
    page.append(")</h2><table>");
    let ghost mid = page@;
    let mut k: usize = 0;
    while k < wallets.len()
        invariant
            k <= wallets@.len(),
            page@ == mid + wallet_rows(texts(wallets@.take(k as int))),
        decreases wallets@.len() - k,
    {
        assert(texts(wallets@.take(k + 1)).drop_last() =~= texts(wallets@.take(k as int)));
        page.append("<tr><td><code>");
        page.append(wallets[k].as_str());
        page.append("</code></td><td><form method='post' action='/revoke' style='display:inline'><input type='hidden' name='pubkey' value='");
        page.append(wallets[k].as_str());
        page.append("'><button type='submit'>revoke</button></form></td></tr>");
        assert(page@ =~= mid + wallet_rows(texts(wallets@.take(k + 1))));
        k = k + 1;
    }
    assert(wallets@.take(wallets@.len() as int) =~= wallets@);
    page.append("</table></body></html>");
    assert(ws.len() == wallets@.len());
    assert(page@ =~= status_html(state.server_pubkey@, state.config.network, state.config.electrs_addr@,
        texts(state.config.relays@), ws));
    page
}

/// The smallest width and height of the pairing QR, in pixels.
pub const QR_MIN_SIZE: u32 = 280;

/// The SVG that `qrcode` renders (dark modules on light, at least
/// `min_size` pixels wide and high) for `data`, when the data fits in a QR
/// code.
pub uninterp spec fn qr_svg(data: Seq<u8>, min_size: u32) -> Option<Seq<char>>;

/// Encodes `data` as a QR code (`QrCode::new`) and renders it as an SVG of
/// at least `min_size` by `min_size` (`Renderer::min_dimensions`, `build`);
/// `None` when the data does not fit in a QR code.
#[verifier::external_body]
fn render_qr(data: &[u8], min_size: u32) -> (r: Option<String>)
    ensures
        r matches Some(s) ==> qr_svg(data@, min_size) == Some(s@),
        r is None ==> qr_svg(data@, min_size) is None,
{
    match qrcode::QrCode::new(data) {
        Ok(code) => Some(code.render::<qrcode::render::svg::Color>().min_dimensions(min_size, min_size).build()),
        Err(_) => None,
    }
}

/// The pairing QR as an SVG for the payload's JSON text, or the HTTP status
/// 500 when it does not fit in a QR code.
pub fn pairing_qr(payload_json: &str) -> (r: Result<String, u16>)
    ensures
        r matches Ok(s) ==> qr_svg(payload_json.spec_bytes(), QR_MIN_SIZE) == Some(s@),
        r is Err ==> qr_svg(payload_json.spec_bytes(), QR_MIN_SIZE) is None && r == Err::<String, u16>(500u16),
{
    match render_qr(payload_json.as_bytes(), QR_MIN_SIZE) {
        Some(svg) => Ok(svg),
        None => Err(500),
    }
}

} // verus!
