//! Server configuration values.

use vstd::prelude::*;
use crate::text::{ascii_lower, chars_of, owned, push_char, to_ascii_lower};

verus! {

/// The Bitcoin network the node runs on.
#[derive(Debug, Clone, Copy, PartialEq, Eq, Structural)]
pub enum Network {
    Bitcoin,
    Testnet,
    Signet,
    Regtest,
}

/// The network a lower-cased name selects.
pub open spec fn network_named(lower: Seq<char>) -> Option<Network> {
    if lower == "bitcoin"@ || lower == "mainnet"@ {
        Some(Network::Bitcoin)
    } else if lower == "testnet"@ {
        Some(Network::Testnet)
    } else if lower == "signet"@ {
        Some(Network::Signet)
    } else if lower == "regtest"@ {
        Some(Network::Regtest)
    } else {
        None
    }
}

impl Network {
    /// Parses a network name, ignoring ASCII case.
    pub fn parse(s: &str) -> (r: Result<Network, String>)
        ensures
            network_named(ascii_lower(s@)) matches Some(n) ==> r == Ok::<Network, String>(n),
            network_named(ascii_lower(s@)) is None ==> (r matches Err(e) && e@ == ascii_lower(s@)),
    {
        let lower = to_ascii_lower(s);
        if lower == <String as vstd::string::StringExecFns>::from_str("bitcoin") || lower == <String as vstd::string::StringExecFns>::from_str("mainnet") {
            Ok(Network::Bitcoin)
        } else if lower == <String as vstd::string::StringExecFns>::from_str("testnet") {
            Ok(Network::Testnet)
        } else if lower == <String as vstd::string::StringExecFns>::from_str("signet") {
            Ok(Network::Signet)
        } else if lower == <String as vstd::string::StringExecFns>::from_str("regtest") {
            Ok(Network::Regtest)
        } else {
            Err(lower)
        }
    }
}

/// Default public relays when no relay list is configured. The wallet
/// adopts the server's relay set at pairing time, so both sides agree.
pub open spec fn default_relays() -> Seq<Seq<char>> {
    seq![
        "wss://relay.damus.io"@,
        "wss://nos.lol"@,
        "wss://relay.nostr.band"@,
        "wss://nostr.wine"@,
        "wss://relay.snort.social"@,
    ]
}

pub const DEFAULT_HTTP_PORT: u16 = 3829;

/// The Electrs endpoint used when none is configured.
pub open spec fn default_electrs_addr() -> Seq<char> {
    "electrs:50001"@
}

/// The data directory used when none is configured.
pub open spec fn default_data_dir() -> Seq<char> {
    "./data"@
}

/// Server configuration.
#[derive(Debug)]
pub struct Config {
    /// Persistent data dir (keys, allowlist, watch sets).
    pub data_dir: String,
    /// Electrum protocol endpoint of the local Electrs, host:port (TCP).
    pub electrs_addr: String,
    /// Nostr relays both sides will use.
    pub relays: Vec<String>,
    /// LAN HTTP UI port.
    pub http_port: u16,
    /// Bitcoin network the node is on; addresses are validated against it.
    pub network: Network,
}

/// Unicode `White_Space`, as `char::is_whitespace` tests it.
pub open spec fn is_space(c: char) -> bool {
    let u = c as u32;
    ||| 0x09 <= u <= 0x0d
    ||| u == 0x20
    ||| u == 0x85
    ||| u == 0xa0
    ||| u == 0x1680
    ||| 0x2000 <= u <= 0x200a
    ||| u == 0x2028
    ||| u == 0x2029
    ||| u == 0x202f
    ||| u == 0x205f
    ||| u == 0x3000
}

/// `s` with leading and trailing white space removed.
pub open spec fn trimmed(s: Seq<char>) -> Seq<char>
    decreases s.len(),
{
    if s.len() > 0 && is_space(s[0]) {
        trimmed(s.drop_first())
    } else if s.len() > 0 && is_space(s.last()) {
        trimmed(s.drop_last())
    } else {
        s
    }
}

/// The pieces of `s` between commas, in order (`split(',')`).
pub open spec fn comma_pieces(s: Seq<char>) -> Seq<Seq<char>>
    decreases s.len(),
{
    if s.len() == 0 {
        seq![seq![]]
    } else {
        let rest = comma_pieces(s.drop_last());
        if s.last() == ',' {
            rest.push(seq![])
        } else {
            rest.update(rest.len() - 1, rest.last().push(s.last()))
        }
    }
}

/// The relay list a comma-separated setting names: each piece trimmed,
/// empty pieces dropped.
pub open spec fn relay_list(pieces: Seq<Seq<char>>) -> Seq<Seq<char>>
    decreases pieces.len(),
{
    if pieces.len() == 0 {
        seq![]
    } else {
        let rest = relay_list(pieces.drop_last());
        let t = trimmed(pieces.last());
        if t.len() == 0 {
            rest
        } else {
            rest.push(t)
        }
    }
}

proof fn lemma_comma_pieces_nonempty(s: Seq<char>)
    ensures
        comma_pieces(s).len() >= 1,
    decreases s.len(),
{
    if s.len() > 0 {
        lemma_comma_pieces_nonempty(s.drop_last());
    }
}

/// Removes leading and trailing white space.
pub fn trim(s: &Vec<char>) -> (r: Vec<char>)
    ensures
        r@ == trimmed(s@),
{
    let mut lo: usize = 0;
    let mut hi: usize = s.len();
    assert(s@.subrange(0, s@.len() as int) =~= s@);
    while lo < hi && is_space_char(s[lo])
        invariant
            lo <= hi <= s@.len(),
            hi == s@.len(),
            trimmed(s@) == trimmed(s@.subrange(lo as int, hi as int)),
        decreases hi - lo,
    {
        assert(s@.subrange(lo as int, hi as int).drop_first() =~= s@.subrange(lo + 1, hi as int));
        lo = lo + 1;
    }
    while lo < hi && is_space_char(s[hi - 1])
        invariant
            lo <= hi <= s@.len(),
            trimmed(s@) == trimmed(s@.subrange(lo as int, hi as int)),
            lo < hi ==> !is_space(s@[lo as int]),
        decreases hi - lo,
    {
        let ghost cur = s@.subrange(lo as int, hi as int);
        assert(cur.drop_last() =~= s@.subrange(lo as int, hi - 1));
        assert(cur[0] == s@[lo as int]);
        hi = hi - 1;
    }
    let ghost fin = s@.subrange(lo as int, hi as int);
    assert(fin.len() > 0 ==> fin[0] == s@[lo as int] && fin.last() == s@[hi - 1]);
    let mut r: Vec<char> = Vec::new();
    let mut i: usize = lo;
    while i < hi
        invariant
            lo <= i <= hi <= s@.len(),
            r@ == s@.subrange(lo as int, i as int),
        decreases hi - i,
    {
        r.push(s[i]);
        i = i + 1;
        assert(r@ =~= s@.subrange(lo as int, i as int));
    }
    r
}

/// Whether `c` is Unicode white space.
pub fn is_space_char(c: char) -> (r: bool)
    ensures
        r == is_space(c),
{
    let u = c as u32;
    (0x09 <= u && u <= 0x0d) || u == 0x20 || u == 0x85 || u == 0xa0 || u == 0x1680 || (0x2000
        <= u && u <= 0x200a) || u == 0x2028 || u == 0x2029 || u == 0x202f || u == 0x205f || u
        == 0x3000
}

pub(crate) fn string_of(v: &Vec<char>) -> (r: String)
    ensures
        r@ == v@,
{
    let mut r = String::new();
    let mut i: usize = 0;
    while i < v.len()
        invariant
            i <= v@.len(),
            r@ == v@.take(i as int),
        decreases v@.len() - i,
    {
        push_char(&mut r, v[i]);
        i = i + 1;
        assert(r@ =~= v@.take(i as int));
    }
    assert(v@.take(v@.len() as int) =~= v@);
    r
}

/// Splits a comma-separated relay setting, trimming each entry and dropping
/// empty ones.
pub fn parse_relays(csv: &str) -> (r: Vec<String>)
    ensures
        r@.map_values(|x: String| x@) == relay_list(comma_pieces(csv@)),
{
    let cs = chars_of(csv);
    let mut out: Vec<String> = Vec::new();
    let mut piece: Vec<char> = Vec::new();
    let mut i: usize = 0;
    proof {
        assert(cs@.take(0) =~= Seq::<char>::empty());
    }
    while i < cs.len()
        invariant
            i <= cs@.len(),
            cs@ == csv@,
            comma_pieces(cs@.take(i as int)).len() >= 1,
            comma_pieces(cs@.take(i as int)).last() == piece@,
            out@.map_values(|x: String| x@) == relay_list(comma_pieces(cs@.take(i as int)).drop_last()),
        decreases cs@.len() - i,
    {
        let ghost prev = cs@.take(i as int);
        let c = cs[i];
        let ghost next = cs@.take(i + 1);
        assert(next.drop_last() =~= prev);
        assert(next.last() == c);
        proof {
            lemma_comma_pieces_nonempty(prev);
        }
        if c == ',' {
            let t = trim(&piece);
            let ghost pieces = comma_pieces(prev);
            assert(comma_pieces(next) == pieces.push(seq![]));
            assert(comma_pieces(next).drop_last() =~= pieces);
            assert(pieces.drop_last().push(pieces.last()) =~= pieces);
            if t.len() > 0 {
                out.push(string_of(&t));
                assert(out@.map_values(|x: String| x@) =~= relay_list(pieces.drop_last()).push(t@));
            }
            piece = Vec::new();
        } else {
            let ghost pieces = comma_pieces(prev);
            piece.push(c);
            assert(comma_pieces(next).drop_last() =~= pieces.drop_last());
        }
        i = i + 1;
    }
    assert(cs@.take(cs@.len() as int) =~= cs@);
    let ghost pieces = comma_pieces(cs@);
    proof {
        lemma_comma_pieces_nonempty(cs@);
    }
    assert(pieces.drop_last().push(pieces.last()) =~= pieces);
    let t = trim(&piece);
    if t.len() > 0 {
        out.push(string_of(&t));
        assert(out@.map_values(|x: String| x@) =~= relay_list(pieces.drop_last()).push(t@));
    }
    out
}

/// The value of a string of decimal digits.
pub open spec fn digits_value(d: Seq<char>) -> nat
    decreases d.len(),
{
    if d.len() == 0 {
        0
    } else {
        digits_value(d.drop_last()) * 10 + ((d.last() as u32) - 48) as nat
    }
}

/// An ASCII decimal digit.
pub open spec fn is_digit(c: char) -> bool {
    '0' <= c && c <= '9'
}

/// What `str::parse::<u16>` gives: an optional `+`, then one or more ASCII
/// digits whose value fits in 16 bits.
pub open spec fn parsed_u16(s: Seq<char>) -> Option<u16> {
    let d = unsigned_digits(s);
    if d.len() > 0 && all_digits(d) && digits_value(d) <= 65535 {
        Some(digits_value(d) as u16)
    } else {
        None
    }
}

/// The text after an optional leading `+`.
pub open spec fn unsigned_digits(s: Seq<char>) -> Seq<char> {
    if s.len() > 0 && s[0] == '+' {
        s.drop_first()
    } else {
        s
    }
}

/// Every character is an ASCII decimal digit.
pub open spec fn all_digits(d: Seq<char>) -> bool {
    forall|i: int| 0 <= i < d.len() ==> #[trigger] is_digit(d[i])
}

proof fn lemma_digits_value_grows(d: Seq<char>, i: int)
    requires
        0 <= i <= d.len(),
        all_digits(d),
    ensures
        digits_value(d.take(i)) <= digits_value(d),
    decreases d.len() - i,
{
    if i < d.len() {
        lemma_digits_value_grows(d, i + 1);
        assert(d.take(i + 1).drop_last() =~= d.take(i));
        assert(d.take(i + 1).last() == d[i]);
        assert(is_digit(d[i]));
    } else {
        assert(d.take(i) =~= d);
    }
}

/// Parses a decimal port number the way `str::parse::<u16>` does.
pub fn parse_port(s: &str) -> (r: Option<u16>)
    ensures
        r == parsed_u16(s@),
{
    let cs = chars_of(s);
    let start: usize = if cs.len() > 0 && cs[0] == '+' { 1 } else { 0 };
    let ghost d = unsigned_digits(s@);
    assert(d =~= cs@.skip(start as int));
    if start >= cs.len() {
        return None;
    }
    let mut value: u32 = 0;
    let mut i: usize = start;
    assert(d.take(0) =~= Seq::<char>::empty());
    while i < cs.len()
        invariant
            start <= i <= cs@.len(),
            d == cs@.skip(start as int),
            cs@ == s@,
            d == unsigned_digits(s@),
            forall|k: int| 0 <= k < i - start ==> #[trigger] is_digit(d[k]),
            value == digits_value(d.take(i - start)),
            value <= 65535,
        decreases cs@.len() - i,
    {
        let c = cs[i];
        assert(c == d[i - start]);
        if !('0' <= c && c <= '9') {
            assert(!is_digit(d[i - start]));
            assert(!all_digits(d));
            return None;
        }
        let ghost prefix = d.take(i - start + 1);
        assert(prefix.drop_last() =~= d.take(i - start));
        assert(prefix.last() == c);
        value = value * 10 + ((c as u32) - 48);
        i = i + 1;
        assert(value == digits_value(d.take(i - start)));
        if value > 65535 {
            proof {
                if all_digits(d) {
                    lemma_digits_value_grows(d, i - start);
                }
            }
            return None;
        }
    }
    assert(d.take(d.len() as int) =~= d);
    Some(value as u16)
}

/// What `str::parse::<u64>` gives: an optional `+`, then one or more ASCII
/// digits whose value fits in 64 bits.
pub open spec fn parsed_u64(s: Seq<char>) -> Option<u64> {
    let d = unsigned_digits(s);
    if d.len() > 0 && all_digits(d) && digits_value(d) <= 0xffff_ffff_ffff_ffff {
        Some(digits_value(d) as u64)
    } else {
        None
    }
}

/// Parses a decimal number the way `str::parse::<u64>` does.
pub fn parse_u64(s: &str) -> (r: Option<u64>)
    ensures
        r == parsed_u64(s@),
{
    let cs = chars_of(s);
    let start: usize = if cs.len() > 0 && cs[0] == '+' { 1 } else { 0 };
    let ghost d = unsigned_digits(s@);
    assert(d =~= cs@.skip(start as int));
    if start >= cs.len() {
        return None;
    }
    let mut value: u128 = 0;
    let mut i: usize = start;
    assert(d.take(0) =~= Seq::<char>::empty());
    while i < cs.len()
        invariant
            start <= i <= cs@.len(),
            d == cs@.skip(start as int),
            cs@ == s@,
            d == unsigned_digits(s@),
            forall|k: int| 0 <= k < i - start ==> #[trigger] is_digit(d[k]),
            value == digits_value(d.take(i - start)),
            value <= 0xffff_ffff_ffff_ffff,
        decreases cs@.len() - i,
    {
        let c = cs[i];
        assert(c == d[i - start]);
        if !('0' <= c && c <= '9') {
            assert(!is_digit(d[i - start]));
            assert(!all_digits(d));
            return None;
        }
        let ghost prefix = d.take(i - start + 1);
        assert(prefix.drop_last() =~= d.take(i - start));
        assert(prefix.last() == c);
        value = value * 10 + ((c as u32) - 48) as u128;
        i = i + 1;
        assert(value == digits_value(d.take(i - start)));
        if value > 0xffff_ffff_ffff_ffff {
            proof {
                if all_digits(d) {
                    lemma_digits_value_grows(d, i - start);
                }
            }
            return None;
        }
    }
    assert(d.take(d.len() as int) =~= d);
    Some(value as u64)
}

impl Config {
    /// Builds the configuration from the values of its environment settings
    /// (`None` when a setting is unset): `UMBREL_APP_DATA_DIR`, else
    /// `NOMAD_DATA_DIR`, else `./data`; `ELECTRS_ADDR`; `NOSTR_RELAYS`
    /// (comma-separated); `NOMAD_HTTP_PORT` (an unparsable value falls back
    /// to the default); `NOMAD_NETWORK`. Fails, with the lower-cased name,
    /// only on an unknown network.
    pub fn from_settings(
        umbrel_data_dir: Option<&str>,
        nomad_data_dir: Option<&str>,
        electrs_addr: Option<&str>,
        nostr_relays: Option<&str>,
        http_port: Option<&str>,
        network: Option<&str>,
    ) -> (r: Result<Config, String>)
        ensures
            match network {
                Some(n) => network_named(ascii_lower(n@)) is None <==> r is Err,
                None => r is Ok,
            },
            r matches Err(e) ==> e@ == ascii_lower(network.unwrap()@),
            r matches Ok(c) ==> {
                &&& c.data_dir@ == (match umbrel_data_dir {
                    Some(d) => d@,
                    None => match nomad_data_dir {
                        Some(d) => d@,
                        None => default_data_dir(),
                    },
                })
                &&& c.electrs_addr@ == (match electrs_addr {
                    Some(a) => a@,
                    None => default_electrs_addr(),
                })
                &&& c.relays@.map_values(|x: String| x@) == (match nostr_relays {
                    Some(csv) => relay_list(comma_pieces(csv@)),
                    None => default_relays(),
                })
                &&& c.http_port == (match http_port {
                    Some(p) => match parsed_u16(p@) {
                        Some(v) => v,
                        None => DEFAULT_HTTP_PORT,
                    },
                    None => DEFAULT_HTTP_PORT,
                })
                &&& c.network == (match network {
                    Some(n) => network_named(ascii_lower(n@)).unwrap(),
                    None => Network::Bitcoin,
                })
            },
    {
        let data_dir = match umbrel_data_dir {
            Some(d) => owned(d),
            None => match nomad_data_dir {
                Some(d) => owned(d),
                None => owned("./data"),
            },
        };
        let electrs_addr = match electrs_addr {
            Some(a) => owned(a),
            None => owned("electrs:50001"),
        };
        let relays = match nostr_relays {
            Some(csv) => parse_relays(csv),
            None => {
                let mut v: Vec<String> = Vec::new();
                v.push(owned("wss://relay.damus.io"));
                v.push(owned("wss://nos.lol"));
                v.push(owned("wss://relay.nostr.band"));
                v.push(owned("wss://nostr.wine"));
                v.push(owned("wss://relay.snort.social"));
                assert(v@.map_values(|x: String| x@) =~= default_relays());
                v
            },
        };
        let http_port = match http_port {
            Some(p) => match parse_port(p) {
                Some(v) => v,
                None => DEFAULT_HTTP_PORT,
            },
            None => DEFAULT_HTTP_PORT,
        };
        let network = match network {
            Some(n) => match Network::parse(n) {
                Ok(net) => net,
                Err(e) => return Err(e),
            },
            None => Network::Bitcoin,
        };
        Ok(Config { data_dir, electrs_addr, relays, http_port, network })
    }
}

} // verus!
