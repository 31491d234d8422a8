use crate::base_types::{ed25519_public_of, get_key_pair, AuthorityName, SecretKey};
use vstd::prelude::*;

verus! {

broadcast use vstd::string::to_string_from_display_ensures_for_str;

/// The transport an authority listens on.
#[derive(Clone, Copy, Debug, PartialEq, Eq, Structural)]
pub enum NetworkProtocol {
    Udp,
    Tcp,
}

/// The public description of an authority to generate: where its server
/// configuration goes, its transport, host, base port and number of shards.
#[derive(Clone, Debug, PartialEq, Eq)]
pub struct AuthorityOptions {
    pub server_config_path: String,
    pub protocol: NetworkProtocol,
    pub host: String,
    pub port: u32,
    pub shards: u32,
}

/// Why a description `file.json:(udp|tcp):host:port:num-shards` was refused.
#[derive(Clone, Copy, Debug, PartialEq, Eq, Structural)]
pub enum OptionsError {
    WrongNumberOfParts,
    UnknownProtocol,
    InvalidPort,
    InvalidShards,
}

/// The pieces of `s` between colons, from left to right.
pub open spec fn split_colon(s: Seq<char>) -> Seq<Seq<char>>
    decreases s.len(),
{
    if s.len() == 0 {
        seq![Seq::<char>::empty()]
    } else {
        let r = split_colon(s.drop_last());
        if s.last() == ':' {
            r.push(Seq::<char>::empty())
        } else {
            r.update(r.len() - 1, r.last().push(s.last()))
        }
    }
}

proof fn lemma_split_nonempty(s: Seq<char>)
    ensures
        split_colon(s).len() >= 1,
    decreases s.len(),
{
    if s.len() > 0 {
        lemma_split_nonempty(s.drop_last());
    }
}

/// The protocol that a word names, in lower or capitalised case.
pub open spec fn protocol_of(s: Seq<char>) -> Option<NetworkProtocol> {
    if s == seq!['u', 'd', 'p'] || s == seq!['U', 'd', 'p'] {
        Some(NetworkProtocol::Udp)
    } else if s == seq!['t', 'c', 'p'] || s == seq!['T', 'c', 'p'] {
        Some(NetworkProtocol::Tcp)
    } else {
        None
    }
}

pub open spec fn is_digit(c: char) -> bool {
    '0' <= c && c <= '9'
}

/// The number written by a string of decimal digits.
pub open spec fn decimal_value(s: Seq<char>) -> int
    decreases s.len(),
{
    if s.len() == 0 {
        0
    } else {
        decimal_value(s.drop_last()) * 10 + (s.last() as int - '0' as int)
    }
}

/// A non-empty string of decimal digits whose number fits in a `u32`.
pub open spec fn is_u32_digits(s: Seq<char>) -> bool {
    &&& s.len() > 0
    &&& forall|i: int| 0 <= i < s.len() ==> is_digit(#[trigger] s[i])
    &&& decimal_value(s) <= u32::MAX
}

/// The digits of a number written with an optional leading `+`.
pub open spec fn unsigned_digits(s: Seq<char>) -> Seq<char> {
    if s.len() > 0 && s[0] == '+' {
        s.drop_first()
    } else {
        s
    }
}

/// A `u32` in decimal, with an optional leading `+`.
pub open spec fn is_u32_decimal(s: Seq<char>) -> bool {
    is_u32_digits(unsigned_digits(s))
}

/// The number written by a decimal `u32` with an optional leading `+`.
pub open spec fn u32_decimal_value(s: Seq<char>) -> int {
    decimal_value(unsigned_digits(s))
}

proof fn lemma_decimal_monotone(s: Seq<char>, n: int)
    requires
        0 <= n <= s.len(),
        forall|i: int| 0 <= i < s.len() ==> is_digit(#[trigger] s[i]),
    ensures
        0 <= decimal_value(s.subrange(0, n)) <= decimal_value(s),
    decreases s.len(),
{
    if n == s.len() {
        assert(s.subrange(0, n) =~= s);
        lemma_decimal_nonneg(s);
    } else {
        assert(s.drop_last().subrange(0, n) =~= s.subrange(0, n));
        lemma_decimal_monotone(s.drop_last(), n);
        lemma_decimal_nonneg(s.drop_last());
    }
}

proof fn lemma_decimal_nonneg(s: Seq<char>)
    requires
        forall|i: int| 0 <= i < s.len() ==> is_digit(#[trigger] s[i]),
    ensures
        0 <= decimal_value(s),
    decreases s.len(),
{
    if s.len() > 0 {
        lemma_decimal_nonneg(s.drop_last());
    }
}

/// Reads a decimal `u32`, with an optional leading `+`; `None` unless the
/// digits form a non-empty run whose number fits.
pub fn parse_u32(s: &str) -> (r: Option<u32>)
    ensures
        r is Some <==> is_u32_decimal(s@),
        r is Some ==> r->Some_0 == u32_decimal_value(s@),
{
    let n = s.unicode_len();
    if n > 0 && s.get_char(0) == '+' {
        let rest = s.substring_char(1, n);
        proof {
            assert(rest@ =~= s@.drop_first());
        }
        parse_digits(rest)
    } else {
        parse_digits(s)
    }
}

fn parse_digits(s: &str) -> (r: Option<u32>)
    ensures
        r is Some <==> is_u32_digits(s@),
        r is Some ==> r->Some_0 == decimal_value(s@),
{
    let n = s.unicode_len();
    if n == 0 {
        return None;
    }
    let mut value: u64 = 0;
    let mut i: usize = 0;
    while i < n
        invariant
            n == s@.len(),
            i <= n,
            forall|k: int| 0 <= k < i ==> is_digit(#[trigger] s@[k]),
            value == decimal_value(s@.subrange(0, i as int)),
            value <= u32::MAX,
        decreases n - i,
    {
        let c = s.get_char(i);
        proof {
            assert(s@.subrange(0, i + 1).drop_last() =~= s@.subrange(0, i as int));
        }
        if !('0' <= c && c <= '9') {
            return None;
        }
        let next = value * 10 + (c as u64 - '0' as u64);
        if next > 0xffff_ffff {
            proof {
                assert forall|k: int| 0 <= k < i + 1 implies is_digit(#[trigger] s@[k]) by {}
                if is_u32_digits(s@) {
                    lemma_decimal_monotone(s@, i + 1);
                }
            }
            return None;
        }
        value = next;
        i = i + 1;
    }
    proof {
        assert(s@.subrange(0, i as int) =~= s@);
    }
    Some(value as u32)
}

/// Names the protocol of a description.
pub fn parse_protocol(s: &str) -> (r: Option<NetworkProtocol>)
    ensures
        r == protocol_of(s@),
{
    let n = s.unicode_len();
    if n != 3 {
        proof {
            assert(s@ != seq!['u', 'd', 'p'] && s@ != seq!['U', 'd', 'p']);
            assert(s@ != seq!['t', 'c', 'p'] && s@ != seq!['T', 'c', 'p']);
        }
        return None;
    }
    let a = s.get_char(0);
    let b = s.get_char(1);
    let c = s.get_char(2);
    if (a == 'u' || a == 'U') && b == 'd' && c == 'p' {
        proof {
            assert(s@ =~= seq![a, b, c]);
        }
        Some(NetworkProtocol::Udp)
    } else if (a == 't' || a == 'T') && b == 'c' && c == 'p' {
        proof {
            assert(s@ =~= seq![a, b, c]);
        }
        Some(NetworkProtocol::Tcp)
    } else {
        proof {
            assert(s@ =~= seq![a, b, c]);
        }
        None
    }
}

/// The pieces of a text between colons.
pub fn split_on_colons(s: &str) -> (r: Vec<String>)
    ensures
        r@.map_values(|p: String| p@) == split_colon(s@),
{
    let n = s.unicode_len();
    let mut parts: Vec<String> = Vec::new();
    let mut start: usize = 0;
    let mut i: usize = 0;
    proof {
        assert(s@.subrange(0, 0) =~= Seq::<char>::empty());
        assert(parts@.map_values(|p: String| p@).push(s@.subrange(0, 0)) =~= seq![Seq::<char>::empty()]);
    }
    while i < n
        invariant
            n == s@.len(),
            start <= i <= n,
            parts@.map_values(|p: String| p@).push(s@.subrange(start as int, i as int)) == split_colon(
                s@.subrange(0, i as int),
            ),
        decreases n - i,
    {
        proof {
            assert(s@.subrange(0, i + 1).drop_last() =~= s@.subrange(0, i as int));
            assert(s@.subrange(0, i + 1).last() == s@[i as int]);
            lemma_split_nonempty(s@.subrange(0, i as int));
        }
        if s.get_char(i) == ':' {
            let piece = s.substring_char(start, i).to_string();
            let ghost before = parts@.map_values(|p: String| p@);
            parts.push(piece);
            proof {
                assert(parts@.map_values(|p: String| p@) =~= before.push(piece@));
                assert(s@.subrange(i + 1, i + 1) =~= Seq::<char>::empty());
            }
            start = i + 1;
        } else {
            proof {
                assert(s@.subrange(start as int, i + 1) =~= s@.subrange(start as int, i as int).push(
                    s@[i as int],
                ));
                let ghost m = parts@.map_values(|p: String| p@);
                assert(m.push(s@.subrange(start as int, i + 1)) =~= m.push(
                    s@.subrange(start as int, i as int),
                ).update(m.len() as int, s@.subrange(start as int, i as int).push(s@[i as int])));
            }
        }
        i = i + 1;
    }
    let last = s.substring_char(start, n).to_string();
    let ghost before = parts@.map_values(|p: String| p@);
    parts.push(last);
    proof {
        assert(parts@.map_values(|p: String| p@) =~= before.push(last@));
        assert(s@.subrange(0, n as int) =~= s@);
    }
    parts
}

impl AuthorityOptions {
    /// Reads `file.json:(udp|tcp):host:port:num-shards`.
    pub fn parse(s: &str) -> (r: Result<AuthorityOptions, OptionsError>)
        ensures
            ({
                let p = split_colon(s@);
                &&& (r is Ok) <==> (p.len() == 5 && protocol_of(p[1]) is Some && is_u32_decimal(p[3])
                    && is_u32_decimal(p[4]))
                &&& r is Ok ==> {
                    &&& r->Ok_0.server_config_path@ == p[0]
                    &&& Some(r->Ok_0.protocol) == protocol_of(p[1])
                    &&& r->Ok_0.host@ == p[2]
                    &&& r->Ok_0.port == u32_decimal_value(p[3])
                    &&& r->Ok_0.shards == u32_decimal_value(p[4])
                }
                &&& p.len() != 5 ==> r == Err::<AuthorityOptions, OptionsError>(
                    OptionsError::WrongNumberOfParts,
                )
            }),
    {
        let parts = split_on_colons(s);
        let ghost p = split_colon(s@);
        proof {
            assert(parts@.len() == p.len());
        }
        if parts.len() != 5 {
            return Err(OptionsError::WrongNumberOfParts);
        }
        proof {
            assert(parts@[1]@ == p[1]);
            assert(parts@[3]@ == p[3]);
            assert(parts@[4]@ == p[4]);
            assert(parts@[0]@ == p[0]);
            assert(parts@[2]@ == p[2]);
        }
        let protocol = match parse_protocol(parts[1].as_str()) {
            Some(protocol) => protocol,
            None => return Err(OptionsError::UnknownProtocol),
        };
        let port = match parse_u32(parts[3].as_str()) {
            Some(port) => port,
            None => return Err(OptionsError::InvalidPort),
        };
        let shards = match parse_u32(parts[4].as_str()) {
            Some(shards) => shards,
            None => return Err(OptionsError::InvalidShards),
        };
        Ok(
            AuthorityOptions {
                server_config_path: parts[0].clone(),
                protocol,
                host: parts[2].clone(),
                port,
                shards,
            },
        )
    }
}

/// The public description of an authority.
#[derive(Clone, Debug, PartialEq, Eq)]
pub struct AuthorityConfig {
    pub network_protocol: NetworkProtocol,
    pub name: AuthorityName,
    pub host: String,
    pub base_port: u32,
    pub num_shards: u32,
}

/// The configuration of an authority's server: its description and its key.
pub struct AuthorityServerConfig {
    pub authority: AuthorityConfig,
    pub key: SecretKey,
}

/// A server configuration for the described authority, under a fresh key.
pub fn make_server_config(options: AuthorityOptions) -> (r: AuthorityServerConfig)
    ensures
        r.authority.network_protocol == options.protocol,
        r.authority.host == options.host,
        r.authority.base_port == options.port,
        r.authority.num_shards == options.shards,
        r.authority.name.0@ == ed25519_public_of(r.key.seed()),
{
    let (name, key) = get_key_pair();
    let authority = AuthorityConfig {
        network_protocol: options.protocol,
        name,
        host: options.host,
        base_port: options.port,
        num_shards: options.shards,
    };
    AuthorityServerConfig { authority, key }
}

impl std::str::FromStr for AuthorityOptions {
    type Err = OptionsError;

    fn from_str(s: &str) -> Result<Self, Self::Err> {
        AuthorityOptions::parse(s)
    }
}

} // verus!
