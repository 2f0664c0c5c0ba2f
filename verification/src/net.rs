//! IP addresses and the text that spells them.

use vstd::prelude::*;
use vstd::string::StrSliceExecFns;

use crate::text::{chars, entries, parse_radix, split, split_once, trim};

verus! {

/// An IP address: its 32 or 128 bits, the first octet the most significant.
#[derive(Debug, Clone, Copy, PartialEq, Eq, PartialOrd, Ord, Hash, Structural)]
pub enum IpAddr {
    V4(u32),
    V6(u128),
}

/// Where a datagram comes from or goes to. `scope_id` is the zone of an IPv6
/// address, and zero without one.
#[derive(Debug, Clone, Copy, PartialEq, Eq, PartialOrd, Ord, Hash, Structural)]
pub struct SocketAddr {
    pub ip: IpAddr,
    pub port: u16,
    pub scope_id: u32,
}

impl SocketAddr {
    pub fn new(ip: IpAddr, port: u16) -> (r: SocketAddr)
        ensures
            r == (SocketAddr { ip, port, scope_id: 0 }),
    {
        SocketAddr { ip, port, scope_id: 0 }
    }
}

/// One octet of a dotted address: up to three digits, no leading zero.
pub open spec fn octet(s: Seq<char>) -> Option<nat> {
    match crate::text::run_value(s, 10) {
        Some(v) if 1 <= s.len() <= 3 && v <= 255 && (s.len() == 1 || s[0] != '0') => Some(v),
        _ => None,
    }
}

/// The address that four dotted octets spell.
pub open spec fn dotted(s: Seq<char>) -> Option<u32> {
    let p = crate::text::pieces(s, '.');
    if p.len() != 4 {
        None
    } else {
        match (octet(p[0]), octet(p[1]), octet(p[2]), octet(p[3])) {
            (Some(a), Some(b), Some(c), Some(d)) => Some(
                (a * 0x100_0000 + b * 0x1_0000 + c * 0x100 + d) as u32,
            ),
            _ => None,
        }
    }
}

/// One group of an IPv6 address: one to four hexadecimal digits.
pub open spec fn group(s: Seq<char>) -> Option<nat> {
    match crate::text::run_value(s, 16) {
        Some(v) if 1 <= s.len() <= 4 => Some(v),
        _ => None,
    }
}

/// The groups that the first `n` of `p` spell. Where `dotted_end`, the last of
/// all may be a dotted address, which counts as two groups.
pub open spec fn groups_of(p: Seq<Seq<char>>, n: int, dotted_end: bool) -> Option<Seq<nat>>
    decreases n,
{
    if n <= 0 {
        Some(Seq::empty())
    } else {
        match groups_of(p, n - 1, dotted_end) {
            None => None,
            Some(g) => if n == p.len() && dotted_end && dotted(p[n - 1]) is Some {
                let v = dotted(p[n - 1])->0 as nat;
                Some(g.push(v / 0x1_0000).push(v % 0x1_0000))
            } else {
                match group(p[n - 1]) {
                    Some(v) => Some(g.push(v)),
                    None => None,
                }
            },
        }
    }
}

/// The groups between the colons of `s`; none when `s` is empty.
pub open spec fn side(s: Seq<char>, dotted_end: bool) -> Option<Seq<nat>> {
    if s.len() == 0 {
        Some(Seq::empty())
    } else {
        let p = crate::text::pieces(s, ':');
        groups_of(p, p.len() as int, dotted_end)
    }
}

/// The position of the first `::` in `s`.
pub open spec fn gap(s: Seq<char>) -> Option<int>
    decreases s.len(),
{
    if s.len() < 2 {
        None
    } else if s[0] == ':' && s[1] == ':' {
        Some(0)
    } else {
        match gap(s.skip(1)) {
            Some(k) => Some(k + 1),
            None => None,
        }
    }
}

/// The number that sixteen-bit groups spell, the first the most significant.
pub open spec fn bits(g: Seq<nat>) -> nat
    decreases g.len(),
{
    if g.len() == 0 {
        0
    } else {
        bits(g.drop_last()) * 0x1_0000 + g.last()
    }
}

pub open spec fn zeros(n: nat) -> Seq<nat> {
    Seq::new(n, |i: int| 0nat)
}

/// The address that an IPv6 text spells: eight groups, or fewer with one `::`
/// that stands for the zero groups left out, at least one. The last two groups
/// may be a dotted IPv4 address.
pub open spec fn colons(s: Seq<char>) -> Option<u128> {
    match gap(s) {
        Some(k) => match (side(s.take(k), false), side(s.skip(k + 2), true)) {
            (Some(h), Some(t)) => if h.len() + t.len() <= 7 {
                Some(bits(h + zeros((8 - h.len() - t.len()) as nat) + t) as u128)
            } else {
                None
            },
            _ => None,
        },
        None => match side(s, true) {
            Some(g) => if g.len() == 8 {
                Some(bits(g) as u128)
            } else {
                None
            },
            None => None,
        },
    }
}

/// The address that `s` spells.
pub open spec fn address(s: Seq<char>) -> Option<IpAddr> {
    match dotted(s) {
        Some(v) => Some(IpAddr::V4(v)),
        None => match colons(s) {
            Some(v) => Some(IpAddr::V6(v)),
            None => None,
        },
    }
}

/// Digits only, at least one.
pub open spec fn plain_number(s: Seq<char>, max: nat) -> Option<nat> {
    match crate::text::run_value(s, 10) {
        Some(v) if s.len() > 0 && v <= max => Some(v),
        _ => None,
    }
}

/// The IPv6 address, with an optional zone behind a percent sign, that `s`
/// spells.
pub open spec fn zoned(s: Seq<char>) -> Option<(u128, u32)> {
    match crate::text::first_of(s, '%') {
        Some(k) => match (colons(s.take(k)), plain_number(s.skip(k + 1), u32::MAX as nat)) {
            (Some(v), Some(z)) => Some((v, z as u32)),
            _ => None,
        },
        None => match colons(s) {
            Some(v) => Some((v, 0)),
            None => None,
        },
    }
}

/// The address and port that `s` spells: `a.b.c.d:port`, or `[v6]:port`.
pub open spec fn endpoint(s: Seq<char>) -> Option<SocketAddr> {
    if s.len() > 0 && s[0] == '[' {
        match crate::text::first_of(s, ']') {
            Some(k) => if k + 1 < s.len() && s[k + 1] == ':' {
                match (zoned(s.subrange(1, k)), plain_number(s.skip(k + 2), u16::MAX as nat)) {
                    (Some(v), Some(p)) => Some(
                        SocketAddr { ip: IpAddr::V6(v.0), port: p as u16, scope_id: v.1 },
                    ),
                    _ => None,
                }
            } else {
                None
            },
            None => None,
        }
    } else {
        match crate::text::first_of(s, ':') {
            Some(k) => match (dotted(s.take(k)), plain_number(s.skip(k + 1), u16::MAX as nat)) {
                (Some(v), Some(p)) => Some(
                    SocketAddr { ip: IpAddr::V4(v), port: p as u16, scope_id: 0 },
                ),
                _ => None,
            },
            None => None,
        }
    }
}

/// Digits of base `radix`, at least one and nothing else, up to `max`.
fn parse_digits(s: &str, radix: u64, max: u64) -> (r: Option<u64>)
    requires
        2 <= radix <= 36,
    ensures
        match r {
            Some(v) => s@.len() > 0 && crate::text::run_value(s@, radix as nat) == Some(v as nat)
                && v <= max,
            None => s@.len() == 0 || crate::text::run_value(s@, radix as nat) is None
                || crate::text::run_value(s@, radix as nat)->0 > max,
        },
{
    let cs = chars(s);
    if cs.len() == 0 {
        return None;
    }
    if cs[0] == '+' {
        proof {
            lemma_sign_is_no_digit(s@, radix as nat);
        }
        return None;
    }
    parse_radix(s, radix, max)
}

proof fn lemma_sign_is_no_digit(s: Seq<char>, radix: nat)
    requires
        s.len() > 0,
        s[0] == '+',
        radix <= 36,
    ensures
        crate::text::run_value(s, radix) is None,
    decreases s.len(),
{
    if s.len() > 1 {
        lemma_sign_is_no_digit(s.drop_last(), radix);
    } else {
        assert(s.last() == '+');
    }
}

fn parse_octet(s: &str) -> (r: Option<u32>)
    ensures
        match r {
            Some(v) => octet(s@) == Some(v as nat) && v <= 255,
            None => octet(s@) is None,
        },
{
    let cs = chars(s);
    if cs.len() < 1 || cs.len() > 3 || (cs.len() > 1 && cs[0] == '0') {
        return None;
    }
    match parse_digits(s, 10, 255) {
        Some(v) => Some(v as u32),
        None => None,
    }
}

/// Reads four dotted octets.
pub fn parse_ipv4(s: &str) -> (r: Option<u32>)
    ensures
        r == dotted(s@),
{
    let p = split(s, '.');
    if p.len() != 4 {
        return None;
    }
    proof {
        assert(crate::text::views(p@)[0] == p@[0]@);
        assert(crate::text::views(p@)[1] == p@[1]@);
        assert(crate::text::views(p@)[2] == p@[2]@);
        assert(crate::text::views(p@)[3] == p@[3]@);
    }
    match (
        parse_octet(p[0].as_str()),
        parse_octet(p[1].as_str()),
        parse_octet(p[2].as_str()),
        parse_octet(p[3].as_str()),
    ) {
        (Some(a), Some(b), Some(c), Some(d)) => Some(
            a * 0x100_0000 + b * 0x1_0000 + c * 0x100 + d,
        ),
        _ => None,
    }
}

/// The groups of one side of an IPv6 address, as exact integers.
pub open spec fn as_nats(v: Seq<u64>) -> Seq<nat> {
    Seq::new(v.len(), |i: int| v[i] as nat)
}

fn parse_side(s: &str, dotted_end: bool) -> (r: Option<Vec<u64>>)
    ensures
        match r {
            Some(v) => side(s@, dotted_end) == Some(as_nats(v@)) && forall|i: int|
                0 <= i < v@.len() ==> #[trigger] v@[i] < 0x1_0000,
            None => side(s@, dotted_end) is None,
        },
{
    let mut out: Vec<u64> = Vec::new();
    proof {
        assert(as_nats(out@) =~= Seq::empty());
    }
    if s.is_empty() {
        return Some(out);
    }
    let p = split(s, ':');
    let ghost all = crate::text::views(p@);
    let mut i: usize = 0;
    while i < p.len()
        invariant
            i <= p@.len(),
            all == crate::text::views(p@),
            all == crate::text::pieces(s@, ':'),
            s@.len() > 0,
            groups_of(all, i as int, dotted_end) == Some(as_nats(out@)),
            forall|k: int| 0 <= k < out@.len() ==> #[trigger] out@[k] < 0x1_0000,
        decreases p@.len() - i,
    {
        proof {
            assert(all[i as int] == p@[i as int]@);
        }
        let ghost done = out@;
        let four: Option<u32> = if i + 1 == p.len() && dotted_end {
            parse_ipv4(p[i].as_str())
        } else {
            None
        };
        match four {
            Some(v) => {
                out.push((v / 0x1_0000) as u64);
                out.push((v % 0x1_0000) as u64);
                proof {
                    assert(as_nats(out@) =~= as_nats(done).push(v as nat / 0x1_0000).push(
                        v as nat % 0x1_0000,
                    ));
                }
            },
            None => {
                match parse_group(p[i].as_str()) {
                    Some(v) => {
                        out.push(v);
                        proof {
                            assert(as_nats(out@) =~= as_nats(done).push(v as nat));
                        }
                    },
                    None => {
                        proof {
                            lemma_groups_stop(all, i + 1, dotted_end);
                        }
                        return None;
                    },
                }
            },
        }
        i = i + 1;
    }
    Some(out)
}

/// What cannot be read up to some group cannot be read at all.
proof fn lemma_groups_stop(p: Seq<Seq<char>>, n: int, dotted_end: bool)
    requires
        0 <= n <= p.len(),
        groups_of(p, n, dotted_end) is None,
    ensures
        groups_of(p, p.len() as int, dotted_end) is None,
    decreases p.len() - n,
{
    if n < p.len() {
        lemma_groups_stop(p, n + 1, dotted_end);
    }
}

fn parse_group(s: &str) -> (r: Option<u64>)
    ensures
        match r {
            Some(v) => group(s@) == Some(v as nat) && v < 0x1_0000,
            None => group(s@) is None,
        },
{
    let n: usize = s.unicode_len();
    if n < 1 || n > 4 {
        return None;
    }
    proof {
        lemma_group_bound(s@);
    }
    parse_digits(s, 16, 0xFFFF)
}

proof fn lemma_group_bound(s: Seq<char>)
    requires
        s.len() <= 4,
    ensures
        crate::text::run_value(s, 16) is Some ==> crate::text::run_value(s, 16)->0 < 0x1_0000,
{
    reveal_with_fuel(crate::text::run_value, 5);
}

fn find_gap(cs: &Vec<char>) -> (r: Option<usize>)
    ensures
        match r {
            Some(k) => gap(cs@) == Some(k as int) && k + 2 <= cs@.len(),
            None => gap(cs@) is None,
        },
{
    let mut i: usize = 0;
    proof {
        assert(cs@.skip(0) =~= cs@);
    }
    while i < cs.len() && cs.len() - i >= 2
        invariant
            i <= cs@.len(),
            match gap(cs@.skip(i as int)) {
                Some(k) => gap(cs@) == Some(k + i),
                None => gap(cs@) is None,
            },
        decreases cs@.len() - i,
    {
        if cs[i] == ':' && cs[i + 1] == ':' {
            return Some(i);
        }
        proof {
            assert(cs@.skip(i as int).skip(1) =~= cs@.skip(i + 1));
        }
        i = i + 1;
    }
    None
}

fn pack(g: &Vec<u64>) -> (r: u128)
    requires
        g@.len() <= 8,
        forall|i: int| 0 <= i < g@.len() ==> #[trigger] g@[i] < 0x1_0000,
    ensures
        r == bits(as_nats(g@)),
{
    let mut v: u128 = 0;
    let mut i: usize = 0;
    proof {
        assert(as_nats(g@).take(0) =~= Seq::empty());
    }
    while i < g.len()
        invariant
            i <= g@.len() <= 8,
            forall|k: int| 0 <= k < g@.len() ==> #[trigger] g@[k] < 0x1_0000,
            v == bits(as_nats(g@).take(i as int)),
            i == 0 ==> v < 1,
            i == 1 ==> v < 0x1_0000,
            i == 2 ==> v < 0x1_0000_0000,
            i == 3 ==> v < 0x1_0000_0000_0000,
            i == 4 ==> v < 0x1_0000_0000_0000_0000,
            i == 5 ==> v < 0x1_0000_0000_0000_0000_0000,
            i == 6 ==> v < 0x1_0000_0000_0000_0000_0000_0000,
            i == 7 ==> v < 0x1_0000_0000_0000_0000_0000_0000_0000,
        decreases g@.len() - i,
    {
        proof {
            assert(as_nats(g@).take(i + 1).drop_last() =~= as_nats(g@).take(i as int));
        }
        v = v * 0x1_0000 + g[i] as u128;
        i = i + 1;
    }
    proof {
        assert(as_nats(g@).take(i as int) =~= as_nats(g@));
    }
    v
}

/// Reads an IPv6 address.
pub fn parse_ipv6(s: &str) -> (r: Option<u128>)
    ensures
        r == colons(s@),
{
    let cs = chars(s);
    let len: usize = cs.len();
    match find_gap(&cs) {
        Some(k) => {
            proof {
                assert(k + 2 <= len);
                assert(s@.subrange(0, k as int) =~= s@.take(k as int));
                assert(s@.subrange(k + 2, s@.len() as int) =~= s@.skip(k + 2));
            }
            let head = parse_side(s.substring_char(0, k), false);
            let tail = parse_side(s.substring_char(k + 2, len), true);
            match (head, tail) {
                (Some(h), Some(t)) => {
                    if h.len() > 7 || t.len() > 7 - h.len() {
                        return None;
                    }
                    let mut all = h;
                    let ghost front = all@;
                    let mut missing: usize = 8 - all.len() - t.len();
                    let ghost left = missing as int;
                    while missing > 0
                        invariant
                            missing <= left <= 8,
                            as_nats(all@) == as_nats(front) + zeros((left - missing) as nat),
                            forall|i: int| 0 <= i < all@.len() ==> #[trigger] all@[i] < 0x1_0000,
                        decreases missing,
                    {
                        let ghost now = all@;
                        all.push(0);
                        missing = missing - 1;
                        proof {
                            assert(as_nats(all@) =~= as_nats(now).push(0));
                            assert(as_nats(all@) =~= as_nats(front) + zeros(
                                (left - missing) as nat,
                            ));
                        }
                    }
                    let ghost middle = all@;
                    let mut t = t;
                    let ghost back = t@;
                    all.append(&mut t);
                    proof {
                        assert(as_nats(all@) =~= as_nats(middle) + as_nats(back));
                    }
                    Some(pack(&all))
                },
                _ => None,
            }
        },
        None => match parse_side(s, true) {
            Some(g) => {
                if g.len() != 8 {
                    return None;
                }
                Some(pack(&g))
            },
            None => None,
        },
    }
}

impl IpAddr {
    /// Reads an address of either family.
    pub fn parse(s: &str) -> (r: Option<IpAddr>)
        ensures
            r == address(s@),
    {
        match parse_ipv4(s) {
            Some(v) => Some(IpAddr::V4(v)),
            None => match parse_ipv6(s) {
                Some(v) => Some(IpAddr::V6(v)),
                None => None,
            },
        }
    }

    /// The address that means any: all bits zero.
    pub fn is_unspecified(&self) -> (r: bool)
        ensures
            r == (*self == IpAddr::V4(0) || *self == IpAddr::V6(0)),
    {
        match self {
            IpAddr::V4(v) => *v == 0,
            IpAddr::V6(v) => *v == 0,
        }
    }
}

fn parse_zoned(s: &str) -> (r: Option<(u128, u32)>)
    ensures
        r == zoned(s@),
{
    match split_once(s, '%') {
        Some((a, z)) => match (parse_ipv6(a), parse_digits(z, 10, u32::MAX as u64)) {
            (Some(v), Some(n)) => Some((v, n as u32)),
            _ => None,
        },
        None => match parse_ipv6(s) {
            Some(v) => Some((v, 0)),
            None => None,
        },
    }
}

/// Reads `[v6]:port`.
fn parse_bracketed(s: &str) -> (r: Option<SocketAddr>)
    requires
        s@.len() > 0,
        s@[0] == '[',
    ensures
        r == endpoint(s@),
{
    proof {
        crate::text::lemma_first_of(s@, ']');
    }
    match split_once(s, ']') {
        Some((a, b)) => {
            let ghost k = crate::text::first_of(s@, ']')->0;
            let n: usize = a.unicode_len();
            proof {
                assert(a@.subrange(1, k) =~= s@.subrange(1, k));
            }
            let inner = a.substring_char(1, n);
            let bs = chars(b);
            if bs.len() == 0 || bs[0] != ':' {
                return None;
            }
            proof {
                assert(b@.subrange(1, b@.len() as int) =~= s@.skip(k + 2));
                assert(b@[0] == s@[k + 1]);
            }
            let port = b.substring_char(1, bs.len());
            match (parse_zoned(inner), parse_digits(port, 10, u16::MAX as u64)) {
                (Some(v), Some(p)) => Some(
                    SocketAddr { ip: IpAddr::V6(v.0), port: p as u16, scope_id: v.1 },
                ),
                _ => None,
            }
        },
        None => None,
    }
}

/// Reads `a.b.c.d:port`.
fn parse_dotted_port(s: &str) -> (r: Option<SocketAddr>)
    requires
        s@.len() == 0 || s@[0] != '[',
    ensures
        r == endpoint(s@),
{
    match split_once(s, ':') {
        Some((a, b)) => match (parse_ipv4(a), parse_digits(b, 10, u16::MAX as u64)) {
            (Some(v), Some(p)) => Some(
                SocketAddr { ip: IpAddr::V4(v), port: p as u16, scope_id: 0 },
            ),
            _ => None,
        },
        None => None,
    }
}

impl SocketAddr {
    /// Reads an address with a port.
    pub fn parse(s: &str) -> (r: Option<SocketAddr>)
        ensures
            r == endpoint(s@),
    {
        let cs = chars(s);
        if cs.len() > 0 && cs[0] == '[' {
            parse_bracketed(s)
        } else {
            parse_dotted_port(s)
        }
    }
}

/// An octet's leading zero is not read: each IPv4 address has one spelling.
pub proof fn law_no_leading_zero(s: Seq<char>)
    requires
        s.len() > 1,
        s[0] == '0',
    ensures
        octet(s) is None,
{
}

/// The addresses that `ps` spell, in order, or the first piece that is none.
pub open spec fn addresses(ps: Seq<Seq<char>>) -> Result<Seq<IpAddr>, Seq<char>>
    decreases ps.len(),
{
    if ps.len() == 0 {
        Ok(Seq::empty())
    } else {
        match addresses(ps.drop_last()) {
            Err(bad) => Err(bad),
            Ok(before) => match address(ps.last()) {
                Some(a) => Ok(before.push(a)),
                None => Err(ps.last()),
            },
        }
    }
}

/// The addresses of a list written with commas between them. Where it is absent
/// or blank there are none.
pub open spec fn address_list(v: Option<Seq<char>>) -> Result<Seq<IpAddr>, Seq<char>> {
    match v {
        Some(s) if crate::text::trimmed(s).len() > 0 => addresses(
            crate::text::entries_of(crate::text::pieces(s, ',')),
        ),
        _ => Ok(Seq::empty()),
    }
}

/// `r` is what `m` says: the same addresses, or the same text that is none.
pub open spec fn lists(r: Result<Vec<IpAddr>, String>, m: Result<Seq<IpAddr>, Seq<char>>) -> bool {
    match (r, m) {
        (Ok(v), Ok(s)) => v@ == s,
        (Err(e), Err(s)) => e@ == s,
        _ => false,
    }
}

proof fn lemma_first_bad_stays(ps: Seq<Seq<char>>, n: int)
    requires
        0 <= n <= ps.len(),
        addresses(ps.take(n)) is Err,
    ensures
        addresses(ps) == addresses(ps.take(n)),
    decreases ps.len() - n,
{
    if n == ps.len() {
        assert(ps.take(n) =~= ps);
    } else {
        assert(ps.take(n + 1).drop_last() =~= ps.take(n));
        lemma_first_bad_stays(ps, n + 1);
    }
}

/// Read each of `ps` as an address. The first that is none is the error.
pub fn parse_addresses(ps: &Vec<String>) -> (r: Result<Vec<IpAddr>, String>)
    ensures
        lists(r, addresses(crate::text::views(ps@))),
{
    let mut out: Vec<IpAddr> = Vec::new();
    let mut i: usize = 0;
    let ghost all = crate::text::views(ps@);
    proof {
        assert(all.take(0) =~= Seq::empty());
    }
    while i < ps.len()
        invariant
            i <= ps@.len(),
            all == crate::text::views(ps@),
            addresses(all.take(i as int)) == Ok::<Seq<IpAddr>, Seq<char>>(out@),
        decreases ps@.len() - i,
    {
        proof {
            assert(all.take(i + 1).drop_last() =~= all.take(i as int));
            assert(all.take(i + 1).last() == ps@[i as int]@);
        }
        match IpAddr::parse(ps[i].as_str()) {
            Some(a) => out.push(a),
            None => {
                proof {
                    lemma_first_bad_stays(all, i + 1);
                }
                return Err(ps[i].clone());
            },
        }
        i = i + 1;
    }
    proof {
        assert(all.take(i as int) =~= all);
    }
    Ok(out)
}

/// Read a list of addresses with commas between them.
pub fn parse_address_list(v: &Option<String>) -> (r: Result<Vec<IpAddr>, String>)
    ensures
        lists(r, address_list(crate::text::seen(*v))),
{
    match v {
        Some(s) => if trim(s.as_str()).unicode_len() > 0 {
            parse_addresses(&entries(s.as_str(), ','))
        } else {
            Ok(Vec::new())
        },
        None => Ok(Vec::new()),
    }
}

} // verus!
