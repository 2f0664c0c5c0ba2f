//! How written addresses read back.

use vstd::prelude::*;

use crate::net::{IpAddr, SocketAddr};

verus! {

/// Splitting a text that has one more piece behind a separator.
pub proof fn lemma_one_more_piece(s: Seq<char>, sep: char, t: Seq<char>)
    requires
        forall|i: int| 0 <= i < t.len() ==> #[trigger] t[i] != sep,
    ensures
        crate::text::pieces(s + seq![sep] + t, sep) == crate::text::pieces(s, sep).push(t),
    decreases t.len(),
{
    let all = s + seq![sep] + t;
    if t.len() == 0 {
        assert(all.drop_last() =~= s);
        assert(all.last() == sep);
        assert(t =~= Seq::empty());
    } else {
        let u = t.drop_last();
        assert forall|i: int| 0 <= i < u.len() implies #[trigger] u[i] != sep by {
            assert(u[i] == t[i]);
        }
        lemma_one_more_piece(s, sep, u);
        assert(all.drop_last() =~= s + seq![sep] + u);
        assert(all.last() == t[t.len() - 1]);
        let before = crate::text::pieces(s, sep).push(u);
        assert(before.drop_last() =~= crate::text::pieces(s, sep));
        assert(u.push(t.last()) =~= t);
    }
}

/// A text without a separator is one piece.
pub proof fn lemma_one_piece(t: Seq<char>, sep: char)
    requires
        forall|i: int| 0 <= i < t.len() ==> #[trigger] t[i] != sep,
    ensures
        crate::text::pieces(t, sep) == seq![t],
    decreases t.len(),
{
    if t.len() == 0 {
        assert(t =~= Seq::empty());
    } else {
        let u = t.drop_last();
        assert forall|i: int| 0 <= i < u.len() implies #[trigger] u[i] != sep by {
            assert(u[i] == t[i]);
        }
        lemma_one_piece(u, sep);
        assert(t[t.len() - 1] != sep);
        assert(u.push(t.last()) =~= t);
        assert(seq![u].drop_last().push(t) =~= seq![t]);
    }
}

/// Four octets as they are written.
pub open spec fn quad(a: nat, b: nat, c: nat, d: nat) -> Seq<char> {
    crate::text::decimal(a) + seq!['.'] + crate::text::decimal(b) + seq!['.'] + crate::text::decimal(
        c,
    ) + seq!['.'] + crate::text::decimal(d)
}

proof fn lemma_octet(n: nat)
    requires
        n < 256,
    ensures
        crate::net::octet(crate::text::decimal(n)) == Some(n),
        forall|i: int|
            0 <= i < crate::text::decimal(n).len() ==> #[trigger] crate::text::decimal(n)[i] != '.'
                && crate::text::decimal(n)[i] != ':' && crate::text::decimal(n)[i] != '-',
{
    crate::text::law_decimal_reads_back(n);
    crate::text_laws::law_numbers_are_written_in_digits(n);
    let s = crate::text::decimal(n);
    if n >= 10 {
        assert(s.len() == crate::text::decimal(n / 10).len() + 1);
        if n >= 100 {
            assert(crate::text::decimal(n / 10).len() == crate::text::decimal(n / 10 / 10).len()
                + 1);
        }
    }
    assert forall|i: int| 0 <= i < s.len() implies #[trigger] s[i] != '.' && s[i] != ':' && s[i]
        != '-' by {
        assert('0' <= s[i] && s[i] <= '9');
    }
}

/// Four octets with points between them spell the address they make up, the
/// first the most significant.
pub proof fn law_dotted_addresses_read_back(a: nat, b: nat, c: nat, d: nat)
    requires
        a < 256,
        b < 256,
        c < 256,
        d < 256,
    ensures
        crate::net::dotted(quad(a, b, c, d)) == Some(
            (((a * 256 + b) * 256 + c) * 256 + d) as u32,
        ),
        crate::net::address(quad(a, b, c, d)) == Some(
            IpAddr::V4((((a * 256 + b) * 256 + c) * 256 + d) as u32),
        ),
{
    let pa = crate::text::decimal(a);
    let pb = crate::text::decimal(b);
    let pc = crate::text::decimal(c);
    let pd = crate::text::decimal(d);
    lemma_octet(a);
    lemma_octet(b);
    lemma_octet(c);
    lemma_octet(d);
    lemma_one_piece(pa, '.');
    lemma_one_more_piece(pa, '.', pb);
    lemma_one_more_piece(pa + seq!['.'] + pb, '.', pc);
    lemma_one_more_piece(pa + seq!['.'] + pb + seq!['.'] + pc, '.', pd);
    let p = crate::text::pieces(quad(a, b, c, d), '.');
    assert(p =~= seq![pa, pb, pc, pd]);
}

/// A dotted address, a colon and a port spell that address and port.
pub proof fn law_endpoints_read_back(a: nat, b: nat, c: nat, d: nat, port: u16)
    requires
        a < 256,
        b < 256,
        c < 256,
        d < 256,
    ensures
        crate::net::endpoint(quad(a, b, c, d) + seq![':'] + crate::text::decimal(port as nat))
            == Some(
            SocketAddr {
                ip: IpAddr::V4((((a * 256 + b) * 256 + c) * 256 + d) as u32),
                port,
                scope_id: 0,
            },
        ),
{
    let front = quad(a, b, c, d);
    let tail = crate::text::decimal(port as nat);
    let s = front + seq![':'] + tail;
    law_dotted_addresses_read_back(a, b, c, d);
    lemma_octet(a);
    lemma_octet(b);
    lemma_octet(c);
    lemma_octet(d);
    crate::text::law_decimal_reads_back(port as nat);
    crate::text_laws::law_numbers_are_written_in_digits(a);
    let pa = crate::text::decimal(a);
    let pb = crate::text::decimal(b);
    let pc = crate::text::decimal(c);
    let pd = crate::text::decimal(d);
    assert(seq!['.'][0] == '.');
    assert forall|i: int| 0 <= i < front.len() implies #[trigger] front[i] != ':' by {
        let la = pa.len();
        let lb = la + 1 + pb.len();
        let lc = lb + 1 + pc.len();
        if i < la {
            assert(front[i] == pa[i]);
        } else if i == la {
            assert(front[i] == '.');
        } else if i < lb {
            assert(front[i] == pb[i - la - 1]);
        } else if i == lb {
            assert(front[i] == '.');
        } else if i < lc {
            assert(front[i] == pc[i - lb - 1]);
        } else if i == lc {
            assert(front[i] == '.');
        } else {
            assert(front[i] == pd[i - lc - 1]);
        }
    }
    crate::text_laws::lemma_first_after(front, ':', tail);
    assert(s.take(front.len() as int) =~= front);
    assert(s.skip(front.len() as int + 1) =~= tail);
    assert(s[0] == crate::text::decimal(a)[0]);
    assert('0' <= s[0] && s[0] <= '9');
}

/// A bracketed IPv6 address and a port spell that address and port.
pub proof fn law_bracketed_endpoints_read_back(v: Seq<char>, port: u16)
    requires
        crate::net::colons(v) is Some,
        forall|i: int| 0 <= i < v.len() ==> #[trigger] v[i] != ']' && v[i] != '%',
    ensures
        crate::net::endpoint(
            seq!['['] + v + seq![']'] + (seq![':'] + crate::text::decimal(port as nat)),
        ) == Some(
            SocketAddr { ip: IpAddr::V6(crate::net::colons(v)->0), port, scope_id: 0 },
        ),
{
    let tail = seq![':'] + crate::text::decimal(port as nat);
    let front = seq!['['] + v;
    let s = front + seq![']'] + tail;
    crate::text::law_decimal_reads_back(port as nat);
    assert forall|i: int| 0 <= i < front.len() implies #[trigger] front[i] != ']' by {
        if i > 0 {
            assert(front[i] == v[i - 1]);
        }
    }
    crate::text_laws::lemma_first_after(front, ']', tail);
    let k = front.len() as int;
    assert(s.subrange(1, k) =~= v);
    assert(s[k + 1] == ':');
    assert(s.skip(k + 2) =~= crate::text::decimal(port as nat));
    assert(s[0] == '[');
    crate::text_laws::lemma_none_first(v, '%');
}

/// A list of addresses is read whole or not at all: each entry in its place, or
/// the first entry that is no address.
pub proof fn law_address_lists(ps: Seq<Seq<char>>)
    ensures
        match crate::net::addresses(ps) {
            Ok(v) => v.len() == ps.len() && forall|i: int|
                0 <= i < ps.len() ==> crate::net::address(#[trigger] ps[i]) == Some(v[i]),
            Err(bad) => exists|k: int|
                0 <= k < ps.len() && #[trigger] ps[k] == bad && crate::net::address(bad) is None
                    && forall|i: int| 0 <= i < k ==> crate::net::address(#[trigger] ps[i]) is Some,
        },
    decreases ps.len(),
{
    if ps.len() > 0 {
        let rest = ps.drop_last();
        let last = ps.len() - 1;
        law_address_lists(rest);
        assert(forall|i: int| 0 <= i < rest.len() ==> rest[i] == #[trigger] ps[i]);
        match crate::net::addresses(rest) {
            Ok(v) => {
                assert forall|i: int| 0 <= i < last implies crate::net::address(
                    #[trigger] ps[i],
                ) == Some(v[i]) by {
                    assert(crate::net::address(rest[i]) == Some(v[i]));
                }
                if crate::net::address(ps.last()) is None {
                    assert(ps[last] == ps.last());
                }
            },
            Err(bad) => {
                let k = choose|k: int|
                    0 <= k < rest.len() && #[trigger] rest[k] == bad && crate::net::address(
                        bad,
                    ) is None && forall|i: int|
                        0 <= i < k ==> crate::net::address(#[trigger] rest[i]) is Some;
                assert(ps[k] == bad);
                assert forall|i: int| 0 <= i < k implies crate::net::address(
                    #[trigger] ps[i],
                ) is Some by {
                    assert(crate::net::address(rest[i]) is Some);
                }
            },
        }
    }
}

/// Four octets as they are written have no colon in them.
pub proof fn lemma_quad_has_no_colon(a: nat, b: nat, c: nat, d: nat)
    ensures
        forall|i: int| 0 <= i < quad(a, b, c, d).len() ==> #[trigger] quad(a, b, c, d)[i] != ':',
{
    let front = quad(a, b, c, d);
    let pa = crate::text::decimal(a);
    let pb = crate::text::decimal(b);
    let pc = crate::text::decimal(c);
    let pd = crate::text::decimal(d);
    crate::text_laws::law_numbers_are_written_in_digits(a);
    crate::text_laws::law_numbers_are_written_in_digits(b);
    crate::text_laws::law_numbers_are_written_in_digits(c);
    crate::text_laws::law_numbers_are_written_in_digits(d);
    assert forall|i: int| 0 <= i < front.len() implies #[trigger] front[i] != ':' by {
        let la = pa.len();
        let lb = la + 1 + pb.len();
        let lc = lb + 1 + pc.len();
        if i < la {
            assert(front[i] == pa[i]);
        } else if i == la {
            assert(front[i] == '.');
        } else if i < lb {
            assert(front[i] == pb[i - la - 1]);
        } else if i == lb {
            assert(front[i] == '.');
        } else if i < lc {
            assert(front[i] == pc[i - lb - 1]);
        } else if i == lc {
            assert(front[i] == '.');
        } else {
            assert(front[i] == pd[i - lc - 1]);
        }
    }
}

proof fn lemma_group(n: nat)
    requires
        n < 0x1_0000,
    ensures
        ({
            let s = crate::text::hex(n, 4, false);
            &&& s.len() == 4
            &&& crate::net::group(s) == Some(n)
            &&& crate::net::dotted(s) is None
            &&& forall|i: int| 0 <= i < s.len() ==> #[trigger] s[i] != ':' && s[i] != '.'
        }),
{
    let s = crate::text::hex(n, 4, false);
    crate::cli::laws::lemma_hex(n, 4);
    reveal_with_fuel(crate::cli::laws::sixteen_to, 5);
    assert forall|i: int| 0 <= i < s.len() implies #[trigger] s[i] != ':' && s[i] != '.' by {
        assert(crate::text::digit(s[i], 16) is Some);
    }
    lemma_one_piece(s, '.');
}

/// Eight groups as they are written.
pub open spec fn eight_groups(g: Seq<nat>) -> Seq<char>
    recommends
        g.len() == 8,
{
    crate::text::hex(g[0], 4, false) + seq![':'] + crate::text::hex(g[1], 4, false) + seq![':']
        + crate::text::hex(g[2], 4, false) + seq![':'] + crate::text::hex(g[3], 4, false) + seq![
        ':',
    ] + crate::text::hex(g[4], 4, false) + seq![':'] + crate::text::hex(g[5], 4, false) + seq![':']
        + crate::text::hex(g[6], 4, false) + seq![':'] + crate::text::hex(g[7], 4, false)
}

proof fn lemma_no_gap(s: Seq<char>)
    requires
        forall|i: int| 0 <= i && i + 1 < s.len() ==> !(#[trigger] s[i] == ':' && s[i + 1] == ':'),
    ensures
        crate::net::gap(s) is None,
    decreases s.len(),
{
    if s.len() >= 2 {
        assert(!(s[0] == ':' && s[1] == ':'));
        let rest = s.skip(1);
        assert forall|i: int| 0 <= i && i + 1 < rest.len() implies !(#[trigger] rest[i] == ':'
            && rest[i + 1] == ':') by {
            assert(!(s[i + 1] == ':' && s[i + 2] == ':'));
            assert(rest[i] == s[i + 1] && rest[i + 1] == s[i + 2]);
        }
        lemma_no_gap(rest);
    }
}

/// Eight groups of four hexadecimal digits, with colons between them, spell the
/// IPv6 address they make up, the first the most significant.
pub proof fn law_full_v6_addresses_read_back(g: Seq<nat>)
    requires
        g.len() == 8,
        forall|i: int| 0 <= i < 8 ==> #[trigger] g[i] < 0x1_0000,
    ensures
        crate::net::colons(eight_groups(g)) == Some(crate::net::bits(g) as u128),
        crate::net::bits(g) == ((((((g[0] * 0x1_0000 + g[1]) * 0x1_0000 + g[2]) * 0x1_0000 + g[3])
            * 0x1_0000 + g[4]) * 0x1_0000 + g[5]) * 0x1_0000 + g[6]) * 0x1_0000 + g[7],
{
    let s = eight_groups(g);
    let h = Seq::new(8, |i: int| crate::text::hex(g[i], 4, false));
    assert forall|i: int| 0 <= i < 8 implies (#[trigger] h[i]).len() == 4 && crate::net::group(h[i])
        == Some(g[i]) && crate::net::dotted(h[i]) is None && forall|k: int|
        0 <= k < 4 ==> #[trigger] h[i][k] != ':' by {
        assert(g[i] < 0x1_0000);
        lemma_group(g[i]);
    }
    lemma_one_piece(h[0], ':');
    let s1 = h[0] + seq![':'] + h[1];
    let s2 = s1 + seq![':'] + h[2];
    let s3 = s2 + seq![':'] + h[3];
    let s4 = s3 + seq![':'] + h[4];
    let s5 = s4 + seq![':'] + h[5];
    let s6 = s5 + seq![':'] + h[6];
    lemma_one_more_piece(h[0], ':', h[1]);
    lemma_one_more_piece(s1, ':', h[2]);
    lemma_one_more_piece(s2, ':', h[3]);
    lemma_one_more_piece(s3, ':', h[4]);
    lemma_one_more_piece(s4, ':', h[5]);
    lemma_one_more_piece(s5, ':', h[6]);
    lemma_one_more_piece(s6, ':', h[7]);
    assert(s == s6 + seq![':'] + h[7]);
    let p = crate::text::pieces(s, ':');
    assert(p =~= h);
    lemma_eight_places(h, s);
    lemma_no_gap(s);
    lemma_groups(h, g, 8);
    assert(g.take(8) =~= g);
    lemma_eight_bits(g);
}

proof fn lemma_eight_bits(g: Seq<nat>)
    requires
        g.len() == 8,
    ensures
        crate::net::bits(g) == ((((((g[0] * 0x1_0000 + g[1]) * 0x1_0000 + g[2]) * 0x1_0000 + g[3])
            * 0x1_0000 + g[4]) * 0x1_0000 + g[5]) * 0x1_0000 + g[6]) * 0x1_0000 + g[7],
{
    let g7 = g.drop_last();
    let g6 = g7.drop_last();
    let g5 = g6.drop_last();
    let g4 = g5.drop_last();
    let g3 = g4.drop_last();
    let g2 = g3.drop_last();
    let g1 = g2.drop_last();
    assert(crate::net::bits(g1.drop_last()) == 0);
    assert(crate::net::bits(g1) == g[0]);
    assert(crate::net::bits(g2) == g[0] * 0x1_0000 + g[1]);
    assert(crate::net::bits(g3) == crate::net::bits(g2) * 0x1_0000 + g[2]);
    assert(crate::net::bits(g4) == crate::net::bits(g3) * 0x1_0000 + g[3]);
    assert(crate::net::bits(g5) == crate::net::bits(g4) * 0x1_0000 + g[4]);
    assert(crate::net::bits(g6) == crate::net::bits(g5) * 0x1_0000 + g[5]);
    assert(crate::net::bits(g7) == crate::net::bits(g6) * 0x1_0000 + g[6]);
    assert(crate::net::bits(g) == crate::net::bits(g7) * 0x1_0000 + g[7]);
}

proof fn lemma_groups(h: Seq<Seq<char>>, g: Seq<nat>, n: int)
    requires
        h.len() == 8,
        g.len() == 8,
        0 <= n <= 8,
        forall|i: int|
            0 <= i < 8 ==> crate::net::group(#[trigger] h[i]) == Some(g[i]) && crate::net::dotted(
                h[i],
            ) is None,
    ensures
        crate::net::groups_of(h, n, true) == Some(g.take(n)),
    decreases n,
{
    if n > 0 {
        lemma_groups(h, g, n - 1);
        assert(crate::net::group(h[n - 1]) == Some(g[n - 1]));
        assert(g.take(n) =~= g.take(n - 1).push(g[n - 1]));
    } else {
        assert(g.take(0) =~= Seq::<nat>::empty());
    }
}

/// In eight groups of four characters every fifth character is a colon, and no
/// other.
proof fn lemma_eight_places(h: Seq<Seq<char>>, s: Seq<char>)
    requires
        h.len() == 8,
        forall|i: int| 0 <= i < 8 ==> (#[trigger] h[i]).len() == 4,
        forall|i: int, k: int| 0 <= i < 8 && 0 <= k < 4 ==> #[trigger] h[i][k] != ':',
        s == h[0] + seq![':'] + h[1] + seq![':'] + h[2] + seq![':'] + h[3] + seq![':'] + h[4]
            + seq![':'] + h[5] + seq![':'] + h[6] + seq![':'] + h[7],
    ensures
        s.len() == 39,
        forall|i: int| 0 <= i && i + 1 < s.len() ==> !(#[trigger] s[i] == ':' && s[i + 1] == ':'),
{
    assert(h[0].len() == 4 && h[1].len() == 4 && h[2].len() == 4 && h[3].len() == 4);
    assert(h[4].len() == 4 && h[5].len() == 4 && h[6].len() == 4 && h[7].len() == 4);
    assert forall|i: int| 0 <= i < 39 && i % 5 != 4 implies #[trigger] s[i] != ':' by {
        let k = i % 5;
        if i < 4 {
            assert(s[i] == h[0][k]);
        } else if i < 9 {
            assert(s[i] == h[1][k]);
        } else if i < 14 {
            assert(s[i] == h[2][k]);
        } else if i < 19 {
            assert(s[i] == h[3][k]);
        } else if i < 24 {
            assert(s[i] == h[4][k]);
        } else if i < 29 {
            assert(s[i] == h[5][k]);
        } else if i < 34 {
            assert(s[i] == h[6][k]);
        } else {
            assert(s[i] == h[7][k]);
        }
    }
    assert forall|i: int| 0 <= i && i + 1 < s.len() implies !(#[trigger] s[i] == ':' && s[i + 1]
        == ':') by {
        if i % 5 == 4 {
            assert(s[i + 1] != ':');
        } else {
            assert(s[i] != ':');
        }
    }
}

/// A list of one address is that address.
pub proof fn law_a_list_of_one_address(a: nat, b: nat, c: nat, d: nat)
    requires
        a < 256,
        b < 256,
        c < 256,
        d < 256,
    ensures
        crate::net::address_list(Some(quad(a, b, c, d))) == Ok::<Seq<IpAddr>, Seq<char>>(
            seq![IpAddr::V4((((a * 256 + b) * 256 + c) * 256 + d) as u32)],
        ),
        crate::net::address_list(None) == Ok::<Seq<IpAddr>, Seq<char>>(Seq::empty()),
{
    let s = quad(a, b, c, d);
    law_dotted_addresses_read_back(a, b, c, d);
    crate::discovery::reading_laws::lemma_quad(a, b, c, d);
    crate::discovery::reading_laws::lemma_not_trimmed(s);
    lemma_quad_has_no_comma(a, b, c, d);
    lemma_one_piece(s, ',');
    let ps = seq![s];
    assert(ps.drop_last() =~= Seq::<Seq<char>>::empty());
    assert(crate::text::entries_of(ps.drop_last()) =~= Seq::<Seq<char>>::empty());
    assert(crate::text::entries_of(ps) =~= ps);
    assert(crate::net::addresses(ps.drop_last()) == Ok::<Seq<IpAddr>, Seq<char>>(Seq::empty()));
    let ip = IpAddr::V4((((a * 256 + b) * 256 + c) * 256 + d) as u32);
    assert(Seq::<IpAddr>::empty().push(ip) =~= seq![ip]);
}

proof fn lemma_quad_has_no_comma(a: nat, b: nat, c: nat, d: nat)
    ensures
        forall|i: int| 0 <= i < quad(a, b, c, d).len() ==> #[trigger] quad(a, b, c, d)[i] != ',',
{
    let front = quad(a, b, c, d);
    let pa = crate::text::decimal(a);
    let pb = crate::text::decimal(b);
    let pc = crate::text::decimal(c);
    let pd = crate::text::decimal(d);
    crate::text_laws::law_numbers_are_written_in_digits(a);
    crate::text_laws::law_numbers_are_written_in_digits(b);
    crate::text_laws::law_numbers_are_written_in_digits(c);
    crate::text_laws::law_numbers_are_written_in_digits(d);
    assert forall|i: int| 0 <= i < front.len() implies #[trigger] front[i] != ',' by {
        let la = pa.len();
        let lb = la + 1 + pb.len();
        let lc = lb + 1 + pc.len();
        if i < la {
            assert(front[i] == pa[i]);
        } else if i == la {
            assert(front[i] == '.');
        } else if i < lb {
            assert(front[i] == pb[i - la - 1]);
        } else if i == lb {
            assert(front[i] == '.');
        } else if i < lc {
            assert(front[i] == pc[i - lb - 1]);
        } else if i == lc {
            assert(front[i] == '.');
        } else {
            assert(front[i] == pd[i - lc - 1]);
        }
    }
}

} // verus!
