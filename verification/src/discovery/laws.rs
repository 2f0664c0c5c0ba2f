//! What a report on a site says of the site: which conditions are reported,
//! under which code, how severe, and with which figures.

use vstd::prelude::*;

use crate::discovery::findings::{
    ArpEntry, DhcpLease, FindingView, InterfaceStats, NeighbourAp, Radio, Severity, Snapshot,
    WifiClient,
};

verus! {

/// `s` starts with `front`.
pub open spec fn opens_with(s: Seq<char>, front: Seq<char>) -> bool {
    front.len() <= s.len() && s.take(front.len() as int) == front
}

/// `p` is `part` out of `whole` in percent, to the nearest whole number.
pub open spec fn is_percentage(p: nat, part: nat, whole: nat) -> bool {
    -(whole as int) <= 2 * (100 * part - p * whole) <= whole
}

pub proof fn lemma_opens(front: Seq<char>, tail: Seq<char>)
    ensures
        opens_with(front + tail, front),
{
    assert((front + tail).take(front.len() as int) =~= front);
}

/// A rounded quotient is at most half off.
pub proof fn lemma_rounded(a: nat, b: nat)
    requires
        b > 0,
    ensures
        -(b as int) <= 2 * (a - crate::round::rounded_quotient(a, b) * b) <= b,
{
    let q = a as int / b as int;
    vstd::arithmetic::div_mod::lemma_fundamental_div_mod(a as int, b as int);
    vstd::arithmetic::div_mod::lemma_mod_bound(a as int, b as int);
    assert(b * q == q * b) by (nonlinear_arith);
    assert((q + 1) * b == q * b + b) by (nonlinear_arith);
}

/// The lines are those of the elements that are picked.
pub proof fn lemma_lines<A>(s: Seq<A>, p: spec_fn(A) -> bool, f: spec_fn(A) -> Seq<char>)
    ensures
        crate::discovery::group::lines(s, p, f) == s.filter(p).map_values(f),
        crate::discovery::group::count(s, p) == s.filter(p).len(),
    decreases s.len(),
{
    reveal(Seq::filter);
    if s.len() > 0 {
        let rest = s.drop_last();
        lemma_lines(rest, p, f);
        if p(s.last()) {
            assert(s.filter(p).map_values(f) =~= rest.filter(p).map_values(f).push(f(s.last())));
        }
    } else {
        assert(s.filter(p).map_values(f) =~= Seq::empty());
    }
}

/// Two predicates that agree pick the same elements.
pub proof fn lemma_same_filter<A>(s: Seq<A>, p: spec_fn(A) -> bool, q: spec_fn(A) -> bool)
    requires
        forall|x: A| #[trigger] p(x) == q(x),
    ensures
        s.filter(p) == s.filter(q),
    decreases s.len(),
{
    reveal(Seq::filter);
    if s.len() > 0 {
        lemma_same_filter(s.drop_last(), p, q);
        assert(p(s.last()) == q(s.last()));
    }
}

/// Something is picked exactly when there is something to pick.
pub proof fn lemma_picked<A>(s: Seq<A>, p: spec_fn(A) -> bool)
    ensures
        s.filter(p).len() > 0 <==> exists|i: int| 0 <= i < s.len() && p(#[trigger] s[i]),
        forall|i: int|
            0 <= i < s.filter(p).len() ==> s.contains(#[trigger] s.filter(p)[i]) && p(
                s.filter(p)[i],
            ),
{
    if s.filter(p).len() > 0 {
        s.lemma_filter_pred(p, 0);
        assert(s.filter(p).contains(s.filter(p)[0]));
        s.lemma_filter_contains_rev(p, s.filter(p)[0]);
        let i = choose|i: int| 0 <= i < s.len() && s[i] == s.filter(p)[0];
        assert(p(s[i]));
    }
    if exists|i: int| 0 <= i < s.len() && p(#[trigger] s[i]) {
        let i = choose|i: int| 0 <= i < s.len() && p(#[trigger] s[i]);
        s.lemma_filter_contains(p, i);
    }
    assert forall|i: int| 0 <= i < s.filter(p).len() implies s.contains(#[trigger] s.filter(p)[i])
        && p(s.filter(p)[i]) by {
        s.lemma_filter_pred(p, i);
        assert(s.filter(p).contains(s.filter(p)[i]));
        s.lemma_filter_contains_rev(p, s.filter(p)[i]);
    }
}

/// Each rule has a code of its own.
proof fn lemma_codes()
    ensures
        "wifi.slow_client_airtime"@.len() == 24,
        "wifi.weak_signal"@.len() == 16,
        "wifi.rate_signal_mismatch"@.len() == 25,
        "wifi.band_steering_opportunity"@.len() == 30,
        "wifi.co_channel_contention"@.len() == 26,
        "network.broadcast_storm"@.len() == 23,
        "network.duplicate_address"@.len() == 25,
        "network.unleased_device"@.len() == 23,
        "network.dhcp_pool_pressure"@.len() == 26,
        "wifi.rate_signal_mismatch"@ != "network.duplicate_address"@,
        "wifi.co_channel_contention"@ != "network.dhcp_pool_pressure"@,
        "network.broadcast_storm"@ != "network.unleased_device"@,
{
    reveal_strlit("wifi.slow_client_airtime");
    reveal_strlit("wifi.weak_signal");
    reveal_strlit("wifi.rate_signal_mismatch");
    reveal_strlit("wifi.band_steering_opportunity");
    reveal_strlit("wifi.co_channel_contention");
    reveal_strlit("network.broadcast_storm");
    reveal_strlit("network.duplicate_address");
    reveal_strlit("network.unleased_device");
    reveal_strlit("network.dhcp_pool_pressure");
    assert("wifi.rate_signal_mismatch"@[0] == 'w');
    assert("network.duplicate_address"@[0] == 'n');
    assert("wifi.co_channel_contention"@[0] == 'w');
    assert("network.dhcp_pool_pressure"@[0] == 'n');
    assert("network.broadcast_storm"@[8] == 'b');
    assert("network.unleased_device"@[8] == 'u');
}

/// Everything in `v` is under the code `code`.
spec fn all_under(v: Seq<FindingView>, code: Seq<char>) -> bool {
    forall|i: int| 0 <= i < v.len() ==> (#[trigger] v[i]).code == code
}

proof fn lemma_airtime_under(clients: Seq<WifiClient>, radios: Seq<Seq<char>>)
    ensures
        all_under(
            crate::discovery::findings::airtime_over(clients, radios),
            "wifi.slow_client_airtime"@,
        ),
    decreases radios.len(),
{
    if radios.len() > 0 {
        lemma_airtime_under(clients, radios.drop_last());
    }
}

proof fn lemma_contention_under(radios: Seq<Radio>, aps: Seq<NeighbourAp>)
    ensures
        all_under(
            crate::discovery::findings::contention_over(radios, aps),
            "wifi.co_channel_contention"@,
        ),
    decreases radios.len(),
{
    if radios.len() > 0 {
        lemma_contention_under(radios.drop_last(), aps);
    }
}

proof fn lemma_storms_under(s: Seq<InterfaceStats>)
    ensures
        all_under(crate::discovery::findings::storms_over(s), "network.broadcast_storm"@),
    decreases s.len(),
{
    if s.len() > 0 {
        lemma_storms_under(s.drop_last());
    }
}

proof fn lemma_duplicates_under(arp: Seq<ArpEntry>, addrs: Seq<Seq<char>>)
    ensures
        all_under(
            crate::discovery::findings::duplicates_over(arp, addrs),
            "network.duplicate_address"@,
        ),
    decreases addrs.len(),
{
    if addrs.len() > 0 {
        lemma_duplicates_under(arp, addrs.drop_last());
    }
}

proof fn lemma_contains_add(a: Seq<FindingView>, b: Seq<FindingView>, f: FindingView)
    ensures
        (a + b).contains(f) <==> a.contains(f) || b.contains(f),
{
    if a.contains(f) {
        let k = choose|k: int| 0 <= k < a.len() && a[k] == f;
        assert((a + b)[k] == f);
    }
    if b.contains(f) {
        let k = choose|k: int| 0 <= k < b.len() && b[k] == f;
        assert((a + b)[a.len() + k] == f);
    }
    if (a + b).contains(f) {
        let k = choose|k: int| 0 <= k < (a + b).len() && (a + b)[k] == f;
        if k < a.len() {
            assert(a[k] == f);
        } else {
            assert(b[k - a.len()] == f);
        }
    }
}

/// The report says under each code what the rule of that code says.
proof fn lemma_by_code(s: Snapshot, f: FindingView)
    ensures
        ({
            let out = crate::discovery::findings::by_severity(
                crate::discovery::findings::all_of(s),
            );
            &&& f.code == "wifi.slow_client_airtime"@ ==> (out.contains(f)
                <==> crate::discovery::findings::slow_client_airtime_of(s).contains(f))
            &&& f.code == "wifi.weak_signal"@ ==> (out.contains(f)
                <==> crate::discovery::findings::weak_signal_of(s).contains(f))
            &&& f.code == "wifi.rate_signal_mismatch"@ ==> (out.contains(f)
                <==> crate::discovery::findings::rate_signal_mismatch_of(s).contains(f))
            &&& f.code == "wifi.band_steering_opportunity"@ ==> (out.contains(f)
                <==> crate::discovery::findings::band_steering_of(s).contains(f))
            &&& f.code == "wifi.co_channel_contention"@ ==> (out.contains(f)
                <==> crate::discovery::findings::co_channel_of(s).contains(f))
            &&& f.code == "network.broadcast_storm"@ ==> (out.contains(f)
                <==> crate::discovery::findings::broadcast_storm_of(s).contains(f))
            &&& f.code == "network.duplicate_address"@ ==> (out.contains(f)
                <==> crate::discovery::findings::duplicate_addresses_of(s).contains(f))
            &&& f.code == "network.unleased_device"@ ==> (out.contains(f)
                <==> crate::discovery::findings::unleased_of(s).contains(f))
            &&& f.code == "network.dhcp_pool_pressure"@ ==> (out.contains(f)
                <==> crate::discovery::findings::pool_pressure_of(s).contains(f))
        }),
{
    let p1 = crate::discovery::findings::slow_client_airtime_of(s);
    let p2 = crate::discovery::findings::weak_signal_of(s);
    let p3 = crate::discovery::findings::rate_signal_mismatch_of(s);
    let p4 = crate::discovery::findings::band_steering_of(s);
    let p5 = crate::discovery::findings::co_channel_of(s);
    let p6 = crate::discovery::findings::broadcast_storm_of(s);
    let p7 = crate::discovery::findings::duplicate_addresses_of(s);
    let p8 = crate::discovery::findings::unleased_of(s);
    let p9 = crate::discovery::findings::pool_pressure_of(s);
    let all = crate::discovery::findings::all_of(s);
    lemma_codes();
    crate::order::lemma_arranged_contains(
        all,
        |f: FindingView| crate::discovery::findings::severity_rank(f.severity),
        f,
    );
    lemma_contains_add(p1, p2, f);
    lemma_contains_add(p1 + p2, p3, f);
    lemma_contains_add(p1 + p2 + p3, p4, f);
    lemma_contains_add(p1 + p2 + p3 + p4, p5, f);
    lemma_contains_add(p1 + p2 + p3 + p4 + p5, p6, f);
    lemma_contains_add(p1 + p2 + p3 + p4 + p5 + p6, p7, f);
    lemma_contains_add(p1 + p2 + p3 + p4 + p5 + p6 + p7, p8, f);
    lemma_contains_add(p1 + p2 + p3 + p4 + p5 + p6 + p7 + p8, p9, f);
    lemma_airtime_under(
        s.clients@,
        crate::discovery::group::names_of(
            s.clients@,
            |c: WifiClient| true,
            |c: WifiClient| c.interface@,
        ),
    );
    lemma_contention_under(s.radios@, s.neighbour_aps@);
    lemma_storms_under(s.interfaces@);
    lemma_duplicates_under(
        s.arp@,
        crate::discovery::group::names_of(
            s.arp@,
            |e: ArpEntry| e.complete,
            |e: ArpEntry| e.address@,
        ),
    );
    assert(all_under(p1, "wifi.slow_client_airtime"@));
    assert(all_under(p2, "wifi.weak_signal"@));
    assert(all_under(p3, "wifi.rate_signal_mismatch"@));
    assert(all_under(p4, "wifi.band_steering_opportunity"@));
    assert(all_under(p5, "wifi.co_channel_contention"@));
    assert(all_under(p6, "network.broadcast_storm"@));
    assert(all_under(p7, "network.duplicate_address"@));
    assert(all_under(p8, "network.unleased_device"@));
    assert(all_under(p9, "network.dhcp_pool_pressure"@));
}

/// The interface is running and takes 500 broadcast and multicast frames a
/// second, or more.
pub open spec fn is_flooded(i: InterfaceStats) -> bool {
    i.running && i.rx_broadcast_per_s + i.rx_multicast_per_s >= 500
}

/// The finding is critical and gives the interface, its broadcast and multicast
/// frames together, and their share of what it receives.
pub open spec fn tells_of_flood(f: FindingView, i: InterfaceStats, share: nat) -> bool {
    &&& f.code == "network.broadcast_storm"@
    &&& f.severity == Severity::Critical
    &&& opens_with(
        f.summary,
        i.name@ + " is receiving "@ + crate::text::decimal(
            (i.rx_broadcast_per_s + i.rx_multicast_per_s) as nat,
        ) + " broadcast/multicast frames per second ("@ + crate::text::decimal(share),
    )
    &&& i.rx_packets_per_s > 0 ==> is_percentage(
        share,
        (i.rx_broadcast_per_s + i.rx_multicast_per_s) as nat,
        i.rx_packets_per_s as nat,
    )
    &&& i.rx_packets_per_s == 0 ==> share == 100
    &&& f.evidence.len() == 2
    &&& f.evidence[0] == "broadcast "@ + crate::text::decimal(i.rx_broadcast_per_s as nat)
        + "/s, multicast "@ + crate::text::decimal(i.rx_multicast_per_s as nat) + "/s"@
    &&& f.evidence[1] == "total rx "@ + crate::text::decimal(i.rx_packets_per_s as nat)
        + " packets/s"@
}

proof fn lemma_storms(s: Seq<InterfaceStats>)
    ensures
        forall|k: int|
            0 <= k < s.len() && is_flooded(#[trigger] s[k])
                ==> crate::discovery::findings::storms_over(s).contains(
                crate::discovery::findings::storm_view(s[k]),
            ),
        forall|f: FindingView|
            crate::discovery::findings::storms_over(s).contains(f) ==> exists|k: int|
                0 <= k < s.len() && is_flooded(#[trigger] s[k]) && f
                    == crate::discovery::findings::storm_view(s[k]),
    decreases s.len(),
{
    if s.len() > 0 {
        let rest = s.drop_last();
        let before = crate::discovery::findings::storms_over(rest);
        let all = crate::discovery::findings::storms_over(s);
        let last = crate::discovery::findings::storm_view(s.last());
        lemma_storms(rest);
        assert forall|f: FindingView| before.contains(f) implies all.contains(f) by {
            let k = choose|k: int| 0 <= k < before.len() && before[k] == f;
            assert(all[k] == f);
        }
        assert forall|k: int| 0 <= k < s.len() && is_flooded(#[trigger] s[k]) implies all.contains(
            crate::discovery::findings::storm_view(s[k]),
        ) by {
            if k < rest.len() {
                assert(rest[k] == s[k]);
            } else {
                assert(all[before.len() as int] == last);
            }
        }
        assert forall|f: FindingView| all.contains(f) implies exists|k: int|
            0 <= k < s.len() && is_flooded(#[trigger] s[k]) && f
                == crate::discovery::findings::storm_view(s[k]) by {
            let j = choose|j: int| 0 <= j < all.len() && all[j] == f;
            if j < before.len() {
                assert(before[j] == f);
                assert(before.contains(f));
                let k = choose|k: int|
                    0 <= k < rest.len() && is_flooded(#[trigger] rest[k]) && f
                        == crate::discovery::findings::storm_view(rest[k]);
                assert(s[k] == rest[k]);
            } else {
                assert(is_flooded(s[s.len() - 1]));
            }
        }
    }
}

proof fn lemma_storm_tells(i: InterfaceStats)
    ensures
        tells_of_flood(
            crate::discovery::findings::storm_view(i),
            i,
            crate::discovery::findings::flooded_pct(i),
        ),
{
    let n = (i.rx_broadcast_per_s + i.rx_multicast_per_s) as nat;
    let share = crate::discovery::findings::flooded_pct(i);
    if i.rx_packets_per_s > 0 {
        lemma_rounded(n * 100, i.rx_packets_per_s as nat);
    }
    lemma_opens(
        i.name@ + " is receiving "@ + crate::text::decimal(n)
            + " broadcast/multicast frames per second ("@ + crate::text::decimal(share),
        crate::discovery::findings::STORM_TAIL@,
    );
}

/// A running interface on which broadcast and multicast frames together reach
/// 500 a second is reported as a storm, and nothing else is. In particular
/// multicast alone is enough.
pub proof fn law_every_storm_is_reported(s: Snapshot)
    ensures
        ({
            let out = crate::discovery::findings::by_severity(
                crate::discovery::findings::all_of(s),
            );
            &&& forall|k: int|
                0 <= k < s.interfaces@.len() && (#[trigger] s.interfaces@[k]).running
                    && s.interfaces@[k].rx_broadcast_per_s + s.interfaces@[k].rx_multicast_per_s
                    >= 500 ==> exists|j: int, share: nat|
                    0 <= j < out.len() && #[trigger] tells_of_flood(
                        out[j],
                        s.interfaces@[k],
                        share,
                    )
            &&& forall|k: int|
                0 <= k < s.interfaces@.len() && (#[trigger] s.interfaces@[k]).running
                    && s.interfaces@[k].rx_multicast_per_s >= 500 ==> exists|j: int, share: nat|
                    0 <= j < out.len() && #[trigger] tells_of_flood(
                        out[j],
                        s.interfaces@[k],
                        share,
                    )
            &&& forall|j: int|
                0 <= j < out.len() && (#[trigger] out[j]).code == "network.broadcast_storm"@
                    ==> exists|k: int, share: nat|
                    0 <= k < s.interfaces@.len() && is_flooded(s.interfaces@[k])
                        && #[trigger] tells_of_flood(out[j], s.interfaces@[k], share)
        }),
{
    let out = crate::discovery::findings::by_severity(crate::discovery::findings::all_of(s));
    lemma_storms(s.interfaces@);
    assert forall|k: int| 0 <= k < s.interfaces@.len() && is_flooded(#[trigger] s.interfaces@[k]) implies exists|j: int, share: nat|
        0 <= j < out.len() && #[trigger] tells_of_flood(out[j], s.interfaces@[k], share) by {
        let i = s.interfaces@[k];
        let f = crate::discovery::findings::storm_view(i);
        lemma_storm_tells(i);
        lemma_by_code(s, f);
        let j = choose|j: int| 0 <= j < out.len() && out[j] == f;
        assert(tells_of_flood(out[j], i, crate::discovery::findings::flooded_pct(i)));
    }
    assert forall|k: int|
        0 <= k < s.interfaces@.len() && (#[trigger] s.interfaces@[k]).running
            && s.interfaces@[k].rx_broadcast_per_s + s.interfaces@[k].rx_multicast_per_s
            >= 500 implies exists|j: int, share: nat|
        0 <= j < out.len() && #[trigger] tells_of_flood(out[j], s.interfaces@[k], share) by {
        assert(is_flooded(s.interfaces@[k]));
    }
    assert forall|k: int|
        0 <= k < s.interfaces@.len() && (#[trigger] s.interfaces@[k]).running
            && s.interfaces@[k].rx_multicast_per_s >= 500 implies exists|j: int, share: nat|
        0 <= j < out.len() && #[trigger] tells_of_flood(out[j], s.interfaces@[k], share) by {
        assert(is_flooded(s.interfaces@[k]));
    }
    assert forall|j: int|
        0 <= j < out.len() && (#[trigger] out[j]).code
            == "network.broadcast_storm"@ implies exists|k: int, share: nat|
        0 <= k < s.interfaces@.len() && is_flooded(s.interfaces@[k]) && #[trigger] tells_of_flood(
            out[j],
            s.interfaces@[k],
            share,
        ) by {
        assert(out.contains(out[j]));
        lemma_by_code(s, out[j]);
        let k = choose|k: int|
            0 <= k < s.interfaces@.len() && is_flooded(#[trigger] s.interfaces@[k]) && out[j]
                == crate::discovery::findings::storm_view(s.interfaces@[k]);
        lemma_storm_tells(s.interfaces@[k]);
        assert(tells_of_flood(
            out[j],
            s.interfaces@[k],
            crate::discovery::findings::flooded_pct(s.interfaces@[k]),
        ));
    }
}

/// A rule that says one thing or nothing: the report has what it says, and
/// under its code nothing else.
proof fn lemma_single(s: Snapshot, part: Seq<FindingView>, code: Seq<char>)
    requires
        part.len() <= 1,
        part.len() == 1 ==> part[0].code == code,
        forall|f: FindingView|
            f.code == code ==> (#[trigger] crate::discovery::findings::by_severity(
                crate::discovery::findings::all_of(s),
            ).contains(f) <==> part.contains(f)),
    ensures
        ({
            let out = crate::discovery::findings::by_severity(
                crate::discovery::findings::all_of(s),
            );
            &&& (exists|j: int| 0 <= j < out.len() && (#[trigger] out[j]).code == code)
                <==> part.len() == 1
            &&& forall|j: int|
                0 <= j < out.len() && (#[trigger] out[j]).code == code ==> part.len() == 1
                    && out[j] == part[0]
        }),
{
    let out = crate::discovery::findings::by_severity(crate::discovery::findings::all_of(s));
    assert forall|j: int| 0 <= j < out.len() && (#[trigger] out[j]).code == code implies part.len()
        == 1 && out[j] == part[0] by {
        assert(out.contains(out[j]));
        assert(part.contains(out[j]));
    }
    if part.len() == 1 {
        assert(part.contains(part[0]));
        assert(out.contains(part[0]));
        let j = choose|j: int| 0 <= j < out.len() && out[j] == part[0];
        assert(out[j].code == code);
    }
}

/// Clients below -75 dBm are reported in one warning that counts and lists
/// them, and there is none without such a client.
pub proof fn law_weak_clients_are_counted_and_listed(s: Snapshot)
    ensures
        ({
            let out = crate::discovery::findings::by_severity(
                crate::discovery::findings::all_of(s),
            );
            let weak = s.clients@.filter(|c: WifiClient| c.signal_dbm < -75);
            &&& (exists|j: int| 0 <= j < out.len() && (#[trigger] out[j]).code == "wifi.weak_signal"@)
                <==> weak.len() > 0
            &&& forall|j: int|
                0 <= j < out.len() && (#[trigger] out[j]).code == "wifi.weak_signal"@ ==> {
                    &&& out[j].severity == Severity::Warning
                    &&& opens_with(
                        out[j].summary,
                        crate::text::decimal(weak.len()) + " client(s) are below "@
                            + crate::text::decimal_int(-75) + " dBm"@,
                    )
                    &&& out[j].evidence.len() == weak.len()
                    &&& forall|k: int|
                        0 <= k < weak.len() ==> #[trigger] out[j].evidence[k] == weak[k].mac@
                            + " at "@ + crate::text::decimal_int(weak[k].signal_dbm as int)
                            + " dBm on "@ + weak[k].interface@
                }
        }),
{
    let weak = s.clients@.filter(|c: WifiClient| c.signal_dbm < -75);
    let p = |c: WifiClient| crate::discovery::findings::is_weak(c);
    let part = crate::discovery::findings::weak_signal_of(s);
    lemma_lines(s.clients@, p, |c: WifiClient| crate::discovery::findings::weak_line(c));
    lemma_same_filter(s.clients@, p, |c: WifiClient| c.signal_dbm < -75);
    assert forall|f: FindingView|
        f.code == "wifi.weak_signal"@ implies (#[trigger] crate::discovery::findings::by_severity(
        crate::discovery::findings::all_of(s),
    ).contains(f) <==> part.contains(f)) by {
        lemma_by_code(s, f);
    }
    lemma_single(s, part, "wifi.weak_signal"@);
    reveal_strlit(" dBm and are at the edge of usable coverage");
    reveal_strlit(" dBm");
    let whole = crate::discovery::findings::weak_summary(weak.len());
    let front = crate::text::decimal(weak.len()) + " client(s) are below "@
        + crate::text::decimal_int(-75) + " dBm"@;
    assert(whole.take(front.len() as int) =~= front);
}

/// Active clients with a strong signal and a low rate are reported in one
/// warning that counts and lists them, and there is none without one.
pub proof fn law_mismatched_clients_are_counted_and_listed(s: Snapshot)
    ensures
        ({
            let out = crate::discovery::findings::by_severity(
                crate::discovery::findings::all_of(s),
            );
            let odd = s.clients@.filter(
                |c: WifiClient|
                    c.last_activity_s <= 30 && c.signal_dbm >= -60 && c.tx_rate_bps <= 24_000_000,
            );
            &&& (exists|j: int|
                0 <= j < out.len() && (#[trigger] out[j]).code == "wifi.rate_signal_mismatch"@)
                <==> odd.len() > 0
            &&& forall|j: int|
                0 <= j < out.len() && (#[trigger] out[j]).code == "wifi.rate_signal_mismatch"@ ==> {
                    &&& out[j].severity == Severity::Warning
                    &&& opens_with(out[j].summary, crate::text::decimal(odd.len()))
                    &&& out[j].evidence.len() == odd.len()
                    &&& forall|k: int|
                        0 <= k < odd.len() ==> opens_with(
                            #[trigger] out[j].evidence[k],
                            odd[k].mac@ + " at "@ + crate::text::decimal_int(
                                odd[k].signal_dbm as int,
                            ) + " dBm but only "@ + crate::text::decimal(
                                (odd[k].tx_rate_bps / 1_000_000) as nat,
                            ) + " Mbit/s"@,
                        )
                }
        }),
{
    let q = |c: WifiClient|
        c.last_activity_s <= 30 && c.signal_dbm >= -60 && c.tx_rate_bps <= 24_000_000;
    let odd = s.clients@.filter(q);
    let p = |c: WifiClient| crate::discovery::findings::is_mismatched(c);
    let part = crate::discovery::findings::rate_signal_mismatch_of(s);
    lemma_lines(s.clients@, p, |c: WifiClient| crate::discovery::findings::mismatch_line(c));
    lemma_same_filter(s.clients@, p, q);
    assert forall|f: FindingView|
        f.code == "wifi.rate_signal_mismatch"@ implies (
    #[trigger] crate::discovery::findings::by_severity(
        crate::discovery::findings::all_of(s),
    ).contains(f) <==> part.contains(f)) by {
        lemma_by_code(s, f);
    }
    lemma_single(s, part, "wifi.rate_signal_mismatch"@);
    lemma_opens(crate::text::decimal(odd.len()), crate::discovery::findings::MISMATCH_TAIL@);
    reveal_strlit(" Mbit/s (");
    reveal_strlit(" Mbit/s");
    assert forall|c: WifiClient| #[trigger] opens_with(
        crate::discovery::findings::mismatch_line(c),
        c.mac@ + " at "@ + crate::text::decimal_int(c.signal_dbm as int) + " dBm but only "@
            + crate::text::decimal((c.tx_rate_bps / 1_000_000) as nat) + " Mbit/s"@,
    ) by {
        let front = c.mac@ + " at "@ + crate::text::decimal_int(c.signal_dbm as int)
            + " dBm but only "@ + crate::text::decimal((c.tx_rate_bps / 1_000_000) as nat)
            + " Mbit/s"@;
        assert(crate::discovery::findings::mismatch_line(c).take(front.len() as int) =~= front);
    }
    if part.len() == 1 {
        assert forall|k: int| 0 <= k < odd.len() implies opens_with(
            #[trigger] part[0].evidence[k],
            odd[k].mac@ + " at "@ + crate::text::decimal_int(odd[k].signal_dbm as int)
                + " dBm but only "@ + crate::text::decimal((odd[k].tx_rate_bps / 1_000_000) as nat)
                + " Mbit/s"@,
        ) by {
            assert(part[0].evidence[k] == crate::discovery::findings::mismatch_line(odd[k]));
        }
    }
}

/// Strong clients on 2.4 GHz are reported in one hint that counts and lists
/// them, where some radio is on 5 GHz; without such a client or such a radio
/// there is none.
pub proof fn law_steerable_clients_are_counted_and_listed(s: Snapshot)
    ensures
        ({
            let out = crate::discovery::findings::by_severity(
                crate::discovery::findings::all_of(s),
            );
            let movable = s.clients@.filter(
                |c: WifiClient|
                    (crate::text::has(c.band@, "2ghz"@) || crate::text::starts(c.band@, "2"@))
                        && c.signal_dbm >= -60,
            );
            &&& (exists|j: int|
                0 <= j < out.len() && (#[trigger] out[j]).code == "wifi.band_steering_opportunity"@)
                <==> movable.len() > 0 && exists|r: int|
                0 <= r < s.radios@.len() && crate::text::has(
                    (#[trigger] s.radios@[r]).band@,
                    "5ghz"@,
                )
            &&& forall|j: int|
                0 <= j < out.len() && (#[trigger] out[j]).code
                    == "wifi.band_steering_opportunity"@ ==> {
                    &&& out[j].severity == Severity::Info
                    &&& opens_with(out[j].summary, crate::text::decimal(movable.len()))
                    &&& out[j].evidence.len() == movable.len()
                    &&& forall|k: int|
                        0 <= k < movable.len() ==> #[trigger] out[j].evidence[k] == movable[k].mac@
                            + " at "@ + crate::text::decimal_int(movable[k].signal_dbm as int)
                            + " dBm on "@ + movable[k].ssid@
                }
        }),
{
    let q = |c: WifiClient|
        (crate::text::has(c.band@, "2ghz"@) || crate::text::starts(c.band@, "2"@)) && c.signal_dbm
            >= -60;
    let movable = s.clients@.filter(q);
    let p = |c: WifiClient| crate::discovery::findings::is_steerable(c);
    let five = |r: Radio| crate::discovery::findings::on_5ghz(r);
    let part = crate::discovery::findings::band_steering_of(s);
    lemma_lines(s.clients@, p, |c: WifiClient| crate::discovery::findings::steering_line(c));
    lemma_same_filter(s.clients@, p, q);
    lemma_lines(s.radios@, five, |r: Radio| r.name@);
    lemma_picked(s.radios@, five);
    if exists|r: int|
        0 <= r < s.radios@.len() && crate::text::has((#[trigger] s.radios@[r]).band@, "5ghz"@) {
        let r = choose|r: int|
            0 <= r < s.radios@.len() && crate::text::has((#[trigger] s.radios@[r]).band@, "5ghz"@);
        assert(five(s.radios@[r]));
    }
    if exists|r: int| 0 <= r < s.radios@.len() && five(#[trigger] s.radios@[r]) {
        let r = choose|r: int| 0 <= r < s.radios@.len() && five(#[trigger] s.radios@[r]);
        assert(crate::text::has(s.radios@[r].band@, "5ghz"@));
    }
    assert forall|f: FindingView|
        f.code == "wifi.band_steering_opportunity"@ implies (
    #[trigger] crate::discovery::findings::by_severity(
        crate::discovery::findings::all_of(s),
    ).contains(f) <==> part.contains(f)) by {
        lemma_by_code(s, f);
    }
    lemma_single(s, part, "wifi.band_steering_opportunity"@);
    lemma_opens(crate::text::decimal(movable.len()), crate::discovery::findings::STEERING_TAIL@);
}

/// Devices that answer but were not given their address by DHCP and hold no
/// lease are reported in one hint that counts and lists them. Without any lease
/// data nothing is said.
pub proof fn law_devices_without_a_lease_are_counted_and_listed(s: Snapshot)
    ensures
        ({
            let out = crate::discovery::findings::by_severity(
                crate::discovery::findings::all_of(s),
            );
            let stray = s.arp@.filter(
                |e: ArpEntry|
                    e.complete && !e.from_dhcp && forall|i: int|
                        0 <= i < s.leases@.len() ==> crate::text::uppered(
                            (#[trigger] s.leases@[i]).mac@,
                        ) != crate::text::uppered(e.mac@),
            );
            &&& (exists|j: int|
                0 <= j < out.len() && (#[trigger] out[j]).code == "network.unleased_device"@)
                <==> stray.len() > 0 && s.leases@.len() > 0
            &&& forall|j: int|
                0 <= j < out.len() && (#[trigger] out[j]).code == "network.unleased_device"@ ==> {
                    &&& out[j].severity == Severity::Info
                    &&& opens_with(out[j].summary, crate::text::decimal(stray.len()))
                    &&& out[j].evidence.len() == stray.len()
                    &&& forall|k: int|
                        0 <= k < stray.len() ==> #[trigger] out[j].evidence[k] == stray[k].address@
                            + " ("@ + stray[k].mac@ + ") on "@ + stray[k].interface@
                }
        }),
{
    let q = |e: ArpEntry|
        e.complete && !e.from_dhcp && forall|i: int|
            0 <= i < s.leases@.len() ==> crate::text::uppered((#[trigger] s.leases@[i]).mac@)
                != crate::text::uppered(e.mac@);
    let stray = s.arp@.filter(q);
    let p = |e: ArpEntry| crate::discovery::findings::is_stray(e, s.leases@);
    let part = crate::discovery::findings::unleased_of(s);
    lemma_lines(s.arp@, p, |e: ArpEntry| crate::discovery::findings::stray_line(e));
    lemma_same_filter(s.arp@, p, q);
    assert forall|f: FindingView|
        f.code == "network.unleased_device"@ implies (
    #[trigger] crate::discovery::findings::by_severity(
        crate::discovery::findings::all_of(s),
    ).contains(f) <==> part.contains(f)) by {
        lemma_by_code(s, f);
    }
    lemma_single(s, part, "network.unleased_device"@);
    lemma_opens(crate::text::decimal(stray.len()), crate::discovery::findings::UNLEASED_TAIL@);
}

/// A pool whose active leases take up 85 in 100 of it is reported, as a warning
/// below 95 in 100 and as critical from there on, with its share in percent. A
/// pool of unknown size, or an empty one, is not.
pub proof fn law_a_full_pool_is_reported(s: Snapshot)
    ensures
        ({
            let out = crate::discovery::findings::by_severity(
                crate::discovery::findings::all_of(s),
            );
            let active = s.leases@.filter(|l: DhcpLease| l.active).len();
            let size = s.dhcp_pool_size;
            &&& (exists|j: int|
                0 <= j < out.len() && (#[trigger] out[j]).code == "network.dhcp_pool_pressure"@)
                <==> size is Some && size->0 > 0 && active * 100 >= 85 * size->0
            &&& forall|j: int|
                0 <= j < out.len() && (#[trigger] out[j]).code
                    == "network.dhcp_pool_pressure"@ ==> {
                    &&& out[j].severity == if active * 100 >= 95 * size->0 {
                        Severity::Critical
                    } else {
                        Severity::Warning
                    }
                    &&& exists|share: nat| #[trigger]
                        is_percentage(share, active, size->0 as nat) && opens_with(
                            out[j].summary,
                            "DHCP pool is "@ + crate::text::decimal(share) + "% used ("@
                                + crate::text::decimal(active) + " of "@ + crate::text::decimal(
                                size->0 as nat,
                            ),
                        )
                }
        }),
{
    let p = |l: DhcpLease| l.active;
    let active = s.leases@.filter(p).len();
    let part = crate::discovery::findings::pool_pressure_of(s);
    lemma_lines(s.leases@, p, |l: DhcpLease| l.mac@);
    assert forall|f: FindingView|
        f.code == "network.dhcp_pool_pressure"@ implies (
    #[trigger] crate::discovery::findings::by_severity(
        crate::discovery::findings::all_of(s),
    ).contains(f) <==> part.contains(f)) by {
        lemma_by_code(s, f);
    }
    lemma_single(s, part, "network.dhcp_pool_pressure"@);
    if part.len() == 1 {
        let size = s.dhcp_pool_size->0 as nat;
        let share = crate::round::rounded_quotient(active * 100, size);
        lemma_rounded(active * 100, size);
        assert(is_percentage(share, active, size));
        lemma_opens(
            "DHCP pool is "@ + crate::text::decimal(share) + "% used ("@ + crate::text::decimal(
                active,
            ) + " of "@ + crate::text::decimal(size),
            crate::discovery::findings::POOL_TAIL@,
        );
    }
}

/// The radio's channel is known, and two neighbours or more are strong on it.
#[verifier::opaque]
pub open spec fn is_contended(r: Radio, aps: Seq<NeighbourAp>) -> bool {
    r.frequency_mhz is Some && aps.filter(
        |n: NeighbourAp| n.frequency_mhz == r.frequency_mhz->0 && n.signal_dbm >= -82,
    ).len() >= 2
}

/// The finding counts the neighbours on the radio's channel, names the radio
/// and the channel, and is critical from four neighbours on.
#[verifier::opaque]
pub open spec fn tells_of_contention(f: FindingView, r: Radio, aps: Seq<NeighbourAp>) -> bool {
    let on = aps.filter(
        |n: NeighbourAp| n.frequency_mhz == r.frequency_mhz->0 && n.signal_dbm >= -82,
    );
    &&& f.code == "wifi.co_channel_contention"@
    &&& f.severity == if on.len() >= 4 {
        Severity::Critical
    } else {
        Severity::Warning
    }
    &&& opens_with(
        f.summary,
        crate::text::decimal(on.len()) + " other access points share "@ + r.name@
            + "'s channel ("@ + crate::text::decimal(r.frequency_mhz->0 as nat),
    )
    &&& f.evidence.len() == on.len()
}

proof fn lemma_contention_on(r: Radio, aps: Seq<NeighbourAp>)
    ensures
        ({
            let v = crate::discovery::findings::contention_on(r, aps);
            &&& v.len() <= 1
            &&& v.len() == 1 <==> is_contended(r, aps)
            &&& v.len() == 1 ==> tells_of_contention(v[0], r, aps)
        }),
{
    reveal(tells_of_contention);
    reveal(is_contended);
    if r.frequency_mhz is Some {
        let freq = r.frequency_mhz->0;
        let q = |n: NeighbourAp| n.frequency_mhz == r.frequency_mhz->0 && n.signal_dbm >= -82;
        let p = |n: NeighbourAp| crate::discovery::findings::contends(n, freq);
        lemma_lines(aps, p, |n: NeighbourAp| crate::discovery::findings::contender_line(n));
        lemma_same_filter(aps, p, q);
        lemma_opens(
            crate::text::decimal(aps.filter(q).len()) + " other access points share "@ + r.name@
                + "'s channel ("@ + crate::text::decimal(freq as nat),
            crate::discovery::findings::CONTENTION_TAIL@,
        );
    }
}

proof fn lemma_contention_told(radios: Seq<Radio>, aps: Seq<NeighbourAp>, k: int) -> (j: int)
    requires
        0 <= k < radios.len(),
        is_contended(radios[k], aps),
    ensures
        0 <= j < crate::discovery::findings::contention_over(radios, aps).len(),
        tells_of_contention(
            crate::discovery::findings::contention_over(radios, aps)[j],
            radios[k],
            aps,
        ),
    decreases radios.len(),
{
    let rest = radios.drop_last();
    let before = crate::discovery::findings::contention_over(rest, aps);
    let more = crate::discovery::findings::contention_on(radios.last(), aps);
    let all = crate::discovery::findings::contention_over(radios, aps);
    lemma_contention_on(radios.last(), aps);
    if k < rest.len() {
        assert(rest[k] == radios[k]);
        let j = lemma_contention_told(rest, aps, k);
        assert(all[j] == before[j]);
        j
    } else {
        assert(all[before.len() as int] == more[0]);
        before.len() as int
    }
}

proof fn lemma_contention_true(radios: Seq<Radio>, aps: Seq<NeighbourAp>, j: int) -> (k: int)
    requires
        0 <= j < crate::discovery::findings::contention_over(radios, aps).len(),
    ensures
        0 <= k < radios.len(),
        is_contended(radios[k], aps),
        tells_of_contention(
            crate::discovery::findings::contention_over(radios, aps)[j],
            radios[k],
            aps,
        ),
    decreases radios.len(),
{
    let rest = radios.drop_last();
    let before = crate::discovery::findings::contention_over(rest, aps);
    let more = crate::discovery::findings::contention_on(radios.last(), aps);
    let all = crate::discovery::findings::contention_over(radios, aps);
    lemma_contention_on(radios.last(), aps);
    if j < before.len() {
        let k = lemma_contention_true(rest, aps, j);
        assert(all[j] == before[j]);
        assert(rest[k] == radios[k]);
        k
    } else {
        assert(all[j] == more[j - before.len()]);
        radios.len() - 1
    }
}

/// A radio whose channel two or more neighbours at -82 dBm or above are on is
/// reported, and nothing else is.
pub proof fn law_contended_channels_are_reported(s: Snapshot)
    ensures
        ({
            let out = crate::discovery::findings::by_severity(
                crate::discovery::findings::all_of(s),
            );
            &&& forall|k: int|
                0 <= k < s.radios@.len() && is_contended(#[trigger] s.radios@[k], s.neighbour_aps@)
                    ==> exists|j: int|
                    0 <= j < out.len() && tells_of_contention(
                        #[trigger] out[j],
                        s.radios@[k],
                        s.neighbour_aps@,
                    )
            &&& forall|j: int|
                0 <= j < out.len() && (#[trigger] out[j]).code == "wifi.co_channel_contention"@
                    ==> exists|k: int|
                    0 <= k < s.radios@.len() && is_contended(
                        #[trigger] s.radios@[k],
                        s.neighbour_aps@,
                    ) && tells_of_contention(out[j], s.radios@[k], s.neighbour_aps@)
        }),
{
    let out = crate::discovery::findings::by_severity(crate::discovery::findings::all_of(s));
    let part = crate::discovery::findings::co_channel_of(s);
    lemma_contention_under(s.radios@, s.neighbour_aps@);
    assert forall|k: int|
        0 <= k < s.radios@.len() && is_contended(
            #[trigger] s.radios@[k],
            s.neighbour_aps@,
        ) implies exists|j: int|
        0 <= j < out.len() && tells_of_contention(
            #[trigger] out[j],
            s.radios@[k],
            s.neighbour_aps@,
        ) by {
        let j = lemma_contention_told(s.radios@, s.neighbour_aps@, k);
        assert(part.contains(part[j]));
        lemma_by_code(s, part[j]);
        let m = choose|m: int| 0 <= m < out.len() && out[m] == part[j];
        assert(tells_of_contention(out[m], s.radios@[k], s.neighbour_aps@));
    }
    assert forall|j: int|
        0 <= j < out.len() && (#[trigger] out[j]).code
            == "wifi.co_channel_contention"@ implies exists|k: int|
        0 <= k < s.radios@.len() && is_contended(#[trigger] s.radios@[k], s.neighbour_aps@)
            && tells_of_contention(out[j], s.radios@[k], s.neighbour_aps@) by {
        assert(out.contains(out[j]));
        lemma_by_code(s, out[j]);
        let m = choose|m: int| 0 <= m < part.len() && part[m] == out[j];
        let k = lemma_contention_true(s.radios@, s.neighbour_aps@, m);
        assert(is_contended(s.radios@[k], s.neighbour_aps@));
    }
}

/// The device answers for the address `addr`.
pub open spec fn answers_for(e: ArpEntry, addr: Seq<char>) -> bool {
    e.complete && e.address@ == addr
}

/// The finding is critical and names the address that is claimed, and how many
/// claims there are of it.
#[verifier::opaque]
pub open spec fn tells_of_duplicate(f: FindingView, arp: Seq<ArpEntry>, addr: Seq<char>) -> bool {
    &&& f.code == "network.duplicate_address"@
    &&& f.severity == Severity::Critical
    &&& opens_with(f.summary, addr + " is claimed by "@)
    &&& f.evidence.len() == arp.filter(|e: ArpEntry| answers_for(e, addr)).len()
}

/// Two devices that answer claim the address `addr`.
#[verifier::opaque]
pub open spec fn is_claimed_twice(arp: Seq<ArpEntry>, addr: Seq<char>) -> bool {
    exists|i: int, k: int|
        0 <= i < arp.len() && 0 <= k < arp.len() && (#[trigger] arp[i]).complete && (
        #[trigger] arp[k]).complete && arp[i].address@ == addr && arp[k].address@ == addr
            && arp[i].mac@ != arp[k].mac@
}

/// Every name is that of an element that was picked.
pub proof fn lemma_named<A>(s: Seq<A>, p: spec_fn(A) -> bool, name: spec_fn(A) -> Seq<char>, x: Seq<char>)
    requires
        crate::discovery::group::names_of(s, p, name).contains(x),
    ensures
        exists|i: int| 0 <= i < s.len() && p(#[trigger] s[i]) && name(s[i]) == x,
    decreases s.len(),
{
    if s.len() > 0 {
        let rest = s.drop_last();
        let names = crate::discovery::group::names_of(rest, p, name);
        crate::discovery::group::lemma_names(rest, p, name);
        if p(s.last()) {
            crate::discovery::group::lemma_with_name(names, name(s.last()));
        }
        if names.contains(x) {
            lemma_named(rest, p, name, x);
            let i = choose|i: int| 0 <= i < rest.len() && p(#[trigger] rest[i]) && name(rest[i]) == x;
            assert(s[i] == rest[i]);
        } else {
            assert(p(s[s.len() - 1]));
        }
    }
}

proof fn lemma_duplicate_on(arp: Seq<ArpEntry>, addr: Seq<char>)
    ensures
        ({
            let v = crate::discovery::findings::duplicate_on(arp, addr);
            &&& v.len() <= 1
            &&& v.len() == 1 <==> is_claimed_twice(arp, addr)
            &&& v.len() == 1 ==> tells_of_duplicate(v[0], arp, addr)
        }),
{
    reveal(tells_of_duplicate);
    reveal(is_claimed_twice);
    let p = |e: ArpEntry| crate::discovery::findings::claims(e, addr);
    let q = |e: ArpEntry| answers_for(e, addr);
    let mac = |e: ArpEntry| e.mac@;
    let macs = crate::discovery::group::names_of(arp, p, mac);
    lemma_lines(arp, p, |e: ArpEntry| crate::discovery::findings::claim_line(e));
    lemma_same_filter(arp, p, q);
    crate::discovery::group::lemma_names(arp, p, mac);
    if macs.len() > 1 {
        assert(macs.contains(macs[0]) && macs.contains(macs[1]));
        lemma_named(arp, p, mac, macs[0]);
        lemma_named(arp, p, mac, macs[1]);
        crate::text::lemma_precedes(macs[0], macs[1]);
        let i = choose|i: int| 0 <= i < arp.len() && p(#[trigger] arp[i]) && mac(arp[i]) == macs[0];
        let k = choose|k: int| 0 <= k < arp.len() && p(#[trigger] arp[k]) && mac(arp[k]) == macs[1];
        assert(arp[i].mac@ != arp[k].mac@);
        assert(is_claimed_twice(arp, addr));
    }
    if is_claimed_twice(arp, addr) {
        let (i, k) = choose|i: int, k: int|
            0 <= i < arp.len() && 0 <= k < arp.len() && (#[trigger] arp[i]).complete && (
            #[trigger] arp[k]).complete && arp[i].address@ == addr && arp[k].address@ == addr
                && arp[i].mac@ != arp[k].mac@;
        assert(p(arp[i]) && p(arp[k]));
        assert(macs.contains(mac(arp[i])) && macs.contains(mac(arp[k])));
        let a = choose|a: int| 0 <= a < macs.len() && macs[a] == mac(arp[i]);
        let b = choose|b: int| 0 <= b < macs.len() && macs[b] == mac(arp[k]);
        assert(a != b);
        assert(macs.len() > 1);
    }
    lemma_opens(
        addr + " is claimed by "@,
        crate::text::decimal(macs.len()) + crate::discovery::findings::DUPLICATE_TAIL@,
    );
    assert(crate::discovery::findings::duplicate_summary(addr, macs.len()) =~= (addr
        + " is claimed by "@) + (crate::text::decimal(macs.len())
        + crate::discovery::findings::DUPLICATE_TAIL@));
}

proof fn lemma_duplicates(arp: Seq<ArpEntry>, addrs: Seq<Seq<char>>)
    ensures
        ({
            let all = crate::discovery::findings::duplicates_over(arp, addrs);
            &&& forall|k: int|
                0 <= k < addrs.len() && is_claimed_twice(arp, #[trigger] addrs[k])
                    ==> exists|j: int|
                    0 <= j < all.len() && tells_of_duplicate(#[trigger] all[j], arp, addrs[k])
            &&& forall|j: int|
                #![trigger all[j]]
                0 <= j < all.len() ==> exists|k: int|
                    0 <= k < addrs.len() && is_claimed_twice(arp, #[trigger] addrs[k])
                        && tells_of_duplicate(all[j], arp, addrs[k])
        }),
    decreases addrs.len(),
{
    if addrs.len() > 0 {
        let rest = addrs.drop_last();
        let before = crate::discovery::findings::duplicates_over(arp, rest);
        let more = crate::discovery::findings::duplicate_on(arp, addrs.last());
        let all = crate::discovery::findings::duplicates_over(arp, addrs);
        lemma_duplicates(arp, rest);
        lemma_duplicate_on(arp, addrs.last());
        assert forall|k: int|
            0 <= k < addrs.len() && is_claimed_twice(
                arp,
                #[trigger] addrs[k],
            ) implies exists|j: int|
            0 <= j < all.len() && tells_of_duplicate(#[trigger] all[j], arp, addrs[k]) by {
            if k < rest.len() {
                assert(rest[k] == addrs[k]);
                let j = choose|j: int|
                    0 <= j < before.len() && tells_of_duplicate(#[trigger] before[j], arp, rest[k]);
                assert(all[j] == before[j]);
            } else {
                assert(all[before.len() as int] == more[0]);
            }
        }
        assert forall|j: int|
            #![trigger all[j]]
            0 <= j < all.len() implies exists|k: int|
            0 <= k < addrs.len() && is_claimed_twice(arp, #[trigger] addrs[k])
                && tells_of_duplicate(all[j], arp, addrs[k]) by {
            if j < before.len() {
                assert(all[j] == before[j]);
                let k = choose|k: int|
                    0 <= k < rest.len() && is_claimed_twice(arp, #[trigger] rest[k])
                        && tells_of_duplicate(before[j], arp, rest[k]);
                assert(rest[k] == addrs[k]);
            } else {
                assert(all[j] == more[j - before.len()]);
                assert(addrs[addrs.len() - 1] == addrs.last());
            }
        }
    }
}

/// An address that two devices with different hardware addresses answer for is
/// reported by that address, and nothing else is.
pub proof fn law_duplicate_addresses_are_reported(s: Snapshot)
    ensures
        ({
            let out = crate::discovery::findings::by_severity(
                crate::discovery::findings::all_of(s),
            );
            &&& forall|addr: Seq<char>| #[trigger]
                is_claimed_twice(s.arp@, addr) ==> exists|j: int|
                    0 <= j < out.len() && tells_of_duplicate(#[trigger] out[j], s.arp@, addr)
            &&& forall|j: int|
                0 <= j < out.len() && (#[trigger] out[j]).code == "network.duplicate_address"@
                    ==> exists|addr: Seq<char>|
                    is_claimed_twice(s.arp@, addr) && #[trigger] tells_of_duplicate(
                        out[j],
                        s.arp@,
                        addr,
                    )
        }),
{
    let out = crate::discovery::findings::by_severity(crate::discovery::findings::all_of(s));
    let part = crate::discovery::findings::duplicate_addresses_of(s);
    let p = |e: ArpEntry| e.complete;
    let name = |e: ArpEntry| e.address@;
    let addrs = crate::discovery::group::names_of(s.arp@, p, name);
    lemma_duplicates(s.arp@, addrs);
    lemma_duplicates_under(s.arp@, addrs);
    assert forall|addr: Seq<char>| #[trigger] is_claimed_twice(s.arp@, addr) implies exists|j: int|
        0 <= j < out.len() && tells_of_duplicate(#[trigger] out[j], s.arp@, addr) by {
        lemma_claimed_address(s.arp@, addr);
        let m = choose|m: int| 0 <= m < addrs.len() && addrs[m] == addr;
        assert(is_claimed_twice(s.arp@, addrs[m]));
        let j = choose|j: int|
            0 <= j < part.len() && tells_of_duplicate(#[trigger] part[j], s.arp@, addrs[m]);
        assert(part.contains(part[j]));
        lemma_by_code(s, part[j]);
        let n = choose|n: int| 0 <= n < out.len() && out[n] == part[j];
        assert(tells_of_duplicate(out[n], s.arp@, addr));
    }
    assert forall|j: int|
        0 <= j < out.len() && (#[trigger] out[j]).code
            == "network.duplicate_address"@ implies exists|addr: Seq<char>|
        is_claimed_twice(s.arp@, addr) && #[trigger] tells_of_duplicate(out[j], s.arp@, addr) by {
        assert(out.contains(out[j]));
        lemma_by_code(s, out[j]);
        let m = choose|m: int| 0 <= m < part.len() && part[m] == out[j];
        let k = choose|k: int|
            0 <= k < addrs.len() && is_claimed_twice(s.arp@, #[trigger] addrs[k])
                && tells_of_duplicate(part[m], s.arp@, addrs[k]);
        assert(tells_of_duplicate(out[j], s.arp@, addrs[k]));
    }
}

proof fn lemma_claimed_address(arp: Seq<ArpEntry>, addr: Seq<char>)
    requires
        is_claimed_twice(arp, addr),
    ensures
        crate::discovery::group::names_of(
            arp,
            |e: ArpEntry| e.complete,
            |e: ArpEntry| e.address@,
        ).contains(addr),
{
    reveal(is_claimed_twice);
    let p = |e: ArpEntry| e.complete;
    let name = |e: ArpEntry| e.address@;
    crate::discovery::group::lemma_names(arp, p, name);
    let (i, k) = choose|i: int, k: int|
        0 <= i < arp.len() && 0 <= k < arp.len() && (#[trigger] arp[i]).complete && (
        #[trigger] arp[k]).complete && arp[i].address@ == addr && arp[k].address@ == addr
            && arp[i].mac@ != arp[k].mac@;
    assert(p(arp[i]) && name(arp[i]) == addr);
}

/// The client sent or received something on the radio in the last 30 seconds.
pub open spec fn is_busy(c: WifiClient, iface: Seq<char>) -> bool {
    c.interface@ == iface && c.last_activity_s <= 30
}

/// It did, at 24 Mbit/s or below.
pub open spec fn is_dragging(c: WifiClient, iface: Seq<char>) -> bool {
    is_busy(c, iface) && c.tx_rate_bps <= 24_000_000
}

/// The clients active on a radio.
pub open spec fn busy_on(clients: Seq<WifiClient>, iface: Seq<char>) -> Seq<WifiClient> {
    clients.filter(|c: WifiClient| is_busy(c, iface))
}

/// Those of them at 24 Mbit/s or below.
pub open spec fn dragging_on(clients: Seq<WifiClient>, iface: Seq<char>) -> Seq<WifiClient> {
    clients.filter(|c: WifiClient| is_dragging(c, iface))
}

/// One of them takes twenty times as long as another active client for the same
/// data, or longer.
pub open spec fn holds_up(clients: Seq<WifiClient>, iface: Seq<char>) -> bool {
    exists|i: int, k: int|
        0 <= i < dragging_on(clients, iface).len() && 0 <= k < busy_on(clients, iface).len() && (
        #[trigger] busy_on(clients, iface)[k]).tx_rate_bps >= 20 * (
        #[trigger] dragging_on(clients, iface)[i]).tx_rate_bps
}

/// The finding counts the slow ones among the active clients of the radio and
/// names it. It is critical where a quarter of them are slow or one of them
/// holds up the others.
#[verifier::opaque]
pub open spec fn tells_of_airtime(
    f: FindingView,
    clients: Seq<WifiClient>,
    iface: Seq<char>,
) -> bool {
    &&& f.code == "wifi.slow_client_airtime"@
    &&& f.severity == if 4 * dragging_on(clients, iface).len() >= busy_on(clients, iface).len()
        || holds_up(clients, iface) {
        Severity::Critical
    } else {
        Severity::Warning
    }
    &&& opens_with(
        f.summary,
        crate::text::decimal(dragging_on(clients, iface).len()) + " of "@ + crate::text::decimal(
            busy_on(clients, iface).len(),
        ) + " active clients on "@ + iface + " are at or below "@ + crate::text::decimal(24),
    )
    &&& f.evidence.len() >= dragging_on(clients, iface).len()
    &&& forall|k: int|
        0 <= k < dragging_on(clients, iface).len() ==> opens_with(
            #[trigger] f.evidence[k],
            dragging_on(clients, iface)[k].mac@ + " on "@,
        )
}

proof fn lemma_rates(clients: Seq<WifiClient>, iface: Seq<char>)
    ensures
        ({
            let fastest = crate::discovery::findings::fastest_on(clients, iface);
            let slowest = crate::discovery::findings::slowest_on(clients, iface);
            let busy = busy_on(clients, iface);
            let slow = dragging_on(clients, iface);
            &&& forall|k: int| 0 <= k < busy.len() ==> (#[trigger] busy[k]).tx_rate_bps <= fastest
            &&& busy.len() > 0 ==> exists|k: int|
                0 <= k < busy.len() && (#[trigger] busy[k]).tx_rate_bps == fastest
            &&& forall|k: int| 0 <= k < slow.len() ==> (#[trigger] slow[k]).tx_rate_bps >= slowest
            &&& slow.len() > 0 ==> exists|k: int|
                0 <= k < slow.len() && (#[trigger] slow[k]).tx_rate_bps == slowest
            &&& slow.len() == 0 ==> slowest == 24_000_000
            &&& busy.len() == 0 ==> fastest == 0
            &&& slowest <= 24_000_000
        }),
    decreases clients.len(),
{
    reveal(Seq::filter);
    if clients.len() > 0 {
        let rest = clients.drop_last();
        let c = clients.last();
        lemma_rates(rest, iface);
        let busy0 = busy_on(rest, iface);
        let slow0 = dragging_on(rest, iface);
        let busy = busy_on(clients, iface);
        let slow = dragging_on(clients, iface);
        let fastest = crate::discovery::findings::fastest_on(clients, iface);
        let slowest = crate::discovery::findings::slowest_on(clients, iface);
        if c.interface@ == iface && c.last_activity_s <= 30 {
            assert(busy == busy0.push(c));
            assert(busy[busy0.len() as int] == c);
            if busy0.len() > 0 {
                let k = choose|k: int|
                    0 <= k < busy0.len() && (#[trigger] busy0[k]).tx_rate_bps
                        == crate::discovery::findings::fastest_on(rest, iface);
                assert(busy[k] == busy0[k]);
            }
            assert forall|k: int| 0 <= k < busy.len() implies (#[trigger] busy[k]).tx_rate_bps
                <= fastest by {
                if k < busy0.len() {
                    assert(busy[k] == busy0[k]);
                }
            }
            if c.tx_rate_bps <= 24_000_000 {
                assert(slow == slow0.push(c));
                assert(slow[slow0.len() as int] == c);
                if slow0.len() > 0 {
                    let k = choose|k: int|
                        0 <= k < slow0.len() && (#[trigger] slow0[k]).tx_rate_bps
                            == crate::discovery::findings::slowest_on(rest, iface);
                    assert(slow[k] == slow0[k]);
                }
                assert forall|k: int| 0 <= k < slow.len() implies (#[trigger] slow[k]).tx_rate_bps
                    >= slowest by {
                    if k < slow0.len() {
                        assert(slow[k] == slow0[k]);
                    }
                }
            }
        }
    }
}

proof fn lemma_airtime_on(clients: Seq<WifiClient>, iface: Seq<char>)
    ensures
        ({
            let v = crate::discovery::findings::airtime_on(clients, iface);
            &&& v.len() <= 1
            &&& v.len() == 1 <==> busy_on(clients, iface).len() >= 2 && dragging_on(
                clients,
                iface,
            ).len() >= 1
            &&& v.len() == 1 ==> tells_of_airtime(v[0], clients, iface)
        }),
{
    let p = |c: WifiClient| crate::discovery::findings::active_on(c, iface);
    let p1 = |c: WifiClient| is_busy(c, iface);
    let q = |c: WifiClient| crate::discovery::findings::slow_on(c, iface);
    let q1 = |c: WifiClient| is_dragging(c, iface);
    let line = |c: WifiClient| crate::discovery::findings::slow_line(c);
    lemma_lines(clients, p, line);
    lemma_lines(clients, q, line);
    lemma_same_filter(clients, p, p1);
    lemma_same_filter(clients, q, q1);
    lemma_rates(clients, iface);
    reveal(tells_of_airtime);
    let busy = busy_on(clients, iface);
    let slow = dragging_on(clients, iface);
    assert(busy == clients.filter(p1));
    assert(slow == clients.filter(q1));
    assert(crate::discovery::group::count(clients, p) == busy.len());
    assert(crate::discovery::group::count(clients, q) == slow.len());
    let fastest = crate::discovery::findings::fastest_on(clients, iface);
    let slowest = crate::discovery::findings::slowest_on(clients, iface);
    let v = crate::discovery::findings::airtime_on(clients, iface);
    if v.len() == 1 {
        assert(holds_up(clients, iface) <==> fastest >= 20 * slowest) by {
            let k = choose|k: int|
                0 <= k < busy.len() && (#[trigger] busy[k]).tx_rate_bps == fastest;
            let i = choose|i: int|
                0 <= i < slow.len() && (#[trigger] slow[i]).tx_rate_bps == slowest;
            if fastest >= 20 * slowest {
                assert(busy[k].tx_rate_bps >= 20 * slow[i].tx_rate_bps);
            }
        }
        let front = crate::text::decimal(slow.len()) + " of "@ + crate::text::decimal(busy.len())
            + " active clients on "@ + iface + " are at or below "@ + crate::text::decimal(24);
        lemma_opens(front, crate::discovery::findings::AIRTIME_TAIL@);
        assert forall|k: int| 0 <= k < slow.len() implies opens_with(
            #[trigger] v[0].evidence[k],
            slow[k].mac@ + " on "@,
        ) by {
            assert(v[0].evidence[k] == line(slow[k]));
            let front = slow[k].mac@ + " on "@;
            assert(line(slow[k]).take(front.len() as int) =~= front);
        }
    }
}

proof fn lemma_airtime(clients: Seq<WifiClient>, radios: Seq<Seq<char>>)
    ensures
        ({
            let all = crate::discovery::findings::airtime_over(clients, radios);
            &&& forall|k: int|
                0 <= k < radios.len() && busy_on(clients, #[trigger] radios[k]).len() >= 2
                    && dragging_on(clients, radios[k]).len() >= 1 ==> exists|j: int|
                    0 <= j < all.len() && tells_of_airtime(#[trigger] all[j], clients, radios[k])
            &&& forall|j: int|
                0 <= j < all.len() ==> exists|k: int|
                    0 <= k < radios.len() && busy_on(clients, #[trigger] radios[k]).len() >= 2
                        && dragging_on(clients, radios[k]).len() >= 1 && tells_of_airtime(
                        #[trigger] all[j],
                        clients,
                        radios[k],
                    )
        }),
    decreases radios.len(),
{
    if radios.len() > 0 {
        let rest = radios.drop_last();
        let before = crate::discovery::findings::airtime_over(clients, rest);
        let more = crate::discovery::findings::airtime_on(clients, radios.last());
        let all = crate::discovery::findings::airtime_over(clients, radios);
        lemma_airtime(clients, rest);
        lemma_airtime_on(clients, radios.last());
        assert forall|k: int|
            0 <= k < radios.len() && busy_on(clients, #[trigger] radios[k]).len() >= 2
                && dragging_on(clients, radios[k]).len() >= 1 implies exists|j: int|
            0 <= j < all.len() && tells_of_airtime(#[trigger] all[j], clients, radios[k]) by {
            if k < rest.len() {
                assert(rest[k] == radios[k]);
                let j = choose|j: int|
                    0 <= j < before.len() && tells_of_airtime(
                        #[trigger] before[j],
                        clients,
                        rest[k],
                    );
                assert(all[j] == before[j]);
            } else {
                assert(all[before.len() as int] == more[0]);
            }
        }
        assert forall|j: int| 0 <= j < all.len() implies exists|k: int|
            0 <= k < radios.len() && busy_on(clients, #[trigger] radios[k]).len() >= 2
                && dragging_on(clients, radios[k]).len() >= 1 && tells_of_airtime(
                #[trigger] all[j],
                clients,
                radios[k],
            ) by {
            if j < before.len() {
                assert(all[j] == before[j]);
                let k = choose|k: int|
                    0 <= k < rest.len() && busy_on(clients, #[trigger] rest[k]).len() >= 2
                        && dragging_on(clients, rest[k]).len() >= 1 && tells_of_airtime(
                        #[trigger] before[j],
                        clients,
                        rest[k],
                    );
                assert(rest[k] == radios[k]);
            } else {
                assert(all[j] == more[j - before.len()]);
                assert(radios[radios.len() - 1] == radios.last());
            }
        }
    }
}

/// The lines on a radio's airtime end with the rate of its fastest client and,
/// unless the slowest has no rate at all, how many times as long that one takes.
pub proof fn law_airtime_is_quantified(clients: Seq<WifiClient>, iface: Seq<char>)
    requires
        busy_on(clients, iface).len() >= 2,
        dragging_on(clients, iface).len() >= 1,
    ensures
        ({
            let v = crate::discovery::findings::airtime_on(clients, iface);
            let n = dragging_on(clients, iface).len() as int;
            &&& v.len() == 1
            &&& exists|k: int, i: int|
                {
                    let fast = (#[trigger] busy_on(clients, iface)[k]).tx_rate_bps;
                    let slow = (#[trigger] dragging_on(clients, iface)[i]).tx_rate_bps;
                    &&& 0 <= k < busy_on(clients, iface).len() && 0 <= i < n
                    &&& forall|m: int|
                        0 <= m < busy_on(clients, iface).len() ==> (#[trigger] busy_on(
                            clients,
                            iface,
                        )[m]).tx_rate_bps <= fast
                    &&& forall|m: int|
                        0 <= m < n ==> (#[trigger] dragging_on(clients, iface)[m]).tx_rate_bps
                            >= slow
                    &&& v[0].evidence.len() == n + (if slow == 0 {
                        1int
                    } else {
                        2
                    })
                    &&& v[0].evidence[n] == "fastest client on this radio negotiates "@
                        + crate::text::decimal((fast / 1_000_000) as nat) + " Mbit/s"@
                    &&& slow > 0 ==> v[0].evidence[n + 1] == "slowest client consumes roughly "@
                        + crate::text::decimal(
                        crate::round::rounded_quotient(fast as nat, slow as nat),
                    ) + "x the airtime of the fastest for the same data"@
                }
        }),
{
    lemma_airtime_on(clients, iface);
    lemma_rates(clients, iface);
    let v = crate::discovery::findings::airtime_on(clients, iface);
    let busy = busy_on(clients, iface);
    let slow = dragging_on(clients, iface);
    let q = |c: WifiClient| crate::discovery::findings::slow_on(c, iface);
    let q1 = |c: WifiClient| is_dragging(c, iface);
    let line = |c: WifiClient| crate::discovery::findings::slow_line(c);
    lemma_lines(clients, q, line);
    lemma_same_filter(clients, q, q1);
    let fastest = crate::discovery::findings::fastest_on(clients, iface);
    let slowest = crate::discovery::findings::slowest_on(clients, iface);
    let k = choose|k: int| 0 <= k < busy.len() && (#[trigger] busy[k]).tx_rate_bps == fastest;
    let i = choose|i: int| 0 <= i < slow.len() && (#[trigger] slow[i]).tx_rate_bps == slowest;
    assert(busy_on(clients, iface)[k].tx_rate_bps == fastest);
    assert(dragging_on(clients, iface)[i].tx_rate_bps == slowest);
    assert(v[0].evidence == crate::discovery::findings::airtime_evidence(clients, iface));
}

/// A radio with two active clients or more, one of them at 24 Mbit/s or below,
/// is reported by its name, and nothing else is.
pub proof fn law_slow_clients_are_reported(s: Snapshot)
    ensures
        ({
            let out = crate::discovery::findings::by_severity(
                crate::discovery::findings::all_of(s),
            );
            &&& forall|iface: Seq<char>| #[trigger]
                busy_on(s.clients@, iface).len() >= 2 && dragging_on(s.clients@, iface).len() >= 1
                    ==> exists|j: int|
                    0 <= j < out.len() && tells_of_airtime(#[trigger] out[j], s.clients@, iface)
            &&& forall|j: int|
                0 <= j < out.len() && (#[trigger] out[j]).code == "wifi.slow_client_airtime"@
                    ==> exists|iface: Seq<char>|
                    busy_on(s.clients@, iface).len() >= 2 && dragging_on(s.clients@, iface).len()
                        >= 1 && #[trigger] tells_of_airtime(out[j], s.clients@, iface)
        }),
{
    let out = crate::discovery::findings::by_severity(crate::discovery::findings::all_of(s));
    let part = crate::discovery::findings::slow_client_airtime_of(s);
    let p = |c: WifiClient| true;
    let name = |c: WifiClient| c.interface@;
    let radios = crate::discovery::group::names_of(s.clients@, p, name);
    lemma_airtime(s.clients@, radios);
    lemma_airtime_under(s.clients@, radios);
    crate::discovery::group::lemma_names(s.clients@, p, name);
    assert forall|iface: Seq<char>| #[trigger]
        busy_on(s.clients@, iface).len() >= 2 && dragging_on(
            s.clients@,
            iface,
        ).len() >= 1 implies exists|j: int|
        0 <= j < out.len() && tells_of_airtime(#[trigger] out[j], s.clients@, iface) by {
        let b = |c: WifiClient| is_busy(c, iface);
        lemma_picked(s.clients@, b);
        let i = choose|i: int| 0 <= i < s.clients@.len() && b(#[trigger] s.clients@[i]);
        assert(p(s.clients@[i]));
        assert(radios.contains(name(s.clients@[i])));
        let m = choose|m: int| 0 <= m < radios.len() && radios[m] == iface;
        assert(busy_on(s.clients@, radios[m]).len() >= 2);
        let j = choose|j: int|
            0 <= j < part.len() && tells_of_airtime(#[trigger] part[j], s.clients@, radios[m]);
        assert(part.contains(part[j]));
        lemma_by_code(s, part[j]);
        let n = choose|n: int| 0 <= n < out.len() && out[n] == part[j];
        assert(tells_of_airtime(out[n], s.clients@, iface));
    }
    assert forall|j: int|
        0 <= j < out.len() && (#[trigger] out[j]).code
            == "wifi.slow_client_airtime"@ implies exists|iface: Seq<char>|
        busy_on(s.clients@, iface).len() >= 2 && dragging_on(s.clients@, iface).len() >= 1
            && #[trigger] tells_of_airtime(out[j], s.clients@, iface) by {
        assert(out.contains(out[j]));
        lemma_by_code(s, out[j]);
        let m = choose|m: int| 0 <= m < part.len() && part[m] == out[j];
        let k = choose|k: int|
            0 <= k < radios.len() && busy_on(s.clients@, #[trigger] radios[k]).len() >= 2
                && dragging_on(s.clients@, radios[k]).len() >= 1 && tells_of_airtime(
                #[trigger] part[m],
                s.clients@,
                radios[k],
            );
        assert(tells_of_airtime(out[j], s.clients@, radios[k]));
    }
}

/// In a report what is critical comes before what is a warning, and that before
/// what is worth knowing; what is equally severe keeps the order of the rules.
pub proof fn law_reports_start_with_the_worst(s: Snapshot, i: int, j: int)
    requires
        0 <= i <= j < crate::discovery::findings::by_severity(
            crate::discovery::findings::all_of(s),
        ).len(),
    ensures
        ({
            let all = crate::discovery::findings::all_of(s);
            let out = crate::discovery::findings::by_severity(all);
            &&& out[j].severity == Severity::Critical ==> out[i].severity == Severity::Critical
            &&& out[j].severity == Severity::Warning ==> out[i].severity != Severity::Info
            &&& out.filter(|f: FindingView| f.severity == Severity::Critical) == all.filter(
                |f: FindingView| f.severity == Severity::Critical,
            )
            &&& out.filter(|f: FindingView| f.severity == Severity::Warning) == all.filter(
                |f: FindingView| f.severity == Severity::Warning,
            )
            &&& out.filter(|f: FindingView| f.severity == Severity::Info) == all.filter(
                |f: FindingView| f.severity == Severity::Info,
            )
        }),
{
    let all = crate::discovery::findings::all_of(s);
    let out = crate::discovery::findings::by_severity(all);
    let rank = |f: FindingView| crate::discovery::findings::severity_rank(f.severity);
    crate::order::law_equal_ranks_keep_their_order(all, rank, 0);
    crate::order::law_equal_ranks_keep_their_order(all, rank, 1);
    crate::order::law_equal_ranks_keep_their_order(all, rank, 2);
    crate::order::lemma_arranged(all, rank);
    assert(rank(out[i]) <= rank(out[j]));
    let p0 = |f: FindingView| rank(f) == 0;
    let p1 = |f: FindingView| rank(f) == 1;
    let p2 = |f: FindingView| rank(f) == 2;
    lemma_same_filter(all, p0, |f: FindingView| f.severity == Severity::Critical);
    lemma_same_filter(out, p0, |f: FindingView| f.severity == Severity::Critical);
    lemma_same_filter(all, p1, |f: FindingView| f.severity == Severity::Warning);
    lemma_same_filter(out, p1, |f: FindingView| f.severity == Severity::Warning);
    lemma_same_filter(all, p2, |f: FindingView| f.severity == Severity::Info);
    lemma_same_filter(out, p2, |f: FindingView| f.severity == Severity::Info);
}

proof fn lemma_distinct_names(names: Seq<Seq<char>>)
    requires
        crate::discovery::group::in_order(names),
    ensures
        names.no_duplicates(),
{
    assert forall|i: int, k: int| 0 <= i < names.len() && 0 <= k < names.len() && i != k implies names[i]
        != names[k] by {
        if i < k {
            crate::text::lemma_precedes(names[i], names[k]);
        } else {
            crate::text::lemma_precedes(names[k], names[i]);
        }
    }
}

/// The hardware addresses that answer for `addr`.
pub open spec fn claimants(arp: Seq<ArpEntry>, addr: Seq<char>) -> Set<Seq<char>> {
    arp.filter(|e: ArpEntry| answers_for(e, addr)).map_values(|e: ArpEntry| e.mac@).to_set()
}

/// The finding on an address that is claimed twice says by how many hardware
/// addresses it is, and lists each claim with the hardware address and the
/// interface it came on.
pub proof fn law_claims_are_counted_and_listed(arp: Seq<ArpEntry>, addr: Seq<char>)
    requires
        is_claimed_twice(arp, addr),
    ensures
        ({
            let v = crate::discovery::findings::duplicate_on(arp, addr);
            let claims = arp.filter(|e: ArpEntry| answers_for(e, addr));
            &&& v.len() == 1
            &&& opens_with(
                v[0].summary,
                addr + " is claimed by "@ + crate::text::decimal(claimants(arp, addr).len())
                    + " different MAC addresses"@,
            )
            &&& v[0].evidence.len() == claims.len()
            &&& forall|i: int|
                0 <= i < claims.len() ==> #[trigger] v[0].evidence[i] == claims[i].address@
                    + " via "@ + claims[i].mac@ + " on "@ + claims[i].interface@
        }),
{
    lemma_duplicate_on(arp, addr);
    let v = crate::discovery::findings::duplicate_on(arp, addr);
    let p = |e: ArpEntry| crate::discovery::findings::claims(e, addr);
    let q = |e: ArpEntry| answers_for(e, addr);
    let mac = |e: ArpEntry| e.mac@;
    let line = |e: ArpEntry| crate::discovery::findings::claim_line(e);
    let macs = crate::discovery::group::names_of(arp, p, mac);
    lemma_lines(arp, p, line);
    lemma_same_filter(arp, p, q);
    crate::discovery::group::lemma_names(arp, p, mac);
    lemma_distinct_names(macs);
    let claims = arp.filter(q);
    let all = claims.map_values(mac);
    lemma_picked(arp, q);
    assert(macs.to_set() =~= all.to_set()) by {
        assert forall|x: Seq<char>| macs.contains(x) <==> all.contains(x) by {
            if macs.contains(x) {
                lemma_named(arp, p, mac, x);
                let i = choose|i: int| 0 <= i < arp.len() && p(#[trigger] arp[i]) && mac(arp[i]) == x;
                assert(q(arp[i]));
                arp.lemma_filter_contains(q, i);
                let k = choose|k: int| 0 <= k < claims.len() && claims[k] == arp[i];
                assert(all[k] == x);
            }
            if all.contains(x) {
                let k = choose|k: int| 0 <= k < all.len() && all[k] == x;
                assert(arp.contains(claims[k]));
                let i = choose|i: int| 0 <= i < arp.len() && arp[i] == claims[k];
                assert(p(arp[i]));
                assert(macs.contains(mac(arp[i])));
            }
        }
    }
    macs.unique_seq_to_set();
    let front = addr + " is claimed by "@ + crate::text::decimal(macs.len())
        + " different MAC addresses"@;
    reveal_strlit(" different MAC addresses");
    reveal_strlit(
        " different MAC addresses, which causes intermittent connectivity that is very hard to diagnose from the client side",
    );
    assert(v[0].summary == crate::discovery::findings::duplicate_summary(addr, macs.len()));
    assert(v[0].summary.take(front.len() as int) =~= front);
}

} // verus!
