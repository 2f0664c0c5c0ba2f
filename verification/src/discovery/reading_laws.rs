//! What is read out of a router's rows: each figure from the field of its name.

use vstd::prelude::*;

use crate::discovery::capture::{HostView, ProtocolView};
use crate::discovery::findings::{
    ArpEntry, DhcpLease, InterfaceStats, NeighbourAp, Radio, WifiClient,
};

verus! {

/// Under `key` the row gives the text `s`.
pub open spec fn gives(row: crate::json::JsonView, key: Seq<char>, s: Seq<char>) -> bool {
    row.get(key) == Some(crate::json::JsonView::Text(s))
}

/// Under `key` the row gives the number `n`, written out.
pub open spec fn gives_number(row: crate::json::JsonView, key: Seq<char>, n: nat) -> bool {
    gives(row, key, crate::text::decimal(n))
}

/// A number as it is written has nothing to cut off and no separator in it.
proof fn lemma_plain_number(n: int)
    ensures
        ({
            let s = crate::text::decimal_int(n);
            &&& s.len() > 0
            &&& crate::text::trimmed(s) == s
            &&& crate::text::first_of(s, ',') is None
            &&& crate::text::first_of(s, '@') is None
            &&& crate::text::first_of(s, '/') is None
            &&& forall|i: int|
                0 <= i < s.len() ==> #[trigger] s[i] != ',' && s[i] != '@' && s[i] != '/'
        }),
{
    let s = crate::text::decimal_int(n);
    let m = (if n < 0 {
        -n
    } else {
        n
    }) as nat;
    let d = crate::text::decimal(m);
    crate::text_laws::law_numbers_are_written_in_digits(m);
    assert forall|i: int| 0 <= i < s.len() implies #[trigger] s[i] == '-' || '0' <= s[i] && s[i]
        <= '9' by {
        if n < 0 && i > 0 {
            assert(s[i] == d[i - 1]);
        }
    }
    crate::text_laws::law_trimming_takes_white_space_alone(s);
    let t = crate::text::trimmed(s);
    let from = choose|from: int|
        0 <= from && from + t.len() <= s.len() && #[trigger] s.subrange(from, from + t.len()) == t
            && (forall|i: int|
            0 <= i < from || from + t.len() <= i < s.len() ==> crate::text::is_space(
                #[trigger] s[i],
            ));
    if from > 0 {
        assert(crate::text::is_space(s[0]));
    }
    if from + t.len() < s.len() {
        assert(crate::text::is_space(s[s.len() - 1]));
    }
    assert(t =~= s);
    crate::text_laws::lemma_none_first(s, ',');
    crate::text_laws::lemma_none_first(s, '@');
    crate::text_laws::lemma_none_first(s, '/');
}

proof fn lemma_number(row: crate::json::JsonView, key: Seq<char>, n: nat)
    requires
        gives_number(row, key, n),
        n <= u64::MAX,
    ensures
        crate::discovery::collect::number(row, key) == n,
        crate::discovery::capture::number(row, key) == n,
{
    lemma_plain_number(n as int);
    crate::text::law_decimal_reads_back(n);
}

proof fn lemma_signed_number(row: crate::json::JsonView, key: Seq<char>, n: int)
    requires
        gives(row, key, crate::text::decimal_int(n)),
        i32::MIN <= n <= i32::MAX,
    ensures
        crate::discovery::collect::signed_number(row, key) == n,
{
    lemma_plain_number(n);
    crate::text_laws::law_signed_numbers_read_back(n, i32::MAX as nat);
}

/// An ARP entry holds what its row gives: address, hardware address, interface,
/// and whether it came from DHCP and is complete. What the row does not give is
/// empty or false.
pub proof fn law_arp_entries_are_read(e: ArpEntry, row: crate::json::JsonView, s: Seq<char>)
    requires
        crate::discovery::collect::is_arp(e, row),
    ensures
        gives(row, "address"@, s) ==> e.address@ == s,
        gives(row, "mac-address"@, s) ==> e.mac@ == s,
        gives(row, "interface"@, s) ==> e.interface@ == s,
        gives(row, "dhcp"@, "true"@) ==> e.from_dhcp,
        row.get("dhcp"@) == Some(crate::json::JsonView::Bool(true)) ==> e.from_dhcp,
        gives(row, "dhcp"@, "false"@) || row.get("dhcp"@) is None ==> !e.from_dhcp,
        gives(row, "complete"@, "true"@) ==> e.complete,
        row.get("complete"@) == Some(crate::json::JsonView::Bool(true)) ==> e.complete,
        gives(row, "complete"@, "false"@) || row.get("complete"@) is None ==> !e.complete,
{
    reveal_strlit("true");
    reveal_strlit("yes");
    reveal_strlit("false");
    assert("false"@.len() == 5 && "true"@.len() == 4 && "yes"@.len() == 3);
}

/// A lease holds the address and hardware address it is in use with, where its
/// row gives them, else those it is reserved for. It is active when it is bound
/// or in use.
pub proof fn law_leases_are_read(e: DhcpLease, row: crate::json::JsonView, s: Seq<char>)
    requires
        crate::discovery::collect::is_lease(e, row),
    ensures
        gives(row, "active-address"@, s) && s.len() > 0 ==> e.address@ == s && e.active,
        row.get("active-address"@) is None && gives(row, "address"@, s) ==> e.address@ == s,
        gives(row, "active-mac-address"@, s) && s.len() > 0 ==> e.mac@ == s,
        row.get("active-mac-address"@) is None && gives(row, "mac-address"@, s) ==> e.mac@ == s,
        gives(row, "host-name"@, s) && s.len() > 0 ==> e.hostname@ == s,
        row.get("host-name"@) is None && gives(row, "comment"@, s) ==> e.hostname@ == s,
        gives(row, "status"@, "bound"@) ==> e.active,
        row.get("active-address"@) is None && gives(row, "status"@, s) && s != "bound"@
            ==> !e.active,
        row.get("active-address"@) is None && row.get("status"@) is None ==> !e.active,
{
    reveal_strlit("bound");
    assert("bound"@.len() == 5);
}

/// A wireless client of the modern stack holds what its row gives.
pub proof fn law_clients_are_read(
    e: WifiClient,
    row: crate::json::JsonView,
    s: Seq<char>,
    n: nat,
    dbm: int,
)
    requires
        crate::discovery::collect::is_wifi_client(e, row),
        n <= u64::MAX,
        i32::MIN <= dbm <= i32::MAX,
    ensures
        gives(row, "mac-address"@, s) ==> e.mac@ == s,
        gives(row, "interface"@, s) ==> e.interface@ == s,
        gives(row, "ssid"@, s) ==> e.ssid@ == s,
        gives(row, "band"@, s) ==> e.band@ == s,
        gives(row, "signal"@, crate::text::decimal_int(dbm)) ==> e.signal_dbm == dbm,
        gives_number(row, "tx-rate"@, n) ==> e.tx_rate_bps == n,
        gives_number(row, "rx-rate"@, n) ==> e.rx_rate_bps == n,
        gives(row, "uptime"@, crate::text::decimal(n) + seq!['s']) ==> e.uptime_s == n,
        gives(row, "last-activity"@, crate::text::decimal(n) + seq!['s']) ==> e.last_activity_s
            == n,
{
    if gives(row, "signal"@, crate::text::decimal_int(dbm)) {
        lemma_signed_number(row, "signal"@, dbm);
    }
    if gives_number(row, "tx-rate"@, n) {
        lemma_number(row, "tx-rate"@, n);
    }
    if gives_number(row, "rx-rate"@, n) {
        lemma_number(row, "rx-rate"@, n);
    }
    crate::text_laws::lemma_seconds(n, true);
}

/// A wireless client of the legacy stack holds what its row gives, its signal
/// with the rate behind an at sign left out, and its rates in bits per second.
pub proof fn law_legacy_clients_are_read(
    e: WifiClient,
    row: crate::json::JsonView,
    s: Seq<char>,
    n: nat,
    dbm: int,
)
    requires
        crate::discovery::collect::is_legacy_client(e, row),
        n <= u64::MAX,
        i32::MIN <= dbm <= i32::MAX,
    ensures
        gives(row, "mac-address"@, s) ==> e.mac@ == s,
        gives(row, "interface"@, s) ==> e.interface@ == s,
        gives(row, "ssid"@, s) ==> e.ssid@ == s,
        gives(row, "band"@, s) ==> e.band@ == s,
        gives(row, "signal-strength"@, crate::text::decimal_int(dbm) + seq!['@'] + s)
            ==> e.signal_dbm == dbm,
        gives(row, "signal-strength"@, crate::text::decimal_int(dbm)) ==> e.signal_dbm == dbm,
        gives_number(row, "tx-rate"@, n) ==> e.tx_rate_bps == n,
        gives_number(row, "rx-rate"@, n) ==> e.rx_rate_bps == n,
        gives(row, "uptime"@, crate::text::decimal(n) + seq!['s']) ==> e.uptime_s == n,
        gives(row, "last-activity"@, crate::text::decimal(n) + seq!['s']) ==> e.last_activity_s
            == n,
{
    law_legacy_signals_are_read(dbm, s);
    lemma_plain_number(dbm);
    lemma_plain_number(n as int);
    crate::text::law_decimal_reads_back(n);
    crate::text_laws::lemma_seconds(n, true);
    assert((crate::text::decimal(n) + seq!['s']).len() > 0);
    assert((crate::text::decimal_int(dbm) + seq!['@'] + s).len() > 0);
}

/// A legacy signal is what stands before the at sign.
pub proof fn law_legacy_signals_are_read(dbm: int, tail: Seq<char>)
    requires
        i32::MIN <= dbm <= i32::MAX,
    ensures
        crate::discovery::collect::legacy_signal(crate::text::decimal_int(dbm)) == dbm,
        crate::discovery::collect::legacy_signal(
            crate::text::decimal_int(dbm) + seq!['@'] + tail,
        ) == dbm,
        crate::discovery::capture::signal_at_rate(
            crate::text::decimal_int(dbm) + seq!['@'] + tail,
        ).0 == dbm,
{
    let front = crate::text::decimal_int(dbm);
    let s = front + seq!['@'] + tail;
    lemma_plain_number(dbm);
    crate::text_laws::law_signed_numbers_read_back(dbm, i32::MAX as nat);
    crate::text_laws::lemma_first_after(front, '@', tail);
    assert(s.take(front.len() as int) =~= front);
}

/// A signal with the rate it was heard at: whole megabits per second read as so
/// many thousands of kilobits.
pub proof fn law_signals_are_read_with_their_rate(dbm: int, mbps: nat, tail: Seq<char>)
    requires
        i32::MIN <= dbm <= i32::MAX,
        mbps * 1000 <= u64::MAX,
        tail.len() > 0 ==> crate::text::digit(tail[0], 10) is None && tail[0] != '.',
    ensures
        crate::discovery::capture::signal_at_rate(
            crate::text::decimal_int(dbm) + seq!['@'] + (crate::text::decimal(mbps) + tail),
        ) == (dbm as i32, mbps * 1000),
{
    let front = crate::text::decimal_int(dbm);
    let back = crate::text::decimal(mbps) + tail;
    let s = front + seq!['@'] + back;
    law_legacy_signals_are_read(dbm, back);
    lemma_plain_number(dbm);
    crate::text_laws::lemma_first_after(front, '@', back);
    assert(s.skip(front.len() as int + 1) =~= back);
    crate::text_laws::law_a_number_in_front_is_read(mbps, tail);
}

/// A radio of the modern stack holds what its row gives, and no channel where
/// none is given.
pub proof fn law_radios_are_read(e: Radio, row: crate::json::JsonView, s: Seq<char>, mhz: nat)
    requires
        crate::discovery::collect::is_wifi_radio(e, row),
        0 < mhz <= u32::MAX,
    ensures
        gives(row, "name"@, s) ==> e.name@ == s,
        gives(row, "channel.band"@, s) && s.len() > 0 ==> e.band@ == s,
        gives(row, "channel.width"@, s) && s.len() > 0 ==> e.width@ == s,
        gives(row, "configuration.country"@, s) && s.len() > 0 ==> e.country@ == s,
        gives_number(row, "channel.frequency"@, mhz) ==> e.frequency_mhz == Some(mhz as u32),
        row.get("channel.frequency"@) is None ==> e.frequency_mhz is None,
{
    if gives_number(row, "channel.frequency"@, mhz) {
        lemma_number(row, "channel.frequency"@, mhz);
    }
    lemma_absent(row, "channel.frequency"@);
}

/// A radio of the legacy stack holds what its row gives.
pub proof fn law_legacy_radios_are_read(
    e: Radio,
    row: crate::json::JsonView,
    s: Seq<char>,
    mhz: nat,
)
    requires
        crate::discovery::collect::is_legacy_radio(e, row),
        0 < mhz <= u32::MAX,
    ensures
        gives(row, "name"@, s) ==> e.name@ == s,
        gives(row, "band"@, s) ==> e.band@ == s,
        gives(row, "channel-width"@, s) && s.len() > 0 ==> e.width@ == s,
        gives(row, "country"@, s) ==> e.country@ == s,
        gives_number(row, "frequency"@, mhz) ==> e.frequency_mhz == Some(mhz as u32),
        row.get("frequency"@) is None ==> e.frequency_mhz is None,
{
    if gives_number(row, "frequency"@, mhz) {
        lemma_number(row, "frequency"@, mhz);
    }
    lemma_absent(row, "frequency"@);
}

proof fn lemma_absent(row: crate::json::JsonView, key: Seq<char>)
    ensures
        row.get(key) is None ==> crate::discovery::collect::number(row, key) == 0,
{
    let e = Seq::<char>::empty();
    let f = |c: char| crate::text::is_space(c);
    assert(crate::text::without_front(e, f) =~= e);
    assert(crate::text::without_back(e, f) =~= e);
    crate::text_laws::lemma_none_first(e, ',');
}

/// A neighbouring access point holds what its row gives.
pub proof fn law_access_points_are_read(
    e: NeighbourAp,
    row: crate::json::JsonView,
    s: Seq<char>,
    mhz: nat,
    dbm: int,
)
    requires
        crate::discovery::collect::is_ap(e, row),
        0 < mhz <= u32::MAX,
        i32::MIN <= dbm <= i32::MAX,
    ensures
        gives(row, "ssid"@, s) ==> e.ssid@ == s,
        gives(row, "signal"@, crate::text::decimal_int(dbm)) ==> e.signal_dbm == dbm,
        gives_number(row, "frequency"@, mhz) ==> e.frequency_mhz == mhz,
        row.get("frequency"@) is None && gives_number(row, "channel"@, mhz) ==> e.frequency_mhz
            == mhz,
{
    if gives(row, "signal"@, crate::text::decimal_int(dbm)) {
        lemma_signed_number(row, "signal"@, dbm);
    }
    if gives_number(row, "frequency"@, mhz) {
        lemma_number(row, "frequency"@, mhz);
    }
    if gives_number(row, "channel"@, mhz) {
        lemma_number(row, "channel"@, mhz);
    }
    lemma_absent(row, "frequency"@);
}

/// A rate is what a counter of that name grew by between two samples two
/// seconds apart, per second; one that went back has no rate.
pub proof fn law_rates_are_growth_over_two_seconds(
    e: InterfaceStats,
    a: crate::json::JsonView,
    b: crate::json::JsonView,
    s: Seq<char>,
    x: nat,
    y: nat,
)
    requires
        crate::discovery::collect::is_rate(e, a, b),
        x <= u64::MAX,
        y <= u64::MAX,
    ensures
        gives(b, "name"@, s) ==> e.name@ == s,
        gives(b, "running"@, "true"@) ==> e.running,
        gives(b, "running"@, "false"@) ==> !e.running,
        gives_number(a, "rx-packet"@, x) && gives_number(b, "rx-packet"@, y)
            ==> e.rx_packets_per_s == if y >= x {
            (y - x) / 2
        } else {
            0
        },
        gives_number(a, "tx-packet"@, x) && gives_number(b, "tx-packet"@, y)
            ==> e.tx_packets_per_s == if y >= x {
            (y - x) / 2
        } else {
            0
        },
        gives_number(a, "rx-broadcast"@, x) && gives_number(b, "rx-broadcast"@, y)
            ==> e.rx_broadcast_per_s == if y >= x {
            (y - x) / 2
        } else {
            0
        },
        gives_number(a, "rx-multicast"@, x) && gives_number(b, "rx-multicast"@, y)
            ==> e.rx_multicast_per_s == if y >= x {
            (y - x) / 2
        } else {
            0
        },
{
    reveal_strlit("true");
    reveal_strlit("yes");
    reveal_strlit("false");
    assert("false"@.len() == 5 && "true"@.len() == 4 && "yes"@.len() == 3);
    lemma_counter(a, b, "rx-packet"@, x, y);
    lemma_counter(a, b, "tx-packet"@, x, y);
    lemma_counter(a, b, "rx-broadcast"@, x, y);
    lemma_counter(a, b, "rx-multicast"@, x, y);
}

proof fn lemma_counter(
    a: crate::json::JsonView,
    b: crate::json::JsonView,
    key: Seq<char>,
    x: nat,
    y: nat,
)
    requires
        x <= u64::MAX,
        y <= u64::MAX,
    ensures
        gives_number(a, key, x) && gives_number(b, key, y)
            ==> crate::discovery::collect::per_second(a, b, key) == if y >= x {
            (y - x) / 2
        } else {
            0
        },
{
    if gives_number(a, key, x) && gives_number(b, key, y) {
        lemma_number(a, key, x);
        lemma_number(b, key, y);
    }
}

/// Interfaces are matched between the samples by name: what is found is a row
/// of that name, the first there is, and none is missed.
pub proof fn law_interfaces_are_matched_by_name(
    rows: Seq<crate::json::JsonView>,
    name: Seq<char>,
    from: int,
)
    requires
        0 <= from <= rows.len(),
    ensures
        match crate::discovery::collect::named(rows, name, from) {
            Some(row) => exists|k: int|
                from <= k < rows.len() && #[trigger] rows[k] == row
                    && crate::discovery::collect::cell(row, "name"@) == name && forall|i: int|
                    from <= i < k ==> crate::discovery::collect::cell(#[trigger] rows[i], "name"@)
                        != name,
            None => forall|i: int|
                from <= i < rows.len() ==> crate::discovery::collect::cell(
                    #[trigger] rows[i],
                    "name"@,
                ) != name,
        },
    decreases rows.len() - from,
{
    if from < rows.len() {
        if crate::discovery::collect::cell(rows[from], "name"@) == name {
        } else {
            law_interfaces_are_matched_by_name(rows, name, from + 1);
            match crate::discovery::collect::named(rows, name, from + 1) {
                Some(row) => {
                    let k = choose|k: int|
                        from + 1 <= k < rows.len() && #[trigger] rows[k] == row
                            && crate::discovery::collect::cell(row, "name"@) == name && forall|
                            i: int,
                        |
                            from + 1 <= i < k ==> crate::discovery::collect::cell(
                                #[trigger] rows[i],
                                "name"@,
                            ) != name;
                    assert(rows[k] == row);
                },
                None => {},
            }
        }
    }
}

/// A pool from one address to another holds both and all between them; one
/// address alone is a pool of one; a reversed range holds none.
pub proof fn law_pools_hold_both_ends(
    a: nat,
    b: nat,
    c: nat,
    d: nat,
    e: nat,
    f: nat,
    g: nat,
    h: nat,
)
    requires
        a < 256,
        b < 256,
        c < 256,
        d < 256,
        e < 256,
        f < 256,
        g < 256,
        h < 256,
    ensures
        ({
            let first = ((a * 256 + b) * 256 + c) * 256 + d;
            let last = ((e * 256 + f) * 256 + g) * 256 + h;
            let range = crate::net_laws::quad(a, b, c, d) + seq!['-'] + crate::net_laws::quad(
                e,
                f,
                g,
                h,
            );
            &&& crate::discovery::collect::part_size(range) == if last >= first {
                last - first + 1
            } else {
                0
            }
            &&& crate::discovery::collect::part_size(crate::net_laws::quad(a, b, c, d)) == 1
        }),
{
    let x = crate::net_laws::quad(a, b, c, d);
    let y = crate::net_laws::quad(e, f, g, h);
    let s = x + seq!['-'] + y;
    crate::net_laws::law_dotted_addresses_read_back(a, b, c, d);
    crate::net_laws::law_dotted_addresses_read_back(e, f, g, h);
    lemma_quad(a, b, c, d);
    lemma_quad(e, f, g, h);
    assert(s[0] == x[0]);
    assert(s[s.len() - 1] == y[y.len() - 1]);
    lemma_not_trimmed(s);
    lemma_not_trimmed(x);
    lemma_not_trimmed(y);
    crate::text_laws::lemma_first_after(x, '-', y);
    crate::text_laws::lemma_none_first(x, '-');
    assert(s.take(x.len() as int) =~= x);
    assert(s.skip(x.len() as int + 1) =~= y);
}

pub proof fn lemma_quad(a: nat, b: nat, c: nat, d: nat)
    ensures
        ({
            let s = crate::net_laws::quad(a, b, c, d);
            &&& s.len() > 0
            &&& '0' <= s[0] && s[0] <= '9'
            &&& '0' <= s[s.len() - 1] && s[s.len() - 1] <= '9'
            &&& forall|i: int| 0 <= i < s.len() ==> #[trigger] s[i] != '-'
        }),
{
    let s = crate::net_laws::quad(a, b, c, d);
    let pa = crate::text::decimal(a);
    let pb = crate::text::decimal(b);
    let pc = crate::text::decimal(c);
    let pd = crate::text::decimal(d);
    crate::text_laws::law_numbers_are_written_in_digits(a);
    crate::text_laws::law_numbers_are_written_in_digits(b);
    crate::text_laws::law_numbers_are_written_in_digits(c);
    crate::text_laws::law_numbers_are_written_in_digits(d);
    let la = pa.len();
    let lb = la + 1 + pb.len();
    let lc = lb + 1 + pc.len();
    assert(s[0] == pa[0]);
    assert(s[s.len() - 1] == pd[pd.len() - 1]);
    assert forall|i: int| 0 <= i < s.len() implies #[trigger] s[i] != '-' by {
        if i < la {
            assert(s[i] == pa[i]);
        } else if i == la {
            assert(s[i] == '.');
        } else if i < lb {
            assert(s[i] == pb[i - la - 1]);
        } else if i == lb {
            assert(s[i] == '.');
        } else if i < lc {
            assert(s[i] == pc[i - lb - 1]);
        } else if i == lc {
            assert(s[i] == '.');
        } else {
            assert(s[i] == pd[i - lc - 1]);
        }
    }
}

/// A text without white space at its ends has nothing to trim.
pub proof fn lemma_not_trimmed(s: Seq<char>)
    requires
        s.len() > 0,
        !crate::text::is_space(s[0]),
        !crate::text::is_space(s[s.len() - 1]),
    ensures
        crate::text::trimmed(s) == s,
{
    let f = |c: char| crate::text::is_space(c);
    assert(crate::text::without_front(s, f) == s);
    assert(crate::text::without_back(s, f) == s);
}

/// The size of a list of ranges is that of its parts together, and that of all
/// pools is that of their lists together.
pub proof fn law_pool_sizes_add_up(
    a: Seq<Seq<char>>,
    part: Seq<char>,
    rows: Seq<crate::json::JsonView>,
    row: crate::json::JsonView,
    s: Seq<char>,
)
    requires
        gives(row, "ranges"@, s),
    ensures
        crate::discovery::collect::parts_size(Seq::empty()) == 0,
        crate::discovery::collect::parts_size(a.push(part))
            == crate::discovery::collect::parts_size(a) + crate::discovery::collect::part_size(
            part,
        ),
        crate::discovery::collect::pools_size(Seq::empty()) == 0,
        crate::discovery::collect::pools_size(rows.push(row))
            == crate::discovery::collect::pools_size(rows) + crate::discovery::collect::range_size(
            s,
        ),
{
    assert(a.push(part).drop_last() =~= a);
    assert(rows.push(row).drop_last() =~= rows);
}

/// A pair of rates is read half by half: what is sent before the slash, what is
/// received behind it.
pub proof fn law_rate_pairs_are_read(tx: u64, rx: u64)
    ensures
        crate::discovery::capture::rate_pair(
            crate::text::decimal(tx as nat) + seq!['/'] + crate::text::decimal(rx as nat),
        ) == (tx, rx),
        crate::discovery::capture::rate_pair(crate::text::decimal(tx as nat)) == (tx, 0u64),
{
    let a = crate::text::decimal(tx as nat);
    let b = crate::text::decimal(rx as nat);
    let s = a + seq!['/'] + b;
    lemma_plain_number(tx as int);
    lemma_plain_number(rx as int);
    crate::text::law_decimal_reads_back(tx as nat);
    crate::text::law_decimal_reads_back(rx as nat);
    crate::text_laws::lemma_first_after(a, '/', b);
    assert(s.take(a.len() as int) =~= a);
    assert(s.skip(a.len() as int + 1) =~= b);
}

/// The text of a pair of rates.
pub open spec fn pair_text(tx: u64, rx: u64) -> Seq<char> {
    crate::text::decimal(tx as nat) + seq!['/'] + crate::text::decimal(rx as nat)
}

/// A captured host holds what its row gives: its rates under `rate`, the
/// highest under `peak-rate`, and all it moved either way under `total`.
pub proof fn law_captured_hosts_are_read(
    row: crate::json::JsonView,
    s: Seq<char>,
    tx: u64,
    rx: u64,
)
    ensures
        ({
            let h = crate::discovery::capture::host_of(row);
            &&& gives(row, "address"@, s) ==> h.address == s
            &&& gives(row, "rate"@, pair_text(tx, rx)) ==> h.tx_rate_bps == tx && h.rx_rate_bps
                == rx
            &&& gives(row, "peak-rate"@, pair_text(tx, rx)) ==> h.peak_tx_bps == tx
                && h.peak_rx_bps == rx
            &&& gives(row, "total"@, pair_text(tx, rx)) && tx + rx <= u64::MAX ==> h.total_bytes
                == tx + rx
        }),
{
    law_rate_pairs_are_read(tx, rx);
}

/// Hosts come busiest first, by the higher of what they send and receive and,
/// where that is equal, by what they moved in all; each row with an address is
/// one of them, and no other row is.
pub proof fn law_captured_hosts_come_busiest_first(
    rows: Seq<crate::json::JsonView>,
    i: int,
    k: int,
)
    requires
        0 <= i <= k < crate::discovery::capture::hosts_by_load(rows).len(),
    ensures
        ({
            let all = crate::discovery::capture::hosts_by_load(rows);
            let a = all[i];
            let b = all[k];
            let top_a = if a.tx_rate_bps >= a.rx_rate_bps {
                a.tx_rate_bps
            } else {
                a.rx_rate_bps
            };
            let top_b = if b.tx_rate_bps >= b.rx_rate_bps {
                b.tx_rate_bps
            } else {
                b.rx_rate_bps
            };
            &&& top_a > top_b || (top_a == top_b && a.total_bytes >= b.total_bytes)
            &&& all.len() == rows.filter(
                |r: crate::json::JsonView|
                    crate::discovery::capture::cell(r, "address"@).len() > 0,
            ).len()
        }),
{
    let key = |h: HostView| crate::discovery::capture::host_rank(h);
    let flat = crate::discovery::capture::hosts_in(rows);
    crate::order::lemma_arranged(flat, key);
    let all = crate::discovery::capture::hosts_by_load(rows);
    assert(key(all[i]) <= key(all[k]));
    lemma_hosts_in(rows);
}

proof fn lemma_hosts_in(rows: Seq<crate::json::JsonView>)
    ensures
        crate::discovery::capture::hosts_in(rows).len() == rows.filter(
            |r: crate::json::JsonView| crate::discovery::capture::cell(r, "address"@).len() > 0,
        ).len(),
        forall|i: int|
            0 <= i < rows.len() && crate::discovery::capture::cell(
                #[trigger] rows[i],
                "address"@,
            ).len() > 0 ==> crate::discovery::capture::hosts_in(rows).contains(
                crate::discovery::capture::host_of(rows[i]),
            ),
    decreases rows.len(),
{
    reveal(Seq::filter);
    if rows.len() > 0 {
        let rest = rows.drop_last();
        let before = crate::discovery::capture::hosts_in(rest);
        let all = crate::discovery::capture::hosts_in(rows);
        lemma_hosts_in(rest);
        assert forall|i: int|
            0 <= i < rows.len() && crate::discovery::capture::cell(
                #[trigger] rows[i],
                "address"@,
            ).len() > 0 implies all.contains(crate::discovery::capture::host_of(rows[i])) by {
            if i < rest.len() {
                assert(rest[i] == rows[i]);
                let h = crate::discovery::capture::host_of(rows[i]);
                let k = choose|k: int| 0 <= k < before.len() && before[k] == h;
                assert(all[k] == h);
            } else {
                assert(all[before.len() as int] == crate::discovery::capture::host_of(rows[i]));
            }
        }
    }
}

/// Every row with an address is among the hosts.
pub proof fn law_no_captured_host_is_left_out(rows: Seq<crate::json::JsonView>, i: int)
    requires
        0 <= i < rows.len(),
        crate::discovery::capture::cell(rows[i], "address"@).len() > 0,
    ensures
        crate::discovery::capture::hosts_by_load(rows).contains(
            crate::discovery::capture::host_of(rows[i]),
        ),
{
    let key = |h: HostView| crate::discovery::capture::host_rank(h);
    let flat = crate::discovery::capture::hosts_in(rows);
    lemma_hosts_in(rows);
    crate::order::lemma_arranged_contains(
        flat,
        key,
        crate::discovery::capture::host_of(rows[i]),
    );
}

/// A captured protocol holds what its row gives, under the most telling name.
pub proof fn law_captured_protocols_are_read(
    row: crate::json::JsonView,
    s: Seq<char>,
    n: nat,
)
    requires
        n <= u64::MAX,
    ensures
        ({
            let p = crate::discovery::capture::protocol_of(row);
            &&& gives(row, "ip-protocol"@, s) && s.len() > 0 ==> p.protocol == s
            &&& row.get("ip-protocol"@) is None && gives(row, "protocol"@, s) && s.len() > 0
                ==> p.protocol == s
            &&& row.get("ip-protocol"@) is None && row.get("protocol"@) is None && gives(
                row,
                "mac-protocol"@,
                s,
            ) ==> p.protocol == s
            &&& gives_number(row, "bytes"@, n) ==> p.bytes == n
            &&& gives_number(row, "packets"@, n) ==> p.packets == n
        }),
{
    if gives_number(row, "bytes"@, n) {
        lemma_number(row, "bytes"@, n);
    }
    if gives_number(row, "packets"@, n) {
        lemma_number(row, "packets"@, n);
    }
}

/// Protocols come with the most bytes first.
pub proof fn law_captured_protocols_come_largest_first(
    rows: Seq<crate::json::JsonView>,
    i: int,
    k: int,
)
    requires
        0 <= i <= k < crate::discovery::capture::protocols_by_bytes(rows).len(),
    ensures
        crate::discovery::capture::protocols_by_bytes(rows)[i].bytes
            >= crate::discovery::capture::protocols_by_bytes(rows)[k].bytes,
        crate::discovery::capture::protocols_by_bytes(rows).len() == rows.filter(
            |r: crate::json::JsonView| crate::discovery::capture::protocol_label(r).len() > 0,
        ).len(),
{
    let key = |p: ProtocolView| crate::discovery::capture::protocol_rank(p);
    let flat = crate::discovery::capture::protocols_in(rows);
    crate::order::lemma_arranged(flat, key);
    let all = crate::discovery::capture::protocols_by_bytes(rows);
    assert(key(all[i]) <= key(all[k]));
    lemma_protocols_in(rows);
}

proof fn lemma_protocols_in(rows: Seq<crate::json::JsonView>)
    ensures
        crate::discovery::capture::protocols_in(rows).len() == rows.filter(
            |r: crate::json::JsonView| crate::discovery::capture::protocol_label(r).len() > 0,
        ).len(),
    decreases rows.len(),
{
    reveal(Seq::filter);
    if rows.len() > 0 {
        lemma_protocols_in(rows.drop_last());
    }
}

/// The radio to sniff with is the first that is running, or the first of all
/// where none is.
pub proof fn law_a_running_radio_is_preferred(rows: Seq<crate::json::JsonView>, i: int)
    requires
        0 <= i < rows.len(),
        forall|k: int| 0 <= k < i ==> !gives(#[trigger] rows[k], "running"@, "true"@),
        forall|k: int|
            0 <= k < rows.len() ==> (#[trigger] rows[k]).get("running"@) is Some ==> rows[k].get(
                "running"@,
            )->0 is Text,
    ensures
        gives(rows[i], "running"@, "true"@) ==> crate::discovery::capture::radio_to_use(rows)
            == crate::discovery::capture::cell(rows[i], "name"@),
        (forall|k: int| 0 <= k < rows.len() ==> !gives(#[trigger] rows[k], "running"@, "true"@))
            ==> crate::discovery::capture::radio_to_use(rows) == crate::discovery::capture::cell(
            rows[0],
            "name"@,
        ),
{
    reveal_strlit("true");
    assert("true"@.len() == 4);
    lemma_first_running(rows, 0, i);
    if forall|k: int| 0 <= k < rows.len() ==> !gives(#[trigger] rows[k], "running"@, "true"@) {
        lemma_first_running(rows, 0, rows.len() as int);
    }
}

proof fn lemma_first_running(rows: Seq<crate::json::JsonView>, from: int, to: int)
    requires
        0 <= from <= to <= rows.len(),
        forall|k: int| from <= k < to ==> !gives(#[trigger] rows[k], "running"@, "true"@),
        forall|k: int|
            0 <= k < rows.len() ==> (#[trigger] rows[k]).get("running"@) is Some ==> rows[k].get(
                "running"@,
            )->0 is Text,
        "true"@.len() == 4,
    ensures
        crate::discovery::capture::first_running(rows, from)
            == crate::discovery::capture::first_running(rows, to),
    decreases to - from,
{
    if from < to {
        assert(!gives(rows[from], "running"@, "true"@));
        lemma_first_running(rows, from + 1, to);
    }
}

/// A capture runs for the whole seconds asked for, but for no less than one and
/// no more than sixty.
pub proof fn law_how_long_a_capture_runs(d: crate::duration::Duration)
    ensures
        ({
            let want = d.nanos as nat / 1_000_000_000;
            &&& want == 0 ==> crate::discovery::capture::capture_secs(d) == 1
            &&& 1 <= want <= 60 ==> crate::discovery::capture::capture_secs(d) == want
            &&& want > 60 ==> crate::discovery::capture::capture_secs(d) == 60
            &&& crate::discovery::capture::capture_notes(d).len() > 0 <==> want > 60
        }),
{
}

} // verus!
