//! Reading local state out of the host RouterOS device's replies.
//!
//! Every value in a RouterOS REST response is a JSON *string*, including
//! numbers and booleans, so all parsing here is defensive: a field that is
//! missing, empty or unparseable yields a default rather than failing the whole
//! run. A discovery pass that returns nine of ten collectors is far more useful
//! than one that aborts because a device lacks a wireless card.
//!
//! RouterOS 7 ships two incompatible wireless stacks, legacy
//! `/interface/wireless` and the newer `/interface/wifi`, and a given device
//! has one or the other. Whichever responds is used, so one build covers a
//! mixed fleet.

use vstd::prelude::*;

use crate::discovery::findings::{
    ArpEntry, DhcpLease, InterfaceStats, NeighbourAp, Radio, Snapshot, WifiClient,
};
use crate::json::Json;
use crate::net::parse_ipv4;
use crate::text::{
    contains, parse_front, parse_i32, parse_span, parse_u64, same, split, split_once,
    to_ascii_lowercase, trim,
};

verus! {

/// Seconds between the two interface samples used to derive packet rates.
/// RouterOS exposes counters, not rates, so a rate needs two reads.
pub const RATE_SAMPLE_SECS: u64 = 2;

// --- field helpers --------------------------------------------------------

/// What a row says under `key`: a text, a number or a truth value, as text.
pub open spec fn cell(row: crate::json::JsonView, key: Seq<char>) -> Seq<char> {
    match row.get(key) {
        Some(crate::json::JsonView::Text(x)) => x,
        Some(crate::json::JsonView::Number(n)) => n,
        Some(crate::json::JsonView::Bool(b)) => if b {
            "true"@
        } else {
            "false"@
        },
        _ => Seq::empty(),
    }
}

/// What a row says under `a`, or under `b` when it says nothing there.
pub open spec fn either(row: crate::json::JsonView, a: Seq<char>, b: Seq<char>) -> Seq<char> {
    if cell(row, a).len() > 0 {
        cell(row, a)
    } else {
        cell(row, b)
    }
}

/// The first of comma-separated values, without white space around it.
pub open spec fn first_value(s: Seq<char>) -> Seq<char> {
    crate::text::trimmed(
        match crate::text::first_of(s, ',') {
            Some(k) => s.take(k),
            None => s,
        },
    )
}

/// The unsigned number under `key`; zero when there is none.
pub open spec fn number(row: crate::json::JsonView, key: Seq<char>) -> u64 {
    match crate::text::unsigned(first_value(cell(row, key)), 10, u64::MAX as nat) {
        Some(v) => v as u64,
        None => 0,
    }
}

/// The signed number under `key`; zero when there is none.
pub open spec fn signed_number(row: crate::json::JsonView, key: Seq<char>) -> i32 {
    match crate::text::signed(first_value(cell(row, key)), i32::MAX as nat) {
        Some(v) => v as i32,
        None => 0,
    }
}

pub open spec fn flag(row: crate::json::JsonView, key: Seq<char>) -> bool {
    cell(row, key) == "true"@ || cell(row, key) == "yes"@
}

pub fn str_of(row: &Json, key: &str) -> (r: String)
    ensures
        r@ == cell(row@, key@),
{
    match row.get(key) {
        Some(Json::Text(x)) => x.clone(),
        Some(Json::Number(n)) => n.clone(),
        Some(Json::Bool(b)) => {
            if *b {
                "true".to_owned()
            } else {
                "false".to_owned()
            }
        },
        _ => String::new(),
    }
}

fn either_of(row: &Json, a: &str, b: &str) -> (r: String)
    ensures
        r@ == either(row@, a@, b@),
{
    let s = str_of(row, a);
    if s.as_str().is_empty() {
        str_of(row, b)
    } else {
        s
    }
}

fn head<'a>(s: &'a str) -> (r: &'a str)
    ensures
        r@ == first_value(s@),
{
    match split_once(s, ',') {
        Some((a, _)) => trim(a),
        None => trim(s),
    }
}

/// Unsigned number from a RouterOS string field. A value like "4108,60349"
/// (rx,tx byte pairs) takes the first component rather than failing.
pub fn num_of(row: &Json, key: &str) -> (r: u64)
    ensures
        r == number(row@, key@),
{
    let s = str_of(row, key);
    match parse_u64(head(s.as_str())) {
        Some(v) => v,
        None => 0,
    }
}

pub fn signed_of(row: &Json, key: &str) -> (r: i32)
    ensures
        r == signed_number(row@, key@),
{
    let s = str_of(row, key);
    match parse_i32(head(s.as_str())) {
        Some(v) => v,
        None => 0,
    }
}

pub fn bool_of(row: &Json, key: &str) -> (r: bool)
    ensures
        r == flag(row@, key@),
{
    let s = str_of(row, key);
    same(s.as_str(), "true") || same(s.as_str(), "yes")
}

/// A legacy signal strength in dBm: `-64@6mbps` or `-64`.
pub open spec fn legacy_signal(s: Seq<char>) -> i32 {
    let t = crate::text::trimmed(
        match crate::text::first_of(s, '@') {
            Some(k) => s.take(k),
            None => s,
        },
    );
    match crate::text::signed(t, i32::MAX as nat) {
        Some(v) => v as i32,
        None => 0,
    }
}

pub fn parse_legacy_signal(s: &str) -> (r: i32)
    ensures
        r == legacy_signal(s@),
{
    let t = match split_once(s, '@') {
        Some((a, _)) => trim(a),
        None => trim(s),
    };
    match parse_i32(t) {
        Some(v) => v,
        None => 0,
    }
}

/// The power of ten that a rate's unit stands for.
pub open spec fn rate_scale(s: Seq<char>) -> nat {
    if crate::text::has(s, "gbps"@) {
        9
    } else if crate::text::has(s, "mbps"@) {
        6
    } else if crate::text::has(s, "kbps"@) {
        3
    } else {
        0
    }
}

/// A legacy rate in bits per second: `54Mbps`, `6Mbps-40MHz/1S`, or a bare
/// bits-per-second value.
pub open spec fn legacy_rate(s: Seq<char>) -> nat {
    let t = crate::text::trimmed(s);
    match crate::text::unsigned(t, 10, u64::MAX as nat) {
        Some(v) => v,
        None => crate::text::front_scaled(t, rate_scale(crate::text::lowered(t))),
    }
}

pub fn parse_legacy_rate(s: &str) -> (r: u64)
    ensures
        r == legacy_rate(s@),
{
    let t = trim(s);
    match parse_u64(t) {
        Some(v) => v,
        None => {
            let low = to_ascii_lowercase(t);
            let scale: usize = if contains(low.as_str(), "gbps") {
                9
            } else if contains(low.as_str(), "mbps") {
                6
            } else if contains(low.as_str(), "kbps") {
                3
            } else {
                0
            };
            parse_front(t, scale)
        },
    }
}

/// RouterOS durations: `1h22m56s`, `3d17h58m3s`, `6s`.
pub fn parse_uptime(s: &str) -> (r: u64)
    ensures
        r == crate::text::capped(crate::text::span_seconds(s@, true), u64::MAX as nat),
{
    parse_span(s, true)
}

/// The seconds that the span under `key` adds up to.
pub open spec fn uptime(s: Seq<char>) -> nat {
    crate::text::capped(crate::text::span_seconds(s, true), u64::MAX as nat)
}

/// A channel frequency: unknown when zero. Only the low 32 bits are kept.
pub open spec fn channel(f: u64) -> Option<u32> {
    if f > 0 {
        Some((f % 0x1_0000_0000) as u32)
    } else {
        None
    }
}

fn to_channel(f: u64) -> (r: Option<u32>)
    ensures
        r == channel(f),
{
    if f > 0 {
        Some((f % 0x1_0000_0000) as u32)
    } else {
        None
    }
}

// --- parsers --------------------------------------------------------------

/// `e` is the ARP entry that `row` describes.
pub open spec fn is_arp(e: ArpEntry, row: crate::json::JsonView) -> bool {
    &&& e.address@ == cell(row, "address"@)
    &&& e.mac@ == cell(row, "mac-address"@)
    &&& e.interface@ == cell(row, "interface"@)
    &&& e.from_dhcp == flag(row, "dhcp"@)
    &&& e.complete == flag(row, "complete"@)
}

pub open spec fn has_address(row: crate::json::JsonView) -> bool {
    cell(row, "address"@).len() > 0
}

pub fn parse_arp(v: &Json) -> (r: Vec<ArpEntry>)
    ensures
        r@.len() == v@.rows().filter(|x: crate::json::JsonView| has_address(x)).len(),
        forall|i: int|
            0 <= i < r@.len() ==> is_arp(
                #[trigger] r@[i],
                v@.rows().filter(|x: crate::json::JsonView| has_address(x))[i],
            ),
{
    let ghost rows = v@.rows();
    let ghost p = |x: crate::json::JsonView| has_address(x);
    let mut out: Vec<ArpEntry> = Vec::new();
    let n: usize = v.row_count();
    let mut i: usize = 0;
    proof {
        crate::discovery::group::lemma_take_ends(rows);
        reveal(Seq::filter);
    }
    while i < n
        invariant
            i <= n == rows.len(),
            rows == v@.rows(),
            p == |x: crate::json::JsonView| has_address(x),
            out@.len() == rows.take(i as int).filter(p).len(),
            forall|k: int|
                0 <= k < out@.len() ==> is_arp(
                    #[trigger] out@[k],
                    rows.take(i as int).filter(p)[k],
                ),
        decreases n - i,
    {
        proof {
            crate::discovery::group::lemma_take_step(rows, i as int);
            reveal(Seq::filter);
        }
        let row = v.row(i);
        let entry = ArpEntry {
            address: str_of(row, "address"),
            mac: str_of(row, "mac-address"),
            interface: str_of(row, "interface"),
            from_dhcp: bool_of(row, "dhcp"),
            complete: bool_of(row, "complete"),
        };
        if !entry.address.as_str().is_empty() {
            out.push(entry);
        }
        i = i + 1;
    }
    proof {
        crate::discovery::group::lemma_take_ends(rows);
    }
    out
}

/// `e` is the lease that `row` describes. Active fields reflect the live
/// binding; the static ones are the configured reservation and can differ.
pub open spec fn is_lease(e: DhcpLease, row: crate::json::JsonView) -> bool {
    &&& e.address@ == either(row, "active-address"@, "address"@)
    &&& e.mac@ == either(row, "active-mac-address"@, "mac-address"@)
    &&& e.hostname@ == either(row, "host-name"@, "comment"@)
    &&& e.active == (cell(row, "status"@) == "bound"@ || cell(row, "active-address"@).len() > 0)
}

pub open spec fn has_lease_mac(row: crate::json::JsonView) -> bool {
    either(row, "active-mac-address"@, "mac-address"@).len() > 0
}

pub fn parse_leases(v: &Json) -> (r: Vec<DhcpLease>)
    ensures
        r@.len() == v@.rows().filter(|x: crate::json::JsonView| has_lease_mac(x)).len(),
        forall|i: int|
            0 <= i < r@.len() ==> is_lease(
                #[trigger] r@[i],
                v@.rows().filter(|x: crate::json::JsonView| has_lease_mac(x))[i],
            ),
{
    let ghost rows = v@.rows();
    let ghost p = |x: crate::json::JsonView| has_lease_mac(x);
    let mut out: Vec<DhcpLease> = Vec::new();
    let n: usize = v.row_count();
    let mut i: usize = 0;
    proof {
        crate::discovery::group::lemma_take_ends(rows);
        reveal(Seq::filter);
    }
    while i < n
        invariant
            i <= n == rows.len(),
            rows == v@.rows(),
            p == |x: crate::json::JsonView| has_lease_mac(x),
            out@.len() == rows.take(i as int).filter(p).len(),
            forall|k: int|
                0 <= k < out@.len() ==> is_lease(
                    #[trigger] out@[k],
                    rows.take(i as int).filter(p)[k],
                ),
        decreases n - i,
    {
        proof {
            crate::discovery::group::lemma_take_step(rows, i as int);
            reveal(Seq::filter);
        }
        let row = v.row(i);
        let status = str_of(row, "status");
        let live = str_of(row, "active-address");
        let entry = DhcpLease {
            address: either_of(row, "active-address", "address"),
            mac: either_of(row, "active-mac-address", "mac-address"),
            hostname: either_of(row, "host-name", "comment"),
            active: same(status.as_str(), "bound") || !live.as_str().is_empty(),
        };
        if !entry.mac.as_str().is_empty() {
            out.push(entry);
        }
        i = i + 1;
    }
    proof {
        crate::discovery::group::lemma_take_ends(rows);
    }
    out
}

/// Lease parsing for one-shot tools, without the whole collection pass.
pub fn parse_leases_public(v: &Json) -> (r: Vec<DhcpLease>)
    ensures
        r@.len() == v@.rows().filter(|x: crate::json::JsonView| has_lease_mac(x)).len(),
        forall|i: int|
            0 <= i < r@.len() ==> is_lease(
                #[trigger] r@[i],
                v@.rows().filter(|x: crate::json::JsonView| has_lease_mac(x))[i],
            ),
{
    parse_leases(v)
}

/// `e` is the client that `row` describes, on the modern wireless stack.
pub open spec fn is_wifi_client(e: WifiClient, row: crate::json::JsonView) -> bool {
    &&& e.mac@ == cell(row, "mac-address"@)
    &&& e.interface@ == cell(row, "interface"@)
    &&& e.ssid@ == cell(row, "ssid"@)
    &&& e.signal_dbm == signed_number(row, "signal"@)
    &&& e.tx_rate_bps == number(row, "tx-rate"@)
    &&& e.rx_rate_bps == number(row, "rx-rate"@)
    &&& e.band@ == cell(row, "band"@)
    &&& e.uptime_s == uptime(cell(row, "uptime"@))
    &&& e.last_activity_s == uptime(cell(row, "last-activity"@))
}

pub open spec fn has_mac(row: crate::json::JsonView) -> bool {
    cell(row, "mac-address"@).len() > 0
}

pub fn parse_wifi_clients(v: &Json) -> (r: Vec<WifiClient>)
    ensures
        r@.len() == v@.rows().filter(|x: crate::json::JsonView| has_mac(x)).len(),
        forall|i: int|
            0 <= i < r@.len() ==> is_wifi_client(
                #[trigger] r@[i],
                v@.rows().filter(|x: crate::json::JsonView| has_mac(x))[i],
            ),
{
    let ghost rows = v@.rows();
    let ghost p = |x: crate::json::JsonView| has_mac(x);
    let mut out: Vec<WifiClient> = Vec::new();
    let n: usize = v.row_count();
    let mut i: usize = 0;
    proof {
        crate::discovery::group::lemma_take_ends(rows);
        reveal(Seq::filter);
    }
    while i < n
        invariant
            i <= n == rows.len(),
            rows == v@.rows(),
            p == |x: crate::json::JsonView| has_mac(x),
            out@.len() == rows.take(i as int).filter(p).len(),
            forall|k: int|
                0 <= k < out@.len() ==> is_wifi_client(
                    #[trigger] out@[k],
                    rows.take(i as int).filter(p)[k],
                ),
        decreases n - i,
    {
        proof {
            crate::discovery::group::lemma_take_step(rows, i as int);
            reveal(Seq::filter);
        }
        let row = v.row(i);
        let up = str_of(row, "uptime");
        let quiet = str_of(row, "last-activity");
        let entry = WifiClient {
            mac: str_of(row, "mac-address"),
            interface: str_of(row, "interface"),
            ssid: str_of(row, "ssid"),
            signal_dbm: signed_of(row, "signal"),
            tx_rate_bps: num_of(row, "tx-rate"),
            rx_rate_bps: num_of(row, "rx-rate"),
            band: str_of(row, "band"),
            uptime_s: parse_uptime(up.as_str()),
            last_activity_s: parse_uptime(quiet.as_str()),
        };
        if !entry.mac.as_str().is_empty() {
            out.push(entry);
        }
        i = i + 1;
    }
    proof {
        crate::discovery::group::lemma_take_ends(rows);
    }
    out
}

/// `e` is the radio that `row` describes, on the modern wireless stack.
pub open spec fn is_wifi_radio(e: Radio, row: crate::json::JsonView) -> bool {
    &&& e.name@ == cell(row, "name"@)
    &&& e.band@ == either(row, "channel.band"@, "band"@)
    &&& e.frequency_mhz == channel(number(row, "channel.frequency"@))
    &&& e.width@ == either(row, "channel.width"@, "width"@)
    &&& e.country@ == either(row, "configuration.country"@, "country"@)
}

pub open spec fn has_name(row: crate::json::JsonView) -> bool {
    cell(row, "name"@).len() > 0
}

pub fn parse_wifi_radios(v: &Json) -> (r: Vec<Radio>)
    ensures
        r@.len() == v@.rows().filter(|x: crate::json::JsonView| has_name(x)).len(),
        forall|i: int|
            0 <= i < r@.len() ==> is_wifi_radio(
                #[trigger] r@[i],
                v@.rows().filter(|x: crate::json::JsonView| has_name(x))[i],
            ),
{
    let ghost rows = v@.rows();
    let ghost p = |x: crate::json::JsonView| has_name(x);
    let mut out: Vec<Radio> = Vec::new();
    let n: usize = v.row_count();
    let mut i: usize = 0;
    proof {
        crate::discovery::group::lemma_take_ends(rows);
        reveal(Seq::filter);
    }
    while i < n
        invariant
            i <= n == rows.len(),
            rows == v@.rows(),
            p == |x: crate::json::JsonView| has_name(x),
            out@.len() == rows.take(i as int).filter(p).len(),
            forall|k: int|
                0 <= k < out@.len() ==> is_wifi_radio(
                    #[trigger] out@[k],
                    rows.take(i as int).filter(p)[k],
                ),
        decreases n - i,
    {
        proof {
            crate::discovery::group::lemma_take_step(rows, i as int);
            reveal(Seq::filter);
        }
        let row = v.row(i);
        let entry = Radio {
            name: str_of(row, "name"),
            band: either_of(row, "channel.band", "band"),
            frequency_mhz: to_channel(num_of(row, "channel.frequency")),
            width: either_of(row, "channel.width", "width"),
            country: either_of(row, "configuration.country", "country"),
        };
        if !entry.name.as_str().is_empty() {
            out.push(entry);
        }
        i = i + 1;
    }
    proof {
        crate::discovery::group::lemma_take_ends(rows);
    }
    out
}

/// `e` is the client that `row` describes, on the legacy wireless stack.
pub open spec fn is_legacy_client(e: WifiClient, row: crate::json::JsonView) -> bool {
    let signal = if cell(row, "signal-strength"@).len() > 0 {
        cell(row, "signal-strength"@)
    } else {
        either(row, "signal-strength-ch0"@, "signal"@)
    };
    &&& e.mac@ == cell(row, "mac-address"@)
    &&& e.interface@ == cell(row, "interface"@)
    &&& e.ssid@ == cell(row, "ssid"@)
    &&& e.signal_dbm == legacy_signal(signal)
    &&& e.tx_rate_bps == legacy_rate(cell(row, "tx-rate"@))
    &&& e.rx_rate_bps == legacy_rate(cell(row, "rx-rate"@))
    &&& e.band@ == cell(row, "band"@)
    &&& e.uptime_s == uptime(cell(row, "uptime"@))
    &&& e.last_activity_s == uptime(either(row, "last-activity"@, "last-ip"@))
}

pub fn parse_legacy_clients(v: &Json) -> (r: Vec<WifiClient>)
    ensures
        r@.len() == v@.rows().filter(|x: crate::json::JsonView| has_mac(x)).len(),
        forall|i: int|
            0 <= i < r@.len() ==> is_legacy_client(
                #[trigger] r@[i],
                v@.rows().filter(|x: crate::json::JsonView| has_mac(x))[i],
            ),
{
    let ghost rows = v@.rows();
    let ghost p = |x: crate::json::JsonView| has_mac(x);
    let mut out: Vec<WifiClient> = Vec::new();
    let n: usize = v.row_count();
    let mut i: usize = 0;
    proof {
        crate::discovery::group::lemma_take_ends(rows);
        reveal(Seq::filter);
    }
    while i < n
        invariant
            i <= n == rows.len(),
            rows == v@.rows(),
            p == |x: crate::json::JsonView| has_mac(x),
            out@.len() == rows.take(i as int).filter(p).len(),
            forall|k: int|
                0 <= k < out@.len() ==> is_legacy_client(
                    #[trigger] out@[k],
                    rows.take(i as int).filter(p)[k],
                ),
        decreases n - i,
    {
        proof {
            crate::discovery::group::lemma_take_step(rows, i as int);
            reveal(Seq::filter);
        }
        let row = v.row(i);
        let strength = str_of(row, "signal-strength");
        let signal = if strength.as_str().is_empty() {
            either_of(row, "signal-strength-ch0", "signal")
        } else {
            strength
        };
        let tx = str_of(row, "tx-rate");
        let rx = str_of(row, "rx-rate");
        let up = str_of(row, "uptime");
        let quiet = either_of(row, "last-activity", "last-ip");
        let entry = WifiClient {
            mac: str_of(row, "mac-address"),
            interface: str_of(row, "interface"),
            ssid: str_of(row, "ssid"),
            signal_dbm: parse_legacy_signal(signal.as_str()),
            tx_rate_bps: parse_legacy_rate(tx.as_str()),
            rx_rate_bps: parse_legacy_rate(rx.as_str()),
            band: str_of(row, "band"),
            uptime_s: parse_uptime(up.as_str()),
            last_activity_s: parse_uptime(quiet.as_str()),
        };
        if !entry.mac.as_str().is_empty() {
            out.push(entry);
        }
        i = i + 1;
    }
    proof {
        crate::discovery::group::lemma_take_ends(rows);
    }
    out
}

/// `e` is the radio that `row` describes, on the legacy wireless stack.
pub open spec fn is_legacy_radio(e: Radio, row: crate::json::JsonView) -> bool {
    &&& e.name@ == cell(row, "name"@)
    &&& e.band@ == cell(row, "band"@)
    &&& e.frequency_mhz == channel(number(row, "frequency"@))
    &&& e.width@ == either(row, "channel-width"@, "width"@)
    &&& e.country@ == cell(row, "country"@)
}

pub fn parse_legacy_radios(v: &Json) -> (r: Vec<Radio>)
    ensures
        r@.len() == v@.rows().filter(|x: crate::json::JsonView| has_name(x)).len(),
        forall|i: int|
            0 <= i < r@.len() ==> is_legacy_radio(
                #[trigger] r@[i],
                v@.rows().filter(|x: crate::json::JsonView| has_name(x))[i],
            ),
{
    let ghost rows = v@.rows();
    let ghost p = |x: crate::json::JsonView| has_name(x);
    let mut out: Vec<Radio> = Vec::new();
    let n: usize = v.row_count();
    let mut i: usize = 0;
    proof {
        crate::discovery::group::lemma_take_ends(rows);
        reveal(Seq::filter);
    }
    while i < n
        invariant
            i <= n == rows.len(),
            rows == v@.rows(),
            p == |x: crate::json::JsonView| has_name(x),
            out@.len() == rows.take(i as int).filter(p).len(),
            forall|k: int|
                0 <= k < out@.len() ==> is_legacy_radio(
                    #[trigger] out@[k],
                    rows.take(i as int).filter(p)[k],
                ),
        decreases n - i,
    {
        proof {
            crate::discovery::group::lemma_take_step(rows, i as int);
            reveal(Seq::filter);
        }
        let row = v.row(i);
        let entry = Radio {
            name: str_of(row, "name"),
            band: str_of(row, "band"),
            frequency_mhz: to_channel(num_of(row, "frequency")),
            width: either_of(row, "channel-width", "width"),
            country: str_of(row, "country"),
        };
        if !entry.name.as_str().is_empty() {
            out.push(entry);
        }
        i = i + 1;
    }
    proof {
        crate::discovery::group::lemma_take_ends(rows);
    }
    out
}

/// The frequency of a scan row: its `frequency`, or its `channel` when that is
/// zero. Only the low 32 bits are kept.
pub open spec fn heard_on(row: crate::json::JsonView) -> u32 {
    let f = number(row, "frequency"@);
    if f > 0 {
        (f % 0x1_0000_0000) as u32
    } else {
        (number(row, "channel"@) % 0x1_0000_0000) as u32
    }
}

/// `e` is the access point that `row` describes.
pub open spec fn is_ap(e: NeighbourAp, row: crate::json::JsonView) -> bool {
    &&& e.ssid@ == cell(row, "ssid"@)
    &&& e.frequency_mhz == heard_on(row)
    &&& e.signal_dbm == signed_number(row, "signal"@)
}

pub open spec fn has_frequency(row: crate::json::JsonView) -> bool {
    heard_on(row) > 0
}

/// Parse a scan result into neighbouring APs. Shared by both stacks, which
/// happen to agree on these field names.
pub fn parse_scan(v: &Json) -> (r: Vec<NeighbourAp>)
    ensures
        r@.len() == v@.rows().filter(|x: crate::json::JsonView| has_frequency(x)).len(),
        forall|i: int|
            0 <= i < r@.len() ==> is_ap(
                #[trigger] r@[i],
                v@.rows().filter(|x: crate::json::JsonView| has_frequency(x))[i],
            ),
{
    let ghost rows = v@.rows();
    let ghost p = |x: crate::json::JsonView| has_frequency(x);
    let mut out: Vec<NeighbourAp> = Vec::new();
    let n: usize = v.row_count();
    let mut i: usize = 0;
    proof {
        crate::discovery::group::lemma_take_ends(rows);
        reveal(Seq::filter);
    }
    while i < n
        invariant
            i <= n == rows.len(),
            rows == v@.rows(),
            p == |x: crate::json::JsonView| has_frequency(x),
            out@.len() == rows.take(i as int).filter(p).len(),
            forall|k: int|
                0 <= k < out@.len() ==> is_ap(
                    #[trigger] out@[k],
                    rows.take(i as int).filter(p)[k],
                ),
        decreases n - i,
    {
        proof {
            crate::discovery::group::lemma_take_step(rows, i as int);
            reveal(Seq::filter);
        }
        let row = v.row(i);
        let f: u64 = num_of(row, "frequency");
        let entry = NeighbourAp {
            ssid: str_of(row, "ssid"),
            frequency_mhz: if f > 0 {
                (f % 0x1_0000_0000) as u32
            } else {
                (num_of(row, "channel") % 0x1_0000_0000) as u32
            },
            signal_dbm: signed_of(row, "signal"),
        };
        if entry.frequency_mhz > 0 {
            out.push(entry);
        }
        i = i + 1;
    }
    proof {
        crate::discovery::group::lemma_take_ends(rows);
    }
    out
}

// --- rates ----------------------------------------------------------------

/// The first row named `name`, from row `i` on.
pub open spec fn named(rows: Seq<crate::json::JsonView>, name: Seq<char>, i: int) -> Option<
    crate::json::JsonView,
>
    decreases rows.len() - i,
{
    if i < 0 || i >= rows.len() {
        None
    } else if cell(rows[i], "name"@) == name {
        Some(rows[i])
    } else {
        named(rows, name, i + 1)
    }
}

/// Growth of the counter `key` per second. Counters wrap and can reset when an
/// interface bounces; that is a zero rate rather than an absurd spike that
/// would be reported as a storm.
pub open spec fn per_second(
    a: crate::json::JsonView,
    b: crate::json::JsonView,
    key: Seq<char>,
) -> int {
    if number(b, key) >= number(a, key) {
        (number(b, key) - number(a, key)) / RATE_SAMPLE_SECS as int
    } else {
        0
    }
}

/// `e` is what two samples say of one interface.
pub open spec fn is_rate(
    e: InterfaceStats,
    a: crate::json::JsonView,
    b: crate::json::JsonView,
) -> bool {
    &&& e.name@ == cell(b, "name"@)
    &&& e.rx_packets_per_s == per_second(a, b, "rx-packet"@)
    &&& e.tx_packets_per_s == per_second(a, b, "tx-packet"@)
    &&& e.rx_broadcast_per_s == per_second(a, b, "rx-broadcast"@)
    &&& e.rx_multicast_per_s == per_second(a, b, "rx-multicast"@)
    &&& e.running == flag(b, "running"@)
}

/// The row is named, and the first sample has a row of that name.
pub open spec fn sampled_twice(
    first: Seq<crate::json::JsonView>,
    row: crate::json::JsonView,
) -> bool {
    has_name(row) && named(first, cell(row, "name"@), 0) is Some
}

fn find_named<'a>(v: &'a Json, name: &str) -> (r: Option<&'a Json>)
    ensures
        match r {
            Some(x) => named(v@.rows(), name@, 0) == Some(x@),
            None => named(v@.rows(), name@, 0) is None,
        },
{
    let n: usize = v.row_count();
    let mut i: usize = 0;
    while i < n
        invariant
            i <= n == v@.rows().len(),
            named(v@.rows(), name@, 0) == named(v@.rows(), name@, i as int),
        decreases n - i,
    {
        let row = v.row(i);
        let held = str_of(row, "name");
        if same(held.as_str(), name) {
            return Some(row);
        }
        i = i + 1;
    }
    None
}

fn rate(a: &Json, b: &Json, key: &str) -> (r: u64)
    ensures
        r == per_second(a@, b@, key@),
{
    num_of(b, key).saturating_sub(num_of(a, key)) / RATE_SAMPLE_SECS
}

/// Two samples of the interface counters, so counters become rates.
pub fn interface_rates(first: &Json, second: &Json) -> (r: Vec<InterfaceStats>)
    ensures
        ({
            let kept = second@.rows().filter(
                |x: crate::json::JsonView| sampled_twice(first@.rows(), x),
            );
            &&& r@.len() == kept.len()
            &&& forall|i: int|
                0 <= i < r@.len() ==> is_rate(
                    #[trigger] r@[i],
                    named(first@.rows(), cell(kept[i], "name"@), 0)->0,
                    kept[i],
                )
        }),
{
    let ghost rows = second@.rows();
    let ghost p = |x: crate::json::JsonView| sampled_twice(first@.rows(), x);
    let mut out: Vec<InterfaceStats> = Vec::new();
    let n: usize = second.row_count();
    let mut i: usize = 0;
    proof {
        crate::discovery::group::lemma_take_ends(rows);
        reveal(Seq::filter);
    }
    while i < n
        invariant
            i <= n == rows.len(),
            rows == second@.rows(),
            p == |x: crate::json::JsonView| sampled_twice(first@.rows(), x),
            out@.len() == rows.take(i as int).filter(p).len(),
            forall|k: int|
                0 <= k < out@.len() ==> is_rate(
                    #[trigger] out@[k],
                    named(first@.rows(), cell(rows.take(i as int).filter(p)[k], "name"@), 0)->0,
                    rows.take(i as int).filter(p)[k],
                ),
        decreases n - i,
    {
        proof {
            crate::discovery::group::lemma_take_step(rows, i as int);
            reveal(Seq::filter);
        }
        let b = second.row(i);
        let name = str_of(b, "name");
        if !name.as_str().is_empty() {
            match find_named(first, name.as_str()) {
                Some(a) => {
                    let entry = InterfaceStats {
                        name,
                        rx_packets_per_s: rate(a, b, "rx-packet"),
                        tx_packets_per_s: rate(a, b, "tx-packet"),
                        rx_broadcast_per_s: rate(a, b, "rx-broadcast"),
                        rx_multicast_per_s: rate(a, b, "rx-multicast"),
                        running: bool_of(b, "running"),
                    };
                    out.push(entry);
                },
                None => {},
            }
        }
        i = i + 1;
    }
    proof {
        crate::discovery::group::lemma_take_ends(rows);
    }
    out
}

// --- pools ----------------------------------------------------------------

/// How many addresses one part of a range list covers: a bare address is a
/// pool of one, a reversed range is nonsense and counts nothing.
pub open spec fn part_size(part: Seq<char>) -> nat {
    let t = crate::text::trimmed(part);
    if t.len() == 0 {
        0
    } else {
        match crate::text::first_of(t, '-') {
            None => 1,
            Some(k) => match (
                crate::net::dotted(crate::text::trimmed(t.take(k))),
                crate::net::dotted(crate::text::trimmed(t.skip(k + 1))),
            ) {
                (Some(a), Some(b)) if b >= a => (b - a + 1) as nat,
                _ => 0,
            },
        }
    }
}

pub open spec fn parts_size(parts: Seq<Seq<char>>) -> nat
    decreases parts.len(),
{
    if parts.len() == 0 {
        0
    } else {
        parts_size(parts.drop_last()) + part_size(parts.last())
    }
}

/// How many addresses a RouterOS pool range list covers.
pub open spec fn range_size(ranges: Seq<char>) -> nat {
    parts_size(crate::text::pieces(ranges, ','))
}

fn count_part(part: &str) -> (r: u64)
    ensures
        r == part_size(part@),
        r <= 0x1_0000_0000,
{
    let t = trim(part);
    if t.is_empty() {
        return 0;
    }
    match split_once(t, '-') {
        None => 1,
        Some((lo, hi)) => match (parse_ipv4(trim(lo)), parse_ipv4(trim(hi))) {
            (Some(a), Some(b)) => {
                if b >= a {
                    b as u64 - a as u64 + 1
                } else {
                    0
                }
            },
            _ => 0,
        },
    }
}

fn plus(total: usize, more: u64) -> (r: usize)
    ensures
        r == crate::text::capped((total + more) as nat, usize::MAX as nat),
{
    let sum: u128 = total as u128 + more as u128;
    if sum <= usize::MAX as u128 {
        sum as usize
    } else {
        usize::MAX
    }
}

/// Count addresses in a RouterOS pool range list, e.g.
/// `192.168.5.10-192.168.5.254,192.168.6.10-192.168.6.20`.
pub fn count_range(ranges: &str) -> (r: usize)
    ensures
        r == crate::text::capped(range_size(ranges@), usize::MAX as nat),
{
    let parts = split(ranges, ',');
    let ghost all = crate::text::views(parts@);
    let mut total: usize = 0;
    let mut i: usize = 0;
    proof {
        crate::discovery::group::lemma_take_ends(all);
    }
    while i < parts.len()
        invariant
            i <= parts@.len(),
            all == crate::text::views(parts@),
            total == crate::text::capped(parts_size(all.take(i as int)), usize::MAX as nat),
        decreases parts@.len() - i,
    {
        proof {
            crate::discovery::group::lemma_take_step(all, i as int);
        }
        total = plus(total, count_part(parts[i].as_str()));
        i = i + 1;
    }
    proof {
        crate::discovery::group::lemma_take_ends(all);
    }
    total
}

/// How many addresses all the pools cover together.
pub open spec fn pools_size(rows: Seq<crate::json::JsonView>) -> nat
    decreases rows.len(),
{
    if rows.len() == 0 {
        0
    } else {
        pools_size(rows.drop_last()) + range_size(cell(rows.last(), "ranges"@))
    }
}

/// Size of the DHCP pool; nothing when the router names none.
pub fn pool_size(v: &Json) -> (r: Option<usize>)
    ensures
        ({
            let total = pools_size(v@.rows());
            r == if total > 0 {
                Some(crate::text::capped(total, usize::MAX as nat) as usize)
            } else {
                None
            }
        }),
{
    let ghost rows = v@.rows();
    let n: usize = v.row_count();
    let mut total: usize = 0;
    let mut i: usize = 0;
    proof {
        crate::discovery::group::lemma_take_ends(rows);
    }
    while i < n
        invariant
            i <= n == rows.len(),
            rows == v@.rows(),
            total == crate::text::capped(pools_size(rows.take(i as int)), usize::MAX as nat),
        decreases n - i,
    {
        proof {
            crate::discovery::group::lemma_take_step(rows, i as int);
        }
        let ranges = str_of(v.row(i), "ranges");
        let more: usize = count_range(ranges.as_str());
        total = plus(total, more as u64);
        i = i + 1;
    }
    proof {
        crate::discovery::group::lemma_take_ends(rows);
    }
    if total > 0 {
        Some(total)
    } else {
        None
    }
}

// --- everything -----------------------------------------------------------

/// What the router answered; nothing where a request failed.
pub struct Replies {
    pub arp: Option<Json>,
    pub leases: Option<Json>,
    /// `/interface/wifi/registration-table`, then `/interface/wifi`.
    pub wifi_clients: Option<Json>,
    pub wifi_radios: Option<Json>,
    /// `/interface/wireless/registration-table`, then `/interface/wireless`.
    pub legacy_clients: Option<Json>,
    pub legacy_radios: Option<Json>,
    /// Two samples of `/interface`.
    pub interfaces_before: Option<Json>,
    pub interfaces_after: Option<Json>,
    pub pools: Option<Json>,
}

/// The rows of a reply; none of a request that failed.
pub open spec fn reply_rows(v: Option<Json>) -> Seq<crate::json::JsonView> {
    match v {
        Some(j) => j@.rows(),
        None => Seq::empty(),
    }
}

/// `clients` and `radios` are those of the modern stack when it answers, and of
/// the legacy stack otherwise.
pub open spec fn is_wireless(clients: Seq<WifiClient>, radios: Seq<Radio>, from: Replies) -> bool {
    if from.wifi_clients is Some {
        let c = reply_rows(from.wifi_clients).filter(|x: crate::json::JsonView| has_mac(x));
        let r = reply_rows(from.wifi_radios).filter(|x: crate::json::JsonView| has_name(x));
        &&& clients.len() == c.len()
        &&& forall|i: int| 0 <= i < c.len() ==> is_wifi_client(#[trigger] clients[i], c[i])
        &&& radios.len() == r.len()
        &&& forall|i: int| 0 <= i < r.len() ==> is_wifi_radio(#[trigger] radios[i], r[i])
    } else {
        let c = reply_rows(from.legacy_clients).filter(|x: crate::json::JsonView| has_mac(x));
        let r = if from.legacy_clients is Some {
            reply_rows(from.legacy_radios).filter(|x: crate::json::JsonView| has_name(x))
        } else {
            Seq::empty()
        };
        &&& clients.len() == c.len()
        &&& forall|i: int| 0 <= i < c.len() ==> is_legacy_client(#[trigger] clients[i], c[i])
        &&& radios.len() == r.len()
        &&& forall|i: int| 0 <= i < r.len() ==> is_legacy_radio(#[trigger] radios[i], r[i])
    }
}

/// Try the modern stack, then the legacy one.
pub fn wireless(from: &Replies) -> (r: (Vec<WifiClient>, Vec<Radio>))
    ensures
        is_wireless(r.0@, r.1@, *from),
{
    proof {
        reveal(Seq::filter);
    }
    match &from.wifi_clients {
        Some(v) => {
            let clients = parse_wifi_clients(v);
            let radios = match &from.wifi_radios {
                Some(r) => parse_wifi_radios(r),
                None => Vec::new(),
            };
            (clients, radios)
        },
        None => match &from.legacy_clients {
            Some(v) => {
                let clients = parse_legacy_clients(v);
                let radios = match &from.legacy_radios {
                    Some(r) => parse_legacy_radios(r),
                    None => Vec::new(),
                };
                (clients, radios)
            },
            None => (Vec::new(), Vec::new()),
        },
    }
}

/// `s` holds everything that the replies say. A request that failed costs its
/// own part and nothing else.
pub open spec fn is_snapshot(s: Snapshot, from: Replies) -> bool {
    let arp = reply_rows(from.arp).filter(|x: crate::json::JsonView| has_address(x));
    let leases = reply_rows(from.leases).filter(|x: crate::json::JsonView| has_lease_mac(x));
    &&& s.arp@.len() == arp.len()
    &&& forall|i: int| 0 <= i < arp.len() ==> is_arp(#[trigger] s.arp@[i], arp[i])
    &&& s.leases@.len() == leases.len()
    &&& forall|i: int| 0 <= i < leases.len() ==> is_lease(#[trigger] s.leases@[i], leases[i])
    &&& is_wireless(s.clients@, s.radios@, from)
    &&& is_rates(s.interfaces@, from)
    &&& s.neighbour_aps@.len() == 0
    &&& s.dhcp_pool_size == (if pools_size(reply_rows(from.pools)) > 0 {
        Some(
            crate::text::capped(pools_size(reply_rows(from.pools)), usize::MAX as nat) as usize,
        )
    } else {
        None
    })
}

/// `rates` are those of the two interface samples, when both came.
pub open spec fn is_rates(rates: Seq<InterfaceStats>, from: Replies) -> bool {
    match (from.interfaces_before, from.interfaces_after) {
        (Some(a), Some(b)) => {
            let kept = b@.rows().filter(
                |x: crate::json::JsonView| sampled_twice(a@.rows(), x),
            );
            &&& rates.len() == kept.len()
            &&& forall|i: int|
                0 <= i < kept.len() ==> is_rate(
                    #[trigger] rates[i],
                    named(a@.rows(), cell(kept[i], "name"@), 0)->0,
                    kept[i],
                )
        },
        _ => rates.len() == 0,
    }
}

/// Puts a snapshot together, tolerating individual failures.
pub fn assemble(from: &Replies) -> (r: Snapshot)
    ensures
        is_snapshot(r, *from),
{
    proof {
        reveal(Seq::filter);
    }
    let arp = match &from.arp {
        Some(v) => parse_arp(v),
        None => Vec::new(),
    };
    let leases = match &from.leases {
        Some(v) => parse_leases(v),
        None => Vec::new(),
    };
    let (clients, radios) = wireless(from);
    let interfaces = match (&from.interfaces_before, &from.interfaces_after) {
        (Some(a), Some(b)) => interface_rates(a, b),
        _ => Vec::new(),
    };
    let dhcp_pool_size = match &from.pools {
        Some(v) => pool_size(v),
        None => None,
    };
    Snapshot { clients, radios, neighbour_aps: Vec::new(), arp, leases, interfaces, dhcp_pool_size }
}

} // verus!
