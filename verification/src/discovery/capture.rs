//! Packet capture, for naming the host behind a problem.
//!
//! Interface counters tell you *which interface* is carrying a storm. They
//! cannot tell you which host is generating it, and that is the only fact that
//! lets anyone act. A short capture closes that gap.
//!
//! Two different instruments, for two different questions:
//!
//! - `/tool/sniffer` captures IP traffic on an interface. This is the one that
//!   answers "who is flooding the LAN".
//! - `/interface/wireless/sniffer` captures 802.11 frames off the air:
//!   management and control frames a normal capture never sees. It answers RF
//!   questions: deauth floods, a client retrying endlessly, a neighbouring
//!   network on the channel.
//!
//! The wireless sniffer exists **only on the legacy `wireless` stack**. The
//! newer `/interface/wifi` used by ax-generation boards has no sniffer at all,
//! so on those devices this degrades to the packet sniffer and says why.
//!
//! # Both are disruptive, in different ways
//!
//! `/tool/sniffer` costs CPU on a device that may have little to spare. The
//! wireless sniffer is worse: putting the radio into monitor mode, and
//! especially letting it hop channels, interrupts service for associated
//! clients. Neither belongs in a continuous plan: they are one-shot
//! diagnostics with a bounded duration, and the duration is capped here rather
//! than trusted from a caller.

use vstd::prelude::*;
use vstd::string::StringExecFns;

use crate::discovery::findings::{extend, one, Finding, Severity};
use crate::discovery::group::add_name;
use crate::duration::Duration;
use crate::json::Json;
use crate::net::{parse_ipv4, parse_ipv6};
use crate::order::{arrange, Ranked};
use crate::text::{
    join, parse_front, parse_i32, parse_milli, parse_u64, push_decimal, same, same_ignoring_case,
    split_once, to_decimal, trim,
};

verus! {

/// Longest capture permitted, in seconds. A sniffer left running on a small
/// router is a denial of service against its own control plane.
pub const MAX_CAPTURE_SECS: u64 = 60;

/// A host seen during a capture, with what it sent and received.
#[derive(Debug, Clone, PartialEq, Eq)]
pub struct HostTraffic {
    pub address: String,
    /// Bytes per second, transmitted and received, as RouterOS reports them.
    pub tx_rate_bps: u64,
    pub rx_rate_bps: u64,
    pub peak_tx_bps: u64,
    pub peak_rx_bps: u64,
    pub total_bytes: u64,
}

/// What a host entry says.
pub struct HostView {
    pub address: Seq<char>,
    pub tx_rate_bps: u64,
    pub rx_rate_bps: u64,
    pub peak_tx_bps: u64,
    pub peak_rx_bps: u64,
    pub total_bytes: u64,
}

impl View for HostTraffic {
    type V = HostView;

    open spec fn view(&self) -> HostView {
        HostView {
            address: self.address@,
            tx_rate_bps: self.tx_rate_bps,
            rx_rate_bps: self.rx_rate_bps,
            peak_tx_bps: self.peak_tx_bps,
            peak_rx_bps: self.peak_rx_bps,
            total_bytes: self.total_bytes,
        }
    }
}

/// The higher of what a host sends and receives.
pub open spec fn busy(h: HostView) -> u64 {
    if h.tx_rate_bps >= h.rx_rate_bps {
        h.tx_rate_bps
    } else {
        h.rx_rate_bps
    }
}

/// Busiest first: the whole point is to name the top talker. Of equally busy
/// hosts the one that moved more comes first.
pub open spec fn host_rank(h: HostView) -> int {
    -(busy(h) * 0x1_0000_0000_0000_0000 + h.total_bytes)
}

impl HostTraffic {
    pub fn busiest(&self) -> (r: u64)
        ensures
            r == busy(self@),
    {
        if self.tx_rate_bps >= self.rx_rate_bps {
            self.tx_rate_bps
        } else {
            self.rx_rate_bps
        }
    }
}

impl Ranked for HostTraffic {
    open spec fn rank(&self) -> int {
        host_rank(self@)
    }

    fn behind(&self, other: &HostTraffic) -> (r: bool) {
        let a: u64 = self.busiest();
        let b: u64 = other.busiest();
        a < b || (a == b && self.total_bytes < other.total_bytes)
    }
}

#[derive(Debug, Clone, PartialEq, Eq)]
pub struct ProtocolTraffic {
    pub protocol: String,
    pub bytes: u64,
    pub packets: u64,
    /// Share of captured bytes as RouterOS computes it, in thousandths of a
    /// percent.
    pub share: i64,
}

/// What a protocol entry says.
pub struct ProtocolView {
    pub protocol: Seq<char>,
    pub bytes: u64,
    pub packets: u64,
    pub share: i64,
}

impl View for ProtocolTraffic {
    type V = ProtocolView;

    open spec fn view(&self) -> ProtocolView {
        ProtocolView {
            protocol: self.protocol@,
            bytes: self.bytes,
            packets: self.packets,
            share: self.share,
        }
    }
}

/// Most bytes first.
pub open spec fn protocol_rank(p: ProtocolView) -> int {
    -(p.bytes as int)
}

impl Ranked for ProtocolTraffic {
    open spec fn rank(&self) -> int {
        protocol_rank(self@)
    }

    fn behind(&self, other: &ProtocolTraffic) -> (r: bool) {
        self.bytes < other.bytes
    }
}

/// One 802.11 frame as the wireless sniffer saw it.
///
/// This is the layer a normal capture cannot reach: management and control
/// frames, the rate each was actually sent at, and whether it arrived intact.
#[derive(Debug, Clone, PartialEq, Eq)]
pub struct WirelessFrame {
    pub src: String,
    pub dst: String,
    /// RouterOS reports this as `2412/20/gn(17dBm)`.
    pub channel: String,
    pub signal_dbm: i32,
    /// Rate the frame was transmitted at, kbit/s.
    pub rate_kbps: u64,
    /// A frame that failed its checksum. A high share means interference or a
    /// signal too weak to decode reliably: the receiver still spent the
    /// airtime.
    pub crc_error: bool,
    pub frame_type: String,
}

/// The frame is addressed to every station.
pub open spec fn to_everyone(f: WirelessFrame) -> bool {
    crate::text::lowered(f.dst@) == crate::text::lowered("FF:FF:FF:FF:FF:FF"@)
}

/// The frame carries data.
pub open spec fn is_data(f: WirelessFrame) -> bool {
    crate::text::lowered(f.frame_type@) == crate::text::lowered("data"@)
}

impl WirelessFrame {
    pub fn is_broadcast(&self) -> (r: bool)
        ensures
            r == to_everyone(*self),
    {
        same_ignoring_case(self.dst.as_str(), "FF:FF:FF:FF:FF:FF")
    }

    /// Whether this frame's transmit rate says anything about a client's
    /// health.
    ///
    /// Only data frames. Beacons, probe responses and acknowledgements are sent
    /// at basic rates *by design*: a beacon at 5.5 Mbit/s on 2.4 GHz is correct
    /// behaviour, not a symptom. On a real capture beacons outnumbered data
    /// frames six to one, so judging every frame by its rate reported 92% "low
    /// rate" on a channel whose data frames were a small minority.
    pub fn rate_is_diagnostic(&self) -> (r: bool)
        ensures
            r == is_data(*self),
    {
        same_ignoring_case(self.frame_type.as_str(), "data")
    }
}

#[derive(Debug, Clone, Default)]
pub struct Capture {
    pub interface: String,
    pub duration_s: u64,
    pub hosts: Vec<HostTraffic>,
    pub protocols: Vec<ProtocolTraffic>,
    /// Frames the wireless sniffer saw, when that instrument was used.
    pub wireless_frames: u64,
    pub frames: Vec<WirelessFrame>,
    pub used_wireless_sniffer: bool,
    pub notes: Vec<String>,
}

// --- bounding -------------------------------------------------------------

pub const SHORTENED_TAIL: &'static str = "s: a sniffer left running costs the router CPU it may not have to spare";

/// How long a capture that is asked for `d` runs: at least a second, at most
/// the limit.
pub open spec fn capture_secs(d: Duration) -> nat {
    let want = d.nanos as nat / 1_000_000_000;
    if want < 1 {
        1
    } else if want > MAX_CAPTURE_SECS {
        MAX_CAPTURE_SECS as nat
    } else {
        want
    }
}

/// What is said of a capture that was asked for `d`.
pub open spec fn capture_notes(d: Duration) -> Seq<Seq<char>> {
    let want = d.nanos as nat / 1_000_000_000;
    if want > MAX_CAPTURE_SECS {
        seq![
            "capture shortened from "@ + crate::text::decimal(want) + "s to "@
                + crate::text::decimal(MAX_CAPTURE_SECS as nat) + SHORTENED_TAIL@,
        ]
    } else {
        Seq::empty()
    }
}

pub fn clamp(d: Duration) -> (r: (u64, Vec<String>))
    ensures
        r.0 == capture_secs(d),
        crate::text::views(r.1@) == capture_notes(d),
{
    let secs: u128 = d.as_secs();
    let want: u128 = if secs < 1 {
        1
    } else {
        secs
    };
    let mut notes: Vec<String> = Vec::new();
    if want > MAX_CAPTURE_SECS as u128 {
        let mut t = "capture shortened from ".to_owned();
        push_decimal(&mut t, want);
        t.append("s to ");
        push_decimal(&mut t, MAX_CAPTURE_SECS as u128);
        t.append(SHORTENED_TAIL);
        notes.push(t);
        proof {
            assert(crate::text::views(notes@) =~= capture_notes(d));
        }
        (MAX_CAPTURE_SECS, notes)
    } else {
        proof {
            assert(crate::text::views(notes@) =~= capture_notes(d));
        }
        (want as u64, notes)
    }
}

// --- reading --------------------------------------------------------------

/// What a row says under `key`: a text or a number.
pub open spec fn cell(row: crate::json::JsonView, key: Seq<char>) -> Seq<char> {
    match row.get(key) {
        Some(crate::json::JsonView::Text(x)) => x,
        Some(crate::json::JsonView::Number(n)) => n,
        _ => Seq::empty(),
    }
}

pub(crate) fn text_cell(row: &Json, key: &str) -> (r: String)
    ensures
        r@ == cell(row@, key@),
{
    match row.get(key) {
        Some(Json::Text(x)) => x.clone(),
        Some(Json::Number(n)) => n.clone(),
        _ => String::new(),
    }
}

/// What stands before the first `sep`, without white space around it.
pub open spec fn before_sep(s: Seq<char>, sep: char) -> Seq<char> {
    crate::text::trimmed(
        match crate::text::first_of(s, sep) {
            Some(k) => s.take(k),
            None => s,
        },
    )
}

pub open spec fn number_or_zero(s: Seq<char>) -> u64 {
    match crate::text::unsigned(s, 10, u64::MAX as nat) {
        Some(v) => v as u64,
        None => 0,
    }
}

/// The unsigned number under `key`, before any comma.
pub open spec fn number(row: crate::json::JsonView, key: Seq<char>) -> u64 {
    number_or_zero(before_sep(cell(row, key), ','))
}

fn number_cell(row: &Json, key: &str) -> (r: u64)
    ensures
        r == number(row@, key@),
{
    let s = text_cell(row, key);
    let head = match split_once(s.as_str(), ',') {
        Some((a, _)) => trim(a),
        None => trim(s.as_str()),
    };
    match parse_u64(head) {
        Some(v) => v,
        None => 0,
    }
}

/// The two halves of a rate pair: what stands before the first slash, and
/// between it and the second.
pub open spec fn rate_pair(s: Seq<char>) -> (u64, u64) {
    match crate::text::first_of(s, '/') {
        Some(k) => (
            number_or_zero(crate::text::trimmed(s.take(k))),
            number_or_zero(before_sep(s.skip(k + 1), '/')),
        ),
        None => (number_or_zero(crate::text::trimmed(s)), 0),
    }
}

fn to_number(s: &str) -> (r: u64)
    ensures
        r == number_or_zero(s@),
{
    match parse_u64(s) {
        Some(v) => v,
        None => 0,
    }
}

/// RouterOS reports host rates as `"tx/rx"`, e.g. `"0/2736"`.
pub fn split_rate(s: &str) -> (r: (u64, u64))
    ensures
        r == rate_pair(s@),
{
    match split_once(s, '/') {
        Some((a, b)) => {
            let rx = match split_once(b, '/') {
                Some((c, _)) => trim(c),
                None => trim(b),
            };
            (to_number(trim(a)), to_number(rx))
        },
        None => (to_number(trim(s)), 0),
    }
}

/// The host that `row` describes.
pub open spec fn host_of(row: crate::json::JsonView) -> HostView {
    let rate = rate_pair(cell(row, "rate"@));
    let peak = rate_pair(cell(row, "peak-rate"@));
    let total = rate_pair(cell(row, "total"@));
    HostView {
        address: cell(row, "address"@),
        tx_rate_bps: rate.0,
        rx_rate_bps: rate.1,
        peak_tx_bps: peak.0,
        peak_rx_bps: peak.1,
        total_bytes: crate::text::capped((total.0 + total.1) as nat, u64::MAX as nat) as u64,
    }
}

/// The hosts that the rows describe, in row order; a row without an address is
/// unusable.
pub open spec fn hosts_in(rows: Seq<crate::json::JsonView>) -> Seq<HostView>
    decreases rows.len(),
{
    if rows.len() == 0 {
        Seq::empty()
    } else if cell(rows.last(), "address"@).len() > 0 {
        hosts_in(rows.drop_last()).push(host_of(rows.last()))
    } else {
        hosts_in(rows.drop_last())
    }
}

/// The views of a list of hosts.
pub open spec fn host_views(v: Seq<HostTraffic>) -> Seq<HostView> {
    v.map_values(|h: HostTraffic| h@)
}

/// The hosts that a reply describes, busiest first.
pub open spec fn hosts_by_load(rows: Seq<crate::json::JsonView>) -> Seq<HostView> {
    crate::order::arranged(hosts_in(rows), |h: HostView| host_rank(h))
}

pub fn parse_hosts(v: &Json) -> (r: Vec<HostTraffic>)
    ensures
        host_views(r@) == hosts_by_load(v@.rows()),
{
    let ghost rows = v@.rows();
    let mut out: Vec<HostTraffic> = Vec::new();
    let n: usize = v.row_count();
    let mut i: usize = 0;
    proof {
        crate::discovery::group::lemma_take_ends(rows);
        assert(host_views(out@) =~= Seq::empty());
    }
    while i < n
        invariant
            i <= n == rows.len(),
            rows == v@.rows(),
            host_views(out@) == hosts_in(rows.take(i as int)),
        decreases n - i,
    {
        proof {
            crate::discovery::group::lemma_take_step(rows, i as int);
        }
        let row = v.row(i);
        let address = text_cell(row, "address");
        if !address.as_str().is_empty() {
            let rate = text_cell(row, "rate");
            let peak = text_cell(row, "peak-rate");
            let total = text_cell(row, "total");
            let (tx, rx) = split_rate(rate.as_str());
            let (ptx, prx) = split_rate(peak.as_str());
            let (ttx, trx) = split_rate(total.as_str());
            let host = HostTraffic {
                address,
                tx_rate_bps: tx,
                rx_rate_bps: rx,
                peak_tx_bps: ptx,
                peak_rx_bps: prx,
                total_bytes: ttx.saturating_add(trx),
            };
            let ghost before = out@;
            out.push(host);
            proof {
                assert(host_views(out@) =~= host_views(before).push(host@));
            }
        }
        i = i + 1;
    }
    proof {
        crate::discovery::group::lemma_take_ends(rows);
        crate::order::lemma_arranged_map(
            out@,
            |h: HostTraffic| h@,
            |h: HostTraffic| h.rank(),
            |h: HostView| host_rank(h),
        );
    }
    arrange(out)
}

/// The informative label of a protocol row: `ip-protocol` (tcp, udp, icmp)
/// where it exists; `protocol` is the layer below it and reads "ip" for nearly
/// every row, which tells nobody anything.
pub open spec fn protocol_label(row: crate::json::JsonView) -> Seq<char> {
    if cell(row, "ip-protocol"@).len() > 0 {
        cell(row, "ip-protocol"@)
    } else if cell(row, "protocol"@).len() > 0 {
        cell(row, "protocol"@)
    } else {
        cell(row, "mac-protocol"@)
    }
}

pub open spec fn protocol_of(row: crate::json::JsonView) -> ProtocolView {
    ProtocolView {
        protocol: protocol_label(row),
        bytes: number(row, "bytes"@),
        packets: number(row, "packets"@),
        share: match crate::text::milli(cell(row, "share"@)) {
            Some(v) => v as i64,
            None => 0,
        },
    }
}

pub open spec fn protocols_in(rows: Seq<crate::json::JsonView>) -> Seq<ProtocolView>
    decreases rows.len(),
{
    if rows.len() == 0 {
        Seq::empty()
    } else if protocol_label(rows.last()).len() > 0 {
        protocols_in(rows.drop_last()).push(protocol_of(rows.last()))
    } else {
        protocols_in(rows.drop_last())
    }
}

pub open spec fn protocol_views(v: Seq<ProtocolTraffic>) -> Seq<ProtocolView> {
    v.map_values(|p: ProtocolTraffic| p@)
}

/// The protocols that a reply describes, most bytes first.
pub open spec fn protocols_by_bytes(rows: Seq<crate::json::JsonView>) -> Seq<ProtocolView> {
    crate::order::arranged(protocols_in(rows), |p: ProtocolView| protocol_rank(p))
}

fn label_of(row: &Json) -> (r: String)
    ensures
        r@ == protocol_label(row@),
{
    let ip = text_cell(row, "ip-protocol");
    if !ip.as_str().is_empty() {
        return ip;
    }
    let below = text_cell(row, "protocol");
    if !below.as_str().is_empty() {
        return below;
    }
    text_cell(row, "mac-protocol")
}

pub fn parse_protocols(v: &Json) -> (r: Vec<ProtocolTraffic>)
    ensures
        protocol_views(r@) == protocols_by_bytes(v@.rows()),
{
    let ghost rows = v@.rows();
    let mut out: Vec<ProtocolTraffic> = Vec::new();
    let n: usize = v.row_count();
    let mut i: usize = 0;
    proof {
        crate::discovery::group::lemma_take_ends(rows);
        assert(protocol_views(out@) =~= Seq::empty());
    }
    while i < n
        invariant
            i <= n == rows.len(),
            rows == v@.rows(),
            protocol_views(out@) == protocols_in(rows.take(i as int)),
        decreases n - i,
    {
        proof {
            crate::discovery::group::lemma_take_step(rows, i as int);
        }
        let row = v.row(i);
        let protocol = label_of(row);
        if !protocol.as_str().is_empty() {
            let share = text_cell(row, "share");
            let entry = ProtocolTraffic {
                protocol,
                bytes: number_cell(row, "bytes"),
                packets: number_cell(row, "packets"),
                share: match parse_milli(share.as_str()) {
                    Some(v) => v,
                    None => 0,
                },
            };
            let ghost before = out@;
            out.push(entry);
            proof {
                assert(protocol_views(out@) =~= protocol_views(before).push(entry@));
            }
        }
        i = i + 1;
    }
    proof {
        crate::discovery::group::lemma_take_ends(rows);
        crate::order::lemma_arranged_map(
            out@,
            |p: ProtocolTraffic| p@,
            |p: ProtocolTraffic| p.rank(),
            |p: ProtocolView| protocol_rank(p),
        );
    }
    arrange(out)
}

/// `signal-at-rate`, which RouterOS formats as `-58@5.5Mbps`: dBm and kbit/s.
pub open spec fn signal_at_rate(s: Seq<char>) -> (i32, nat) {
    let signal = match crate::text::signed(before_sep(s, '@'), i32::MAX as nat) {
        Some(v) => v as i32,
        None => 0,
    };
    match crate::text::first_of(s, '@') {
        Some(k) => (signal, crate::text::front_scaled(s.skip(k + 1), 3)),
        None => (signal, 0),
    }
}

fn to_signal(s: &str) -> (r: i32)
    ensures
        r == (match crate::text::signed(s@, i32::MAX as nat) {
            Some(v) => v as i32,
            None => 0,
        }),
{
    match parse_i32(s) {
        Some(v) => v,
        None => 0,
    }
}

pub fn parse_signal_at_rate(v: &str) -> (r: (i32, u64))
    ensures
        r.0 == signal_at_rate(v@).0,
        r.1 == signal_at_rate(v@).1,
{
    match split_once(v, '@') {
        Some((a, b)) => (to_signal(trim(a)), parse_front(b, 3)),
        None => (to_signal(trim(v)), 0),
    }
}

/// `f` is the frame that `row` describes.
pub open spec fn is_frame(f: WirelessFrame, row: crate::json::JsonView) -> bool {
    let at = signal_at_rate(cell(row, "signal-at-rate"@));
    &&& f.src@ == cell(row, "src"@)
    &&& f.dst@ == cell(row, "dst"@)
    &&& f.channel@ == cell(row, "channel"@)
    &&& f.signal_dbm == at.0
    &&& f.rate_kbps == at.1
    &&& f.crc_error == (cell(row, "crc-error"@) == "true"@)
    &&& f.frame_type@ == cell(row, "type"@)
}

/// The row names a station at either end.
pub open spec fn has_station(row: crate::json::JsonView) -> bool {
    cell(row, "src"@).len() > 0 || cell(row, "dst"@).len() > 0
}

pub fn parse_frames(v: &Json) -> (r: Vec<WirelessFrame>)
    ensures
        r@.len() == v@.rows().filter(|x: crate::json::JsonView| has_station(x)).len(),
        forall|i: int|
            0 <= i < r@.len() ==> is_frame(
                #[trigger] r@[i],
                v@.rows().filter(|x: crate::json::JsonView| has_station(x))[i],
            ),
{
    let ghost rows = v@.rows();
    let ghost p = |x: crate::json::JsonView| has_station(x);
    let mut out: Vec<WirelessFrame> = Vec::new();
    let n: usize = v.row_count();
    let mut i: usize = 0;
    proof {
        crate::discovery::group::lemma_take_ends(rows);
        reveal(Seq::filter);
    }
    while i < n
        invariant
            i <= n == rows.len(),
            rows == v@.rows(),
            p == |x: crate::json::JsonView| has_station(x),
            out@.len() == rows.take(i as int).filter(p).len(),
            forall|k: int|
                0 <= k < out@.len() ==> is_frame(
                    #[trigger] out@[k],
                    rows.take(i as int).filter(p)[k],
                ),
        decreases n - i,
    {
        proof {
            crate::discovery::group::lemma_take_step(rows, i as int);
            reveal(Seq::filter);
        }
        let row = v.row(i);
        let at = text_cell(row, "signal-at-rate");
        let crc = text_cell(row, "crc-error");
        let (signal_dbm, rate_kbps) = parse_signal_at_rate(at.as_str());
        let frame = WirelessFrame {
            src: text_cell(row, "src"),
            dst: text_cell(row, "dst"),
            channel: text_cell(row, "channel"),
            signal_dbm,
            rate_kbps,
            crc_error: same(crc.as_str(), "true"),
            frame_type: text_cell(row, "type"),
        };
        if !frame.src.as_str().is_empty() || !frame.dst.as_str().is_empty() {
            out.push(frame);
        }
        i = i + 1;
    }
    proof {
        crate::discovery::group::lemma_take_ends(rows);
    }
    out
}

/// The first row from `i` on that is running.
pub open spec fn first_running(rows: Seq<crate::json::JsonView>, i: int) -> Option<int>
    decreases rows.len() - i,
{
    if i < 0 || i >= rows.len() {
        None
    } else if cell(rows[i], "running"@) == "true"@ {
        Some(i)
    } else {
        first_running(rows, i + 1)
    }
}

/// The radio to sniff with: one that is up, or any, since a disabled radio can
/// still sniff and that is often exactly what a spare radio is for. A radio
/// without a name is none.
pub open spec fn radio_to_use(rows: Seq<crate::json::JsonView>) -> Seq<char> {
    match first_running(rows, 0) {
        Some(i) => cell(rows[i], "name"@),
        None => if rows.len() > 0 {
            cell(rows[0], "name"@)
        } else {
            Seq::empty()
        },
    }
}

pub fn first_wireless_interface(v: &Json) -> (r: Option<String>)
    ensures
        match r {
            Some(s) => s@ == radio_to_use(v@.rows()) && s@.len() > 0,
            None => radio_to_use(v@.rows()).len() == 0,
        },
{
    let n: usize = v.row_count();
    let mut i: usize = 0;
    while i < n
        invariant
            i <= n == v@.rows().len(),
            first_running(v@.rows(), 0) == first_running(v@.rows(), i as int),
        decreases n - i,
    {
        let running = text_cell(v.row(i), "running");
        if same(running.as_str(), "true") {
            let name = text_cell(v.row(i), "name");
            return if name.as_str().is_empty() {
                None
            } else {
                Some(name)
            };
        }
        i = i + 1;
    }
    if n == 0 {
        return None;
    }
    let name = text_cell(v.row(0), "name");
    if name.as_str().is_empty() {
        None
    } else {
        Some(name)
    }
}

// --- asking ---------------------------------------------------------------

/// What `/tool/sniffer` is set to. Memory-only: writing a capture file to a
/// router's flash for a diagnostic that is about to be summarised and discarded
/// is gratuitous wear.
pub open spec fn sniffer_body(interface: Seq<char>) -> crate::json::JsonView {
    let base = crate::json::JsonView::Object(Seq::empty()).put(
        "file-name"@,
        crate::json::JsonView::Text(""@),
    ).put("memory-limit"@, crate::json::JsonView::Text("10"@));
    if interface.len() > 0 {
        base.put("filter-interface"@, crate::json::JsonView::Text(interface))
    } else {
        base
    }
}

pub fn sniffer_settings(interface: &str) -> (r: Json)
    ensures
        r@ == sniffer_body(interface@),
{
    let base = Json::object().with("file-name", Json::text("")).with(
        "memory-limit",
        Json::text("10"),
    );
    if interface.is_empty() {
        base
    } else {
        base.with("filter-interface", Json::text(interface))
    }
}

/// What the wireless sniffer is set to. Headers only: payload is not needed to
/// answer an RF question and fills the memory limit far faster.
pub open spec fn wireless_body(hop_channels: bool) -> crate::json::JsonView {
    crate::json::JsonView::Object(Seq::empty()).put(
        "file-name"@,
        crate::json::JsonView::Text(""@),
    ).put("memory-limit"@, crate::json::JsonView::Text("10"@)).put(
        "multiple-channels"@,
        crate::json::JsonView::Text(
            if hop_channels {
                "yes"@
            } else {
                "no"@
            },
        ),
    ).put("only-headers"@, crate::json::JsonView::Text("yes"@))
}

pub fn wireless_settings(hop_channels: bool) -> (r: Json)
    ensures
        r@ == wireless_body(hop_channels),
{
    Json::object().with("file-name", Json::text("")).with("memory-limit", Json::text("10")).with(
        "multiple-channels",
        Json::text(
            if hop_channels {
                "yes"
            } else {
                "no"
            },
        ),
    ).with("only-headers", Json::text("yes"))
}

/// The request that sniffs on `interface` for `secs` seconds. `sniff` blocks
/// for the duration, so there is no separate start and stop.
pub open spec fn sniff_body(interface: Seq<char>, secs: nat) -> crate::json::JsonView {
    crate::json::JsonView::Object(Seq::empty()).put(
        "interface"@,
        crate::json::JsonView::Text(interface),
    ).put("duration"@, crate::json::JsonView::Text(crate::text::decimal(secs)))
}

pub fn sniff_request(interface: &str, secs: u64) -> (r: Json)
    ensures
        r@ == sniff_body(interface@, secs as nat),
{
    let d = to_decimal(secs as u128);
    Json::object().with("interface", Json::text(interface)).with("duration", Json::Text(d))
}

// --- putting together -----------------------------------------------------

pub const SETTINGS_NOTE: &'static str = "sniffer settings could not be applied; existing configuration used";

pub const RUNNING_NOTE: &'static str = "the sniffer could not be stopped; check /tool/sniffer on the device";

pub const NO_SNIFFER_NOTE: &'static str = "this device has no wireless sniffer — the newer /interface/wifi stack provides none — so IP traffic was captured instead. RF-level frames are not available here.";

pub const MONITOR_TAIL: &'static str = " was placed in monitor mode, which interrupts service for any client associated to it";

pub const HOP_NOTE: &'static str = "channel hopping was enabled: this sees neighbouring networks, but leaves our own channel repeatedly for the duration";

pub const WIRELESS_SETTINGS_NOTE: &'static str = "wireless sniffer settings could not be applied";

pub const NO_RADIO: &'static str = "this device has a wireless sniffer but no wireless interface to run it on";

/// `s` behind `notes` when `said`.
pub open spec fn noted(notes: Seq<Seq<char>>, said: bool, s: Seq<char>) -> Seq<Seq<char>> {
    if said {
        notes.push(s)
    } else {
        notes
    }
}

/// How a packet capture went, as far as the router's answers tell.
pub struct PacketRun {
    /// The sniffer took its settings. An older RouterOS may not accept every
    /// key, and a capture with default settings is far better than none.
    pub settings_applied: bool,
    /// The sniffer stopped. One that did not leaves the device consuming CPU.
    pub stopped: bool,
    pub hosts: Option<Json>,
    pub protocols: Option<Json>,
    /// The device has no wireless sniffer, and this capture stands in for it.
    pub instead_of_wireless: bool,
}

/// The rows of a reply; none of a request that failed.
pub open spec fn reply_rows(v: Option<Json>) -> Seq<crate::json::JsonView> {
    match v {
        Some(j) => j@.rows(),
        None => Seq::empty(),
    }
}

/// `r` is the capture that a finished run of `/tool/sniffer` amounts to.
pub open spec fn is_packet_capture(
    r: Capture,
    interface: Seq<char>,
    asked: Duration,
    run: PacketRun,
) -> bool {
    &&& r.interface@ == interface
    &&& r.duration_s == capture_secs(asked)
    &&& host_views(r.hosts@) == hosts_by_load(reply_rows(run.hosts))
    &&& protocol_views(r.protocols@) == protocols_by_bytes(reply_rows(run.protocols))
    &&& r.wireless_frames == 0
    &&& r.frames@.len() == 0
    &&& !r.used_wireless_sniffer
    &&& crate::text::views(r.notes@) == noted(
        noted(
            noted(capture_notes(asked), !run.settings_applied, SETTINGS_NOTE@),
            !run.stopped,
            RUNNING_NOTE@,
        ),
        run.instead_of_wireless,
        NO_SNIFFER_NOTE@,
    )
}

/// The capture that a finished run of `/tool/sniffer` amounts to.
pub fn packet_capture(interface: &str, asked: Duration, run: &PacketRun) -> (r: Capture)
    ensures
        is_packet_capture(r, interface@, asked, *run),
{
    broadcast use crate::text::lemma_views_push;

    let (secs, mut notes) = clamp(asked);
    if !run.settings_applied {
        notes.push(SETTINGS_NOTE.to_owned());
    }
    if !run.stopped {
        notes.push(RUNNING_NOTE.to_owned());
    }
    if run.instead_of_wireless {
        notes.push(NO_SNIFFER_NOTE.to_owned());
    }
    let hosts: Vec<HostTraffic> = match &run.hosts {
        Some(v) => parse_hosts(v),
        None => Vec::new(),
    };
    let protocols: Vec<ProtocolTraffic> = match &run.protocols {
        Some(v) => parse_protocols(v),
        None => Vec::new(),
    };
    proof {
        if run.hosts is None {
            assert(host_views(hosts@) =~= Seq::empty());
        }
        if run.protocols is None {
            assert(protocol_views(protocols@) =~= Seq::empty());
        }
    }
    Capture {
        interface: interface.to_owned(),
        duration_s: secs,
        hosts,
        protocols,
        wireless_frames: 0,
        frames: Vec::new(),
        used_wireless_sniffer: false,
        notes,
    }
}

/// `r` is the capture that a finished run of the wireless sniffer amounts to.
pub open spec fn is_wireless_capture(
    r: Capture,
    interface: Seq<char>,
    asked: Duration,
    hop_channels: bool,
    settings_applied: bool,
    reply: Option<Json>,
) -> bool {
    let kept = reply_rows(reply).filter(|x: crate::json::JsonView| has_station(x));
    &&& r.interface@ == interface
    &&& r.duration_s == capture_secs(asked)
    &&& r.hosts@.len() == 0
    &&& r.protocols@.len() == 0
    &&& r.frames@.len() == kept.len()
    &&& forall|i: int| 0 <= i < kept.len() ==> is_frame(#[trigger] r.frames@[i], kept[i])
    &&& r.wireless_frames == r.frames@.len()
    &&& r.used_wireless_sniffer
    &&& crate::text::views(r.notes@) == noted(
        noted(
            capture_notes(asked).push("radio "@ + interface + MONITOR_TAIL@),
            hop_channels,
            HOP_NOTE@,
        ),
        !settings_applied,
        WIRELESS_SETTINGS_NOTE@,
    )
}

/// The capture that a finished run of the wireless sniffer amounts to.
pub fn wireless_capture(
    interface: &str,
    asked: Duration,
    hop_channels: bool,
    settings_applied: bool,
    reply: &Option<Json>,
) -> (r: Capture)
    ensures
        is_wireless_capture(r, interface@, asked, hop_channels, settings_applied, *reply),
{
    broadcast use crate::text::lemma_views_push;

    let (secs, mut notes) = clamp(asked);
    let mut t = "radio ".to_owned();
    t.append(interface);
    t.append(MONITOR_TAIL);
    notes.push(t);
    if hop_channels {
        notes.push(HOP_NOTE.to_owned());
    }
    if !settings_applied {
        notes.push(WIRELESS_SETTINGS_NOTE.to_owned());
    }
    let frames: Vec<WirelessFrame> = match reply {
        Some(v) => parse_frames(v),
        None => Vec::new(),
    };
    proof {
        reveal(Seq::filter);
    }
    Capture {
        interface: interface.to_owned(),
        duration_s: secs,
        hosts: Vec::new(),
        protocols: Vec::new(),
        wireless_frames: frames.len() as u64,
        frames,
        used_wireless_sniffer: true,
        notes,
    }
}

// --- analysis: hosts ------------------------------------------------------

pub const DOMINANT_TAIL: &'static str = "% of captured traffic — interface counters can show which link is busy, but only a capture names the host";

pub const STORM_TAIL: &'static str = "% of captured traffic went to broadcast or multicast addresses; on wifi these are sent at the lowest basic rate and cost far more airtime than their bit rate suggests";

pub const CRC_TAIL: &'static str = ") — the radio spent airtime receiving them and discarded them. Suspect interference or a signal too weak to decode.";

pub const LOW_RATE_TAIL: &'static str = ") were sent at 12 Mbit/s or below, which holds the channel far longer than the same data at a high rate and slows every other client";

pub const BROADCAST_TAIL: &'static str = ") were broadcast, which 802.11 sends at the lowest basic rate so every client must stay awake to receive them";

/// 802.11 rates at or below this drag shared airtime badly, in kbit/s.
pub const LOW_RATE_KBPS: u64 = 12_000;

/// Too few data frames and the share is noise rather than a measurement.
pub const MIN_DATA_FRAMES: usize = 20;

/// Evidence lists at most this many offenders.
pub const TOP: usize = 5;

/// A broadcast or multicast destination: the all-ones and all-zeros IPv4
/// addresses, 224.0.0.0/4, and IPv6 ff00::/8.
pub open spec fn floods(addr: Seq<char>) -> bool {
    match crate::net::dotted(addr) {
        Some(v) => v == 0xFFFF_FFFF || v == 0 || 0xE000_0000 <= v <= 0xEFFF_FFFF,
        None => match crate::net::colons(addr) {
            Some(v) => v >= 0xFF00_0000_0000_0000_0000_0000_0000_0000,
            None => false,
        },
    }
}

/// Whether an address is a broadcast or multicast destination.
pub fn is_broadcastish(addr: &str) -> (r: bool)
    ensures
        r == floods(addr@),
{
    match parse_ipv4(addr) {
        Some(v) => v == 0xFFFF_FFFF || v == 0 || (0xE000_0000 <= v && v <= 0xEFFF_FFFF),
        None => match parse_ipv6(addr) {
            Some(v) => v >= 0xFF00_0000_0000_0000_0000_0000_0000_0000,
            None => false,
        },
    }
}

/// Everything the hosts moved.
pub open spec fn load(hosts: Seq<HostTraffic>) -> nat
    decreases hosts.len(),
{
    if hosts.len() == 0 {
        0
    } else {
        load(hosts.drop_last()) + busy(hosts.last()@) as nat
    }
}

/// What of it went to broadcast and multicast destinations.
pub open spec fn flood_load(hosts: Seq<HostTraffic>) -> nat
    decreases hosts.len(),
{
    if hosts.len() == 0 {
        0
    } else {
        flood_load(hosts.drop_last()) + (if floods(hosts.last().address@) {
            busy(hosts.last()@) as nat
        } else {
            0
        })
    }
}

/// The first `n` of `s`, or all of a shorter one.
pub open spec fn firsts<A>(s: Seq<A>, n: nat) -> Seq<A> {
    if s.len() <= n {
        s
    } else {
        s.take(n as int)
    }
}

pub open spec fn host_line(h: HostTraffic) -> Seq<char> {
    h.address@ + " tx "@ + crate::text::decimal(h.tx_rate_bps as nat) + " B/s, rx "@
        + crate::text::decimal(h.rx_rate_bps as nat) + " B/s (peak "@ + crate::text::decimal(
        h.peak_tx_bps as nat,
    ) + "/"@ + crate::text::decimal(h.peak_rx_bps as nat) + ")"@
}

pub open spec fn flood_line(h: HostTraffic) -> Seq<char> {
    h.address@ + " at "@ + crate::text::decimal(busy(h@) as nat) + " B/s"@
}

/// What is said of the busiest host: nothing unless it moved half of what more
/// than one host moved; four fifths are worth a warning.
pub open spec fn dominant_of(hosts: Seq<HostTraffic>) -> Seq<
    crate::discovery::findings::FindingView,
> {
    let top = busy(hosts[0]@) as nat;
    let total = load(hosts);
    if hosts.len() > 1 && top * 100 >= 50 * total {
        seq![
            crate::discovery::findings::FindingView {
                code: "capture.dominant_host"@,
                severity: if top * 100 >= 80 * total {
                    Severity::Warning
                } else {
                    Severity::Info
                },
                summary: hosts[0].address@ + " accounted for "@ + crate::text::decimal(
                    crate::round::rounded_quotient(top * 100, total),
                ) + DOMINANT_TAIL@,
                evidence: firsts(
                    crate::discovery::group::lines(
                        hosts,
                        |h: HostTraffic| true,
                        |h: HostTraffic| host_line(h),
                    ),
                    TOP as nat,
                ),
            },
        ]
    } else {
        Seq::empty()
    }
}

/// What is said of traffic to everyone: nothing below three tenths.
pub open spec fn flood_of(hosts: Seq<HostTraffic>) -> Seq<
    crate::discovery::findings::FindingView,
> {
    let flood = flood_load(hosts);
    let total = load(hosts);
    if flood > 0 && flood * 100 >= 30 * total {
        seq![
            crate::discovery::findings::FindingView {
                code: "capture.broadcast_storm_source"@,
                severity: Severity::Critical,
                summary: crate::text::decimal(
                    crate::round::rounded_quotient(flood * 100, total),
                ) + STORM_TAIL@,
                evidence: firsts(
                    crate::discovery::group::lines(
                        hosts,
                        |h: HostTraffic| floods(h.address@),
                        |h: HostTraffic| flood_line(h),
                    ),
                    TOP as nat,
                ),
            },
        ]
    } else {
        Seq::empty()
    }
}

pub open spec fn host_findings(hosts: Seq<HostTraffic>) -> Seq<
    crate::discovery::findings::FindingView,
> {
    if hosts.len() == 0 || load(hosts) == 0 {
        Seq::empty()
    } else {
        dominant_of(hosts) + flood_of(hosts)
    }
}

fn keep_first(v: Vec<String>, n: usize) -> (r: Vec<String>)
    ensures
        crate::text::views(r@) == firsts(crate::text::views(v@), n as nat),
{
    let ghost all = crate::text::views(v@);
    let mut v = v;
    if v.len() > n {
        v.truncate(n);
        proof {
            assert(crate::text::views(v@) =~= all.take(n as int));
        }
    }
    v
}

proof fn lemma_load_bound(hosts: Seq<HostTraffic>)
    ensures
        flood_load(hosts) <= load(hosts) <= hosts.len() * u64::MAX,
    decreases hosts.len(),
{
    if hosts.len() > 0 {
        lemma_load_bound(hosts.drop_last());
        assert(hosts.len() * u64::MAX == (hosts.len() - 1) * u64::MAX + u64::MAX)
            by (nonlinear_arith);
    }
}

fn loads(hosts: &Vec<HostTraffic>) -> (r: (u128, u128))
    ensures
        r.0 == load(hosts@),
        r.1 == flood_load(hosts@),
        r.1 <= r.0 <= u64::MAX * u64::MAX,
{
    let mut total: u128 = 0;
    let mut flood: u128 = 0;
    let mut i: usize = 0;
    proof {
        crate::discovery::group::lemma_take_ends(hosts@);
    }
    while i < hosts.len()
        invariant
            i <= hosts@.len(),
            total == load(hosts@.take(i as int)),
            flood == flood_load(hosts@.take(i as int)),
        decreases hosts@.len() - i,
    {
        proof {
            crate::discovery::group::lemma_take_step(hosts@, i as int);
            lemma_load_bound(hosts@.take(i as int));
            assert(i * u64::MAX + u64::MAX <= u64::MAX * u64::MAX) by (nonlinear_arith)
                requires
                    0 <= i < u64::MAX,
            ;
        }
        let b: u64 = hosts[i].busiest();
        total = total + b as u128;
        if is_broadcastish(hosts[i].address.as_str()) {
            flood = flood + b as u128;
        }
        i = i + 1;
    }
    proof {
        crate::discovery::group::lemma_take_ends(hosts@);
        lemma_load_bound(hosts@);
        let n = hosts.len() as int;
        assert(n * u64::MAX <= u64::MAX * u64::MAX) by (nonlinear_arith)
            requires
                0 <= n <= u64::MAX,
        ;
    }
    (total, flood)
}

/// `part` out of `whole` in percent: rounded down, and to the nearest with ties
/// to even. Adds `part` up a hundred times and takes `whole` out as it goes, so
/// that no product outgrows the machine.
pub fn percent(part: u128, whole: u128) -> (r: (u128, u128))
    requires
        0 < whole,
        part <= whole,
    ensures
        r.0 == part * 100 / whole as int,
        r.1 == crate::round::rounded_quotient((part * 100) as nat, whole as nat),
{
    let mut q: u128 = 0;
    let mut rem: u128 = 0;
    let mut i: u128 = 0;
    while i < 100
        invariant
            i <= 100,
            q <= i,
            0 < whole,
            part <= whole,
            rem < whole,
            i * part == q * whole + rem,
        decreases 100 - i,
    {
        proof {
            assert((i + 1) * part == i * part + part) by (nonlinear_arith);
            assert((q + 1) * whole == q * whole + whole) by (nonlinear_arith);
        }
        if rem >= whole - part {
            rem = rem - (whole - part);
            q = q + 1;
        } else {
            rem = rem + part;
        }
        i = i + 1;
    }
    proof {
        assert(100 * part == part * 100) by (nonlinear_arith);
        vstd::arithmetic::div_mod::lemma_fundamental_div_mod_converse(
            part * 100,
            whole as int,
            q as int,
            rem as int,
        );
    }
    let up: bool = rem > whole - rem || (rem == whole - rem && q % 2 == 1);
    if up {
        (q, q + 1)
    } else {
        (q, q)
    }
}

/// A share in percent reaches `k` exactly when its whole part does.
proof fn lemma_share_reaches(part: int, whole: int, k: int)
    requires
        whole > 0,
        part >= 0,
        k >= 0,
    ensures
        part * 100 / whole >= k <==> part * 100 >= k * whole,
{
    let q = part * 100 / whole;
    vstd::arithmetic::div_mod::lemma_fundamental_div_mod(part * 100, whole);
    assert(q >= k ==> part * 100 >= k * whole) by (nonlinear_arith)
        requires
            part * 100 == whole * q + (part * 100) % whole,
            (part * 100) % whole >= 0,
            whole > 0,
    ;
    assert(part * 100 >= k * whole ==> q >= k) by (nonlinear_arith)
        requires
            part * 100 == whole * q + (part * 100) % whole,
            (part * 100) % whole < whole,
            whole > 0,
    ;
}

fn host_lines(hosts: &Vec<HostTraffic>, only_floods: bool) -> (r: Vec<String>)
    ensures
        crate::text::views(r@) == if only_floods {
            crate::discovery::group::lines(
                hosts@,
                |h: HostTraffic| floods(h.address@),
                |h: HostTraffic| flood_line(h),
            )
        } else {
            crate::discovery::group::lines(
                hosts@,
                |h: HostTraffic| true,
                |h: HostTraffic| host_line(h),
            )
        },
{
    let mut out: Vec<String> = Vec::new();
    let mut i: usize = 0;
    proof {
        crate::discovery::group::lemma_take_ends(hosts@);
        assert(crate::text::views(out@) =~= Seq::empty());
    }
    while i < hosts.len()
        invariant
            i <= hosts@.len(),
            crate::text::views(out@) == if only_floods {
                crate::discovery::group::lines(
                    hosts@.take(i as int),
                    |h: HostTraffic| floods(h.address@),
                    |h: HostTraffic| flood_line(h),
                )
            } else {
                crate::discovery::group::lines(
                    hosts@.take(i as int),
                    |h: HostTraffic| true,
                    |h: HostTraffic| host_line(h),
                )
            },
        decreases hosts@.len() - i,
    {
        broadcast use crate::text::lemma_views_push;

        proof {
            crate::discovery::group::lemma_take_step(hosts@, i as int);
        }
        let h = &hosts[i];
        if only_floods {
            if is_broadcastish(h.address.as_str()) {
                let mut t = h.address.clone();
                t.append(" at ");
                push_decimal(&mut t, h.busiest() as u128);
                t.append(" B/s");
                out.push(t);
            }
        } else {
            let mut t = h.address.clone();
            t.append(" tx ");
            push_decimal(&mut t, h.tx_rate_bps as u128);
            t.append(" B/s, rx ");
            push_decimal(&mut t, h.rx_rate_bps as u128);
            t.append(" B/s (peak ");
            push_decimal(&mut t, h.peak_tx_bps as u128);
            t.append("/");
            push_decimal(&mut t, h.peak_rx_bps as u128);
            t.append(")");
            out.push(t);
        }
        i = i + 1;
    }
    proof {
        crate::discovery::group::lemma_take_ends(hosts@);
    }
    out
}

fn dominant_host(hosts: &Vec<HostTraffic>, total: u128) -> (r: Vec<Finding>)
    requires
        hosts@.len() > 0,
        total == load(hosts@),
        total > 0,
    ensures
        crate::discovery::findings::said(r@) == dominant_of(hosts@),
{
    let top: u128 = hosts[0].busiest() as u128;
    proof {
        lemma_part_of_load(hosts@, 0);
        lemma_share_reaches(top as int, total as int, 50);
        lemma_share_reaches(top as int, total as int, 80);
        crate::discovery::group::lemma_count_lines(
            hosts@,
            |h: HostTraffic| true,
            |h: HostTraffic| host_line(h),
        );
        lemma_count_all(hosts@);
    }
    let (floor, share) = percent(top, total);
    if hosts.len() <= 1 || floor < 50 {
        let none: Vec<Finding> = Vec::new();
        proof {
            assert(crate::discovery::findings::said(none@) =~= Seq::empty());
        }
        return none;
    }
    let severity = if floor >= 80 {
        Severity::Warning
    } else {
        Severity::Info
    };
    let mut summary = hosts[0].address.clone();
    summary.append(" accounted for ");
    push_decimal(&mut summary, share);
    summary.append(DOMINANT_TAIL);
    let evidence = keep_first(host_lines(hosts, false), TOP);
    proof {
        assert(crate::text::views(evidence@).len() > 0);
    }
    one("capture.dominant_host", severity, summary, evidence)
}

proof fn lemma_count_all(hosts: Seq<HostTraffic>)
    ensures
        crate::discovery::group::count(hosts, |h: HostTraffic| true) == hosts.len(),
    decreases hosts.len(),
{
    if hosts.len() > 0 {
        lemma_count_all(hosts.drop_last());
    }
}

proof fn lemma_part_of_load(hosts: Seq<HostTraffic>, i: int)
    requires
        0 <= i < hosts.len(),
    ensures
        busy(hosts[i]@) <= load(hosts),
    decreases hosts.len(),
{
    if i < hosts.len() - 1 {
        lemma_part_of_load(hosts.drop_last(), i);
    }
}

proof fn lemma_flood_has_a_source(hosts: Seq<HostTraffic>)
    ensures
        flood_load(hosts) > 0 ==> crate::discovery::group::count(
            hosts,
            |h: HostTraffic| floods(h.address@),
        ) > 0,
    decreases hosts.len(),
{
    if hosts.len() > 0 {
        lemma_flood_has_a_source(hosts.drop_last());
    }
}

fn storm_source(hosts: &Vec<HostTraffic>, total: u128, flood: u128) -> (r: Vec<Finding>)
    requires
        total == load(hosts@),
        flood == flood_load(hosts@),
        total > 0,
        flood <= total,
    ensures
        crate::discovery::findings::said(r@) == flood_of(hosts@),
{
    proof {
        lemma_share_reaches(flood as int, total as int, 30);
        lemma_flood_has_a_source(hosts@);
        crate::discovery::group::lemma_count_lines(
            hosts@,
            |h: HostTraffic| floods(h.address@),
            |h: HostTraffic| flood_line(h),
        );
    }
    let (floor, share) = percent(flood, total);
    if flood == 0 || floor < 30 {
        let none: Vec<Finding> = Vec::new();
        proof {
            assert(crate::discovery::findings::said(none@) =~= Seq::empty());
        }
        return none;
    }
    let mut summary = to_decimal(share);
    summary.append(STORM_TAIL);
    let evidence = keep_first(host_lines(hosts, true), TOP);
    proof {
        assert(crate::text::views(evidence@).len() > 0);
    }
    one("capture.broadcast_storm_source", Severity::Critical, summary, evidence)
}

// --- analysis: frames -----------------------------------------------------

/// What frames are counted by.
#[derive(Clone, Copy, PartialEq, Eq, Structural)]
pub enum Tally {
    /// Low-rate data frames, by who sent them.
    LowRateSource,
    /// Frames whose sender is known, by sender.
    Source,
    /// Frames whose type is known, by type.
    Kind,
}

/// A data frame sent at a low rate.
pub open spec fn is_slow(f: WirelessFrame) -> bool {
    is_data(f) && 0 < f.rate_kbps <= LOW_RATE_KBPS
}

pub open spec fn tallied(what: Tally, f: WirelessFrame) -> bool {
    match what {
        Tally::LowRateSource => is_slow(f),
        Tally::Source => f.src@.len() > 0,
        Tally::Kind => f.frame_type@.len() > 0,
    }
}

pub open spec fn label(what: Tally, f: WirelessFrame) -> Seq<char> {
    match what {
        Tally::Kind => f.frame_type@,
        _ => f.src@,
    }
}

/// A name and how many frames bear it.
pub struct Tallied {
    pub name: String,
    pub count: usize,
}

pub struct TalliedView {
    pub name: Seq<char>,
    pub count: int,
}

impl View for Tallied {
    type V = TalliedView;

    open spec fn view(&self) -> TalliedView {
        TalliedView { name: self.name@, count: self.count as int }
    }
}

impl Ranked for Tallied {
    open spec fn rank(&self) -> int {
        -(self.count as int)
    }

    fn behind(&self, other: &Tallied) -> (r: bool) {
        self.count < other.count
    }
}

/// How many frames are tallied under `name`.
pub open spec fn tally_count(frames: Seq<WirelessFrame>, what: Tally, name: Seq<char>) -> nat {
    crate::discovery::group::count(
        frames,
        |f: WirelessFrame| tallied(what, f) && label(what, f) == name,
    )
}

/// The names that are tallied, in dictionary order.
pub open spec fn tally_names(frames: Seq<WirelessFrame>, what: Tally) -> Seq<Seq<char>> {
    crate::discovery::group::names_of(
        frames,
        |f: WirelessFrame| tallied(what, f),
        |f: WirelessFrame| label(what, f),
    )
}

/// The names that are tallied with their counts, most frequent first.
pub open spec fn ranking(frames: Seq<WirelessFrame>, what: Tally) -> Seq<TalliedView> {
    let names = tally_names(frames, what);
    crate::order::arranged(
        Seq::new(
            names.len(),
            |i: int|
                TalliedView {
                    name: names[i],
                    count: tally_count(frames, what, names[i]) as int,
                },
        ),
        |t: TalliedView| -t.count,
    )
}

pub open spec fn tallied_views(v: Seq<Tallied>) -> Seq<TalliedView> {
    v.map_values(|t: Tallied| t@)
}

fn is_tallied(what: Tally, f: &WirelessFrame) -> (r: bool)
    ensures
        r == tallied(what, *f),
{
    match what {
        Tally::LowRateSource => f.rate_is_diagnostic() && f.rate_kbps > 0 && f.rate_kbps
            <= LOW_RATE_KBPS,
        Tally::Source => !f.src.as_str().is_empty(),
        Tally::Kind => !f.frame_type.as_str().is_empty(),
    }
}

fn label_of_frame<'a>(what: Tally, f: &'a WirelessFrame) -> (r: &'a str)
    ensures
        r@ == label(what, *f),
{
    match what {
        Tally::Kind => f.frame_type.as_str(),
        _ => f.src.as_str(),
    }
}

fn count_label(frames: &Vec<WirelessFrame>, what: Tally, name: &str) -> (r: usize)
    ensures
        r == tally_count(frames@, what, name@),
        r <= frames@.len(),
{
    let mut n: usize = 0;
    let mut i: usize = 0;
    proof {
        crate::discovery::group::lemma_take_ends(frames@);
    }
    while i < frames.len()
        invariant
            n <= i <= frames@.len(),
            n == tally_count(frames@.take(i as int), what, name@),
        decreases frames@.len() - i,
    {
        proof {
            crate::discovery::group::lemma_take_step(frames@, i as int);
        }
        if is_tallied(what, &frames[i]) && same(label_of_frame(what, &frames[i]), name) {
            n = n + 1;
        }
        i = i + 1;
    }
    proof {
        crate::discovery::group::lemma_take_ends(frames@);
    }
    n
}

pub fn rank_frames(frames: &Vec<WirelessFrame>, what: Tally) -> (r: Vec<Tallied>)
    ensures
        tallied_views(r@) == ranking(frames@, what),
{
    let mut names: Vec<String> = Vec::new();
    let mut i: usize = 0;
    proof {
        crate::discovery::group::lemma_take_ends(frames@);
        assert(crate::text::views(names@) =~= Seq::empty());
    }
    while i < frames.len()
        invariant
            i <= frames@.len(),
            crate::text::views(names@) == tally_names(frames@.take(i as int), what),
        decreases frames@.len() - i,
    {
        proof {
            crate::discovery::group::lemma_take_step(frames@, i as int);
        }
        if is_tallied(what, &frames[i]) {
            add_name(&mut names, label_of_frame(what, &frames[i]));
        }
        i = i + 1;
    }
    let ghost all = crate::text::views(names@);
    let ghost flat = Seq::new(
        all.len(),
        |i: int| TalliedView { name: all[i], count: tally_count(frames@, what, all[i]) as int },
    );
    let mut out: Vec<Tallied> = Vec::new();
    let mut k: usize = 0;
    proof {
        crate::discovery::group::lemma_take_ends(frames@);
        assert(tallied_views(out@) =~= flat.take(0));
    }
    while k < names.len()
        invariant
            k <= names@.len() == all.len(),
            all == crate::text::views(names@),
            flat == Seq::new(
                all.len(),
                |i: int|
                    TalliedView { name: all[i], count: tally_count(frames@, what, all[i]) as int },
            ),
            tallied_views(out@) == flat.take(k as int),
        decreases names@.len() - k,
    {
        let count: usize = count_label(frames, what, names[k].as_str());
        let entry = Tallied { name: names[k].clone(), count };
        let ghost before = out@;
        out.push(entry);
        proof {
            assert(all[k as int] == names@[k as int]@);
            assert(tallied_views(out@) =~= tallied_views(before).push(entry@));
            assert(flat.take(k + 1) =~= flat.take(k as int).push(flat[k as int]));
        }
        k = k + 1;
    }
    proof {
        assert(flat.take(k as int) =~= flat);
        crate::order::lemma_arranged_map(
            out@,
            |t: Tallied| t@,
            |t: Tallied| t.rank(),
            |t: TalliedView| -t.count,
        );
    }
    arrange(out)
}

pub open spec fn slow_line(t: TalliedView) -> Seq<char> {
    t.name + " sent "@ + crate::text::decimal(t.count as nat) + " low-rate frames"@
}

pub open spec fn talker_line(t: TalliedView) -> Seq<char> {
    t.name + ": "@ + crate::text::decimal(t.count as nat) + " frames"@
}

pub open spec fn kind_line(t: TalliedView) -> Seq<char> {
    t.name + ": "@ + crate::text::decimal(t.count as nat)
}

pub open spec fn kind_mix(t: TalliedView) -> Seq<char> {
    crate::text::decimal(t.count as nat) + " "@ + t.name
}

/// How a tallied name is put into words.
#[derive(Clone, Copy, PartialEq, Eq, Structural)]
pub enum Wording {
    Slow,
    Talker,
    Kind,
    Mix,
}

pub open spec fn worded(w: Wording, t: TalliedView) -> Seq<char> {
    match w {
        Wording::Slow => slow_line(t),
        Wording::Talker => talker_line(t),
        Wording::Kind => kind_line(t),
        Wording::Mix => kind_mix(t),
    }
}

fn word(w: Wording, t: &Tallied) -> (r: String)
    ensures
        r@ == worded(w, t@),
{
    match w {
        Wording::Slow => {
            let mut s = t.name.clone();
            s.append(" sent ");
            push_decimal(&mut s, t.count as u128);
            s.append(" low-rate frames");
            s
        },
        Wording::Talker => {
            let mut s = t.name.clone();
            s.append(": ");
            push_decimal(&mut s, t.count as u128);
            s.append(" frames");
            s
        },
        Wording::Kind => {
            let mut s = t.name.clone();
            s.append(": ");
            push_decimal(&mut s, t.count as u128);
            s
        },
        Wording::Mix => {
            let mut s = to_decimal(t.count as u128);
            s.append(" ");
            s.append(t.name.as_str());
            s
        },
    }
}

/// The first `n` names in words.
pub open spec fn words_of(t: Seq<TalliedView>, w: Wording, n: nat) -> Seq<Seq<char>> {
    firsts(t, n).map_values(|x: TalliedView| worded(w, x))
}

fn put_in_words(t: &Vec<Tallied>, w: Wording, n: usize) -> (r: Vec<String>)
    ensures
        crate::text::views(r@) == words_of(tallied_views(t@), w, n as nat),
{
    let ghost all = tallied_views(t@);
    let m: usize = if t.len() <= n {
        t.len()
    } else {
        n
    };
    let ghost wanted = words_of(all, w, n as nat);
    let mut out: Vec<String> = Vec::new();
    let mut i: usize = 0;
    proof {
        assert(wanted.len() == m);
        assert(crate::text::views(out@) =~= wanted.take(0));
    }
    while i < m
        invariant
            i <= m <= t@.len(),
            all == tallied_views(t@),
            wanted == words_of(all, w, n as nat),
            wanted.len() == m,
            m == (if t@.len() <= n {
                t@.len()
            } else {
                n as nat
            }),
            crate::text::views(out@) == wanted.take(i as int),
        decreases m - i,
    {
        broadcast use crate::text::lemma_views_push;

        let line = word(w, &t[i]);
        proof {
            assert(firsts(all, n as nat)[i as int] == t@[i as int]@);
            assert(wanted[i as int] == line@);
            assert(wanted.take(i + 1) =~= wanted.take(i as int).push(line@));
        }
        out.push(line);
        i = i + 1;
    }
    proof {
        assert(wanted.take(m as int) =~= wanted);
    }
    out
}

pub open spec fn pct(part: nat, whole: nat) -> Seq<char> {
    crate::text::decimal(crate::round::rounded_quotient(part * 100, whole))
}

pub open spec fn bad_frames(frames: Seq<WirelessFrame>) -> nat {
    crate::discovery::group::count(frames, |f: WirelessFrame| f.crc_error)
}

pub open spec fn data_frames(frames: Seq<WirelessFrame>) -> nat {
    crate::discovery::group::count(frames, |f: WirelessFrame| is_data(f))
}

pub open spec fn slow_frames(frames: Seq<WirelessFrame>) -> nat {
    crate::discovery::group::count(frames, |f: WirelessFrame| is_slow(f))
}

pub open spec fn broadcast_frames(frames: Seq<WirelessFrame>) -> nat {
    crate::discovery::group::count(frames, |f: WirelessFrame| is_data(f) && to_everyone(f))
}

/// Frames that failed their checksum: worth naming from 15 %, critical from
/// 30 %. A packet capture never sees them at all.
pub open spec fn crc_of(frames: Seq<WirelessFrame>) -> Seq<
    crate::discovery::findings::FindingView,
> {
    let n = frames.len();
    let bad = bad_frames(frames);
    if bad * 100 >= 15 * n {
        seq![
            crate::discovery::findings::FindingView {
                code: "capture.wifi_crc_errors"@,
                severity: if bad * 100 >= 30 * n {
                    Severity::Critical
                } else {
                    Severity::Warning
                },
                summary: pct(bad, n) + "% of captured frames failed CRC ("@ + crate::text::decimal(
                    bad,
                ) + " of "@ + crate::text::decimal(n) + CRC_TAIL@,
                evidence: seq!["channel "@ + frames[0].channel@],
            },
        ]
    } else {
        Seq::empty()
    }
}

/// Slow data frames: worth naming when they are 40 % of at least twenty. They
/// occupy the channel far longer than their size suggests.
pub open spec fn low_rate_of(frames: Seq<WirelessFrame>) -> Seq<
    crate::discovery::findings::FindingView,
> {
    let data = data_frames(frames);
    let slow = slow_frames(frames);
    if data >= MIN_DATA_FRAMES && slow * 100 >= 40 * data {
        seq![
            crate::discovery::findings::FindingView {
                code: "capture.wifi_low_rate_frames"@,
                severity: Severity::Warning,
                summary: pct(slow, data) + "% of data frames ("@ + crate::text::decimal(slow)
                    + " of "@ + crate::text::decimal(data) + LOW_RATE_TAIL@,
                evidence: words_of(
                    ranking(frames, Tally::LowRateSource),
                    Wording::Slow,
                    TOP as nat,
                ),
            },
        ]
    } else {
        Seq::empty()
    }
}

/// Who is on the air, by frame count rather than bytes: named when one of
/// several stations sent half of all frames.
pub open spec fn talker_of(frames: Seq<WirelessFrame>) -> Seq<
    crate::discovery::findings::FindingView,
> {
    let r = ranking(frames, Tally::Source);
    if r.len() > 1 && r[0].count * 100 >= 50 * frames.len() {
        seq![
            crate::discovery::findings::FindingView {
                code: "capture.wifi_dominant_transmitter"@,
                severity: Severity::Info,
                summary: r[0].name + " sent "@ + pct(r[0].count as nat, frames.len())
                    + "% of the frames on this channel"@,
                evidence: words_of(r, Wording::Talker, TOP as nat),
            },
        ]
    } else {
        Seq::empty()
    }
}

/// What kinds of frames there were, whenever any says.
pub open spec fn mix_of(frames: Seq<WirelessFrame>, interface: Seq<char>) -> Seq<
    crate::discovery::findings::FindingView,
> {
    let r = ranking(frames, Tally::Kind);
    if r.len() == 0 {
        Seq::empty()
    } else {
        seq![
            crate::discovery::findings::FindingView {
                code: "capture.wifi_frame_mix"@,
                severity: Severity::Info,
                summary: crate::text::decimal(frames.len()) + " frames on "@ + interface + ": "@
                    + crate::text::joined(words_of(r, Wording::Mix, 4), ", "@),
                evidence: words_of(r, Wording::Kind, r.len()),
            },
        ]
    }
}

/// Broadcast data frames: worth naming when they are 30 % of at least twenty.
/// Beacons do not count, since every one is addressed to the broadcast MAC by
/// definition.
pub open spec fn broadcast_of(frames: Seq<WirelessFrame>) -> Seq<
    crate::discovery::findings::FindingView,
> {
    let data = data_frames(frames);
    let b = broadcast_frames(frames);
    if data >= MIN_DATA_FRAMES && b * 100 >= 30 * data {
        seq![
            crate::discovery::findings::FindingView {
                code: "capture.wifi_broadcast_heavy"@,
                severity: Severity::Warning,
                summary: pct(b, data) + "% of data frames ("@ + crate::text::decimal(b) + " of "@
                    + crate::text::decimal(data) + BROADCAST_TAIL@,
                evidence: seq![
                    crate::text::decimal(b) + " broadcast data frames of "@ + crate::text::decimal(
                        frames.len(),
                    ) + " total captured"@,
                ],
            },
        ]
    } else {
        Seq::empty()
    }
}

pub open spec fn silent_view(cap: Capture) -> crate::discovery::findings::FindingView {
    crate::discovery::findings::FindingView {
        code: "capture.wireless_silent"@,
        severity: Severity::Info,
        summary: "no 802.11 frames were captured on "@ + cap.interface@ + " in "@
            + crate::text::decimal(cap.duration_s as nat) + "s"@,
        evidence: crate::text::views(cap.notes@),
    }
}

/// Everything that an 802.11 capture says.
pub open spec fn wireless_findings(cap: Capture) -> Seq<crate::discovery::findings::FindingView> {
    let frames = cap.frames@;
    if frames.len() == 0 {
        seq![silent_view(cap)]
    } else {
        crc_of(frames) + low_rate_of(frames) + talker_of(frames) + mix_of(frames, cap.interface@)
            + broadcast_of(frames)
    }
}

/// Counts of the frames that failed their checksum, carry data, carry data at
/// a low rate, and carry data to everyone.
fn frame_counts(frames: &Vec<WirelessFrame>) -> (r: (usize, usize, usize, usize))
    ensures
        r.0 == bad_frames(frames@) <= frames@.len(),
        r.1 == data_frames(frames@),
        r.2 == slow_frames(frames@) <= r.1,
        r.3 == broadcast_frames(frames@) <= r.1,
{
    let mut bad: usize = 0;
    let mut data: usize = 0;
    let mut slow: usize = 0;
    let mut all: usize = 0;
    let mut i: usize = 0;
    proof {
        crate::discovery::group::lemma_take_ends(frames@);
    }
    while i < frames.len()
        invariant
            i <= frames@.len(),
            bad <= i,
            slow <= data <= i,
            all <= data,
            bad == bad_frames(frames@.take(i as int)),
            data == data_frames(frames@.take(i as int)),
            slow == slow_frames(frames@.take(i as int)),
            all == broadcast_frames(frames@.take(i as int)),
        decreases frames@.len() - i,
    {
        proof {
            crate::discovery::group::lemma_take_step(frames@, i as int);
        }
        let f = &frames[i];
        if f.crc_error {
            bad = bad + 1;
        }
        if f.rate_is_diagnostic() {
            data = data + 1;
            if f.rate_kbps > 0 && f.rate_kbps <= LOW_RATE_KBPS {
                slow = slow + 1;
            }
            if f.is_broadcast() {
                all = all + 1;
            }
        }
        i = i + 1;
    }
    proof {
        crate::discovery::group::lemma_take_ends(frames@);
    }
    (bad, data, slow, all)
}

fn nothing() -> (r: Vec<Finding>)
    ensures
        crate::discovery::findings::said(r@) == Seq::<
            crate::discovery::findings::FindingView,
        >::empty(),
{
    let r: Vec<Finding> = Vec::new();
    proof {
        assert(crate::discovery::findings::said(r@) =~= Seq::empty());
    }
    r
}

fn crc_errors(frames: &Vec<WirelessFrame>, bad: usize) -> (r: Vec<Finding>)
    requires
        frames@.len() > 0,
        bad == bad_frames(frames@) <= frames@.len(),
    ensures
        crate::discovery::findings::said(r@) == crc_of(frames@),
{
    let n: usize = frames.len();
    proof {
        lemma_share_reaches(bad as int, n as int, 15);
        lemma_share_reaches(bad as int, n as int, 30);
    }
    let (floor, share) = percent(bad as u128, n as u128);
    if floor < 15 {
        return nothing();
    }
    let severity = if floor >= 30 {
        Severity::Critical
    } else {
        Severity::Warning
    };
    let mut summary = to_decimal(share);
    summary.append("% of captured frames failed CRC (");
    push_decimal(&mut summary, bad as u128);
    summary.append(" of ");
    push_decimal(&mut summary, n as u128);
    summary.append(CRC_TAIL);
    let mut line = "channel ".to_owned();
    line.append(frames[0].channel.as_str());
    let mut evidence: Vec<String> = Vec::new();
    evidence.push(line);
    proof {
        assert(crate::text::views(evidence@) =~= seq![line@]);
    }
    one("capture.wifi_crc_errors", severity, summary, evidence)
}

fn with_evidence(
    code: &'static str,
    severity: Severity,
    summary: String,
    evidence: Vec<String>,
) -> (r: Vec<Finding>)
    ensures
        crate::discovery::findings::said(r@) == seq![
            crate::discovery::findings::FindingView {
                code: code@,
                severity,
                summary: summary@,
                evidence: crate::text::views(evidence@),
            },
        ],
{
    let mut out: Vec<Finding> = Vec::new();
    out.push(Finding { code, severity, summary, evidence });
    proof {
        assert(crate::discovery::findings::said(out@) =~= seq![out@[0]@]);
    }
    out
}

fn low_rate(frames: &Vec<WirelessFrame>, data: usize, slow: usize) -> (r: Vec<Finding>)
    requires
        data == data_frames(frames@),
        slow == slow_frames(frames@),
        slow <= data,
    ensures
        crate::discovery::findings::said(r@) == low_rate_of(frames@),
{
    if data < MIN_DATA_FRAMES {
        return nothing();
    }
    proof {
        lemma_share_reaches(slow as int, data as int, 40);
    }
    let (floor, share) = percent(slow as u128, data as u128);
    if floor < 40 {
        return nothing();
    }
    let mut summary = to_decimal(share);
    summary.append("% of data frames (");
    push_decimal(&mut summary, slow as u128);
    summary.append(" of ");
    push_decimal(&mut summary, data as u128);
    summary.append(LOW_RATE_TAIL);
    let worst = rank_frames(frames, Tally::LowRateSource);
    let evidence = put_in_words(&worst, Wording::Slow, TOP);
    with_evidence("capture.wifi_low_rate_frames", Severity::Warning, summary, evidence)
}

proof fn lemma_ranking_counts(frames: Seq<WirelessFrame>, what: Tally)
    ensures
        forall|i: int|
            0 <= i < ranking(frames, what).len() ==> 0 <= (#[trigger] ranking(
                frames,
                what,
            )[i]).count <= frames.len(),
{
    broadcast use vstd::seq_lib::group_to_multiset_ensures;

    let names = tally_names(frames, what);
    let flat = Seq::new(
        names.len(),
        |i: int|
            TalliedView { name: names[i], count: tally_count(frames, what, names[i]) as int },
    );
    let rank = |t: TalliedView| -t.count;
    crate::order::lemma_arranged(flat, rank);
    let r = ranking(frames, what);
    assert forall|i: int| 0 <= i < r.len() implies 0 <= (#[trigger] r[i]).count <= frames.len() by {
        assert(r.contains(r[i]));
        assert(r.to_multiset().count(r[i]) > 0);
        assert(flat.to_multiset().count(r[i]) > 0);
        assert(flat.contains(r[i]));
        let k = choose|k: int| 0 <= k < flat.len() && flat[k] == r[i];
        crate::discovery::group::lemma_count_lines(
            frames,
            |f: WirelessFrame| tallied(what, f) && label(what, f) == names[k],
            |f: WirelessFrame| f.src@,
        );
    }
}

fn dominant_transmitter(frames: &Vec<WirelessFrame>) -> (r: Vec<Finding>)
    requires
        frames@.len() > 0,
    ensures
        crate::discovery::findings::said(r@) == talker_of(frames@),
{
    let talkers = rank_frames(frames, Tally::Source);
    let n: usize = frames.len();
    if talkers.len() <= 1 {
        return nothing();
    }
    let count: usize = talkers[0].count;
    proof {
        lemma_ranking_counts(frames@, Tally::Source);
        assert(ranking(frames@, Tally::Source)[0] == talkers@[0]@);
        lemma_share_reaches(count as int, n as int, 50);
    }
    let (floor, share) = percent(count as u128, n as u128);
    if floor < 50 {
        return nothing();
    }
    let mut summary = talkers[0].name.clone();
    summary.append(" sent ");
    push_decimal(&mut summary, share);
    summary.append("% of the frames on this channel");
    let evidence = put_in_words(&talkers, Wording::Talker, TOP);
    with_evidence("capture.wifi_dominant_transmitter", Severity::Info, summary, evidence)
}

fn frame_mix(frames: &Vec<WirelessFrame>, interface: &str) -> (r: Vec<Finding>)
    ensures
        crate::discovery::findings::said(r@) == mix_of(frames@, interface@),
{
    let kinds = rank_frames(frames, Tally::Kind);
    if kinds.len() == 0 {
        proof {
            assert(ranking(frames@, Tally::Kind).len() == 0);
        }
        return nothing();
    }
    let first = put_in_words(&kinds, Wording::Mix, 4);
    let listed = join(&first, ", ");
    let mut summary = to_decimal(frames.len() as u128);
    summary.append(" frames on ");
    summary.append(interface);
    summary.append(": ");
    summary.append(listed.as_str());
    let evidence = put_in_words(&kinds, Wording::Kind, kinds.len());
    with_evidence("capture.wifi_frame_mix", Severity::Info, summary, evidence)
}

fn broadcast_heavy(frames: &Vec<WirelessFrame>, data: usize, b: usize) -> (r: Vec<Finding>)
    requires
        data == data_frames(frames@),
        b == broadcast_frames(frames@),
        b <= data,
    ensures
        crate::discovery::findings::said(r@) == broadcast_of(frames@),
{
    if data < MIN_DATA_FRAMES {
        return nothing();
    }
    proof {
        lemma_share_reaches(b as int, data as int, 30);
    }
    let (floor, share) = percent(b as u128, data as u128);
    if floor < 30 {
        return nothing();
    }
    let mut summary = to_decimal(share);
    summary.append("% of data frames (");
    push_decimal(&mut summary, b as u128);
    summary.append(" of ");
    push_decimal(&mut summary, data as u128);
    summary.append(BROADCAST_TAIL);
    let mut line = to_decimal(b as u128);
    line.append(" broadcast data frames of ");
    push_decimal(&mut line, frames.len() as u128);
    line.append(" total captured");
    let mut evidence: Vec<String> = Vec::new();
    evidence.push(line);
    proof {
        assert(crate::text::views(evidence@) =~= seq![line@]);
    }
    one("capture.wifi_broadcast_heavy", Severity::Warning, summary, evidence)
}

fn copies(v: &Vec<String>) -> (r: Vec<String>)
    ensures
        crate::text::views(r@) == crate::text::views(v@),
{
    let mut out: Vec<String> = Vec::new();
    let mut i: usize = 0;
    while i < v.len()
        invariant
            i <= v@.len(),
            out@.len() == i,
            forall|k: int| 0 <= k < i ==> (#[trigger] out@[k])@ == v@[k]@,
        decreases v@.len() - i,
    {
        out.push(v[i].clone());
        i = i + 1;
    }
    proof {
        assert(crate::text::views(out@) =~= crate::text::views(v@));
    }
    out
}

/// Findings from an 802.11 capture: the RF layer a packet capture cannot see.
pub fn analyse_wireless(cap: &Capture) -> (r: Vec<Finding>)
    ensures
        crate::discovery::findings::said(r@) == wireless_findings(*cap),
{
    if cap.frames.len() == 0 {
        let mut summary = "no 802.11 frames were captured on ".to_owned();
        summary.append(cap.interface.as_str());
        summary.append(" in ");
        push_decimal(&mut summary, cap.duration_s as u128);
        summary.append("s");
        let evidence = copies(&cap.notes);
        return with_evidence("capture.wireless_silent", Severity::Info, summary, evidence);
    }
    let (bad, data, slow, all) = frame_counts(&cap.frames);
    let mut out = crc_errors(&cap.frames, bad);
    extend(&mut out, low_rate(&cap.frames, data, slow));
    extend(&mut out, dominant_transmitter(&cap.frames));
    extend(&mut out, frame_mix(&cap.frames, cap.interface.as_str()));
    extend(&mut out, broadcast_heavy(&cap.frames, data, all));
    out
}

/// Turn a capture into findings, naming hosts rather than interfaces.
pub fn analyse(cap: &Capture) -> (r: Vec<Finding>)
    ensures
        crate::discovery::findings::said(r@) == if cap.used_wireless_sniffer {
            wireless_findings(*cap)
        } else {
            host_findings(cap.hosts@)
        },
{
    if cap.used_wireless_sniffer {
        return analyse_wireless(cap);
    }
    if cap.hosts.len() == 0 {
        return nothing();
    }
    let (total, flood) = loads(&cap.hosts);
    if total == 0 {
        return nothing();
    }
    let mut out = dominant_host(&cap.hosts, total);
    extend(&mut out, storm_source(&cap.hosts, total, flood));
    out
}

/// However many beacons and acknowledgements are on the air, they change nothing
/// of what is said about rates or broadcasts: captures with the same data
/// frames in the same order, whatever else came before, between and after them,
/// give the same low-rate finding, and a broadcast finding of the same severity
/// and summary or none.
pub proof fn law_management_frames_change_nothing(
    frames: Seq<WirelessFrame>,
    others: Seq<WirelessFrame>,
)
    requires
        frames.filter(|f: WirelessFrame| is_data(f)) == others.filter(|f: WirelessFrame| is_data(f)),
    ensures
        low_rate_of(others) == low_rate_of(frames),
        broadcast_of(others).len() == broadcast_of(frames).len(),
        forall|i: int|
            0 <= i < broadcast_of(frames).len() ==> {
                &&& (#[trigger] broadcast_of(others)[i]).code == broadcast_of(frames)[i].code
                &&& broadcast_of(others)[i].severity == broadcast_of(frames)[i].severity
                &&& broadcast_of(others)[i].summary == broadcast_of(frames)[i].summary
            },
{
    lemma_only_data_counts(frames);
    lemma_only_data_counts(others);
}

/// Inserting a frame that carries no data anywhere is such a change.
pub proof fn law_an_inserted_management_frame_changes_nothing(
    frames: Seq<WirelessFrame>,
    at: int,
    f: WirelessFrame,
)
    requires
        0 <= at <= frames.len(),
        !is_data(f),
    ensures
        frames.insert(at, f).filter(|x: WirelessFrame| is_data(x)) == frames.filter(
            |x: WirelessFrame| is_data(x),
        ),
        low_rate_of(frames.insert(at, f)) == low_rate_of(frames),
        broadcast_of(frames.insert(at, f)).len() == broadcast_of(frames).len(),
{
    crate::discovery::group::lemma_insert_kept(frames, at, f, |x: WirelessFrame| is_data(x));
    law_management_frames_change_nothing(frames, frames.insert(at, f));
}

proof fn lemma_only_data_counts(frames: Seq<WirelessFrame>)
    ensures
        ({
            let data = frames.filter(|f: WirelessFrame| is_data(f));
            &&& low_rate_of(data) == low_rate_of(frames)
            &&& data_frames(data) == data_frames(frames)
            &&& broadcast_frames(data) == broadcast_frames(frames)
        }),
{
    let keep = |f: WirelessFrame| is_data(f);
    let data = frames.filter(keep);
    let what = Tally::LowRateSource;
    let named = |f: WirelessFrame| label(what, f);
    crate::discovery::group::lemma_kept(frames, keep, |f: WirelessFrame| is_data(f), named);
    crate::discovery::group::lemma_kept(frames, keep, |f: WirelessFrame| is_slow(f), named);
    crate::discovery::group::lemma_kept(
        frames,
        keep,
        |f: WirelessFrame| is_data(f) && to_everyone(f),
        named,
    );
    crate::discovery::group::lemma_kept(frames, keep, |f: WirelessFrame| tallied(what, f), named);
    let names = tally_names(frames, what);
    assert forall|i: int| 0 <= i < names.len() implies #[trigger] tally_count(data, what, names[i])
        == tally_count(frames, what, names[i]) by {
        let name = names[i];
        crate::discovery::group::lemma_kept(
            frames,
            keep,
            |f: WirelessFrame| tallied(what, f) && label(what, f) == name,
            named,
        );
    }
    let a = Seq::new(
        names.len(),
        |i: int|
            TalliedView { name: names[i], count: tally_count(data, what, names[i]) as int },
    );
    let b = Seq::new(
        names.len(),
        |i: int|
            TalliedView { name: names[i], count: tally_count(frames, what, names[i]) as int },
    );
    assert(a =~= b);
    assert(ranking(data, what) == ranking(frames, what));
}

/// A capture never runs longer than the limit, nor for no time at all, and says
/// so exactly when it was shortened.
pub proof fn law_captures_are_bounded(d: Duration)
    ensures
        1 <= capture_secs(d) <= MAX_CAPTURE_SECS,
        capture_notes(d).len() == 1 <==> d.nanos as nat / 1_000_000_000 > MAX_CAPTURE_SECS,
        capture_notes(d).len() <= 1,
{
}

} // verus!
