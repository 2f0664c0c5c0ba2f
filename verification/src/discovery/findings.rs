//! Turning a router's local state into explanations.
//!
//! The point of discovery is not an inventory. An operator asking "why is this
//! site slow" is not helped by a list of ARP entries; they need the one or two
//! facts that explain the complaint. So the collectors gather raw state and
//! this module reduces it to [`Finding`]s, each with a severity and enough
//! evidence to act on.

use vstd::prelude::*;
use vstd::string::StringExecFns;

use crate::discovery::group::add_name;
use crate::round::round_div;
use crate::text::{
    contains, push_decimal, push_decimal_int, same, starts_with, to_ascii_uppercase, to_decimal,
};

verus! {

#[derive(Debug, Clone, Copy, PartialEq, Eq, PartialOrd, Ord, Structural)]
pub enum Severity {
    /// Worth knowing, not currently hurting anyone.
    Info,
    /// Degrading some users now, or will soon.
    Warning,
    /// Actively degrading the whole site.
    Critical,
}

#[derive(Debug, Clone, PartialEq)]
pub struct Finding {
    /// Stable machine-readable identifier, e.g. `wifi.slow_client_airtime`.
    pub code: &'static str,
    pub severity: Severity,
    /// One line an operator can act on.
    pub summary: String,
    /// What was observed, so the conclusion can be checked rather than trusted.
    pub evidence: Vec<String>,
}

/// What a finding says.
pub struct FindingView {
    pub code: Seq<char>,
    pub severity: Severity,
    pub summary: Seq<char>,
    pub evidence: Seq<Seq<char>>,
}

impl View for Finding {
    type V = FindingView;

    open spec fn view(&self) -> FindingView {
        FindingView {
            code: self.code@,
            severity: self.severity,
            summary: self.summary@,
            evidence: crate::text::views(self.evidence@),
        }
    }
}

/// What a list of findings says.
pub open spec fn said(v: Seq<Finding>) -> Seq<FindingView> {
    Seq::new(v.len(), |i: int| v[i]@)
}

pub broadcast proof fn lemma_said_push(v: Seq<Finding>, f: Finding)
    ensures
        #[trigger] said(v.push(f)) == said(v).push(f@),
{
    assert(said(v.push(f)) =~= said(v).push(f@));
}

pub proof fn lemma_said_add(a: Seq<Finding>, b: Seq<Finding>)
    ensures
        said(a + b) == said(a) + said(b),
{
    assert(said(a + b) =~= said(a) + said(b));
}

// --- inputs ---------------------------------------------------------------
//
// Deliberately narrow structs rather than raw JSON: the two RouterOS wireless
// stacks report the same facts under different field names, and normalising at
// the collector boundary keeps that mess out of the analysis.

/// One associated wireless client.
#[derive(Debug, Clone, PartialEq)]
pub struct WifiClient {
    pub mac: String,
    pub interface: String,
    pub ssid: String,
    /// dBm as reported by the AP. Closer to zero is stronger.
    pub signal_dbm: i32,
    /// Negotiated rates, bits per second.
    pub tx_rate_bps: u64,
    pub rx_rate_bps: u64,
    pub band: String,
    pub uptime_s: u64,
    /// Seconds since this client last sent or received a frame.
    pub last_activity_s: u64,
}

/// A radio and the channel it is on.
#[derive(Debug, Clone, PartialEq)]
pub struct Radio {
    pub name: String,
    pub band: String,
    /// Centre frequency in MHz, when known.
    pub frequency_mhz: Option<u32>,
    pub width: String,
    pub country: String,
}

/// An AP heard during a scan: ours or a neighbour's.
#[derive(Debug, Clone, PartialEq)]
pub struct NeighbourAp {
    pub ssid: String,
    pub frequency_mhz: u32,
    pub signal_dbm: i32,
}

#[derive(Debug, Clone, PartialEq)]
pub struct ArpEntry {
    pub address: String,
    pub mac: String,
    pub interface: String,
    /// True when the entry came from DHCP rather than being learned or static.
    pub from_dhcp: bool,
    pub complete: bool,
}

#[derive(Debug, Clone, PartialEq)]
pub struct DhcpLease {
    pub address: String,
    pub mac: String,
    pub hostname: String,
    pub active: bool,
}

/// Interface counters, used to spot storms.
#[derive(Debug, Clone, PartialEq)]
pub struct InterfaceStats {
    pub name: String,
    pub rx_packets_per_s: u64,
    pub tx_packets_per_s: u64,
    /// Broadcast and multicast frames per second received.
    pub rx_broadcast_per_s: u64,
    pub rx_multicast_per_s: u64,
    pub running: bool,
}

/// Everything a discovery run gathered.
#[derive(Debug, Clone, Default, PartialEq)]
pub struct Snapshot {
    pub clients: Vec<WifiClient>,
    pub radios: Vec<Radio>,
    pub neighbour_aps: Vec<NeighbourAp>,
    pub arp: Vec<ArpEntry>,
    pub leases: Vec<DhcpLease>,
    pub interfaces: Vec<InterfaceStats>,
    /// Size of the DHCP pool, when it could be determined.
    pub dhcp_pool_size: Option<usize>,
}

// --- thresholds -----------------------------------------------------------

/// Below this, a client is at the edge of usable coverage.
pub const WEAK_SIGNAL_DBM: i32 = -75;

/// Signal strong enough that a low rate cannot be explained by distance.
pub const STRONG_SIGNAL_DBM: i32 = -60;

/// Rates at or below this drag shared airtime badly.
pub const SLOW_RATE_BPS: u64 = 24_000_000;

/// One in this many of a radio's clients must be slow before the radio is a
/// problem.
pub const SLOW_CLIENT_ONE_IN: u64 = 4;

/// Airtime cost, slowest against fastest, that is critical whatever the share.
pub const CRITICAL_AIRTIME_RATIO: u64 = 20;

/// Broadcast frames per second that indicate a storm rather than normal chatter.
pub const BROADCAST_STORM_PPS: u64 = 500;

/// Co-channel neighbours this strong genuinely contend with us.
pub const SIGNIFICANT_AP_DBM: i32 = -82;

/// Past this, a client is idle and its negotiated rate is stale.
pub const IDLE_AFTER_S: u64 = 30;

/// Airtime contention needs at least this many clients to be contention at all.
pub const MIN_CLIENTS_FOR_CONTENTION: usize = 2;

/// Share of the DHCP pool in use, in percent, that is worth a warning.
pub const POOL_WARNING_PCT: u64 = 85;

/// Share of the DHCP pool in use, in percent, that is critical.
pub const POOL_CRITICAL_PCT: u64 = 95;

pub const AIRTIME_TAIL: &'static str = " Mbit/s, which slows every other client on that radio because 802.11 shares airtime rather than bandwidth";

pub const RATIO_TAIL: &'static str = "x the airtime of the fastest for the same data";

pub const MISMATCH_TAIL: &'static str = " client(s) have a strong signal but a low negotiated rate, which distance cannot explain — suspect interference, a legacy device, or a stuck rate";

pub const STEERING_TAIL: &'static str = " client(s) with a strong signal are on 2.4 GHz while 5 GHz is available";

pub const CONTENTION_TAIL: &'static str = " MHz); they take turns with us, so each one directly reduces the airtime our clients can use";

pub const STORM_TAIL: &'static str = "% of its traffic), which on wifi is sent at the lowest basic rate and consumes disproportionate airtime";

pub const DUPLICATE_TAIL: &'static str = " different MAC addresses, which causes intermittent connectivity that is very hard to diagnose from the client side";

pub const UNLEASED_TAIL: &'static str = " device(s) are active but hold no DHCP lease — statically addressed, or not managed by this router";

pub const POOL_TAIL: &'static str = "); once it is exhausted new devices associate but get no address, which users report as \"connected, no internet\"";

// --- clients --------------------------------------------------------------

pub open spec fn on_2ghz(c: WifiClient) -> bool {
    crate::text::has(c.band@, "2ghz"@) || crate::text::starts(c.band@, "2"@)
}

/// The client is passing traffic.
pub open spec fn active(c: WifiClient) -> bool {
    c.last_activity_s <= IDLE_AFTER_S
}

impl WifiClient {
    pub fn is_2ghz(&self) -> (r: bool)
        ensures
            r == on_2ghz(*self),
    {
        contains(self.band.as_str(), "2ghz") || starts_with(self.band.as_str(), "2")
    }

    /// Whether this client's negotiated rate means anything right now.
    ///
    /// An idle 802.11 client's tx-rate reflects whatever it last transmitted,
    /// which for a device that has been quiet is the lowest basic rate. Judging
    /// an idle client by that figure reports a problem on every healthy
    /// network, so rate-based rules only consider clients that are actually
    /// passing traffic.
    pub fn rate_is_meaningful(&self) -> (r: bool)
        ensures
            r == active(*self),
    {
        self.last_activity_s <= IDLE_AFTER_S
    }
}

/// The client is active on the radio `iface`.
pub open spec fn active_on(c: WifiClient, iface: Seq<char>) -> bool {
    c.interface@ == iface && active(c)
}

/// The client is active on the radio `iface` and slow.
pub open spec fn slow_on(c: WifiClient, iface: Seq<char>) -> bool {
    active_on(c, iface) && c.tx_rate_bps <= SLOW_RATE_BPS
}

/// The highest rate on the radio.
pub open spec fn fastest_on(clients: Seq<WifiClient>, iface: Seq<char>) -> u64
    decreases clients.len(),
{
    if clients.len() == 0 {
        0
    } else {
        let rest = fastest_on(clients.drop_last(), iface);
        let c = clients.last();
        if active_on(c, iface) && c.tx_rate_bps > rest {
            c.tx_rate_bps
        } else {
            rest
        }
    }
}

/// The lowest rate of a slow client on the radio; the slow threshold when there
/// is none.
pub open spec fn slowest_on(clients: Seq<WifiClient>, iface: Seq<char>) -> u64
    decreases clients.len(),
{
    if clients.len() == 0 {
        SLOW_RATE_BPS
    } else {
        let rest = slowest_on(clients.drop_last(), iface);
        let c = clients.last();
        if slow_on(c, iface) && c.tx_rate_bps < rest {
            c.tx_rate_bps
        } else {
            rest
        }
    }
}

pub open spec fn slow_line(c: WifiClient) -> Seq<char> {
    c.mac@ + " on "@ + c.ssid@ + " at "@ + crate::text::decimal(
        (c.tx_rate_bps / 1_000_000) as nat,
    ) + " Mbit/s, signal "@ + crate::text::decimal_int(c.signal_dbm as int) + " dBm"@
}

fn describe_slow(c: &WifiClient) -> (r: String)
    ensures
        r@ == slow_line(*c),
{
    let mut t = c.mac.clone();
    t.append(" on ");
    t.append(c.ssid.as_str());
    t.append(" at ");
    push_decimal(&mut t, (c.tx_rate_bps / 1_000_000) as u128);
    t.append(" Mbit/s, signal ");
    push_decimal_int(&mut t, c.signal_dbm as i64);
    t.append(" dBm");
    t
}

pub open spec fn airtime_evidence(clients: Seq<WifiClient>, iface: Seq<char>) -> Seq<Seq<char>> {
    let fastest = fastest_on(clients, iface);
    let slowest = slowest_on(clients, iface);
    let lines = crate::discovery::group::lines(
        clients,
        |c: WifiClient| slow_on(c, iface),
        |c: WifiClient| slow_line(c),
    ).push(
        "fastest client on this radio negotiates "@ + crate::text::decimal(
            (fastest / 1_000_000) as nat,
        ) + " Mbit/s"@,
    );
    if slowest == 0 {
        lines
    } else {
        lines.push(
            "slowest client consumes roughly "@ + crate::text::decimal(
                crate::round::rounded_quotient(fastest as nat, slowest as nat),
            ) + RATIO_TAIL@,
        )
    }
}

pub open spec fn airtime_summary(slow: nat, n: nat, iface: Seq<char>) -> Seq<char> {
    crate::text::decimal(slow) + " of "@ + crate::text::decimal(n) + " active clients on "@ + iface
        + " are at or below "@ + crate::text::decimal((SLOW_RATE_BPS / 1_000_000) as nat)
        + AIRTIME_TAIL@
}

/// What the airtime rule says of one radio: nothing with fewer than two active
/// clients or without a slow one. It is critical when a quarter of them are
/// slow, or when the slowest holds the channel twenty times as long as the
/// fastest for the same data.
pub open spec fn airtime_on(clients: Seq<WifiClient>, iface: Seq<char>) -> Seq<FindingView> {
    let n = crate::discovery::group::count(clients, |c: WifiClient| active_on(c, iface));
    let slow = crate::discovery::group::count(clients, |c: WifiClient| slow_on(c, iface));
    let fastest = fastest_on(clients, iface);
    let slowest = slowest_on(clients, iface);
    if n < MIN_CLIENTS_FOR_CONTENTION || slow == 0 {
        Seq::empty()
    } else {
        seq![
            FindingView {
                code: "wifi.slow_client_airtime"@,
                severity: if slow * SLOW_CLIENT_ONE_IN >= n || slowest == 0 || fastest >= slowest
                    * CRITICAL_AIRTIME_RATIO {
                    Severity::Critical
                } else {
                    Severity::Warning
                },
                summary: airtime_summary(slow, n, iface),
                evidence: airtime_evidence(clients, iface),
            },
        ]
    }
}

/// The airtime rule over `radios`.
pub open spec fn airtime_over(clients: Seq<WifiClient>, radios: Seq<Seq<char>>) -> Seq<FindingView>
    decreases radios.len(),
{
    if radios.len() == 0 {
        Seq::empty()
    } else {
        airtime_over(clients, radios.drop_last()) + airtime_on(clients, radios.last())
    }
}

pub open spec fn slow_client_airtime_of(s: Snapshot) -> Seq<FindingView> {
    airtime_over(
        s.clients@,
        crate::discovery::group::names_of(
            s.clients@,
            |c: WifiClient| true,
            |c: WifiClient| c.interface@,
        ),
    )
}

fn interfaces_of(clients: &Vec<WifiClient>) -> (r: Vec<String>)
    ensures
        crate::text::views(r@) == crate::discovery::group::names_of(
            clients@,
            |c: WifiClient| true,
            |c: WifiClient| c.interface@,
        ),
{
    let mut names: Vec<String> = Vec::new();
    let mut i: usize = 0;
    proof {
        crate::discovery::group::lemma_take_ends(clients@);
        assert(crate::text::views(names@) =~= Seq::empty());
    }
    while i < clients.len()
        invariant
            i <= clients@.len(),
            crate::text::views(names@) == crate::discovery::group::names_of(
                clients@.take(i as int),
                |c: WifiClient| true,
                |c: WifiClient| c.interface@,
            ),
        decreases clients@.len() - i,
    {
        proof {
            crate::discovery::group::lemma_take_step(clients@, i as int);
        }
        add_name(&mut names, clients[i].interface.as_str());
        i = i + 1;
    }
    proof {
        crate::discovery::group::lemma_take_ends(clients@);
    }
    names
}

fn airtime_one(clients: &Vec<WifiClient>, iface: &str) -> (r: Vec<Finding>)
    ensures
        said(r@) == airtime_on(clients@, iface@),
{
    broadcast use {crate::text::lemma_views_push, lemma_said_push};

    let mut n: usize = 0;
    let mut slow: usize = 0;
    let mut fastest: u64 = 0;
    let mut slowest: u64 = SLOW_RATE_BPS;
    let mut evidence: Vec<String> = Vec::new();
    let mut i: usize = 0;
    proof {
        crate::discovery::group::lemma_take_ends(clients@);
        assert(crate::text::views(evidence@) =~= Seq::empty());
    }
    while i < clients.len()
        invariant
            i <= clients@.len(),
            n <= i,
            slow <= i,
            n == crate::discovery::group::count(
                clients@.take(i as int),
                |c: WifiClient| active_on(c, iface@),
            ),
            slow == crate::discovery::group::count(
                clients@.take(i as int),
                |c: WifiClient| slow_on(c, iface@),
            ),
            fastest == fastest_on(clients@.take(i as int), iface@),
            slowest == slowest_on(clients@.take(i as int), iface@),
            crate::text::views(evidence@) == crate::discovery::group::lines(
                clients@.take(i as int),
                |c: WifiClient| slow_on(c, iface@),
                |c: WifiClient| slow_line(c),
            ),
        decreases clients@.len() - i,
    {
        broadcast use crate::text::lemma_views_push;

        proof {
            crate::discovery::group::lemma_take_step(clients@, i as int);
        }
        let c = &clients[i];
        if same(c.interface.as_str(), iface) && c.rate_is_meaningful() {
            n = n + 1;
            if c.tx_rate_bps > fastest {
                fastest = c.tx_rate_bps;
            }
            if c.tx_rate_bps <= SLOW_RATE_BPS {
                slow = slow + 1;
                if c.tx_rate_bps < slowest {
                    slowest = c.tx_rate_bps;
                }
                let line = describe_slow(c);
                evidence.push(line);
            }
        }
        i = i + 1;
    }
    proof {
        crate::discovery::group::lemma_take_ends(clients@);
    }
    let mut out: Vec<Finding> = Vec::new();
    proof {
        assert(said(out@) =~= Seq::empty());
    }
    if n < MIN_CLIENTS_FOR_CONTENTION || slow == 0 {
        return out;
    }
    let mut line = "fastest client on this radio negotiates ".to_owned();
    push_decimal(&mut line, (fastest / 1_000_000) as u128);
    line.append(" Mbit/s");
    evidence.push(line);
    if slowest > 0 {
        let mut line = "slowest client consumes roughly ".to_owned();
        push_decimal(&mut line, round_div(fastest as u128, slowest as u128));
        line.append(RATIO_TAIL);
        evidence.push(line);
    }
    let severity = if slow as u128 * SLOW_CLIENT_ONE_IN as u128 >= n as u128 || slowest == 0
        || fastest as u128 >= slowest as u128 * CRITICAL_AIRTIME_RATIO as u128 {
        Severity::Critical
    } else {
        Severity::Warning
    };
    let mut summary = to_decimal(slow as u128);
    summary.append(" of ");
    push_decimal(&mut summary, n as u128);
    summary.append(" active clients on ");
    summary.append(iface);
    summary.append(" are at or below ");
    push_decimal(&mut summary, (SLOW_RATE_BPS / 1_000_000) as u128);
    summary.append(AIRTIME_TAIL);
    out.push(Finding { code: "wifi.slow_client_airtime", severity, summary, evidence });
    proof {
        assert(said(out@) =~= airtime_on(clients@, iface@));
    }
    out
}

/// The classic cause of "everyone's wifi is slow".
///
/// 802.11 shares airtime, not bandwidth. A client transmitting at 6 Mbit/s
/// occupies the channel roughly fifty times longer than one at 300 Mbit/s to
/// move the same bytes, and every other client waits. One badly-connected
/// device can therefore flatten a whole SSID while looking, on its own, merely
/// slow. This is the finding most likely to explain a site-wide complaint, so
/// it runs first and quantifies the cost rather than just naming the device.
///
/// With a single client there is nobody to slow down. That is a per-client
/// problem, covered by the weak-signal and rate-mismatch rules, not contention.
pub fn slow_client_airtime(s: &Snapshot) -> (r: Vec<Finding>)
    ensures
        said(r@) == slow_client_airtime_of(*s),
{
    let names = interfaces_of(&s.clients);
    let ghost all = crate::text::views(names@);
    let mut out: Vec<Finding> = Vec::new();
    let mut i: usize = 0;
    proof {
        crate::discovery::group::lemma_take_ends(all);
        assert(said(out@) =~= Seq::empty());
    }
    while i < names.len()
        invariant
            i <= names@.len(),
            all == crate::text::views(names@),
            said(out@) == airtime_over(s.clients@, all.take(i as int)),
        decreases names@.len() - i,
    {
        proof {
            crate::discovery::group::lemma_take_step(all, i as int);
        }
        let mut more = airtime_one(&s.clients, names[i].as_str());
        proof {
            lemma_said_add(out@, more@);
        }
        out.append(&mut more);
        i = i + 1;
    }
    proof {
        crate::discovery::group::lemma_take_ends(all);
    }
    out
}

pub open spec fn is_weak(c: WifiClient) -> bool {
    c.signal_dbm < WEAK_SIGNAL_DBM
}

pub open spec fn weak_line(c: WifiClient) -> Seq<char> {
    c.mac@ + " at "@ + crate::text::decimal_int(c.signal_dbm as int) + " dBm on "@ + c.interface@
}

pub open spec fn weak_summary(n: nat) -> Seq<char> {
    crate::text::decimal(n) + " client(s) are below "@ + crate::text::decimal_int(
        WEAK_SIGNAL_DBM as int,
    ) + " dBm and are at the edge of usable coverage"@
}

pub open spec fn weak_signal_of(s: Snapshot) -> Seq<FindingView> {
    let evidence = crate::discovery::group::lines(
        s.clients@,
        |c: WifiClient| is_weak(c),
        |c: WifiClient| weak_line(c),
    );
    if evidence.len() == 0 {
        Seq::empty()
    } else {
        seq![
            FindingView {
                code: "wifi.weak_signal"@,
                severity: Severity::Warning,
                summary: weak_summary(evidence.len()),
                evidence,
            },
        ]
    }
}

/// A list of one finding, or of none without evidence.
pub(crate) fn one(code: &'static str, severity: Severity, summary: String, evidence: Vec<String>) -> (r: Vec<
    Finding,
>)
    ensures
        evidence@.len() == 0 ==> said(r@) == Seq::<FindingView>::empty(),
        evidence@.len() > 0 ==> said(r@) == seq![
            FindingView {
                code: code@,
                severity,
                summary: summary@,
                evidence: crate::text::views(evidence@),
            },
        ],
{
    let mut out: Vec<Finding> = Vec::new();
    if evidence.len() == 0 {
        proof {
            assert(said(out@) =~= Seq::empty());
        }
        return out;
    }
    out.push(Finding { code, severity, summary, evidence });
    proof {
        assert(said(out@) =~= seq![out@[0]@]);
    }
    out
}

/// Clients at the edge of coverage. Distinct from the airtime finding: these
/// are slow *because* they are far away, which is a coverage problem rather
/// than a client problem.
pub fn weak_signal_clients(s: &Snapshot) -> (r: Vec<Finding>)
    ensures
        said(r@) == weak_signal_of(*s),
{
    let mut evidence: Vec<String> = Vec::new();
    let mut i: usize = 0;
    proof {
        crate::discovery::group::lemma_take_ends(s.clients@);
        assert(crate::text::views(evidence@) =~= Seq::empty());
    }
    while i < s.clients.len()
        invariant
            i <= s.clients@.len(),
            crate::text::views(evidence@) == crate::discovery::group::lines(
                s.clients@.take(i as int),
                |c: WifiClient| is_weak(c),
                |c: WifiClient| weak_line(c),
            ),
        decreases s.clients@.len() - i,
    {
        broadcast use crate::text::lemma_views_push;

        proof {
            crate::discovery::group::lemma_take_step(s.clients@, i as int);
        }
        let c = &s.clients[i];
        if c.signal_dbm < WEAK_SIGNAL_DBM {
            let mut t = c.mac.clone();
            t.append(" at ");
            push_decimal_int(&mut t, c.signal_dbm as i64);
            t.append(" dBm on ");
            t.append(c.interface.as_str());
            evidence.push(t);
        }
        i = i + 1;
    }
    proof {
        crate::discovery::group::lemma_take_ends(s.clients@);
    }
    let mut summary = to_decimal(evidence.len() as u128);
    summary.append(" client(s) are below ");
    push_decimal_int(&mut summary, WEAK_SIGNAL_DBM as i64);
    summary.append(" dBm and are at the edge of usable coverage");
    one("wifi.weak_signal", Severity::Warning, summary, evidence)
}

/// Strong enough a signal that distance does not explain so low a rate.
pub open spec fn is_mismatched(c: WifiClient) -> bool {
    active(c) && c.signal_dbm >= STRONG_SIGNAL_DBM && c.tx_rate_bps <= SLOW_RATE_BPS
}

pub open spec fn mismatch_line(c: WifiClient) -> Seq<char> {
    c.mac@ + " at "@ + crate::text::decimal_int(c.signal_dbm as int) + " dBm but only "@
        + crate::text::decimal((c.tx_rate_bps / 1_000_000) as nat) + " Mbit/s ("@ + c.band@ + ")"@
}

pub open spec fn mismatch_summary(n: nat) -> Seq<char> {
    crate::text::decimal(n) + MISMATCH_TAIL@
}

pub open spec fn rate_signal_mismatch_of(s: Snapshot) -> Seq<FindingView> {
    let evidence = crate::discovery::group::lines(
        s.clients@,
        |c: WifiClient| is_mismatched(c),
        |c: WifiClient| mismatch_line(c),
    );
    if evidence.len() == 0 {
        Seq::empty()
    } else {
        seq![
            FindingView {
                code: "wifi.rate_signal_mismatch"@,
                severity: Severity::Warning,
                summary: mismatch_summary(evidence.len()),
                evidence,
            },
        ]
    }
}

/// A strong signal with a low rate cannot be explained by distance, so
/// something else is wrong: interference, a legacy client, or a device that has
/// given up on rate adaptation.
pub fn rate_signal_mismatch(s: &Snapshot) -> (r: Vec<Finding>)
    ensures
        said(r@) == rate_signal_mismatch_of(*s),
{
    let mut evidence: Vec<String> = Vec::new();
    let mut i: usize = 0;
    proof {
        crate::discovery::group::lemma_take_ends(s.clients@);
        assert(crate::text::views(evidence@) =~= Seq::empty());
    }
    while i < s.clients.len()
        invariant
            i <= s.clients@.len(),
            crate::text::views(evidence@) == crate::discovery::group::lines(
                s.clients@.take(i as int),
                |c: WifiClient| is_mismatched(c),
                |c: WifiClient| mismatch_line(c),
            ),
        decreases s.clients@.len() - i,
    {
        broadcast use crate::text::lemma_views_push;

        proof {
            crate::discovery::group::lemma_take_step(s.clients@, i as int);
        }
        let c = &s.clients[i];
        if c.rate_is_meaningful() && c.signal_dbm >= STRONG_SIGNAL_DBM && c.tx_rate_bps
            <= SLOW_RATE_BPS {
            let mut t = c.mac.clone();
            t.append(" at ");
            push_decimal_int(&mut t, c.signal_dbm as i64);
            t.append(" dBm but only ");
            push_decimal(&mut t, (c.tx_rate_bps / 1_000_000) as u128);
            t.append(" Mbit/s (");
            t.append(c.band.as_str());
            t.append(")");
            evidence.push(t);
        }
        i = i + 1;
    }
    proof {
        crate::discovery::group::lemma_take_ends(s.clients@);
    }
    let mut summary = to_decimal(evidence.len() as u128);
    summary.append(MISMATCH_TAIL);
    one("wifi.rate_signal_mismatch", Severity::Warning, summary, evidence)
}

/// The client would do better on 5 GHz.
pub open spec fn is_steerable(c: WifiClient) -> bool {
    on_2ghz(c) && c.signal_dbm >= STRONG_SIGNAL_DBM
}

pub open spec fn on_5ghz(r: Radio) -> bool {
    crate::text::has(r.band@, "5ghz"@)
}

pub open spec fn steering_line(c: WifiClient) -> Seq<char> {
    c.mac@ + " at "@ + crate::text::decimal_int(c.signal_dbm as int) + " dBm on "@ + c.ssid@
}

pub open spec fn steering_summary(n: nat) -> Seq<char> {
    crate::text::decimal(n) + STEERING_TAIL@
}

pub open spec fn band_steering_of(s: Snapshot) -> Seq<FindingView> {
    let evidence = crate::discovery::group::lines(
        s.clients@,
        |c: WifiClient| is_steerable(c),
        |c: WifiClient| steering_line(c),
    );
    if evidence.len() == 0 || crate::discovery::group::count(s.radios@, |r: Radio| on_5ghz(r)) == 0 {
        Seq::empty()
    } else {
        seq![
            FindingView {
                code: "wifi.band_steering_opportunity"@,
                severity: Severity::Info,
                summary: steering_summary(evidence.len()),
                evidence,
            },
        ]
    }
}

fn has_5ghz(radios: &Vec<Radio>) -> (r: bool)
    ensures
        r == (crate::discovery::group::count(radios@, |x: Radio| on_5ghz(x)) > 0),
{
    let mut found: bool = false;
    let mut i: usize = 0;
    proof {
        crate::discovery::group::lemma_take_ends(radios@);
    }
    while i < radios.len()
        invariant
            i <= radios@.len(),
            found == (crate::discovery::group::count(
                radios@.take(i as int),
                |x: Radio| on_5ghz(x),
            ) > 0),
        decreases radios@.len() - i,
    {
        proof {
            crate::discovery::group::lemma_take_step(radios@, i as int);
        }
        if contains(radios[i].band.as_str(), "5ghz") {
            found = true;
        }
        i = i + 1;
    }
    proof {
        crate::discovery::group::lemma_take_ends(radios@);
    }
    found
}

/// Clients sitting on 2.4 GHz with a strong signal would usually do better on
/// 5 GHz, and would stop consuming the more congested band's airtime.
pub fn band_steering_opportunity(s: &Snapshot) -> (r: Vec<Finding>)
    ensures
        said(r@) == band_steering_of(*s),
{
    let mut evidence: Vec<String> = Vec::new();
    let mut i: usize = 0;
    proof {
        crate::discovery::group::lemma_take_ends(s.clients@);
        assert(crate::text::views(evidence@) =~= Seq::empty());
    }
    while i < s.clients.len()
        invariant
            i <= s.clients@.len(),
            crate::text::views(evidence@) == crate::discovery::group::lines(
                s.clients@.take(i as int),
                |c: WifiClient| is_steerable(c),
                |c: WifiClient| steering_line(c),
            ),
        decreases s.clients@.len() - i,
    {
        broadcast use crate::text::lemma_views_push;

        proof {
            crate::discovery::group::lemma_take_step(s.clients@, i as int);
        }
        let c = &s.clients[i];
        if c.is_2ghz() && c.signal_dbm >= STRONG_SIGNAL_DBM {
            let mut t = c.mac.clone();
            t.append(" at ");
            push_decimal_int(&mut t, c.signal_dbm as i64);
            t.append(" dBm on ");
            t.append(c.ssid.as_str());
            evidence.push(t);
        }
        i = i + 1;
    }
    proof {
        crate::discovery::group::lemma_take_ends(s.clients@);
    }
    if !has_5ghz(&s.radios) {
        let none: Vec<Finding> = Vec::new();
        proof {
            assert(said(none@) =~= Seq::empty());
        }
        return none;
    }
    let mut summary = to_decimal(evidence.len() as u128);
    summary.append(STEERING_TAIL);
    one("wifi.band_steering_opportunity", Severity::Info, summary, evidence)
}

/// The access point is on our channel and strong enough to matter.
pub open spec fn contends(n: NeighbourAp, freq: u32) -> bool {
    n.frequency_mhz == freq && n.signal_dbm >= SIGNIFICANT_AP_DBM
}

pub open spec fn contender_line(n: NeighbourAp) -> Seq<char> {
    (if n.ssid@.len() == 0 {
        "<hidden>"@
    } else {
        n.ssid@
    }) + " at "@ + crate::text::decimal_int(n.signal_dbm as int) + " dBm"@
}

pub open spec fn contention_summary(n: nat, radio: Seq<char>, freq: u32) -> Seq<char> {
    crate::text::decimal(n) + " other access points share "@ + radio + "'s channel ("@
        + crate::text::decimal(freq as nat) + CONTENTION_TAIL@
}

/// What the contention rule says of one radio: nothing unless its channel is
/// known and two neighbours are on it; four are critical.
pub open spec fn contention_on(r: Radio, aps: Seq<NeighbourAp>) -> Seq<FindingView> {
    match r.frequency_mhz {
        None => Seq::empty(),
        Some(freq) => {
            let evidence = crate::discovery::group::lines(
                aps,
                |n: NeighbourAp| contends(n, freq),
                |n: NeighbourAp| contender_line(n),
            );
            if evidence.len() < 2 {
                Seq::empty()
            } else {
                seq![
                    FindingView {
                        code: "wifi.co_channel_contention"@,
                        severity: if evidence.len() >= 4 {
                            Severity::Critical
                        } else {
                            Severity::Warning
                        },
                        summary: contention_summary(evidence.len(), r.name@, freq),
                        evidence,
                    },
                ]
            }
        },
    }
}

pub open spec fn contention_over(radios: Seq<Radio>, aps: Seq<NeighbourAp>) -> Seq<FindingView>
    decreases radios.len(),
{
    if radios.len() == 0 {
        Seq::empty()
    } else {
        contention_over(radios.drop_last(), aps) + contention_on(radios.last(), aps)
    }
}

pub open spec fn co_channel_of(s: Snapshot) -> Seq<FindingView> {
    contention_over(s.radios@, s.neighbour_aps@)
}

fn contention_one(radio: &Radio, aps: &Vec<NeighbourAp>) -> (r: Vec<Finding>)
    ensures
        said(r@) == contention_on(*radio, aps@),
{
    let none: Vec<Finding> = Vec::new();
    proof {
        assert(said(none@) =~= Seq::empty());
    }
    let freq: u32 = match radio.frequency_mhz {
        Some(f) => f,
        None => {
            return none;
        },
    };
    let mut evidence: Vec<String> = Vec::new();
    let mut i: usize = 0;
    proof {
        crate::discovery::group::lemma_take_ends(aps@);
        assert(crate::text::views(evidence@) =~= Seq::empty());
    }
    while i < aps.len()
        invariant
            i <= aps@.len(),
            crate::text::views(evidence@) == crate::discovery::group::lines(
                aps@.take(i as int),
                |n: NeighbourAp| contends(n, freq),
                |n: NeighbourAp| contender_line(n),
            ),
        decreases aps@.len() - i,
    {
        broadcast use crate::text::lemma_views_push;

        proof {
            crate::discovery::group::lemma_take_step(aps@, i as int);
        }
        let n = &aps[i];
        if n.frequency_mhz == freq && n.signal_dbm >= SIGNIFICANT_AP_DBM {
            let mut t = if n.ssid.as_str().is_empty() {
                "<hidden>".to_owned()
            } else {
                n.ssid.clone()
            };
            t.append(" at ");
            push_decimal_int(&mut t, n.signal_dbm as i64);
            t.append(" dBm");
            evidence.push(t);
        }
        i = i + 1;
    }
    proof {
        crate::discovery::group::lemma_take_ends(aps@);
    }
    if evidence.len() < 2 {
        return none;
    }
    let severity = if evidence.len() >= 4 {
        Severity::Critical
    } else {
        Severity::Warning
    };
    let mut summary = to_decimal(evidence.len() as u128);
    summary.append(" other access points share ");
    summary.append(radio.name.as_str());
    summary.append("'s channel (");
    push_decimal(&mut summary, freq as u128);
    summary.append(CONTENTION_TAIL);
    one("wifi.co_channel_contention", severity, summary, evidence)
}

/// Other APs sharing our channel. Co-channel neighbours do not merely add
/// noise: they take turns with us, so each one directly reduces the airtime
/// available to our clients.
pub fn co_channel_contention(s: &Snapshot) -> (r: Vec<Finding>)
    ensures
        said(r@) == co_channel_of(*s),
{
    let mut out: Vec<Finding> = Vec::new();
    let mut i: usize = 0;
    proof {
        crate::discovery::group::lemma_take_ends(s.radios@);
        assert(said(out@) =~= Seq::empty());
    }
    while i < s.radios.len()
        invariant
            i <= s.radios@.len(),
            said(out@) == contention_over(s.radios@.take(i as int), s.neighbour_aps@),
        decreases s.radios@.len() - i,
    {
        proof {
            crate::discovery::group::lemma_take_step(s.radios@, i as int);
        }
        let mut more = contention_one(&s.radios[i], &s.neighbour_aps);
        proof {
            lemma_said_add(out@, more@);
        }
        out.append(&mut more);
        i = i + 1;
    }
    proof {
        crate::discovery::group::lemma_take_ends(s.radios@);
    }
    out
}

/// Broadcast and multicast frames per second.
pub open spec fn flooded(i: InterfaceStats) -> nat {
    (i.rx_broadcast_per_s + i.rx_multicast_per_s) as nat
}

pub open spec fn is_storm(i: InterfaceStats) -> bool {
    i.running && flooded(i) >= BROADCAST_STORM_PPS
}

/// The share of an interface's traffic that is broadcast, in percent.
pub open spec fn flooded_pct(i: InterfaceStats) -> nat {
    if i.rx_packets_per_s == 0 {
        100
    } else {
        crate::round::rounded_quotient(flooded(i) * 100, i.rx_packets_per_s as nat)
    }
}

pub open spec fn storm_view(i: InterfaceStats) -> FindingView {
    FindingView {
        code: "network.broadcast_storm"@,
        severity: Severity::Critical,
        summary: i.name@ + " is receiving "@ + crate::text::decimal(flooded(i))
            + " broadcast/multicast frames per second ("@ + crate::text::decimal(flooded_pct(i))
            + STORM_TAIL@,
        evidence: seq![
            "broadcast "@ + crate::text::decimal(i.rx_broadcast_per_s as nat) + "/s, multicast "@
                + crate::text::decimal(i.rx_multicast_per_s as nat) + "/s"@,
            "total rx "@ + crate::text::decimal(i.rx_packets_per_s as nat) + " packets/s"@,
        ],
    }
}

pub open spec fn storms_over(s: Seq<InterfaceStats>) -> Seq<FindingView>
    decreases s.len(),
{
    if s.len() == 0 {
        Seq::empty()
    } else if is_storm(s.last()) {
        storms_over(s.drop_last()).push(storm_view(s.last()))
    } else {
        storms_over(s.drop_last())
    }
}

pub open spec fn broadcast_storm_of(s: Snapshot) -> Seq<FindingView> {
    storms_over(s.interfaces@)
}

fn storm_finding(i: &InterfaceStats, bum: u128) -> (r: Finding)
    requires
        bum == flooded(*i),
    ensures
        r@ == storm_view(*i),
{
    let share: u128 = if i.rx_packets_per_s > 0 {
        round_div(bum * 100, i.rx_packets_per_s as u128)
    } else {
        100
    };
    let mut summary = i.name.clone();
    summary.append(" is receiving ");
    push_decimal(&mut summary, bum);
    summary.append(" broadcast/multicast frames per second (");
    push_decimal(&mut summary, share);
    summary.append(STORM_TAIL);
    let mut split = "broadcast ".to_owned();
    push_decimal(&mut split, i.rx_broadcast_per_s as u128);
    split.append("/s, multicast ");
    push_decimal(&mut split, i.rx_multicast_per_s as u128);
    split.append("/s");
    let mut total = "total rx ".to_owned();
    push_decimal(&mut total, i.rx_packets_per_s as u128);
    total.append(" packets/s");
    let mut evidence: Vec<String> = Vec::new();
    evidence.push(split);
    evidence.push(total);
    proof {
        assert(crate::text::views(evidence@) =~= storm_view(*i).evidence);
    }
    Finding { code: "network.broadcast_storm", severity: Severity::Critical, summary, evidence }
}

/// Broadcast and multicast storms. On wifi these are especially damaging
/// because broadcast frames are sent at the lowest basic rate to reach every
/// client, so a storm consumes far more airtime than its bit rate suggests.
pub fn broadcast_storm(s: &Snapshot) -> (r: Vec<Finding>)
    ensures
        said(r@) == broadcast_storm_of(*s),
{
    let mut out: Vec<Finding> = Vec::new();
    let mut k: usize = 0;
    proof {
        crate::discovery::group::lemma_take_ends(s.interfaces@);
        assert(said(out@) =~= Seq::empty());
    }
    while k < s.interfaces.len()
        invariant
            k <= s.interfaces@.len(),
            said(out@) == storms_over(s.interfaces@.take(k as int)),
        decreases s.interfaces@.len() - k,
    {
        broadcast use lemma_said_push;

        proof {
            crate::discovery::group::lemma_take_step(s.interfaces@, k as int);
        }
        let i = &s.interfaces[k];
        let bum: u128 = i.rx_broadcast_per_s as u128 + i.rx_multicast_per_s as u128;
        if i.running && bum >= BROADCAST_STORM_PPS as u128 {
            let f = storm_finding(i, bum);
            out.push(f);
        }
        k = k + 1;
    }
    proof {
        crate::discovery::group::lemma_take_ends(s.interfaces@);
    }
    out
}

/// The entry is resolved and for the address `addr`.
pub open spec fn claims(e: ArpEntry, addr: Seq<char>) -> bool {
    e.complete && e.address@ == addr
}

pub open spec fn claim_line(e: ArpEntry) -> Seq<char> {
    e.address@ + " via "@ + e.mac@ + " on "@ + e.interface@
}

pub open spec fn duplicate_summary(addr: Seq<char>, n: nat) -> Seq<char> {
    addr + " is claimed by "@ + crate::text::decimal(n) + DUPLICATE_TAIL@
}

/// What the duplicate rule says of one address: nothing unless two different
/// MAC addresses claim it.
pub open spec fn duplicate_on(arp: Seq<ArpEntry>, addr: Seq<char>) -> Seq<FindingView> {
    let macs = crate::discovery::group::names_of(
        arp,
        |e: ArpEntry| claims(e, addr),
        |e: ArpEntry| e.mac@,
    );
    if macs.len() <= 1 {
        Seq::empty()
    } else {
        seq![
            FindingView {
                code: "network.duplicate_address"@,
                severity: Severity::Critical,
                summary: duplicate_summary(addr, macs.len()),
                evidence: crate::discovery::group::lines(
                    arp,
                    |e: ArpEntry| claims(e, addr),
                    |e: ArpEntry| claim_line(e),
                ),
            },
        ]
    }
}

pub open spec fn duplicates_over(arp: Seq<ArpEntry>, addrs: Seq<Seq<char>>) -> Seq<FindingView>
    decreases addrs.len(),
{
    if addrs.len() == 0 {
        Seq::empty()
    } else {
        duplicates_over(arp, addrs.drop_last()) + duplicate_on(arp, addrs.last())
    }
}

pub open spec fn duplicate_addresses_of(s: Snapshot) -> Seq<FindingView> {
    duplicates_over(
        s.arp@,
        crate::discovery::group::names_of(
            s.arp@,
            |e: ArpEntry| e.complete,
            |e: ArpEntry| e.address@,
        ),
    )
}

fn duplicate_one(arp: &Vec<ArpEntry>, addr: &str) -> (r: Vec<Finding>)
    ensures
        said(r@) == duplicate_on(arp@, addr@),
{
    let mut macs: Vec<String> = Vec::new();
    let mut evidence: Vec<String> = Vec::new();
    let mut i: usize = 0;
    proof {
        crate::discovery::group::lemma_take_ends(arp@);
        assert(crate::text::views(evidence@) =~= Seq::empty());
        assert(crate::text::views(macs@) =~= Seq::empty());
    }
    while i < arp.len()
        invariant
            i <= arp@.len(),
            crate::text::views(macs@) == crate::discovery::group::names_of(
                arp@.take(i as int),
                |e: ArpEntry| claims(e, addr@),
                |e: ArpEntry| e.mac@,
            ),
            crate::text::views(evidence@) == crate::discovery::group::lines(
                arp@.take(i as int),
                |e: ArpEntry| claims(e, addr@),
                |e: ArpEntry| claim_line(e),
            ),
            macs@.len() > 0 ==> evidence@.len() > 0,
        decreases arp@.len() - i,
    {
        broadcast use crate::text::lemma_views_push;

        proof {
            crate::discovery::group::lemma_take_step(arp@, i as int);
        }
        let e = &arp[i];
        if e.complete && same(e.address.as_str(), addr) {
            add_name(&mut macs, e.mac.as_str());
            let mut t = e.address.clone();
            t.append(" via ");
            t.append(e.mac.as_str());
            t.append(" on ");
            t.append(e.interface.as_str());
            evidence.push(t);
        }
        i = i + 1;
    }
    proof {
        crate::discovery::group::lemma_take_ends(arp@);
    }
    if macs.len() <= 1 {
        let none: Vec<Finding> = Vec::new();
        proof {
            assert(said(none@) =~= Seq::empty());
        }
        return none;
    }
    let mut summary = addr.to_owned();
    summary.append(" is claimed by ");
    push_decimal(&mut summary, macs.len() as u128);
    summary.append(DUPLICATE_TAIL);
    one("network.duplicate_address", Severity::Critical, summary, evidence)
}

/// Two MACs claiming one address, which breaks connectivity intermittently and
/// is almost impossible to diagnose from the client side.
pub fn duplicate_addresses(s: &Snapshot) -> (r: Vec<Finding>)
    ensures
        said(r@) == duplicate_addresses_of(*s),
{
    let mut addrs: Vec<String> = Vec::new();
    let mut i: usize = 0;
    proof {
        crate::discovery::group::lemma_take_ends(s.arp@);
        assert(crate::text::views(addrs@) =~= Seq::empty());
    }
    while i < s.arp.len()
        invariant
            i <= s.arp@.len(),
            crate::text::views(addrs@) == crate::discovery::group::names_of(
                s.arp@.take(i as int),
                |e: ArpEntry| e.complete,
                |e: ArpEntry| e.address@,
            ),
        decreases s.arp@.len() - i,
    {
        proof {
            crate::discovery::group::lemma_take_step(s.arp@, i as int);
        }
        if s.arp[i].complete {
            add_name(&mut addrs, s.arp[i].address.as_str());
        }
        i = i + 1;
    }
    let ghost all = crate::text::views(addrs@);
    let mut out: Vec<Finding> = Vec::new();
    let mut k: usize = 0;
    proof {
        crate::discovery::group::lemma_take_ends(s.arp@);
        crate::discovery::group::lemma_take_ends(all);
        assert(said(out@) =~= Seq::empty());
    }
    while k < addrs.len()
        invariant
            k <= addrs@.len(),
            all == crate::text::views(addrs@),
            said(out@) == duplicates_over(s.arp@, all.take(k as int)),
        decreases addrs@.len() - k,
    {
        proof {
            crate::discovery::group::lemma_take_step(all, k as int);
        }
        let mut more = duplicate_one(&s.arp, addrs[k].as_str());
        proof {
            lemma_said_add(out@, more@);
        }
        out.append(&mut more);
        k = k + 1;
    }
    proof {
        crate::discovery::group::lemma_take_ends(all);
    }
    out
}

/// Some lease is for `mac`; the case of its letters does not matter.
pub open spec fn leased(leases: Seq<DhcpLease>, mac: Seq<char>) -> bool {
    exists|i: int|
        0 <= i < leases.len() && crate::text::uppered((#[trigger] leases[i]).mac@)
            == crate::text::uppered(mac)
}

pub fn has_lease(leases: &[DhcpLease], mac: &str) -> (r: bool)
    ensures
        r == leased(leases@, mac@),
{
    let wanted = to_ascii_uppercase(mac);
    let mut i: usize = 0;
    while i < leases.len()
        invariant
            i <= leases@.len(),
            wanted@ == crate::text::uppered(mac@),
            forall|j: int|
                0 <= j < i ==> crate::text::uppered((#[trigger] leases@[j]).mac@)
                    != crate::text::uppered(mac@),
        decreases leases@.len() - i,
    {
        let held = to_ascii_uppercase(leases[i].mac.as_str());
        if same(held.as_str(), wanted.as_str()) {
            return true;
        }
        i = i + 1;
    }
    false
}

/// Resolved, not from DHCP, and without a lease.
pub open spec fn is_stray(e: ArpEntry, leases: Seq<DhcpLease>) -> bool {
    e.complete && !e.from_dhcp && !leased(leases, e.mac@)
}

pub open spec fn stray_line(e: ArpEntry) -> Seq<char> {
    e.address@ + " ("@ + e.mac@ + ") on "@ + e.interface@
}

pub open spec fn unleased_summary(n: nat) -> Seq<char> {
    crate::text::decimal(n) + UNLEASED_TAIL@
}

/// Nothing without lease data: the rule would flag the entire network.
pub open spec fn unleased_of(s: Snapshot) -> Seq<FindingView> {
    let evidence = crate::discovery::group::lines(
        s.arp@,
        |e: ArpEntry| is_stray(e, s.leases@),
        |e: ArpEntry| stray_line(e),
    );
    if s.leases@.len() == 0 || evidence.len() == 0 {
        Seq::empty()
    } else {
        seq![
            FindingView {
                code: "network.unleased_device"@,
                severity: Severity::Info,
                summary: unleased_summary(evidence.len()),
                evidence,
            },
        ]
    }
}

/// Devices present on the network with no DHCP lease: statics, rogues, or
/// something that has outlived its lease record.
pub fn unleased_devices(s: &Snapshot) -> (r: Vec<Finding>)
    ensures
        said(r@) == unleased_of(*s),
{
    if s.leases.len() == 0 {
        let none: Vec<Finding> = Vec::new();
        proof {
            assert(said(none@) =~= Seq::empty());
        }
        return none;
    }
    let mut evidence: Vec<String> = Vec::new();
    let mut i: usize = 0;
    proof {
        crate::discovery::group::lemma_take_ends(s.arp@);
        assert(crate::text::views(evidence@) =~= Seq::empty());
    }
    while i < s.arp.len()
        invariant
            i <= s.arp@.len(),
            crate::text::views(evidence@) == crate::discovery::group::lines(
                s.arp@.take(i as int),
                |e: ArpEntry| is_stray(e, s.leases@),
                |e: ArpEntry| stray_line(e),
            ),
        decreases s.arp@.len() - i,
    {
        broadcast use crate::text::lemma_views_push;

        proof {
            crate::discovery::group::lemma_take_step(s.arp@, i as int);
        }
        let e = &s.arp[i];
        if e.complete && !e.from_dhcp && !has_lease(s.leases.as_slice(), e.mac.as_str()) {
            let mut t = e.address.clone();
            t.append(" (");
            t.append(e.mac.as_str());
            t.append(") on ");
            t.append(e.interface.as_str());
            evidence.push(t);
        }
        i = i + 1;
    }
    proof {
        crate::discovery::group::lemma_take_ends(s.arp@);
    }
    let mut summary = to_decimal(evidence.len() as u128);
    summary.append(UNLEASED_TAIL);
    one("network.unleased_device", Severity::Info, summary, evidence)
}

pub open spec fn active_leases(leases: Seq<DhcpLease>) -> nat {
    crate::discovery::group::count(leases, |l: DhcpLease| l.active)
}

pub open spec fn pool_view(active: nat, size: nat, severity: Severity) -> FindingView {
    FindingView {
        code: "network.dhcp_pool_pressure"@,
        severity,
        summary: "DHCP pool is "@ + crate::text::decimal(
            crate::round::rounded_quotient(active * 100, size),
        ) + "% used ("@ + crate::text::decimal(active) + " of "@ + crate::text::decimal(size)
            + POOL_TAIL@,
        evidence: seq![
            crate::text::decimal(active) + " active leases in a pool of "@ + crate::text::decimal(
                size,
            ),
        ],
    }
}

/// Nothing below 85 % of a known pool; critical from 95 %.
pub open spec fn pool_pressure_of(s: Snapshot) -> Seq<FindingView> {
    let active = active_leases(s.leases@);
    match s.dhcp_pool_size {
        Some(size) if size > 0 && active * 100 >= size * POOL_WARNING_PCT => seq![
            pool_view(
                active,
                size as nat,
                if active * 100 >= size * POOL_CRITICAL_PCT {
                    Severity::Critical
                } else {
                    Severity::Warning
                },
            ),
        ],
        _ => Seq::empty(),
    }
}

/// A pool close to exhaustion hands out no more addresses, which presents to
/// users as "the wifi connects but there's no internet".
pub fn dhcp_pool_pressure(s: &Snapshot) -> (r: Vec<Finding>)
    ensures
        said(r@) == pool_pressure_of(*s),
{
    let mut out: Vec<Finding> = Vec::new();
    proof {
        assert(said(out@) =~= Seq::empty());
    }
    let size: usize = match s.dhcp_pool_size {
        Some(n) => n,
        None => {
            return out;
        },
    };
    if size == 0 {
        return out;
    }
    let mut active: usize = 0;
    let mut i: usize = 0;
    proof {
        crate::discovery::group::lemma_take_ends(s.leases@);
    }
    while i < s.leases.len()
        invariant
            i <= s.leases@.len(),
            active <= i,
            active == active_leases(s.leases@.take(i as int)),
        decreases s.leases@.len() - i,
    {
        proof {
            crate::discovery::group::lemma_take_step(s.leases@, i as int);
        }
        if s.leases[i].active {
            active = active + 1;
        }
        i = i + 1;
    }
    proof {
        crate::discovery::group::lemma_take_ends(s.leases@);
    }
    let scaled: u128 = active as u128 * 100;
    if scaled < size as u128 * POOL_WARNING_PCT as u128 {
        return out;
    }
    let severity = if scaled >= size as u128 * POOL_CRITICAL_PCT as u128 {
        Severity::Critical
    } else {
        Severity::Warning
    };
    let mut summary = "DHCP pool is ".to_owned();
    push_decimal(&mut summary, round_div(scaled, size as u128));
    summary.append("% used (");
    push_decimal(&mut summary, active as u128);
    summary.append(" of ");
    push_decimal(&mut summary, size as u128);
    summary.append(POOL_TAIL);
    let mut line = to_decimal(active as u128);
    line.append(" active leases in a pool of ");
    push_decimal(&mut line, size as u128);
    let mut evidence: Vec<String> = Vec::new();
    evidence.push(line);
    proof {
        assert(crate::text::views(evidence@) =~= seq![line@]);
    }
    out.push(Finding { code: "network.dhcp_pool_pressure", severity, summary, evidence });
    proof {
        assert(said(out@) =~= pool_pressure_of(*s));
    }
    out
}

// --- everything -----------------------------------------------------------

/// Lower ranks come first: the most severe.
pub open spec fn severity_rank(s: Severity) -> int {
    match s {
        Severity::Critical => 0,
        Severity::Warning => 1,
        Severity::Info => 2,
    }
}

/// Most severe first; what is equally severe keeps its order.
pub open spec fn by_severity(s: Seq<FindingView>) -> Seq<FindingView> {
    crate::order::arranged(s, |f: FindingView| severity_rank(f.severity))
}

/// Everything that the rules say, rule by rule.
pub open spec fn all_of(s: Snapshot) -> Seq<FindingView> {
    slow_client_airtime_of(s) + weak_signal_of(s) + rate_signal_mismatch_of(s) + band_steering_of(s)
        + co_channel_of(s) + broadcast_storm_of(s) + duplicate_addresses_of(s) + unleased_of(s)
        + pool_pressure_of(s)
}

fn rank(s: Severity) -> (r: u8)
    ensures
        r == severity_rank(s),
{
    match s {
        Severity::Critical => 0,
        Severity::Warning => 1,
        Severity::Info => 2,
    }
}

fn sort_by_severity(findings: Vec<Finding>) -> (r: Vec<Finding>)
    ensures
        said(r@) == by_severity(said(findings@)),
{
    let ghost all = said(findings@);
    let mut rest = findings;
    let n: usize = rest.len();
    let mut out: Vec<Finding> = Vec::new();
    let mut i: usize = 0;
    proof {
        crate::discovery::group::lemma_take_ends(all);
        assert(said(out@) =~= Seq::empty());
    }
    while i < n
        invariant
            i <= n == all.len(),
            rest@.len() == n - i,
            said(rest@) == all.skip(i as int),
            said(out@) == by_severity(all.take(i as int)),
        decreases n - i,
    {
        let ghost key = |f: FindingView| severity_rank(f.severity);
        proof {
            crate::discovery::group::lemma_take_step(all, i as int);
            assert(said(rest@)[0] == all[i as int]);
            crate::order::lemma_arranged(all.take(i as int), key);
        }
        let ghost old_rest = rest@;
        let f = rest.remove(0);
        proof {
            assert forall|j: int| 0 <= j < rest@.len() implies (#[trigger] rest@[j])@ == all[i + 1
                + j] by {
                assert(said(old_rest)[j + 1] == all.skip(i as int)[j + 1]);
            }
            assert(said(rest@) =~= all.skip(i + 1));
        }
        let mut pos: usize = out.len();
        while pos > 0 && rank(out[pos - 1].severity) > rank(f.severity)
            invariant
                pos <= out@.len(),
                forall|j: int|
                    pos <= j < out@.len() ==> severity_rank((#[trigger] out@[j]).severity)
                        > severity_rank(f.severity),
            decreases pos,
        {
            pos = pos - 1;
        }
        let ghost sorted = said(out@);
        proof {
            assert forall|j: int| pos <= j < sorted.len() implies key(#[trigger] sorted[j]) > key(
                f@,
            ) by {
                assert(severity_rank(out@[j].severity) > severity_rank(f.severity));
            }
            crate::order::lemma_placed_at(sorted, f@, key, pos as int);
        }
        let ghost before = out@;
        out.insert(pos, f);
        proof {
            assert(said(out@) =~= sorted.insert(pos as int, f@));
        }
        i = i + 1;
    }
    proof {
        crate::discovery::group::lemma_take_ends(all);
    }
    out
}

pub(crate) fn extend(out: &mut Vec<Finding>, more: Vec<Finding>)
    ensures
        said(final(out)@) == said(old(out)@) + said(more@),
{
    let mut more = more;
    proof {
        lemma_said_add(out@, more@);
    }
    out.append(&mut more);
}

/// Run every rule over a snapshot, most severe first, so the thing ruining the
/// site is the first thing read.
pub fn analyse(s: &Snapshot) -> (r: Vec<Finding>)
    ensures
        said(r@) == by_severity(all_of(*s)),
{
    let mut out = slow_client_airtime(s);
    extend(&mut out, weak_signal_clients(s));
    extend(&mut out, rate_signal_mismatch(s));
    extend(&mut out, band_steering_opportunity(s));
    extend(&mut out, co_channel_contention(s));
    extend(&mut out, broadcast_storm(s));
    extend(&mut out, duplicate_addresses(s));
    extend(&mut out, unleased_devices(s));
    extend(&mut out, dhcp_pool_pressure(s));
    sort_by_severity(out)
}

/// The report lists everything that was found, each as often as it was found,
/// and never a milder finding above a more severe one.
pub proof fn law_most_severe_first(s: Snapshot)
    ensures
        by_severity(all_of(s)).to_multiset() == all_of(s).to_multiset(),
        forall|i: int, j: int|
            0 <= i <= j < by_severity(all_of(s)).len() ==> severity_rank(
                (#[trigger] by_severity(all_of(s))[i]).severity,
            ) <= severity_rank((#[trigger] by_severity(all_of(s))[j]).severity),
{
    crate::order::lemma_arranged(all_of(s), |f: FindingView| severity_rank(f.severity));
}

/// A client that passes no traffic never affects a rule that judges rates:
/// snapshots with the same active clients in the same order, whatever idle ones
/// stand before, between and after them, give the same findings by both.
pub proof fn law_idle_clients_affect_no_rate_finding(s: Snapshot, t: Snapshot)
    requires
        s.clients@.filter(|c: WifiClient| active(c)) == t.clients@.filter(
            |c: WifiClient| active(c),
        ),
    ensures
        slow_client_airtime_of(t) == slow_client_airtime_of(s),
        rate_signal_mismatch_of(t) == rate_signal_mismatch_of(s),
{
    lemma_only_active_judged(s);
    lemma_only_active_judged(t);
}

/// Inserting an idle client anywhere is such a change.
pub proof fn law_an_inserted_idle_client_changes_nothing(
    s: Snapshot,
    at: int,
    c: WifiClient,
    t: Snapshot,
)
    requires
        0 <= at <= s.clients@.len(),
        !active(c),
        t.clients@ == s.clients@.insert(at, c),
    ensures
        t.clients@.filter(|x: WifiClient| active(x)) == s.clients@.filter(
            |x: WifiClient| active(x),
        ),
        slow_client_airtime_of(t) == slow_client_airtime_of(s),
        rate_signal_mismatch_of(t) == rate_signal_mismatch_of(s),
{
    crate::discovery::group::lemma_insert_kept(s.clients@, at, c, |x: WifiClient| active(x));
    law_idle_clients_affect_no_rate_finding(s, t);
}

/// The radios that the clients are on.
pub open spec fn radios_of(clients: Seq<WifiClient>) -> Seq<Seq<char>> {
    crate::discovery::group::names_of(
        clients,
        |c: WifiClient| true,
        |c: WifiClient| c.interface@,
    )
}

proof fn lemma_only_active_judged(s: Snapshot)
    ensures
        ({
            let busy = s.clients@.filter(|c: WifiClient| active(c));
            &&& slow_client_airtime_of(s) == airtime_over(busy, radios_of(busy))
            &&& crate::discovery::group::lines(
                busy,
                |c: WifiClient| is_mismatched(c),
                |c: WifiClient| mismatch_line(c),
            ) == crate::discovery::group::lines(
                s.clients@,
                |c: WifiClient| is_mismatched(c),
                |c: WifiClient| mismatch_line(c),
            )
        }),
{
    let all = s.clients@;
    let busy = all.filter(|c: WifiClient| active(c));
    crate::discovery::group::lemma_kept(
        all,
        |c: WifiClient| active(c),
        |c: WifiClient| is_mismatched(c),
        |c: WifiClient| mismatch_line(c),
    );
    lemma_airtime_of_active(all, radios_of(all));
    let heard = |n: Seq<char>| airtime_on(busy, n).len() > 0;
    crate::discovery::group::lemma_names(
        all,
        |c: WifiClient| true,
        |c: WifiClient| c.interface@,
    );
    crate::discovery::group::lemma_names(
        busy,
        |c: WifiClient| true,
        |c: WifiClient| c.interface@,
    );
    crate::discovery::group::lemma_filtered_names(radios_of(all), heard);
    crate::discovery::group::lemma_filtered_names(radios_of(busy), heard);
    assert forall|n: Seq<char>| #[trigger]
        radios_of(all).filter(heard).contains(n) <==> radios_of(busy).filter(heard).contains(n) by {
        if heard(n) {
            lemma_airtime_on_active(all, n);
            lemma_heard_is_there(all, n);
            lemma_heard_is_there(busy, n);
        }
    }
    crate::discovery::group::lemma_same_names(
        radios_of(all).filter(heard),
        radios_of(busy).filter(heard),
    );
    lemma_silent_radios(busy, radios_of(all), heard);
    lemma_silent_radios(busy, radios_of(busy), heard);
}

/// A radio with an active client on it is one of the clients' radios.
proof fn lemma_heard_is_there(clients: Seq<WifiClient>, n: Seq<char>)
    requires
        crate::discovery::group::count(clients, |c: WifiClient| active_on(c, n)) > 0,
    ensures
        radios_of(clients).contains(n),
    decreases clients.len(),
{
    let i = lemma_counted_is_there(clients, |c: WifiClient| active_on(c, n));
    crate::discovery::group::lemma_names(
        clients,
        |c: WifiClient| true,
        |c: WifiClient| c.interface@,
    );
    assert(clients[i].interface@ == n);
}

proof fn lemma_counted_is_there(clients: Seq<WifiClient>, p: spec_fn(WifiClient) -> bool) -> (i: int)
    requires
        crate::discovery::group::count(clients, p) > 0,
    ensures
        0 <= i < clients.len(),
        p(clients[i]),
    decreases clients.len(),
{
    if p(clients.last()) {
        clients.len() - 1
    } else {
        lemma_counted_is_there(clients.drop_last(), p)
    }
}

proof fn lemma_airtime_of_active(clients: Seq<WifiClient>, radios: Seq<Seq<char>>)
    ensures
        airtime_over(clients.filter(|c: WifiClient| active(c)), radios) == airtime_over(
            clients,
            radios,
        ),
    decreases radios.len(),
{
    if radios.len() > 0 {
        lemma_airtime_of_active(clients, radios.drop_last());
        lemma_airtime_on_active(clients, radios.last());
    }
}

proof fn lemma_airtime_on_active(clients: Seq<WifiClient>, n: Seq<char>)
    ensures
        ({
            let busy = clients.filter(|c: WifiClient| active(c));
            &&& airtime_on(busy, n) == airtime_on(clients, n)
            &&& crate::discovery::group::count(busy, |c: WifiClient| active_on(c, n))
                == crate::discovery::group::count(clients, |c: WifiClient| active_on(c, n))
        }),
{
    let keep = |c: WifiClient| active(c);
    crate::discovery::group::lemma_kept(
        clients,
        keep,
        |c: WifiClient| active_on(c, n),
        |c: WifiClient| slow_line(c),
    );
    crate::discovery::group::lemma_kept(
        clients,
        keep,
        |c: WifiClient| slow_on(c, n),
        |c: WifiClient| slow_line(c),
    );
    lemma_rates_of_active(clients, n);
}

proof fn lemma_rates_of_active(clients: Seq<WifiClient>, n: Seq<char>)
    ensures
        fastest_on(clients.filter(|c: WifiClient| active(c)), n) == fastest_on(clients, n),
        slowest_on(clients.filter(|c: WifiClient| active(c)), n) == slowest_on(clients, n),
    decreases clients.len(),
{
    reveal(Seq::filter);
    if clients.len() > 0 {
        let keep = |c: WifiClient| active(c);
        let rest = clients.drop_last();
        lemma_rates_of_active(rest, n);
        if active(clients.last()) {
            assert(clients.filter(keep).drop_last() =~= rest.filter(keep));
        }
    }
}

/// Radios of which nothing is said can be left out.
proof fn lemma_silent_radios(
    clients: Seq<WifiClient>,
    radios: Seq<Seq<char>>,
    heard: spec_fn(Seq<char>) -> bool,
)
    requires
        forall|n: Seq<char>| #[trigger] heard(n) <==> airtime_on(clients, n).len() > 0,
    ensures
        airtime_over(clients, radios.filter(heard)) == airtime_over(clients, radios),
    decreases radios.len(),
{
    reveal(Seq::filter);
    if radios.len() > 0 {
        let rest = radios.drop_last();
        lemma_silent_radios(clients, rest, heard);
        if heard(radios.last()) {
            assert(radios.filter(heard).drop_last() =~= rest.filter(heard));
        } else {
            assert(airtime_over(clients, rest) + airtime_on(clients, radios.last())
                =~= airtime_over(clients, rest));
        }
    }
}

/// An empty snapshot has nothing wrong with it.
pub proof fn law_nothing_from_nothing(s: Snapshot)
    requires
        s.clients@.len() == 0,
        s.radios@.len() == 0,
        s.arp@.len() == 0,
        s.leases@.len() == 0,
        s.interfaces@.len() == 0,
        s.dhcp_pool_size is None,
    ensures
        all_of(s).len() == 0,
        by_severity(all_of(s)).len() == 0,
{
}

} // verus!
