//! Throughput testing via the host router's `/tool/bandwidth-test`.
//!
//! Running a throughput test inside the container would measure the container's
//! veth and the router's CPU scheduling, not the path. Driving the router's own
//! tool exercises its forwarding hardware instead, which is what the link
//! actually delivers.
//!
//! # The number is only as good as the CPU behind it
//!
//! On small MikroTik hardware the router's CPU is very often the limit rather
//! than the link. A measured 621 Mbit/s at 64% CPU means something quite
//! different from 621 Mbit/s at 8%, and at 100% the figure is a measurement of
//! the router, not the network. RouterOS reports `local-cpu-load` and (for
//! transmit) `remote-cpu-load`, so every result carries them and says so when
//! they are high enough to matter.
//!
//! # REST cannot stream
//!
//! `/tool/bandwidth-test` is a continuous command. Over REST there is no
//! streaming and a hard 60-second ceiling, so a duration must always be given
//! and kept below it. Like the other RouterOS tools, the response is a series
//! of cumulative `.section` batches; only the last is the result.

use vstd::prelude::*;
use vstd::string::StringExecFns;

use crate::discovery::capture::text_cell;
use crate::duration::Duration;
use crate::json::Json;
use crate::routeros::RouterOsError;
use crate::text::{
    contains, parse_span, parse_u64, push_decimal, same, to_ascii_lowercase, to_decimal, trim,
};

verus! {

/// The longest test, in seconds. RouterOS terminates any REST command at 60
/// seconds; staying clear of the edge leaves room for the connection setup
/// either side of the test itself.
pub const MAX_REST_SECS: u64 = 45;

/// Above this, the result describes the router rather than the link.
pub const CPU_SATURATED_PCT: u8 = 90;

/// Above this, the router is contributing materially to the ceiling.
pub const CPU_BUSY_PCT: u8 = 70;

#[derive(Debug, Clone, Copy, PartialEq, Eq, Structural)]
pub enum Protocol {
    Tcp,
    Udp,
}

/// The protocol that `s` names, whatever its case and the white space around
/// it.
pub open spec fn protocol_named(s: Seq<char>) -> Option<Protocol> {
    let t = crate::text::lowered(crate::text::trimmed(s));
    if t == "tcp"@ {
        Some(Protocol::Tcp)
    } else if t == "udp"@ {
        Some(Protocol::Udp)
    } else {
        None
    }
}

impl Protocol {
    pub open spec fn name(self) -> Seq<char> {
        match self {
            Protocol::Tcp => "tcp"@,
            Protocol::Udp => "udp"@,
        }
    }

    pub fn as_str(self) -> (r: &'static str)
        ensures
            r@ == self.name(),
    {
        match self {
            Protocol::Tcp => "tcp",
            Protocol::Udp => "udp",
        }
    }

    pub fn parse(s: &str) -> (r: Option<Protocol>)
        ensures
            r == protocol_named(s@),
    {
        let t = to_ascii_lowercase(trim(s));
        if same(t.as_str(), "tcp") {
            Some(Protocol::Tcp)
        } else if same(t.as_str(), "udp") {
            Some(Protocol::Udp)
        } else {
            None
        }
    }
}

/// Which way the data flows, from this router's point of view.
#[derive(Debug, Clone, Copy, PartialEq, Eq, Structural)]
pub enum Direction {
    /// Pull from the far end: measures download.
    Receive,
    /// Push to the far end: measures upload.
    Transmit,
    /// Both at once. Note this is not the same as running each separately:
    /// the two streams contend, so each figure is lower than it would be alone.
    Both,
}

/// The direction that `s` names, whatever its case and the white space around
/// it.
pub open spec fn direction_named(s: Seq<char>) -> Option<Direction> {
    let t = crate::text::lowered(crate::text::trimmed(s));
    if t == "rx"@ || t == "receive"@ || t == "download"@ {
        Some(Direction::Receive)
    } else if t == "tx"@ || t == "transmit"@ || t == "upload"@ {
        Some(Direction::Transmit)
    } else if t == "both"@ || t == "bidirectional"@ {
        Some(Direction::Both)
    } else {
        None
    }
}

impl Direction {
    pub open spec fn name(self) -> Seq<char> {
        match self {
            Direction::Receive => "receive"@,
            Direction::Transmit => "transmit"@,
            Direction::Both => "both"@,
        }
    }

    pub fn as_str(self) -> (r: &'static str)
        ensures
            r@ == self.name(),
    {
        match self {
            Direction::Receive => "receive",
            Direction::Transmit => "transmit",
            Direction::Both => "both",
        }
    }

    pub fn parse(s: &str) -> (r: Option<Direction>)
        ensures
            r == direction_named(s@),
    {
        let t = to_ascii_lowercase(trim(s));
        let w = t.as_str();
        if same(w, "rx") || same(w, "receive") || same(w, "download") {
            Some(Direction::Receive)
        } else if same(w, "tx") || same(w, "transmit") || same(w, "upload") {
            Some(Direction::Transmit)
        } else if same(w, "both") || same(w, "bidirectional") {
            Some(Direction::Both)
        } else {
            None
        }
    }
}

#[derive(Debug, Clone)]
pub struct BtestConfig {
    /// The far end, which must be running `/tool/bandwidth-server`.
    pub address: String,
    pub direction: Direction,
    pub protocol: Protocol,
    pub duration: Duration,
    /// Credentials for a user on the *far* router holding the `test` policy.
    pub user: String,
    pub password: String,
    /// TCP only. More connections can fill a high-latency path that a single
    /// stream cannot, but each one costs the router CPU.
    pub connection_count: Option<u32>,
    /// Ceilings in bits per second, to stop a test saturating a live link.
    pub local_tx_speed: Option<u64>,
    pub remote_tx_speed: Option<u64>,
}

pub const REDUCED_TAIL: &'static str = "s: RouterOS terminates any REST command at 60s";

/// How long a test that is asked for `d` runs, in seconds.
pub open spec fn test_secs(d: Duration) -> nat {
    let want = d.nanos as nat / 1_000_000_000;
    if want < 1 {
        1
    } else if want > MAX_REST_SECS {
        MAX_REST_SECS as nat
    } else {
        want
    }
}

/// What is said of a test that is asked for `d`.
pub open spec fn test_note(d: Duration) -> Option<Seq<char>> {
    let want = d.nanos as nat / 1_000_000_000;
    if want > MAX_REST_SECS {
        Some(
            "duration reduced from "@ + crate::text::decimal(want) + "s to "@
                + crate::text::decimal(MAX_REST_SECS as nat) + REDUCED_TAIL@,
        )
    } else {
        None
    }
}

/// `body` with a number under `key`, as text, when there is one.
pub open spec fn put_number(
    body: crate::json::JsonView,
    key: Seq<char>,
    n: Option<int>,
) -> crate::json::JsonView {
    match n {
        Some(v) => body.put(
            key,
            crate::json::JsonView::Text(crate::text::decimal(v as nat)),
        ),
        None => body,
    }
}

/// The request for a test. RouterOS rejects a connection count for UDP, which
/// would fail the whole test.
pub open spec fn request_body(c: BtestConfig) -> crate::json::JsonView {
    let base = crate::json::JsonView::Object(Seq::empty()).put(
        "address"@,
        crate::json::JsonView::Text(c.address@),
    ).put(
        "duration"@,
        crate::json::JsonView::Text(crate::text::decimal(test_secs(c.duration)) + "s"@),
    ).put("direction"@, crate::json::JsonView::Text(c.direction.name())).put(
        "protocol"@,
        crate::json::JsonView::Text(c.protocol.name()),
    ).put("user"@, crate::json::JsonView::Text(c.user@)).put(
        "password"@,
        crate::json::JsonView::Text(c.password@),
    );
    let streams: Option<int> = match c.connection_count {
        Some(n) if c.protocol == Protocol::Tcp => Some(n as int),
        _ => None,
    };
    let local: Option<int> = match c.local_tx_speed {
        Some(v) => Some(v as int),
        None => None,
    };
    let remote: Option<int> = match c.remote_tx_speed {
        Some(v) => Some(v as int),
        None => None,
    };
    put_number(
        put_number(put_number(base, "connection-count"@, streams), "local-tx-speed"@, local),
        "remote-tx-speed"@,
        remote,
    )
}

impl BtestConfig {
    pub fn new(address: &str, direction: Direction, protocol: Protocol) -> (r: BtestConfig)
        ensures
            r.address@ == address@,
            r.direction == direction,
            r.protocol == protocol,
            r.duration.nanos == 10_000_000_000,
            r.user@.len() == 0,
            r.password@.len() == 0,
            r.connection_count is None,
            r.local_tx_speed is None,
            r.remote_tx_speed is None,
    {
        BtestConfig {
            address: address.to_owned(),
            direction,
            protocol,
            duration: Duration::from_secs(10),
            user: String::new(),
            password: String::new(),
            connection_count: None,
            local_tx_speed: None,
            remote_tx_speed: None,
        }
    }

    /// Build the request body, clamping anything RouterOS would reject.
    pub fn to_request(&self) -> (r: (Json, Option<String>))
        ensures
            r.0@ == request_body(*self),
            match r.1 {
                Some(s) => test_note(self.duration) == Some(s@),
                None => test_note(self.duration) is None,
            },
    {
        let asked: u128 = self.duration.as_secs();
        let want: u128 = if asked < 1 {
            1
        } else {
            asked
        };
        let mut note: Option<String> = None;
        let mut secs: u128 = want;
        if want > MAX_REST_SECS as u128 {
            let mut t = "duration reduced from ".to_owned();
            push_decimal(&mut t, want);
            t.append("s to ");
            push_decimal(&mut t, MAX_REST_SECS as u128);
            t.append(REDUCED_TAIL);
            note = Some(t);
            secs = MAX_REST_SECS as u128;
        }
        let mut duration = to_decimal(secs);
        duration.append("s");
        let mut body = Json::object().with("address", Json::text(self.address.as_str())).with(
            "duration",
            Json::Text(duration),
        ).with("direction", Json::text(self.direction.as_str())).with(
            "protocol",
            Json::text(self.protocol.as_str()),
        ).with("user", Json::text(self.user.as_str())).with(
            "password",
            Json::text(self.password.as_str()),
        );
        match self.connection_count {
            Some(n) => {
                if self.protocol == Protocol::Tcp {
                    body = body.with("connection-count", Json::Text(to_decimal(n as u128)));
                }
            },
            None => {},
        }
        match self.local_tx_speed {
            Some(v) => {
                body = body.with("local-tx-speed", Json::Text(to_decimal(v as u128)));
            },
            None => {},
        }
        match self.remote_tx_speed {
            Some(v) => {
                body = body.with("remote-tx-speed", Json::Text(to_decimal(v as u128)));
            },
            None => {},
        }
        (body, note)
    }
}

/// How much the router's own CPU limited the result.
#[derive(Debug, Clone, Copy, PartialEq, Eq, Structural)]
pub enum CpuVerdict {
    /// The router had headroom; the figure describes the link.
    LinkLimited,
    /// The router was working hard; treat the figure as a floor.
    RouterContributing,
    /// The router was saturated; this measures the router, not the link.
    RouterLimited,
}

#[derive(Debug, Clone, PartialEq)]
pub struct BtestResult {
    pub protocol: Protocol,
    pub direction: Direction,
    /// Bits per second averaged over the whole run. Absent for a direction
    /// that was not measured.
    pub tx_bps: Option<u64>,
    pub rx_bps: Option<u64>,
    pub duration_s: u64,
    pub local_cpu_load: Option<u8>,
    pub remote_cpu_load: Option<u8>,
    /// UDP only: RouterOS sends faster than the path can carry and counts what
    /// did not arrive. Meaningless for TCP, which never offers more than the
    /// path accepts.
    pub lost_packets: Option<u64>,
    pub connection_count: Option<u32>,
    pub status: String,
    pub cpu_verdict: CpuVerdict,
    /// Plain-language caveats worth printing beside the number.
    pub notes: Vec<String>,
    /// Where the measurement was taken. Recorded because a figure from the
    /// router's forwarding path and one from inside a container are not
    /// comparable.
    pub source: &'static str,
}

pub const NOT_A_LIST: &'static str = "bandwidth-test did not return a list of results";

pub const NO_RESULTS: &'static str = "bandwidth-test returned no results at all";

pub const REFUSED_TAIL: &'static str = ". Check that the far end has /tool/bandwidth-server enabled and that the credentials hold the `test` policy";

pub const LIMITED_TAIL: &'static str = "%, so this measures the router rather than the link — the link may well be faster";

pub const CONTRIBUTING_TAIL: &'static str = "%, so the router contributed to the ceiling; treat the figure as a floor";

pub const CONTEND_NOTE: &'static str = "both directions ran at once and contend with each other, so each figure is lower than it would be measured alone";

pub const UDP_NOTE: &'static str = "UDP offers more than the path can carry and counts what does not arrive, so loss here is expected and is how the ceiling is found";

/// The unsigned number under `key`, if there is one.
pub open spec fn figure(row: crate::json::JsonView, key: Seq<char>) -> Option<nat> {
    crate::text::unsigned(
        crate::text::trimmed(crate::discovery::capture::cell(row, key)),
        10,
        u64::MAX as nat,
    )
}

/// A load under `key`, in percent.
pub open spec fn cpu_figure(row: crate::json::JsonView, key: Seq<char>) -> Option<u8> {
    match figure(row, key) {
        Some(v) => Some(crate::text::capped(v, 100) as u8),
        None => None,
    }
}

/// The higher of the loads that are known.
pub open spec fn worse_of(a: Option<u8>, b: Option<u8>) -> Option<u8> {
    match (a, b) {
        (Some(x), Some(y)) => Some(
            if x >= y {
                x
            } else {
                y
            },
        ),
        (Some(x), None) => Some(x),
        (None, y) => y,
    }
}

/// A far end at full load limits the test just as surely as a local one.
pub open spec fn verdict_on(worst: Option<u8>) -> CpuVerdict {
    match worst {
        Some(c) => if c >= CPU_SATURATED_PCT {
            CpuVerdict::RouterLimited
        } else if c >= CPU_BUSY_PCT {
            CpuVerdict::RouterContributing
        } else {
            CpuVerdict::LinkLimited
        },
        None => CpuVerdict::LinkLimited,
    }
}

pub open spec fn load_notes(worst: Option<u8>) -> Seq<Seq<char>> {
    let head = "CPU reached "@ + crate::text::decimal(
        match worst {
            Some(c) => c as nat,
            None => 0,
        },
    );
    match verdict_on(worst) {
        CpuVerdict::RouterLimited => seq![head + LIMITED_TAIL@],
        CpuVerdict::RouterContributing => seq![head + CONTRIBUTING_TAIL@],
        CpuVerdict::LinkLimited => Seq::empty(),
    }
}

/// The caveats of a result.
pub open spec fn result_notes(worst: Option<u8>, c: BtestConfig) -> Seq<Seq<char>> {
    crate::discovery::capture::noted(
        crate::discovery::capture::noted(
            load_notes(worst),
            c.direction == Direction::Both,
            CONTEND_NOTE@,
        ),
        c.protocol == Protocol::Udp,
        UDP_NOTE@,
    )
}

/// The device says it never got to test: it reports a refusal in the same shape
/// as a result.
pub open spec fn refused(rows: Seq<crate::json::JsonView>) -> bool {
    let status = crate::discovery::capture::cell(rows.last(), "status"@);
    crate::text::has(status, "connect"@) && !crate::text::has(status, "done"@) && rows.len() == 1
}

/// `r` is the result that `row` describes.
pub open spec fn is_result(
    r: BtestResult,
    row: crate::json::JsonView,
    c: BtestConfig,
) -> bool {
    let local = cpu_figure(row, "local-cpu-load"@);
    let remote = cpu_figure(row, "remote-cpu-load"@);
    &&& r.protocol == c.protocol
    &&& r.direction == c.direction
    &&& is_figure(r.tx_bps, figure(row, "tx-total-average"@))
    &&& is_figure(r.rx_bps, figure(row, "rx-total-average"@))
    &&& r.duration_s == crate::text::capped(
        crate::text::span_seconds(
            crate::discovery::capture::cell(row, "duration"@),
            false,
        ),
        u64::MAX as nat,
    )
    &&& r.local_cpu_load == local
    &&& r.remote_cpu_load == remote
    &&& is_figure(
        r.lost_packets,
        if c.protocol == Protocol::Udp {
            figure(row, "lost-packets"@)
        } else {
            None
        },
    )
    &&& r.connection_count == (match figure(row, "connection-count"@) {
        Some(v) => Some((v % 0x1_0000_0000) as u32),
        None => None,
    })
    &&& r.status@ == crate::discovery::capture::cell(row, "status"@)
    &&& r.cpu_verdict == verdict_on(worse_of(local, remote))
    &&& r.source@ == "routeros_host"@
}

pub open spec fn is_figure(r: Option<u64>, v: Option<nat>) -> bool {
    match (r, v) {
        (Some(a), Some(b)) => a == b,
        (None, None) => true,
        _ => false,
    }
}

/// What a reply amounts to: the last row is the result, earlier ones are
/// progress.
pub open spec fn is_parsed(
    raw: crate::json::JsonView,
    c: BtestConfig,
    r: Result<BtestResult, RouterOsError>,
    notes: Seq<Seq<char>>,
) -> bool {
    let rows = raw.rows();
    if !(raw is List) {
        r matches Err(RouterOsError::Decode(e)) && e@ == NOT_A_LIST@
    } else if rows.len() == 0 {
        r matches Err(RouterOsError::Decode(e)) && e@ == NO_RESULTS@
    } else if refused(rows) {
        r matches Err(RouterOsError::Decode(e)) && e@ == "bandwidth-test did not run: "@
            + crate::discovery::capture::cell(rows.last(), "status"@) + REFUSED_TAIL@
    } else {
        let row = rows.last();
        let worst = worse_of(
            cpu_figure(row, "local-cpu-load"@),
            cpu_figure(row, "remote-cpu-load"@),
        );
        r matches Ok(b) && is_result(b, row, c) && crate::text::views(b.notes@) == notes
            + result_notes(worst, c)
    }
}

fn u64_of(row: &Json, key: &str) -> (r: Option<u64>)
    ensures
        is_figure(r, figure(row@, key@)),
{
    let raw = text_cell(row, key);
    parse_u64(trim(raw.as_str()))
}

fn u8_of(row: &Json, key: &str) -> (r: Option<u8>)
    ensures
        r == cpu_figure(row@, key@),
{
    match u64_of(row, key) {
        Some(n) => if n <= 100 {
            Some(n as u8)
        } else {
            Some(100)
        },
        None => None,
    }
}

/// RouterOS echoes the duration as `6s`, or occasionally with larger units.
pub fn parse_secs(s: &str) -> (r: u64)
    ensures
        r == crate::text::capped(crate::text::span_seconds(s@, false), u64::MAX as nat),
{
    parse_span(s, false)
}

fn worse(a: Option<u8>, b: Option<u8>) -> (r: Option<u8>)
    ensures
        r == worse_of(a, b),
{
    match (a, b) {
        (Some(x), Some(y)) => Some(
            if x >= y {
                x
            } else {
                y
            },
        ),
        (Some(x), None) => Some(x),
        (None, y) => y,
    }
}

fn verdict(worst: Option<u8>) -> (r: CpuVerdict)
    ensures
        r == verdict_on(worst),
{
    match worst {
        Some(c) => if c >= CPU_SATURATED_PCT {
            CpuVerdict::RouterLimited
        } else if c >= CPU_BUSY_PCT {
            CpuVerdict::RouterContributing
        } else {
            CpuVerdict::LinkLimited
        },
        None => CpuVerdict::LinkLimited,
    }
}

fn notes_on(worst: Option<u8>, cfg: &BtestConfig) -> (r: Vec<String>)
    ensures
        crate::text::views(r@) == result_notes(worst, *cfg),
{
    broadcast use crate::text::lemma_views_push;

    let mut notes: Vec<String> = Vec::new();
    let mut head = "CPU reached ".to_owned();
    let load: u8 = match worst {
        Some(c) => c,
        None => 0,
    };
    push_decimal(&mut head, load as u128);
    let v = verdict(worst);
    proof {
        assert(crate::text::views(notes@) =~= Seq::empty());
    }
    match v {
        CpuVerdict::RouterLimited => {
            head.append(LIMITED_TAIL);
            notes.push(head);
        },
        CpuVerdict::RouterContributing => {
            head.append(CONTRIBUTING_TAIL);
            notes.push(head);
        },
        CpuVerdict::LinkLimited => {},
    }
    proof {
        assert(crate::text::views(notes@) =~= load_notes(worst));
    }
    if cfg.direction == Direction::Both {
        notes.push(CONTEND_NOTE.to_owned());
    }
    if cfg.protocol == Protocol::Udp {
        notes.push(UDP_NOTE.to_owned());
    }
    notes
}

/// Parse a `/tool/bandwidth-test` response.
pub fn parse(raw: &Json, cfg: &BtestConfig) -> (r: Result<BtestResult, RouterOsError>)
    ensures
        is_parsed(raw@, *cfg, r, Seq::empty()),
{
    if !raw.is_list() {
        return Err(RouterOsError::Decode(NOT_A_LIST.to_owned()));
    }
    let n: usize = raw.row_count();
    if n == 0 {
        return Err(RouterOsError::Decode(NO_RESULTS.to_owned()));
    }
    let last = raw.row(n - 1);
    let status = text_cell(last, "status");
    if contains(status.as_str(), "connect") && !contains(status.as_str(), "done") && n == 1 {
        let mut t = "bandwidth-test did not run: ".to_owned();
        t.append(status.as_str());
        t.append(REFUSED_TAIL);
        return Err(RouterOsError::Decode(t));
    }
    let local = u8_of(last, "local-cpu-load");
    let remote = u8_of(last, "remote-cpu-load");
    let worst = worse(local, remote);
    let duration = text_cell(last, "duration");
    let notes = notes_on(worst, cfg);
    proof {
        assert(Seq::<Seq<char>>::empty() + crate::text::views(notes@) =~= crate::text::views(
            notes@,
        ));
    }
    Ok(
        BtestResult {
            protocol: cfg.protocol,
            direction: cfg.direction,
            tx_bps: u64_of(last, "tx-total-average"),
            rx_bps: u64_of(last, "rx-total-average"),
            duration_s: parse_secs(duration.as_str()),
            local_cpu_load: local,
            remote_cpu_load: remote,
            lost_packets: if cfg.protocol == Protocol::Udp {
                u64_of(last, "lost-packets")
            } else {
                None
            },
            connection_count: match u64_of(last, "connection-count") {
                Some(v) => Some((v % 0x1_0000_0000) as u32),
                None => None,
            },
            status,
            cpu_verdict: verdict(worst),
            notes,
            source: "routeros_host",
        },
    )
}

/// What the router's reply to [`BtestConfig::to_request`] amounts to, the note
/// on a shortened test before all others.
pub fn conclude(raw: &Json, cfg: &BtestConfig) -> (r: Result<BtestResult, RouterOsError>)
    ensures
        is_parsed(
            raw@,
            *cfg,
            r,
            match test_note(cfg.duration) {
                Some(s) => seq![s],
                None => Seq::empty(),
            },
        ),
{
    let (_, note) = cfg.to_request();
    match parse(raw, cfg) {
        Ok(mut b) => {
            match note {
                Some(s) => {
                    let ghost before = b.notes@;
                    b.notes.insert(0, s);
                    proof {
                        assert(Seq::<Seq<char>>::empty() + crate::text::views(before)
                            =~= crate::text::views(before));
                        assert(crate::text::views(b.notes@) =~= seq![s@] + crate::text::views(
                            before,
                        ));
                    }
                },
                None => {},
            }
            Ok(b)
        },
        Err(e) => Err(e),
    }
}

/// A test never runs past what RouterOS allows a REST command, nor for no time
/// at all, and a shortened one says so.
pub proof fn law_tests_fit_a_rest_command(d: Duration)
    ensures
        1 <= test_secs(d) <= MAX_REST_SECS < 60,
        test_note(d) is Some <==> d.nanos as nat / 1_000_000_000 > MAX_REST_SECS,
{
}

/// A protocol or direction is read back from its own name.
pub proof fn law_names_read_back(p: Protocol, d: Direction)
    ensures
        protocol_named(p.name()) == Some(p),
        direction_named(d.name()) == Some(d),
{
    reveal_strlit("tcp");
    reveal_strlit("udp");
    reveal_strlit("rx");
    reveal_strlit("receive");
    reveal_strlit("download");
    reveal_strlit("tx");
    reveal_strlit("transmit");
    reveal_strlit("upload");
    reveal_strlit("both");
    reveal_strlit("bidirectional");
    lemma_plain_word(p.name());
    lemma_plain_word(d.name());
    assert("tcp"@[0] == 't' && "udp"@[0] == 'u');
    assert("receive"@.len() == 7 && "transmit"@.len() == 8 && "both"@.len() == 4);
    assert("rx"@.len() == 2 && "tx"@.len() == 2 && "download"@.len() == 8 && "upload"@.len() == 6);
    assert("transmit"@[0] == 't' && "download"@[0] == 'd');
}

/// Small letters without white space are their own trimmed lower-case form.
proof fn lemma_plain_word(s: Seq<char>)
    requires
        forall|i: int| 0 <= i < s.len() ==> 'a' <= #[trigger] s[i] && s[i] <= 'z',
    ensures
        crate::text::lowered(crate::text::trimmed(s)) == s,
{
    let f = |c: char| crate::text::is_space(c);
    if s.len() > 0 {
        assert('a' <= s[0] && s[0] <= 'z');
        assert('a' <= s[s.len() - 1] && s[s.len() - 1] <= 'z');
    }
    assert(crate::text::without_front(s, f) == s);
    assert(crate::text::without_back(s, f) == s);
    assert(crate::text::lowered(s) =~= s);
}

/// A load, on either side, that is at or above `pct`.
pub open spec fn loaded(b: BtestResult, pct: int) -> bool {
    ||| b.local_cpu_load is Some && b.local_cpu_load->0 >= pct
    ||| b.remote_cpu_load is Some && b.remote_cpu_load->0 >= pct
}

/// One router at 90 percent or above, near or far, makes the result the
/// router's, whatever the other's load is. Failing that, one at 70 percent or
/// above contributes. Otherwise, and without any load reported, the figure is
/// the link's. Where the router is to blame the caveats open with the higher
/// of the loads.
pub proof fn law_either_router_can_limit_a_test(
    raw: crate::json::JsonView,
    c: BtestConfig,
    b: BtestResult,
    lead: Seq<Seq<char>>,
)
    requires
        is_parsed(raw, c, Ok(b), lead),
    ensures
        b.cpu_verdict == CpuVerdict::RouterLimited <==> loaded(b, 90),
        b.cpu_verdict == CpuVerdict::RouterContributing <==> loaded(b, 70) && !loaded(b, 90),
        b.cpu_verdict == CpuVerdict::LinkLimited <==> !loaded(b, 70),
        loaded(b, 70) ==> exists|top: u8|
            loaded(b, top as int) && !loaded(b, top + 1) && b.notes@.len() > lead.len()
                && #[trigger] crate::discovery::laws::opens_with(
                b.notes@[lead.len() as int]@,
                "CPU reached "@ + crate::text::decimal(top as nat),
            ),
{
    let row = raw.rows().last();
    let worst = worse_of(
        cpu_figure(row, "local-cpu-load"@),
        cpu_figure(row, "remote-cpu-load"@),
    );
    let said = crate::text::views(b.notes@);
    if loaded(b, 70) {
        let top = worst->0;
        let head = "CPU reached "@ + crate::text::decimal(top as nat);
        let k = lead.len() as int;
        crate::discovery::laws::lemma_opens(head, LIMITED_TAIL@);
        crate::discovery::laws::lemma_opens(head, CONTRIBUTING_TAIL@);
        assert(said == lead + result_notes(worst, c));
        assert(result_notes(worst, c)[0] == load_notes(worst)[0]);
        assert(said[k] == load_notes(worst)[0]);
        assert(b.notes@[k]@ == said[k]);
        assert(loaded(b, top as int) && !loaded(b, top + 1));
        assert(crate::discovery::laws::opens_with(
            b.notes@[k]@,
            "CPU reached "@ + crate::text::decimal(top as nat),
        ));
    }
}

/// Digits have no white space around them.
pub proof fn lemma_decimal_is_trimmed(n: nat)
    ensures
        crate::text::trimmed(crate::text::decimal(n)) == crate::text::decimal(n),
        forall|i: int|
            0 <= i < crate::text::decimal(n).len() ==> '0' <= #[trigger] crate::text::decimal(n)[i]
                && crate::text::decimal(n)[i] <= '9',
    decreases n,
{
    let s = crate::text::decimal(n);
    let f = |c: char| crate::text::is_space(c);
    if n >= 10 {
        lemma_decimal_is_trimmed(n / 10);
        assert(s =~= crate::text::decimal(n / 10).push((48 + n % 10) as char));
    }
    assert(s.len() > 0);
    assert forall|i: int| 0 <= i < s.len() implies '0' <= #[trigger] s[i] && s[i] <= '9' by {
        if n >= 10 && i < s.len() - 1 {
            assert(s[i] == crate::text::decimal(n / 10)[i]);
        }
    }
    assert('0' <= s[0] && s[0] <= '9');
    assert('0' <= s[s.len() - 1] && s[s.len() - 1] <= '9');
    assert(crate::text::without_front(s, f) == s);
    assert(crate::text::without_back(s, f) == s);
}

/// Under `key` the row gives the number `n`.
pub open spec fn gives(row: crate::json::JsonView, key: Seq<char>, n: nat) -> bool {
    row.get(key) == Some(crate::json::JsonView::Text(crate::text::decimal(n)))
}

proof fn lemma_figure(row: crate::json::JsonView, key: Seq<char>, n: nat)
    requires
        gives(row, key, n),
        n <= u64::MAX,
    ensures
        figure(row, key) == Some(n),
{
    lemma_decimal_is_trimmed(n);
    crate::text::law_decimal_reads_back(n);
}

/// Each figure of a result is the one that the last row of the reply gives
/// under its name: what was sent and received over the whole run, the load on
/// each side, and, for UDP alone, the packets lost. A name that the row lacks
/// leaves its figure out.
pub proof fn law_figures_come_from_the_last_row(
    raw: crate::json::JsonView,
    c: BtestConfig,
    b: BtestResult,
    lead: Seq<Seq<char>>,
    n: nat,
)
    requires
        is_parsed(raw, c, Ok(b), lead),
        n <= u64::MAX,
    ensures
        raw is List,
        raw.rows().len() > 0,
        ({
            let row = raw.rows()[raw.rows().len() - 1];
            &&& gives(row, "tx-total-average"@, n) ==> b.tx_bps == Some(n as u64)
            &&& gives(row, "rx-total-average"@, n) ==> b.rx_bps == Some(n as u64)
            &&& gives(row, "local-cpu-load"@, n) ==> b.local_cpu_load == Some(
                if n <= 100 {
                    n as u8
                } else {
                    100
                },
            )
            &&& gives(row, "remote-cpu-load"@, n) ==> b.remote_cpu_load == Some(
                if n <= 100 {
                    n as u8
                } else {
                    100
                },
            )
            &&& gives(row, "lost-packets"@, n) && c.protocol == Protocol::Udp ==> b.lost_packets
                == Some(n as u64)
            &&& c.protocol == Protocol::Tcp ==> b.lost_packets is None
            &&& row.get("tx-total-average"@) is None ==> b.tx_bps is None
            &&& row.get("rx-total-average"@) is None ==> b.rx_bps is None
            &&& row.get("local-cpu-load"@) is None ==> b.local_cpu_load is None
            &&& row.get("remote-cpu-load"@) is None ==> b.remote_cpu_load is None
            &&& b.protocol == c.protocol
            &&& b.direction == c.direction
            &&& c.direction == Direction::Both ==> exists|k: int|
                lead.len() <= k < b.notes@.len() && (#[trigger] b.notes@[k])@ == CONTEND_NOTE@
            &&& c.protocol == Protocol::Udp ==> exists|k: int|
                lead.len() <= k < b.notes@.len() && (#[trigger] b.notes@[k])@ == UDP_NOTE@
        }),
{
    let row = raw.rows().last();
    let worst = worse_of(
        cpu_figure(row, "local-cpu-load"@),
        cpu_figure(row, "remote-cpu-load"@),
    );
    if gives(row, "tx-total-average"@, n) {
        lemma_figure(row, "tx-total-average"@, n);
    }
    if gives(row, "rx-total-average"@, n) {
        lemma_figure(row, "rx-total-average"@, n);
    }
    if gives(row, "local-cpu-load"@, n) {
        lemma_figure(row, "local-cpu-load"@, n);
    }
    if gives(row, "remote-cpu-load"@, n) {
        lemma_figure(row, "remote-cpu-load"@, n);
    }
    if gives(row, "lost-packets"@, n) {
        lemma_figure(row, "lost-packets"@, n);
    }
    lemma_no_figure();
    let said = crate::text::views(b.notes@);
    let own = result_notes(worst, c);
    let m = load_notes(worst).len() as int;
    assert(said == lead + own);
    assert(said.len() == b.notes@.len());
    assert(forall|k: int| 0 <= k < said.len() ==> said[k] == (#[trigger] b.notes@[k])@);
    if c.direction == Direction::Both {
        assert(own[m] == CONTEND_NOTE@);
        assert(said[lead.len() + m] == own[m]);
        assert(b.notes@[lead.len() + m]@ == CONTEND_NOTE@);
    }
    if c.protocol == Protocol::Udp {
        let last = own.len() - 1;
        assert(own[last] == UDP_NOTE@);
        assert(said[lead.len() + last] == own[last]);
        assert(b.notes@[lead.len() + last]@ == UDP_NOTE@);
    }
}

proof fn lemma_no_figure()
    ensures
        crate::text::unsigned(
            crate::text::trimmed(Seq::<char>::empty()),
            10,
            u64::MAX as nat,
        ) is None,
{
    let e = Seq::<char>::empty();
    let f = |c: char| crate::text::is_space(c);
    assert(crate::text::without_front(e, f) =~= e);
    assert(crate::text::without_back(e, f) =~= e);
}

/// The request asks for what the test is set to: the far end, its credentials,
/// the way, the protocol, the time, and each limit that is set. A number of
/// connections is asked for over TCP alone.
pub proof fn law_a_request_asks_for_what_is_set(c: BtestConfig)
    ensures
        ({
            let r = request_body(c);
            let want = c.duration.nanos as nat / 1_000_000_000;
            &&& r.get("address"@) == Some(crate::json::JsonView::Text(c.address@))
            &&& r.get("user"@) == Some(crate::json::JsonView::Text(c.user@))
            &&& r.get("password"@) == Some(crate::json::JsonView::Text(c.password@))
            &&& r.get("direction"@) == Some(
                crate::json::JsonView::Text(
                    match c.direction {
                        Direction::Receive => "receive"@,
                        Direction::Transmit => "transmit"@,
                        Direction::Both => "both"@,
                    },
                ),
            )
            &&& r.get("protocol"@) == Some(
                crate::json::JsonView::Text(
                    match c.protocol {
                        Protocol::Tcp => "tcp"@,
                        Protocol::Udp => "udp"@,
                    },
                ),
            )
            &&& 1 <= want <= 45 ==> r.get("duration"@) == Some(
                crate::json::JsonView::Text(crate::text::decimal(want) + "s"@),
            )
            &&& want > 45 ==> r.get("duration"@) == Some(
                crate::json::JsonView::Text(crate::text::decimal(45) + "s"@),
            )
            &&& want < 1 ==> r.get("duration"@) == Some(
                crate::json::JsonView::Text(crate::text::decimal(1) + "s"@),
            )
            &&& match c.connection_count {
                Some(n) if c.protocol == Protocol::Tcp => gives(r, "connection-count"@, n as nat),
                _ => r.get("connection-count"@) is None,
            }
            &&& match c.local_tx_speed {
                Some(v) => gives(r, "local-tx-speed"@, v as nat),
                None => r.get("local-tx-speed"@) is None,
            }
            &&& match c.remote_tx_speed {
                Some(v) => gives(r, "remote-tx-speed"@, v as nat),
                None => r.get("remote-tx-speed"@) is None,
            }
        }),
{
    reveal_strlit("address");
    reveal_strlit("duration");
    reveal_strlit("direction");
    reveal_strlit("protocol");
    reveal_strlit("user");
    reveal_strlit("password");
    reveal_strlit("connection-count");
    reveal_strlit("local-tx-speed");
    reveal_strlit("remote-tx-speed");
    let j0 = crate::json::JsonView::Object(Seq::empty());
    let j1 = j0.put("address"@, crate::json::JsonView::Text(c.address@));
    let j2 = j1.put(
        "duration"@,
        crate::json::JsonView::Text(crate::text::decimal(test_secs(c.duration)) + "s"@),
    );
    let j3 = j2.put("direction"@, crate::json::JsonView::Text(c.direction.name()));
    let j4 = j3.put("protocol"@, crate::json::JsonView::Text(c.protocol.name()));
    let j5 = j4.put("user"@, crate::json::JsonView::Text(c.user@));
    let j6 = j5.put("password"@, crate::json::JsonView::Text(c.password@));
    let streams: Option<int> = match c.connection_count {
        Some(n) if c.protocol == Protocol::Tcp => Some(n as int),
        _ => None,
    };
    let local: Option<int> = match c.local_tx_speed {
        Some(v) => Some(v as int),
        None => None,
    };
    let remote: Option<int> = match c.remote_tx_speed {
        Some(v) => Some(v as int),
        None => None,
    };
    let j7 = put_number(j6, "connection-count"@, streams);
    let j8 = put_number(j7, "local-tx-speed"@, local);
    crate::json::lemma_put(j0, "address"@, crate::json::JsonView::Text(c.address@));
    crate::json::lemma_put(
        j1,
        "duration"@,
        crate::json::JsonView::Text(crate::text::decimal(test_secs(c.duration)) + "s"@),
    );
    crate::json::lemma_put(j2, "direction"@, crate::json::JsonView::Text(c.direction.name()));
    crate::json::lemma_put(j3, "protocol"@, crate::json::JsonView::Text(c.protocol.name()));
    crate::json::lemma_put(j4, "user"@, crate::json::JsonView::Text(c.user@));
    crate::json::lemma_put(j5, "password"@, crate::json::JsonView::Text(c.password@));
    lemma_put_number(j6, "connection-count"@, streams);
    lemma_put_number(j7, "local-tx-speed"@, local);
    lemma_put_number(j8, "remote-tx-speed"@, remote);
    let r = put_number(j8, "remote-tx-speed"@, remote);
    assert(r == request_body(c));
    assert("address"@.len() == 7 && "duration"@.len() == 8 && "direction"@.len() == 9);
    assert("protocol"@.len() == 8 && "user"@.len() == 4 && "password"@.len() == 8);
    assert("connection-count"@.len() == 16 && "local-tx-speed"@.len() == 14);
    assert("remote-tx-speed"@.len() == 15);
    assert("duration"@[0] == 'd' && "password"@[1] == 'a' && "protocol"@[1] == 'r');
    assert(j0.get("address"@) is None && j0.get("duration"@) is None);
    assert(r.get("address"@) == Some(crate::json::JsonView::Text(c.address@)));
    assert(r.get("duration"@) == j2.get("duration"@));
    assert(r.get("direction"@) == j3.get("direction"@));
    assert(r.get("protocol"@) == j4.get("protocol"@));
    assert(r.get("user"@) == j5.get("user"@));
    assert(r.get("password"@) == j6.get("password"@));
    assert(j6.get("connection-count"@) is None);
    assert(j7.get("local-tx-speed"@) is None);
    assert(j8.get("remote-tx-speed"@) is None);
}

proof fn lemma_put_number(j: crate::json::JsonView, name: Seq<char>, n: Option<int>)
    requires
        j is Object,
    ensures
        put_number(j, name, n) is Object,
        forall|key: Seq<char>| #[trigger]
            put_number(j, name, n).get(key) == (if j.get(key) is Some {
                j.get(key)
            } else if key == name && n is Some {
                Some(crate::json::JsonView::Text(crate::text::decimal(n->0 as nat)))
            } else {
                None
            }),
{
    if n is Some {
        crate::json::lemma_put(
            j,
            name,
            crate::json::JsonView::Text(crate::text::decimal(n->0 as nat)),
        );
    }
}

/// A reply that is no list, is empty, or whose only row says that the test never
/// got to run is an error; any other is a result.
pub proof fn law_when_a_test_has_a_result(
    raw: crate::json::JsonView,
    c: BtestConfig,
    r: Result<BtestResult, RouterOsError>,
    lead: Seq<Seq<char>>,
)
    requires
        is_parsed(raw, c, r, lead),
    ensures
        r is Ok <==> raw is List && raw.rows().len() > 0 && (raw.rows().len() > 1
            || !crate::text::has(
            crate::discovery::capture::cell(raw.rows()[0], "status"@),
            "connect"@,
        ) || crate::text::has(
            crate::discovery::capture::cell(raw.rows()[0], "status"@),
            "done"@,
        )),
        r matches Err(e) ==> e is Decode,
{
}

/// The words for the ways and the protocols.
pub proof fn lemma_words()
    ensures
        direction_named("rx"@) == Some(Direction::Receive),
        direction_named("tx"@) == Some(Direction::Transmit),
        direction_named("both"@) == Some(Direction::Both),
        protocol_named("tcp"@) == Some(Protocol::Tcp),
        protocol_named("udp"@) == Some(Protocol::Udp),
{
    law_names_read_back(Protocol::Tcp, Direction::Both);
    law_names_read_back(Protocol::Udp, Direction::Both);
    reveal_strlit("rx");
    reveal_strlit("tx");
    reveal_strlit("receive");
    reveal_strlit("download");
    reveal_strlit("transmit");
    reveal_strlit("upload");
    lemma_plain_word("rx"@);
    lemma_plain_word("tx"@);
    assert("rx"@[0] == 'r' && "tx"@[0] == 't');
    assert("rx"@.len() == 2 && "tx"@.len() == 2 && "receive"@.len() == 7);
    assert("download"@.len() == 8 && "transmit"@.len() == 8 && "upload"@.len() == 6);
}

/// Each way and each protocol goes by its own words, in whatever case, and by no
/// other.
pub proof fn law_ways_and_protocols_are_named(s: Seq<char>)
    ensures
        ({
            let w = crate::text::lowered(crate::text::trimmed(s));
            &&& protocol_named(s) == Some(Protocol::Tcp) <==> w == "tcp"@
            &&& protocol_named(s) == Some(Protocol::Udp) <==> w == "udp"@
            &&& direction_named(s) == Some(Direction::Receive) <==> w == "rx"@ || w == "receive"@
                || w == "download"@
            &&& direction_named(s) == Some(Direction::Transmit) <==> w == "tx"@ || w == "transmit"@
                || w == "upload"@
            &&& direction_named(s) == Some(Direction::Both) <==> w == "both"@ || w
                == "bidirectional"@
        }),
{
    reveal_strlit("tcp");
    reveal_strlit("udp");
    reveal_strlit("rx");
    reveal_strlit("receive");
    reveal_strlit("download");
    reveal_strlit("tx");
    reveal_strlit("transmit");
    reveal_strlit("upload");
    reveal_strlit("both");
    reveal_strlit("bidirectional");
    assert("tcp"@[0] == 't' && "udp"@[0] == 'u');
    assert("receive"@.len() == 7 && "transmit"@.len() == 8 && "both"@.len() == 4);
    assert("rx"@.len() == 2 && "tx"@.len() == 2 && "download"@.len() == 8 && "upload"@.len() == 6);
    assert("rx"@[0] == 'r' && "tx"@[0] == 't' && "bidirectional"@.len() == 13);
    assert("transmit"@[0] == 't' && "download"@[0] == 'd');
}

/// A result says how long the test ran, over how many connections, and how it
/// ended, as the last row of the reply gives it, and that the router measured
/// it.
pub proof fn law_what_else_a_result_says(
    raw: crate::json::JsonView,
    c: BtestConfig,
    b: BtestResult,
    lead: Seq<Seq<char>>,
    n: nat,
    s: Seq<char>,
)
    requires
        is_parsed(raw, c, Ok(b), lead),
        n <= u32::MAX,
    ensures
        ({
            let row = raw.rows()[raw.rows().len() - 1];
            &&& row.get("duration"@) == Some(
                crate::json::JsonView::Text(crate::text::decimal(n) + seq!['s']),
            ) ==> b.duration_s == n
            &&& gives(row, "connection-count"@, n) ==> b.connection_count == Some(n as u32)
            &&& row.get("connection-count"@) is None ==> b.connection_count is None
            &&& row.get("status"@) == Some(crate::json::JsonView::Text(s)) ==> b.status@ == s
            &&& b.source@ == "routeros_host"@
        }),
{
    let row = raw.rows().last();
    crate::text_laws::lemma_seconds(n, false);
    if gives(row, "connection-count"@, n) {
        lemma_figure(row, "connection-count"@, n);
    }
    lemma_no_figure();
}

/// A test that is cut short says from what and to what: 45 seconds.
pub proof fn law_a_shortened_test_says_so(d: Duration)
    ensures
        ({
            let want = d.nanos as nat / 1_000_000_000;
            &&& want <= 45 ==> test_note(d) is None
            &&& want > 45 ==> test_note(d) is Some && crate::discovery::laws::opens_with(
                test_note(d)->0,
                "duration reduced from "@ + crate::text::decimal(want) + "s to "@
                    + crate::text::decimal(45),
            )
        }),
{
    let want = d.nanos as nat / 1_000_000_000;
    crate::discovery::laws::lemma_opens(
        "duration reduced from "@ + crate::text::decimal(want) + "s to "@ + crate::text::decimal(45),
        REDUCED_TAIL@,
    );
}

} // verus!
