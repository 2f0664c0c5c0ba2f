//! Active diagnostics: traceroute and IP scan.
//!
//! Both are one-shot tools rather than continuous measurements: a traceroute
//! run hours late answers a question nobody is still asking, and an IP scan
//! puts real traffic on the network.
//!
//! # Reading RouterOS tool output
//!
//! Both commands are *continuous*: they emit a fresh batch of rows on every
//! round, tagged with a `.section` number, and REST returns every batch. A
//! two-round traceroute over nine hops returns eighteen rows, not nine. The
//! last section is the cumulative result, so that is the only one worth
//! parsing: treating the whole response as a hop list would report each hop
//! several times.

use vstd::prelude::*;
use vstd::string::StringExecFns;

use crate::discovery::findings::{extend, has_lease, one, DhcpLease, Finding, Severity};
use crate::discovery::group::add_name;
use crate::json::Json;
use crate::net::parse_ipv4;
use crate::text::{
    join, parse_i64, parse_milli, push_decimal, push_fixed, same, to_decimal, trim, trim_end_char,
};

verus! {

/// One traceroute hop, as of the final round. Times are in microseconds and
/// loss is in thousandths of a percent.
#[derive(Debug, Clone, PartialEq)]
pub struct Hop {
    /// 1-based distance from us.
    pub ttl: usize,
    /// Empty when the hop did not answer.
    pub address: String,
    pub sent: u32,
    pub loss: i64,
    pub avg: i64,
    pub best: i64,
    pub worst: i64,
}

/// Loss of everything, in thousandths of a percent.
pub const ALL_LOST: i64 = 100_000;

pub open spec fn answered(h: Hop) -> bool {
    h.address@.len() > 0 && h.loss < ALL_LOST
}

impl Hop {
    pub fn responded(&self) -> (r: bool)
        ensures
            r == answered(*self),
    {
        !self.address.as_str().is_empty() && self.loss < ALL_LOST
    }
}

/// A host found by an IP scan.
#[derive(Debug, Clone, PartialEq)]
pub struct ScanHost {
    pub address: String,
    pub mac: String,
    pub dns: String,
    pub netbios: String,
}

// --- reading --------------------------------------------------------------

/// What a row says under `key`: text, unless it is a lone dash, or a number;
/// anything else says nothing.
pub open spec fn cell(row: crate::json::JsonView, key: Seq<char>) -> Seq<char> {
    match row.get(key) {
        Some(crate::json::JsonView::Text(x)) => if x == "-"@ {
            Seq::empty()
        } else {
            x
        },
        Some(crate::json::JsonView::Number(n)) => n,
        _ => Seq::empty(),
    }
}

/// The decimal number under `key`, in thousandths; zero when there is none.
pub open spec fn decimal_cell(row: crate::json::JsonView, key: Seq<char>) -> int {
    match crate::text::milli(crate::text::trimmed(cell(row, key))) {
        Some(v) => v,
        None => 0,
    }
}

/// The section a row belongs to; the first when it does not say.
pub open spec fn section(row: crate::json::JsonView) -> int {
    match row.get(".section"@) {
        Some(crate::json::JsonView::Text(x)) => match crate::text::signed(x, i64::MAX as nat) {
            Some(v) => v,
            None => 0,
        },
        _ => 0,
    }
}

/// The highest section of any of the rows.
pub open spec fn top_section(rows: Seq<crate::json::JsonView>) -> int
    decreases rows.len(),
{
    if rows.len() <= 1 {
        section(rows[0])
    } else {
        let rest = top_section(rows.drop_last());
        if section(rows.last()) > rest {
            section(rows.last())
        } else {
            rest
        }
    }
}

/// The rows of the highest section. Each section is a complete cumulative
/// snapshot, so the last one supersedes every earlier one.
pub open spec fn last_rows(v: crate::json::JsonView) -> Seq<crate::json::JsonView> {
    let top = top_section(v.rows());
    v.rows().filter(|r: crate::json::JsonView| section(r) == top)
}

/// `h` is the hop that `row` describes at distance `ttl`.
pub open spec fn is_hop(h: Hop, row: crate::json::JsonView, ttl: int) -> bool {
    let sent = decimal_cell(row, "sent"@);
    &&& h.ttl == ttl
    &&& h.address@ == cell(row, "address"@)
    &&& h.sent == (if sent < 0 {
        0
    } else if sent / 1000 > u32::MAX {
        u32::MAX as int
    } else {
        sent / 1000
    })
    &&& h.loss == decimal_cell(row, "loss"@)
    &&& h.avg == decimal_cell(row, "avg"@)
    &&& h.best == decimal_cell(row, "best"@)
    &&& h.worst == decimal_cell(row, "worst"@)
}

/// `h` is the host that `row` describes.
pub open spec fn is_host(h: ScanHost, row: crate::json::JsonView) -> bool {
    &&& h.address@ == cell(row, "address"@)
    &&& h.mac@ == cell(row, "mac-address"@)
    &&& h.dns@ == crate::text::without_back(cell(row, "dns"@), |x: char| x == '.')
    &&& h.netbios@ == cell(row, "netbios"@)
}

/// The rows that have an address.
pub open spec fn addressed(rows: Seq<crate::json::JsonView>) -> Seq<crate::json::JsonView> {
    rows.filter(|r: crate::json::JsonView| cell(r, "address"@).len() > 0)
}

fn text_cell(row: &Json, key: &str) -> (r: String)
    ensures
        r@ == cell(row@, key@),
{
    match row.get(key) {
        Some(Json::Text(x)) => {
            if same(x.as_str(), "-") {
                String::new()
            } else {
                x.clone()
            }
        },
        Some(Json::Number(n)) => n.clone(),
        _ => String::new(),
    }
}

fn number_cell(row: &Json, key: &str) -> (r: i64)
    ensures
        r == decimal_cell(row@, key@),
{
    let s = text_cell(row, key);
    match parse_milli(trim(s.as_str())) {
        Some(v) => v,
        None => 0,
    }
}

fn section_of(row: &Json) -> (r: i64)
    ensures
        r == section(row@),
{
    match row.get(".section") {
        Some(Json::Text(x)) => match parse_i64(x.as_str()) {
            Some(v) => v,
            None => 0,
        },
        _ => 0,
    }
}

fn find_top_section(v: &Json) -> (r: i64)
    requires
        v@.rows().len() > 0,
    ensures
        r == top_section(v@.rows()),
{
    let ghost rows = v@.rows();
    let mut top: i64 = section_of(v.row(0));
    let mut i: usize = 1;
    proof {
        assert(rows.take(1)[0] == rows[0]);
    }
    while i < v.row_count()
        invariant
            1 <= i <= rows.len(),
            rows == v@.rows(),
            top == top_section(rows.take(i as int)),
        decreases rows.len() - i,
    {
        proof {
            crate::discovery::group::lemma_take_step(rows, i as int);
        }
        let s: i64 = section_of(v.row(i));
        if s > top {
            top = s;
        }
        i = i + 1;
    }
    proof {
        crate::discovery::group::lemma_take_ends(rows);
    }
    top
}

/// Keep only the rows belonging to the highest `.section`.
pub fn last_section<'a>(v: &'a Json) -> (r: Vec<&'a Json>)
    ensures
        r@.len() == last_rows(v@).len(),
        forall|i: int| 0 <= i < r@.len() ==> (#[trigger] r@[i])@ == last_rows(v@)[i],
{
    let ghost rows = v@.rows();
    let ghost top = top_section(rows);
    let ghost p = |r: crate::json::JsonView| section(r) == top;
    let mut out: Vec<&'a Json> = Vec::new();
    let n: usize = v.row_count();
    if n == 0 {
        proof {
            assert(rows.filter(p) =~= Seq::empty()) by {
                reveal(Seq::filter);
            }
        }
        return out;
    }
    let max: i64 = find_top_section(v);
    let mut i: usize = 0;
    proof {
        crate::discovery::group::lemma_take_ends(rows);
        reveal(Seq::filter);
    }
    while i < n
        invariant
            i <= n == rows.len(),
            rows == v@.rows(),
            max == top,
            p == |r: crate::json::JsonView| section(r) == top,
            out@.len() == rows.take(i as int).filter(p).len(),
            forall|k: int|
                0 <= k < out@.len() ==> (#[trigger] out@[k])@ == rows.take(i as int).filter(p)[k],
        decreases n - i,
    {
        proof {
            crate::discovery::group::lemma_take_step(rows, i as int);
            reveal(Seq::filter);
        }
        let r = v.row(i);
        if section_of(r) == max {
            out.push(r);
        }
        i = i + 1;
    }
    proof {
        crate::discovery::group::lemma_take_ends(rows);
    }
    out
}

pub fn parse_traceroute(v: &Json) -> (r: Vec<Hop>)
    ensures
        r@.len() == last_rows(v@).len(),
        forall|i: int| 0 <= i < r@.len() ==> is_hop(#[trigger] r@[i], last_rows(v@)[i], i + 1),
{
    let rows = last_section(v);
    let mut out: Vec<Hop> = Vec::new();
    let mut i: usize = 0;
    while i < rows.len()
        invariant
            i <= rows@.len(),
            out@.len() == i,
            rows@.len() == last_rows(v@).len(),
            forall|k: int| 0 <= k < rows@.len() ==> (#[trigger] rows@[k])@ == last_rows(v@)[k],
            forall|k: int| 0 <= k < i ==> is_hop(#[trigger] out@[k], last_rows(v@)[k], k + 1),
        decreases rows@.len() - i,
    {
        let row = rows[i];
        let sent: i64 = number_cell(row, "sent");
        let hop = Hop {
            // Position within the final section is the TTL; RouterOS does not
            // label hops explicitly.
            ttl: i + 1,
            address: text_cell(row, "address"),
            sent: if sent < 0 {
                0
            } else if sent / 1000 > u32::MAX as i64 {
                u32::MAX
            } else {
                (sent / 1000) as u32
            },
            loss: number_cell(row, "loss"),
            avg: number_cell(row, "avg"),
            best: number_cell(row, "best"),
            worst: number_cell(row, "worst"),
        };
        out.push(hop);
        i = i + 1;
    }
    out
}

pub fn parse_ip_scan(v: &Json) -> (r: Vec<ScanHost>)
    ensures
        r@.len() == addressed(last_rows(v@)).len(),
        forall|i: int|
            0 <= i < r@.len() ==> is_host(#[trigger] r@[i], addressed(last_rows(v@))[i]),
{
    let rows = last_section(v);
    let ghost all = last_rows(v@);
    let ghost p = |r: crate::json::JsonView| cell(r, "address"@).len() > 0;
    let mut out: Vec<ScanHost> = Vec::new();
    let mut i: usize = 0;
    proof {
        crate::discovery::group::lemma_take_ends(all);
        reveal(Seq::filter);
    }
    while i < rows.len()
        invariant
            i <= rows@.len() == all.len(),
            p == |r: crate::json::JsonView| cell(r, "address"@).len() > 0,
            forall|k: int| 0 <= k < rows@.len() ==> (#[trigger] rows@[k])@ == all[k],
            out@.len() == all.take(i as int).filter(p).len(),
            forall|k: int|
                0 <= k < out@.len() ==> is_host(
                    #[trigger] out@[k],
                    all.take(i as int).filter(p)[k],
                ),
        decreases rows@.len() - i,
    {
        proof {
            crate::discovery::group::lemma_take_step(all, i as int);
            reveal(Seq::filter);
        }
        let row = rows[i];
        let address = text_cell(row, "address");
        if !address.as_str().is_empty() {
            let dns = text_cell(row, "dns");
            let host = ScanHost {
                address,
                mac: text_cell(row, "mac-address"),
                dns: trim_end_char(dns.as_str(), '.').to_owned(),
                netbios: text_cell(row, "netbios"),
            };
            out.push(host);
        }
        i = i + 1;
    }
    proof {
        crate::discovery::group::lemma_take_ends(all);
    }
    out
}

// --- thresholds -----------------------------------------------------------

/// A latency increase at one hop worth naming, in microseconds.
pub const LATENCY_STEP: i64 = 30_000;

/// A latency increase worth a warning, in microseconds.
pub const LATENCY_WARNING: i64 = 100_000;

/// Loss at the destination that counts as real, in thousandths of a percent.
pub const REAL_LOSS: i64 = 2_000;

/// Loss at the destination that is critical, in thousandths of a percent.
pub const CRITICAL_LOSS: i64 = 10_000;

/// Carrier-grade NAT range (RFC 6598): 100.64.0.0/10. Its presence changes what
/// the customer can be sold and whether inbound services can ever work.
pub const CGNAT_FIRST: u32 = 0x6440_0000;

pub const CGNAT_LAST: u32 = 0x647F_FFFF;

pub const STEP_TAIL: &'static str = " — that link is where the delay is introduced, not anything before it";

pub const LOOP_TAIL: &'static str = " address(es) appear more than once in the path, which means traffic is looping";

pub const CGNAT_SUMMARY: &'static str = "the path traverses carrier-grade NAT (100.64.0.0/10), so inbound connections, port forwarding and some VPNs cannot work regardless of local configuration";

pub const MULTI_TAIL: &'static str = " device(s) are answering on more than one address, which makes lease accounting and any per-device policy unreliable";

pub const UNMANAGED_TAIL: &'static str = " host(s) are live on the network but hold no DHCP lease from this router";

// --- the path -------------------------------------------------------------

/// One hop in words.
pub open spec fn hop_line(h: Hop) -> Seq<char> {
    let label = "hop "@ + crate::text::decimal(h.ttl as nat) + ": "@;
    if answered(h) {
        label + h.address@ + " avg "@ + crate::text::fixed(h.avg as int, 1) + " ms (best "@
            + crate::text::fixed(h.best as int, 1) + ", worst "@ + crate::text::fixed(
            h.worst as int,
            1,
        ) + "), "@ + crate::text::fixed(h.loss as int, 0) + "% loss"@
    } else {
        label + "no response"@
    }
}

pub fn describe(h: &Hop) -> (r: String)
    ensures
        r@ == hop_line(*h),
{
    let mut t = "hop ".to_owned();
    push_decimal(&mut t, h.ttl as u128);
    t.append(": ");
    if h.responded() {
        t.append(h.address.as_str());
        t.append(" avg ");
        push_fixed(&mut t, h.avg, true);
        t.append(" ms (best ");
        push_fixed(&mut t, h.best, true);
        t.append(", worst ");
        push_fixed(&mut t, h.worst, true);
        t.append("), ");
        push_fixed(&mut t, h.loss, false);
        t.append("% loss");
    } else {
        t.append("no response");
    }
    t
}

/// The hops that answered.
pub open spec fn answering(hops: Seq<Hop>) -> Seq<Hop> {
    hops.filter(|h: Hop| answered(h))
}

pub open spec fn no_response_view(hops: Seq<Hop>, target: Seq<char>) ->
    crate::discovery::findings::FindingView {
    crate::discovery::findings::FindingView {
        code: "path.no_response"@,
        severity: Severity::Critical,
        summary: "no hop on the way to "@ + target + " answered at all"@,
        evidence: seq![crate::text::decimal(hops.len()) + " hops probed, none responded"@],
    }
}

pub open spec fn unreachable_view(hops: Seq<Hop>, target: Seq<char>, last: Hop) ->
    crate::discovery::findings::FindingView {
    crate::discovery::findings::FindingView {
        code: "path.unreachable"@,
        severity: Severity::Critical,
        summary: target + " was not reached; the path stops responding after hop "@
            + crate::text::decimal(last.ttl as nat) + " ("@ + last.address@ + ")"@,
        evidence: crate::discovery::group::lines(hops, |h: Hop| true, |h: Hop| hop_line(h)),
    }
}

/// The rise in latency at position `i` of the answering hops.
pub open spec fn rise(path: Seq<Hop>, i: int) -> int {
    path[i].avg - path[i - 1].avg
}

/// The rise at `i` is worth naming: large, and still there at the destination.
/// Otherwise the elevated hop was answering slowly, not forwarding slowly.
pub open spec fn persists(path: Seq<Hop>, i: int) -> bool {
    rise(path, i) >= LATENCY_STEP && path[i].avg <= path.last().avg + LATENCY_STEP
}

/// The position of the largest rise worth naming among the first `n` hops; of
/// equal ones the first.
pub open spec fn steepest(path: Seq<Hop>, n: int) -> Option<int>
    decreases n,
{
    if n < 2 {
        None
    } else {
        let before = steepest(path, n - 1);
        if persists(path, n - 1) && (before is None || rise(path, n - 1) > rise(path, before->0)) {
            Some(n - 1)
        } else {
            before
        }
    }
}

pub open spec fn step_view(path: Seq<Hop>, target: Seq<char>, i: int) ->
    crate::discovery::findings::FindingView {
    crate::discovery::findings::FindingView {
        code: "path.latency_step"@,
        severity: if rise(path, i) >= LATENCY_WARNING {
            Severity::Warning
        } else {
            Severity::Info
        },
        summary: "latency to "@ + target + " rises by "@ + crate::text::fixed(rise(path, i), 0)
            + " ms between hop "@ + crate::text::decimal(path[i - 1].ttl as nat) + " and hop "@
            + crate::text::decimal(path[i].ttl as nat) + STEP_TAIL@,
        evidence: seq![
            hop_line(path[i - 1]),
            hop_line(path[i]),
            "end-to-end average "@ + crate::text::fixed(path.last().avg as int, 1) + " ms"@,
        ],
    }
}

/// What the latency rule says of a path that reaches its target.
pub open spec fn latency_of(path: Seq<Hop>, target: Seq<char>) -> Seq<
    crate::discovery::findings::FindingView,
> {
    match steepest(path, path.len() as int) {
        Some(i) => seq![step_view(path, target, i)],
        None => Seq::empty(),
    }
}

/// Where the loss that reaches the end of the path begins: from that hop on
/// every hop has real loss. Loss further up that disappears again is a router
/// limiting its own answers. The length of the path where the last hop has no
/// real loss.
pub open spec fn loss_onset(path: Seq<Hop>) -> int
    decreases path.len(),
{
    if path.len() == 0 || path.last().loss < REAL_LOSS {
        path.len() as int
    } else {
        loss_onset(path.drop_last())
    }
}

pub open spec fn loss_summary(path: Seq<Hop>, target: Seq<char>) -> Seq<char> {
    let last = path.last();
    let head = crate::text::fixed(last.loss as int, 0) + "% loss to "@ + target;
    let i = loss_onset(path);
    if i < path.len() && path[i].ttl < last.ttl {
        head + ", first appearing at hop "@ + crate::text::decimal(path[i].ttl as nat) + " ("@
            + path[i].address@ + ") and persisting to the destination"@
    } else {
        head
    }
}

/// What the loss rule says of a path that reaches its target: nothing unless
/// the loss is real at the destination.
pub open spec fn loss_of(path: Seq<Hop>, target: Seq<char>) -> Seq<
    crate::discovery::findings::FindingView,
> {
    let last = path.last();
    if last.loss < REAL_LOSS {
        Seq::empty()
    } else {
        seq![
            crate::discovery::findings::FindingView {
                code: "path.loss"@,
                severity: if last.loss >= CRITICAL_LOSS {
                    Severity::Critical
                } else {
                    Severity::Warning
                },
                summary: loss_summary(path, target),
                evidence: crate::discovery::group::lines(
                    path,
                    |h: Hop| h.loss > 0,
                    |h: Hop| hop_line(h),
                ).push(crate::text::fixed(last.loss as int, 0) + "% loss reaches "@ + target),
            },
        ]
    }
}

/// The distances at which `addr` answered.
pub open spec fn seen_at(path: Seq<Hop>, addr: Seq<char>) -> Seq<Seq<char>> {
    crate::discovery::group::lines(
        path,
        |h: Hop| h.address@ == addr,
        |h: Hop| crate::text::decimal(h.ttl as nat),
    )
}

/// A line for each of `addrs` that answered at more than one distance.
pub open spec fn loop_lines(path: Seq<Hop>, addrs: Seq<Seq<char>>) -> Seq<Seq<char>>
    decreases addrs.len(),
{
    if addrs.len() == 0 {
        Seq::empty()
    } else {
        let rest = loop_lines(path, addrs.drop_last());
        let at = seen_at(path, addrs.last());
        if at.len() > 1 {
            rest.push(addrs.last() + " appears at hops "@ + crate::text::joined(at, ", "@))
        } else {
            rest
        }
    }
}

pub open spec fn loops_of(path: Seq<Hop>) -> Seq<crate::discovery::findings::FindingView> {
    let addrs = crate::discovery::group::names_of(path, |h: Hop| true, |h: Hop| h.address@);
    let evidence = loop_lines(path, addrs);
    if evidence.len() == 0 {
        Seq::empty()
    } else {
        seq![
            crate::discovery::findings::FindingView {
                code: "path.routing_loop"@,
                severity: Severity::Critical,
                summary: crate::text::decimal(evidence.len()) + LOOP_TAIL@,
                evidence,
            },
        ]
    }
}

/// The hop answers from carrier-grade NAT space.
pub open spec fn behind_cgnat(h: Hop) -> bool {
    crate::net::dotted(h.address@) matches Some(a) && CGNAT_FIRST <= a <= CGNAT_LAST
}

pub open spec fn cgnat_of(path: Seq<Hop>) -> Seq<crate::discovery::findings::FindingView> {
    let evidence = crate::discovery::group::lines(
        path,
        |h: Hop| behind_cgnat(h),
        |h: Hop| hop_line(h),
    );
    if evidence.len() == 0 {
        Seq::empty()
    } else {
        seq![
            crate::discovery::findings::FindingView {
                code: "path.cgnat"@,
                severity: Severity::Info,
                summary: CGNAT_SUMMARY@,
                evidence,
            },
        ]
    }
}

/// Everything that a traceroute towards `target` says.
pub open spec fn path_findings(hops: Seq<Hop>, target: Seq<char>) -> Seq<
    crate::discovery::findings::FindingView,
> {
    let path = answering(hops);
    if hops.len() == 0 {
        Seq::empty()
    } else if path.len() == 0 {
        seq![no_response_view(hops, target)]
    } else {
        let reached = path.last().address@ == target;
        let head = if reached {
            Seq::empty()
        } else {
            seq![unreachable_view(hops, target, path.last())]
        };
        let middle = if reached {
            latency_of(path, target) + loss_of(path, target)
        } else {
            Seq::empty()
        };
        head + middle + loops_of(path) + cgnat_of(path)
    }
}

fn answering_hops(hops: &[Hop]) -> (r: Vec<&Hop>)
    ensures
        r@.unref() == answering(hops@),
{
    let mut out: Vec<&Hop> = Vec::new();
    let mut i: usize = 0;
    let ghost p = |h: Hop| answered(h);
    proof {
        crate::discovery::group::lemma_take_ends(hops@);
        reveal(Seq::filter);
        assert(out@.unref() =~= hops@.take(0).filter(p));
    }
    while i < hops.len()
        invariant
            i <= hops@.len(),
            p == |h: Hop| answered(h),
            out@.unref() == hops@.take(i as int).filter(p),
        decreases hops@.len() - i,
    {
        proof {
            crate::discovery::group::lemma_take_step(hops@, i as int);
            reveal(Seq::filter);
        }
        let ghost before = out@;
        let h = &hops[i];
        if h.responded() {
            out.push(h);
            proof {
                assert(out@.unref() =~= before.unref().push(*h));
            }
        }
        i = i + 1;
    }
    proof {
        crate::discovery::group::lemma_take_ends(hops@);
    }
    out
}

/// Find where latency actually enters the path.
///
/// Only a step that *persists to the destination* matters. A single hop
/// reporting high RTT while later hops are fast is a router deprioritising
/// ICMP to its own control plane: extremely common, and the single most
/// misread thing in a traceroute. Reporting it would send an engineer chasing
/// a device that is forwarding perfectly.
fn latency_step(path: &Vec<&Hop>, target: &str) -> (r: Vec<Finding>)
    requires
        path@.len() > 0,
    ensures
        crate::discovery::findings::said(r@) == latency_of(path@.unref(), target@),
{
    let n: usize = path.len();
    let ghost all = path@.unref();
    let end: i128 = path[n - 1].avg as i128;
    let mut worst: Option<usize> = None;
    let mut i: usize = 1;
    while i < n
        invariant
            1 <= i <= n == path@.len(),
            all == path@.unref(),
            end == all.last().avg,
            match worst {
                Some(w) => steepest(all, i as int) == Some(w as int) && 1 <= w < i && rise(
                    all,
                    w as int,
                ) >= LATENCY_STEP,
                None => steepest(all, i as int) is None,
            },
        decreases n - i,
    {
        let step: i128 = path[i].avg as i128 - path[i - 1].avg as i128;
        if step >= LATENCY_STEP as i128 && path[i].avg as i128 <= end + LATENCY_STEP as i128 {
            let larger: bool = match worst {
                Some(w) => step > path[w].avg as i128 - path[w - 1].avg as i128,
                None => true,
            };
            if larger {
                worst = Some(i);
            }
        }
        i = i + 1;
    }
    let w: usize = match worst {
        Some(w) => w,
        None => {
            let none: Vec<Finding> = Vec::new();
            proof {
                assert(crate::discovery::findings::said(none@) =~= Seq::empty());
            }
            return none;
        },
    };
    let before = path[w - 1];
    let after = path[w];
    let step: i128 = after.avg as i128 - before.avg as i128;
    let severity = if step >= LATENCY_WARNING as i128 {
        Severity::Warning
    } else {
        Severity::Info
    };
    let mut summary = "latency to ".to_owned();
    summary.append(target);
    summary.append(" rises by ");
    push_rise(&mut summary, step);
    summary.append(" ms between hop ");
    push_decimal(&mut summary, before.ttl as u128);
    summary.append(" and hop ");
    push_decimal(&mut summary, after.ttl as u128);
    summary.append(STEP_TAIL);
    let mut line = "end-to-end average ".to_owned();
    push_fixed(&mut line, path[n - 1].avg, true);
    line.append(" ms");
    let mut evidence: Vec<String> = Vec::new();
    evidence.push(describe(before));
    evidence.push(describe(after));
    evidence.push(line);
    proof {
        assert(crate::text::views(evidence@) =~= step_view(all, target@, w as int).evidence);
    }
    one("path.latency_step", severity, summary, evidence)
}

/// A rise of latency in whole milliseconds.
fn push_rise(out: &mut String, step: i128)
    requires
        0 <= step <= 2 * u64::MAX,
    ensures
        final(out)@ == old(out)@ + crate::text::fixed(step as int, 0),
{
    let whole: u128 = crate::round::round_div(step as u128, 1000);
    let ghost start = out@;
    push_decimal(out, whole);
    proof {
        assert(out@ =~= start + (Seq::<char>::empty() + crate::text::decimal(whole as nat)));
    }
}

/// Loss that reaches the destination. Loss at an intermediate hop which
/// disappears further along is ICMP rate limiting on that router, not packet
/// loss on the path.
fn path_loss(path: &Vec<&Hop>, target: &str) -> (r: Vec<Finding>)
    requires
        path@.len() > 0,
    ensures
        crate::discovery::findings::said(r@) == loss_of(path@.unref(), target@),
{
    let n: usize = path.len();
    let ghost all = path@.unref();
    let last = path[n - 1];
    if last.loss < REAL_LOSS {
        let none: Vec<Finding> = Vec::new();
        proof {
            assert(crate::discovery::findings::said(none@) =~= Seq::empty());
        }
        return none;
    }
    // Walk back to the first hop where this loss appears and stays.
    let mut onset: usize = n;
    proof {
        crate::discovery::group::lemma_take_ends(all);
    }
    while onset > 0 && path[onset - 1].loss >= REAL_LOSS
        invariant
            onset <= n == path@.len(),
            all == path@.unref(),
            loss_onset(all) == loss_onset(all.take(onset as int)),
        decreases onset,
    {
        proof {
            crate::discovery::group::lemma_take_step(all, onset - 1);
        }
        onset = onset - 1;
    }
    proof {
        if onset > 0 {
            crate::discovery::group::lemma_take_step(all, onset - 1);
        }
        assert(loss_onset(all) == onset);
    }
    let mut evidence: Vec<String> = Vec::new();
    let mut i: usize = 0;
    proof {
        crate::discovery::group::lemma_take_ends(all);
        assert(crate::text::views(evidence@) =~= Seq::empty());
    }
    while i < n
        invariant
            i <= n == path@.len(),
            all == path@.unref(),
            crate::text::views(evidence@) == crate::discovery::group::lines(
                all.take(i as int),
                |h: Hop| h.loss > 0,
                |h: Hop| hop_line(h),
            ),
        decreases n - i,
    {
        broadcast use crate::text::lemma_views_push;

        proof {
            crate::discovery::group::lemma_take_step(all, i as int);
        }
        if path[i].loss > 0 {
            let line = describe(path[i]);
            evidence.push(line);
        }
        i = i + 1;
    }
    let mut line = String::new();
    push_fixed(&mut line, last.loss, false);
    line.append("% loss reaches ");
    line.append(target);
    let mut summary = String::new();
    push_fixed(&mut summary, last.loss, false);
    summary.append("% loss to ");
    summary.append(target);
    proof {
        crate::discovery::group::lemma_take_ends(all);
        assert(line@ =~= crate::text::fixed(last.loss as int, 0) + "% loss reaches "@ + target@);
        assert(summary@ =~= crate::text::fixed(last.loss as int, 0) + "% loss to "@ + target@);
        crate::text::lemma_views_push(evidence@, line);
    }
    evidence.push(line);
    if onset < n && path[onset].ttl < last.ttl {
        summary.append(", first appearing at hop ");
        push_decimal(&mut summary, path[onset].ttl as u128);
        summary.append(" (");
        summary.append(path[onset].address.as_str());
        summary.append(") and persisting to the destination");
    }
    let severity = if last.loss >= CRITICAL_LOSS {
        Severity::Critical
    } else {
        Severity::Warning
    };
    one("path.loss", severity, summary, evidence)
}

fn distances(path: &Vec<&Hop>, addr: &str) -> (r: Vec<String>)
    ensures
        crate::text::views(r@) == seen_at(path@.unref(), addr@),
{
    let ghost all = path@.unref();
    let mut at: Vec<String> = Vec::new();
    let mut i: usize = 0;
    proof {
        crate::discovery::group::lemma_take_ends(all);
        assert(crate::text::views(at@) =~= Seq::empty());
    }
    while i < path.len()
        invariant
            i <= path@.len(),
            all == path@.unref(),
            crate::text::views(at@) == seen_at(all.take(i as int), addr@),
        decreases path@.len() - i,
    {
        broadcast use crate::text::lemma_views_push;

        proof {
            crate::discovery::group::lemma_take_step(all, i as int);
        }
        if same(path[i].address.as_str(), addr) {
            let line = to_decimal(path[i].ttl as u128);
            at.push(line);
        }
        i = i + 1;
    }
    proof {
        crate::discovery::group::lemma_take_ends(all);
    }
    at
}

/// The same address appearing twice means the packet is going in circles.
fn routing_loop(path: &Vec<&Hop>) -> (r: Vec<Finding>)
    ensures
        crate::discovery::findings::said(r@) == loops_of(path@.unref()),
{
    let ghost all = path@.unref();
    let mut addrs: Vec<String> = Vec::new();
    let mut i: usize = 0;
    proof {
        crate::discovery::group::lemma_take_ends(all);
        assert(crate::text::views(addrs@) =~= Seq::empty());
    }
    while i < path.len()
        invariant
            i <= path@.len(),
            all == path@.unref(),
            crate::text::views(addrs@) == crate::discovery::group::names_of(
                all.take(i as int),
                |h: Hop| true,
                |h: Hop| h.address@,
            ),
        decreases path@.len() - i,
    {
        proof {
            crate::discovery::group::lemma_take_step(all, i as int);
        }
        add_name(&mut addrs, path[i].address.as_str());
        i = i + 1;
    }
    let ghost names = crate::text::views(addrs@);
    let mut evidence: Vec<String> = Vec::new();
    let mut k: usize = 0;
    proof {
        crate::discovery::group::lemma_take_ends(all);
        crate::discovery::group::lemma_take_ends(names);
        assert(crate::text::views(evidence@) =~= Seq::empty());
    }
    while k < addrs.len()
        invariant
            k <= addrs@.len(),
            all == path@.unref(),
            names == crate::text::views(addrs@),
            crate::text::views(evidence@) == loop_lines(all, names.take(k as int)),
        decreases addrs@.len() - k,
    {
        broadcast use crate::text::lemma_views_push;

        proof {
            crate::discovery::group::lemma_take_step(names, k as int);
        }
        let at = distances(path, addrs[k].as_str());
        if at.len() > 1 {
            let mut t = addrs[k].clone();
            t.append(" appears at hops ");
            let hops = join(&at, ", ");
            t.append(hops.as_str());
            evidence.push(t);
        }
        k = k + 1;
    }
    proof {
        crate::discovery::group::lemma_take_ends(names);
    }
    let mut summary = to_decimal(evidence.len() as u128);
    summary.append(LOOP_TAIL);
    one("path.routing_loop", Severity::Critical, summary, evidence)
}

pub fn in_cgnat(a: u32) -> (r: bool)
    ensures
        r == (CGNAT_FIRST <= a <= CGNAT_LAST),
{
    CGNAT_FIRST <= a && a <= CGNAT_LAST
}

/// Carrier-grade NAT on the path. Not a fault, but it explains a whole class
/// of complaints (inbound connections, VPNs and port forwarding cannot work
/// through it) and it is invisible from the customer's own router.
fn cgnat(path: &Vec<&Hop>) -> (r: Vec<Finding>)
    ensures
        crate::discovery::findings::said(r@) == cgnat_of(path@.unref()),
{
    let ghost all = path@.unref();
    let mut evidence: Vec<String> = Vec::new();
    let mut i: usize = 0;
    proof {
        crate::discovery::group::lemma_take_ends(all);
        assert(crate::text::views(evidence@) =~= Seq::empty());
    }
    while i < path.len()
        invariant
            i <= path@.len(),
            all == path@.unref(),
            crate::text::views(evidence@) == crate::discovery::group::lines(
                all.take(i as int),
                |h: Hop| behind_cgnat(h),
                |h: Hop| hop_line(h),
            ),
        decreases path@.len() - i,
    {
        broadcast use crate::text::lemma_views_push;

        proof {
            crate::discovery::group::lemma_take_step(all, i as int);
        }
        let hit: bool = match parse_ipv4(path[i].address.as_str()) {
            Some(a) => in_cgnat(a),
            None => false,
        };
        if hit {
            let line = describe(path[i]);
            evidence.push(line);
        }
        i = i + 1;
    }
    proof {
        crate::discovery::group::lemma_take_ends(all);
    }
    one("path.cgnat", Severity::Info, CGNAT_SUMMARY.to_owned(), evidence)
}

fn unreachable_finding(hops: &[Hop], target: &str, last: &Hop) -> (r: Finding)
    ensures
        r@ == unreachable_view(hops@, target@, *last),
{
    let mut summary = target.to_owned();
    summary.append(" was not reached; the path stops responding after hop ");
    push_decimal(&mut summary, last.ttl as u128);
    summary.append(" (");
    summary.append(last.address.as_str());
    summary.append(")");
    let mut evidence: Vec<String> = Vec::new();
    let mut i: usize = 0;
    proof {
        crate::discovery::group::lemma_take_ends(hops@);
        assert(crate::text::views(evidence@) =~= Seq::empty());
    }
    while i < hops.len()
        invariant
            i <= hops@.len(),
            crate::text::views(evidence@) == crate::discovery::group::lines(
                hops@.take(i as int),
                |h: Hop| true,
                |h: Hop| hop_line(h),
            ),
        decreases hops@.len() - i,
    {
        broadcast use crate::text::lemma_views_push;

        proof {
            crate::discovery::group::lemma_take_step(hops@, i as int);
        }
        let line = describe(&hops[i]);
        evidence.push(line);
        i = i + 1;
    }
    proof {
        crate::discovery::group::lemma_take_ends(hops@);
    }
    Finding { code: "path.unreachable", severity: Severity::Critical, summary, evidence }
}

/// Analyse a completed traceroute.
pub fn analyse_path(hops: &[Hop], target: &str) -> (r: Vec<Finding>)
    ensures
        crate::discovery::findings::said(r@) == path_findings(hops@, target@),
{
    let mut out: Vec<Finding> = Vec::new();
    proof {
        assert(crate::discovery::findings::said(out@) =~= Seq::empty());
    }
    if hops.len() == 0 {
        return out;
    }
    let path = answering_hops(hops);
    let ghost all = path@.unref();
    if path.len() == 0 {
        let mut summary = "no hop on the way to ".to_owned();
        summary.append(target);
        summary.append(" answered at all");
        let mut line = to_decimal(hops.len() as u128);
        line.append(" hops probed, none responded");
        let mut evidence: Vec<String> = Vec::new();
        evidence.push(line);
        proof {
            assert(crate::text::views(evidence@) =~= seq![line@]);
        }
        return one("path.no_response", Severity::Critical, summary, evidence);
    }
    let last = path[path.len() - 1];
    let reached: bool = same(last.address.as_str(), target);
    if !reached {
        let f = unreachable_finding(hops, target, last);
        out.push(f);
        proof {
            assert(crate::discovery::findings::said(out@) =~= seq![f@]);
        }
    } else {
        extend(&mut out, latency_step(&path, target));
        extend(&mut out, path_loss(&path, target));
    }
    extend(&mut out, routing_loop(&path));
    extend(&mut out, cgnat(&path));
    proof {
        assert(crate::discovery::findings::said(out@) =~= path_findings(hops@, target@));
    }
    out
}

// --- the scan -------------------------------------------------------------

/// The host answers for a known MAC address.
pub open spec fn identified(h: ScanHost) -> bool {
    h.mac@.len() > 0
}

pub open spec fn addresses_of(hosts: Seq<ScanHost>, mac: Seq<char>) -> Seq<Seq<char>> {
    crate::discovery::group::lines(
        hosts,
        |h: ScanHost| identified(h) && h.mac@ == mac,
        |h: ScanHost| h.address@,
    )
}

/// A line for each of `macs` that answers on more than one address.
pub open spec fn multi_lines(hosts: Seq<ScanHost>, macs: Seq<Seq<char>>) -> Seq<Seq<char>>
    decreases macs.len(),
{
    if macs.len() == 0 {
        Seq::empty()
    } else {
        let rest = multi_lines(hosts, macs.drop_last());
        let at = addresses_of(hosts, macs.last());
        if at.len() > 1 {
            rest.push(macs.last() + " at "@ + crate::text::joined(at, ", "@))
        } else {
            rest
        }
    }
}

pub open spec fn multiple_of(hosts: Seq<ScanHost>) -> Seq<
    crate::discovery::findings::FindingView,
> {
    let macs = crate::discovery::group::names_of(
        hosts,
        |h: ScanHost| identified(h),
        |h: ScanHost| h.mac@,
    );
    let evidence = multi_lines(hosts, macs);
    if evidence.len() == 0 {
        Seq::empty()
    } else {
        seq![
            crate::discovery::findings::FindingView {
                code: "scan.mac_multiple_addresses"@,
                severity: Severity::Warning,
                summary: crate::text::decimal(evidence.len()) + MULTI_TAIL@,
                evidence,
            },
        ]
    }
}

/// Identified, and without a lease from this router.
pub open spec fn unmanaged(h: ScanHost, leases: Seq<DhcpLease>) -> bool {
    identified(h) && !crate::discovery::findings::leased(leases, h.mac@)
}

pub open spec fn host_line(h: ScanHost) -> Seq<char> {
    h.address@ + " ("@ + h.mac@ + ") — "@ + (if h.dns@.len() > 0 {
        h.dns@
    } else if h.netbios@.len() > 0 {
        h.netbios@
    } else {
        "unidentified"@
    })
}

pub open spec fn unmanaged_of(hosts: Seq<ScanHost>, leases: Seq<DhcpLease>) -> Seq<
    crate::discovery::findings::FindingView,
> {
    let evidence = crate::discovery::group::lines(
        hosts,
        |h: ScanHost| unmanaged(h, leases),
        |h: ScanHost| host_line(h),
    );
    if leases.len() == 0 || evidence.len() == 0 {
        Seq::empty()
    } else {
        seq![
            crate::discovery::findings::FindingView {
                code: "scan.unmanaged_host"@,
                severity: Severity::Info,
                summary: crate::text::decimal(evidence.len()) + UNMANAGED_TAIL@,
                evidence,
            },
        ]
    }
}

/// Everything that a scan says against what DHCP knows.
pub open spec fn scan_findings(hosts: Seq<ScanHost>, leases: Seq<DhcpLease>) -> Seq<
    crate::discovery::findings::FindingView,
> {
    multiple_of(hosts) + unmanaged_of(hosts, leases)
}

fn addresses_for(hosts: &[ScanHost], mac: &str) -> (r: Vec<String>)
    ensures
        crate::text::views(r@) == addresses_of(hosts@, mac@),
{
    let mut at: Vec<String> = Vec::new();
    let mut i: usize = 0;
    proof {
        crate::discovery::group::lemma_take_ends(hosts@);
        assert(crate::text::views(at@) =~= Seq::empty());
    }
    while i < hosts.len()
        invariant
            i <= hosts@.len(),
            crate::text::views(at@) == addresses_of(hosts@.take(i as int), mac@),
        decreases hosts@.len() - i,
    {
        broadcast use crate::text::lemma_views_push;

        proof {
            crate::discovery::group::lemma_take_step(hosts@, i as int);
        }
        let h = &hosts[i];
        if !h.mac.as_str().is_empty() && same(h.mac.as_str(), mac) {
            let line = h.address.clone();
            at.push(line);
        }
        i = i + 1;
    }
    proof {
        crate::discovery::group::lemma_take_ends(hosts@);
    }
    at
}

/// One MAC on several addresses is usually a device that changed address
/// without releasing, and it makes lease accounting and per-device policy
/// wrong until it ages out.
fn multiple_addresses(hosts: &[ScanHost]) -> (r: Vec<Finding>)
    ensures
        crate::discovery::findings::said(r@) == multiple_of(hosts@),
{
    let mut macs: Vec<String> = Vec::new();
    let mut i: usize = 0;
    proof {
        crate::discovery::group::lemma_take_ends(hosts@);
        assert(crate::text::views(macs@) =~= Seq::empty());
    }
    while i < hosts.len()
        invariant
            i <= hosts@.len(),
            crate::text::views(macs@) == crate::discovery::group::names_of(
                hosts@.take(i as int),
                |h: ScanHost| identified(h),
                |h: ScanHost| h.mac@,
            ),
        decreases hosts@.len() - i,
    {
        proof {
            crate::discovery::group::lemma_take_step(hosts@, i as int);
        }
        if !hosts[i].mac.as_str().is_empty() {
            add_name(&mut macs, hosts[i].mac.as_str());
        }
        i = i + 1;
    }
    let ghost names = crate::text::views(macs@);
    let mut evidence: Vec<String> = Vec::new();
    let mut k: usize = 0;
    proof {
        crate::discovery::group::lemma_take_ends(hosts@);
        crate::discovery::group::lemma_take_ends(names);
        assert(crate::text::views(evidence@) =~= Seq::empty());
    }
    while k < macs.len()
        invariant
            k <= macs@.len(),
            names == crate::text::views(macs@),
            crate::text::views(evidence@) == multi_lines(hosts@, names.take(k as int)),
        decreases macs@.len() - k,
    {
        broadcast use crate::text::lemma_views_push;

        proof {
            crate::discovery::group::lemma_take_step(names, k as int);
        }
        let at = addresses_for(hosts, macs[k].as_str());
        if at.len() > 1 {
            let mut t = macs[k].clone();
            t.append(" at ");
            let addresses = join(&at, ", ");
            t.append(addresses.as_str());
            evidence.push(t);
        }
        k = k + 1;
    }
    proof {
        crate::discovery::group::lemma_take_ends(names);
    }
    let mut summary = to_decimal(evidence.len() as u128);
    summary.append(MULTI_TAIL);
    one("scan.mac_multiple_addresses", Severity::Warning, summary, evidence)
}

fn unmanaged_hosts(hosts: &[ScanHost], leases: &[DhcpLease]) -> (r: Vec<Finding>)
    ensures
        crate::discovery::findings::said(r@) == unmanaged_of(hosts@, leases@),
{
    if leases.len() == 0 {
        let none: Vec<Finding> = Vec::new();
        proof {
            assert(crate::discovery::findings::said(none@) =~= Seq::empty());
        }
        return none;
    }
    let mut evidence: Vec<String> = Vec::new();
    let mut i: usize = 0;
    proof {
        crate::discovery::group::lemma_take_ends(hosts@);
        assert(crate::text::views(evidence@) =~= Seq::empty());
    }
    while i < hosts.len()
        invariant
            i <= hosts@.len(),
            crate::text::views(evidence@) == crate::discovery::group::lines(
                hosts@.take(i as int),
                |h: ScanHost| unmanaged(h, leases@),
                |h: ScanHost| host_line(h),
            ),
        decreases hosts@.len() - i,
    {
        broadcast use crate::text::lemma_views_push;

        proof {
            crate::discovery::group::lemma_take_step(hosts@, i as int);
        }
        let h = &hosts[i];
        if !h.mac.as_str().is_empty() && !has_lease(leases, h.mac.as_str()) {
            let mut t = h.address.clone();
            t.append(" (");
            t.append(h.mac.as_str());
            t.append(") — ");
            if !h.dns.as_str().is_empty() {
                t.append(h.dns.as_str());
            } else if !h.netbios.as_str().is_empty() {
                t.append(h.netbios.as_str());
            } else {
                t.append("unidentified");
            }
            evidence.push(t);
        }
        i = i + 1;
    }
    proof {
        crate::discovery::group::lemma_take_ends(hosts@);
    }
    let mut summary = to_decimal(evidence.len() as u128);
    summary.append(UNMANAGED_TAIL);
    one("scan.unmanaged_host", Severity::Info, summary, evidence)
}

/// Analyse an IP scan against what DHCP knows about.
pub fn analyse_scan(hosts: &[ScanHost], leases: &[DhcpLease]) -> (r: Vec<Finding>)
    ensures
        crate::discovery::findings::said(r@) == scan_findings(hosts@, leases@),
{
    let mut out = multiple_addresses(hosts);
    extend(&mut out, unmanaged_hosts(hosts, leases));
    out
}

/// A hop that answers slowly is not reported: a rise is named only when the
/// destination is at most one step faster than the hop where it appears.
pub proof fn law_a_named_rise_reaches_the_destination(path: Seq<Hop>, n: int)
    requires
        0 <= n <= path.len(),
    ensures
        steepest(path, n) matches Some(i) ==> {
            &&& 1 <= i < n
            &&& persists(path, i)
            &&& forall|j: int| 1 <= j < n && #[trigger] persists(path, j) ==> rise(path, j) <= rise(
                path,
                i,
            )
        },
        steepest(path, n) is None ==> forall|j: int| 1 <= j < n ==> !#[trigger] persists(path, j),
    decreases n,
{
    if n >= 2 {
        law_a_named_rise_reaches_the_destination(path, n - 1);
    }
}

/// Loss on the way that does not reach the destination is never reported.
pub proof fn law_loss_must_reach_the_destination(path: Seq<Hop>, target: Seq<char>)
    requires
        path.len() > 0,
        path.last().loss < REAL_LOSS,
    ensures
        loss_of(path, target).len() == 0,
{
}

/// Every hop from `i` to the destination has real loss.
pub open spec fn stays_lossy(path: Seq<Hop>, i: int) -> bool {
    forall|j: int| i <= j < path.len() ==> (#[trigger] path[j]).loss >= REAL_LOSS
}

/// The hop that loss is put down to is where it begins and stays: every hop from
/// there to the destination has real loss, the one before has none, and no
/// earlier hop could be named.
pub proof fn law_the_named_loss_persists(path: Seq<Hop>)
    ensures
        0 <= loss_onset(path) <= path.len(),
        stays_lossy(path, loss_onset(path)),
        loss_onset(path) > 0 ==> path[loss_onset(path) - 1].loss < REAL_LOSS,
        forall|i: int|
            0 <= i <= path.len() && #[trigger] stays_lossy(path, i) ==> loss_onset(path) <= i,
    decreases path.len(),
{
    if path.len() > 0 && path.last().loss >= REAL_LOSS {
        let rest = path.drop_last();
        law_the_named_loss_persists(rest);
        let k = loss_onset(rest);
        assert forall|j: int| k <= j < path.len() implies (#[trigger] path[j]).loss >= REAL_LOSS by {
            if j < rest.len() {
                assert(rest[j] == path[j]);
            }
        }
        if k > 0 {
            assert(rest[k - 1] == path[k - 1]);
        }
    }
    let k = loss_onset(path);
    assert forall|i: int| 0 <= i <= path.len() && #[trigger] stays_lossy(path, i) implies k <= i by {
        if i < k {
            assert(path[k - 1].loss >= REAL_LOSS);
        }
    }
}

} // verus!
