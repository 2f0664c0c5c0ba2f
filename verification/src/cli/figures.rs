//! What the probes, the bandwidth test and the captures report, as lines of
//! text and as JSON.

use vstd::prelude::*;
use vstd::string::StringExecFns;

use crate::agent::report::metrics_json;
use crate::collector::stats::{DscpStats, JitterStats, LossStats, ProbeMetrics, RttStats};
use crate::discovery::capture::{
    rank_frames, Capture, HostTraffic, ProtocolTraffic, Tallied, TalliedView, Tally, WirelessFrame,
};
use crate::discovery::findings::Finding;
use crate::json::Json;
use crate::json::JsonView;
use crate::round::round_div;
use crate::routeros::btest::{BtestResult, CpuVerdict, Direction, Protocol};
use crate::text::{
    push_decimal, push_decimal_int, push_fixed, push_hex, push_left, push_right, same, to_decimal,
    to_thousandths,
};

verus! {

broadcast use vstd::string::group_string_axioms;

// ---------------------------------------------------------------------------
// Probes
// ---------------------------------------------------------------------------

/// Microseconds as milliseconds, with three decimals.
pub open spec fn in_millis(us: nat) -> Seq<char> {
    let rest = us % 1000;
    crate::text::decimal(us / 1000) + "."@ + crate::text::decimal(rest / 100)
        + crate::text::decimal(rest / 10 % 10) + crate::text::decimal(rest % 10)
}

fn ms(us: u64) -> (r: String)
    ensures
        r@ == in_millis(us as nat),
{
    let rest: u64 = us % 1000;
    let mut t = to_decimal((us / 1000) as u128);
    t.append(".");
    push_decimal(&mut t, (rest / 100) as u128);
    push_decimal(&mut t, (rest / 10 % 10) as u128);
    push_decimal(&mut t, (rest % 10) as u128);
    t
}

pub open spec fn rtt_lines(v: Option<RttStats>) -> Seq<Seq<char>> {
    match v {
        Some(r) => seq![
            "RTT       min "@ + in_millis(r.min_us as nat) + " ms  avg "@ + in_millis(
                r.avg_us as nat,
            ) + " ms  max "@ + in_millis(r.max_us as nat) + " ms  stddev "@ + in_millis(
                r.stddev_us as nat,
            ) + " ms"@,
            "          p50 "@ + in_millis(r.p50_us as nat) + " ms  p95 "@ + in_millis(
                r.p95_us as nat,
            ) + " ms  p99 "@ + in_millis(r.p99_us as nat) + " ms"@,
        ],
        None => seq!["RTT       no replies"@],
    }
}

fn put(t: &mut String, words: &str, us: u64)
    ensures
        final(t)@ == old(t)@ + words@ + in_millis(us as nat),
{
    t.append(words);
    t.append(ms(us).as_str());
}

pub open spec fn jitter_line(v: Option<JitterStats>) -> Seq<char> {
    match v {
        Some(j) => "Jitter    IPDV avg "@ + in_millis(j.ipdv_avg_us as nat) + " ms  PDV p95 "@
            + in_millis(j.pdv_p95_us as nat) + " ms"@,
        None => "Jitter    insufficient data"@,
    }
}

/// A percentage with two decimals.
pub open spec fn in_percent(hundredths: nat) -> Seq<char> {
    crate::text::decimal(hundredths / 100) + "."@ + crate::text::decimal(hundredths / 10 % 10)
        + crate::text::decimal(hundredths % 10)
}

/// How many packets did not come back.
pub open spec fn missing(l: LossStats) -> nat {
    if l.received <= l.sent {
        (l.sent - l.received) as nat
    } else {
        0
    }
}

pub open spec fn loss_line(l: LossStats) -> Seq<char> {
    "Loss      "@ + crate::text::decimal(missing(l)) + "/"@ + crate::text::decimal(l.sent as nat)
        + " lost ("@ + in_percent(l.loss_pct.hundredths as nat) + "%)"@ + (if l.forward_lost > 0
        || l.reverse_lost > 0 {
        "  [forward "@ + crate::text::decimal(l.forward_lost as nat) + " · reverse "@
            + crate::text::decimal(l.reverse_lost as nat) + "]"@
    } else {
        ""@
    }) + (if l.unknown_direction > 0 {
        "  ["@ + crate::text::decimal(l.unknown_direction as nat) + " undetermined]"@
    } else {
        ""@
    })
}

fn show_loss(l: &LossStats) -> (t: String)
    ensures
        t@ == loss_line(*l),
{
    let mut t = "Loss      ".to_owned();
    let gone: u32 = if l.received <= l.sent {
        l.sent - l.received
    } else {
        0
    };
    push_decimal(&mut t, gone as u128);
    t.append("/");
    push_decimal(&mut t, l.sent as u128);
    t.append(" lost (");
    let h: u64 = l.loss_pct.hundredths;
    let mut pct = to_decimal((h / 100) as u128);
    pct.append(".");
    push_decimal(&mut pct, (h / 10 % 10) as u128);
    push_decimal(&mut pct, (h % 10) as u128);
    t.append(pct.as_str());
    t.append("%)");
    let mut directions = "".to_owned();
    if l.forward_lost > 0 || l.reverse_lost > 0 {
        directions = "  [forward ".to_owned();
        push_decimal(&mut directions, l.forward_lost as u128);
        directions.append(" · reverse ");
        push_decimal(&mut directions, l.reverse_lost as u128);
        directions.append("]");
    }
    t.append(directions.as_str());
    let mut open = "".to_owned();
    if l.unknown_direction > 0 {
        open = "  [".to_owned();
        push_decimal(&mut open, l.unknown_direction as u128);
        open.append(" undetermined]");
    }
    t.append(open.as_str());
    t
}

/// A percentage with one decimal, to the nearest with ties to even.
pub open spec fn in_tenths(hundredths: nat) -> Seq<char> {
    let tenths = crate::round::rounded_quotient(hundredths, 10);
    crate::text::decimal(tenths / 10) + "."@ + crate::text::decimal(tenths % 10)
}

fn show_tenths(hundredths: u64) -> (r: String)
    ensures
        r@ == in_tenths(hundredths as nat),
{
    let tenths: u128 = round_div(hundredths as u128, 10);
    let mut t = to_decimal(tenths / 10);
    t.append(".");
    push_decimal(&mut t, tenths % 10);
    t
}

pub open spec fn dscp_line(v: Option<DscpStats>) -> Seq<char> {
    match v {
        Some(d) => "DSCP      requested "@ + crate::text::decimal(d.requested as nat)
            + "  observed "@ + crate::text::decimal(d.observed_mode as nat) + "  conformant "@
            + in_tenths(d.conformant_pct.hundredths as nat) + "%"@,
        None => "DSCP      not echoed by peer"@,
    }
}

pub open spec fn order_line(m: ProbeMetrics) -> Seq<char> {
    "Order     "@ + crate::text::decimal(m.reorder.reordered as nat)
        + " reordered (max displacement "@ + crate::text::decimal(
        m.reorder.max_displacement as nat,
    ) + ")  "@ + crate::text::decimal(m.reorder.duplicated as nat) + " duplicated"@
}

pub open spec fn probe_lines(m: ProbeMetrics) -> Seq<Seq<char>> {
    (seq![""@] + rtt_lines(m.rtt)).push(jitter_line(m.jitter)).push(loss_line(m.loss)).push(
        order_line(m),
    ).push(dscp_line(m.dscp))
}

/// The figures of a run.
pub fn probe_report(m: &ProbeMetrics) -> (r: Vec<String>)
    ensures
        crate::text::views(r@) == probe_lines(*m),
{
    broadcast use crate::text::lemma_views_push;

    let mut out: Vec<String> = Vec::new();
    out.push("".to_owned());
    match &m.rtt {
        Some(r) => {
            let mut a = "".to_owned();
            put(&mut a, "RTT       min ", r.min_us);
            put(&mut a, " ms  avg ", r.avg_us);
            put(&mut a, " ms  max ", r.max_us);
            put(&mut a, " ms  stddev ", r.stddev_us);
            a.append(" ms");
            let mut b = "".to_owned();
            put(&mut b, "          p50 ", r.p50_us);
            put(&mut b, " ms  p95 ", r.p95_us);
            put(&mut b, " ms  p99 ", r.p99_us);
            b.append(" ms");
            proof {
                reveal_strlit("");
                assert(a@ =~= rtt_lines(m.rtt)[0]);
                assert(b@ =~= rtt_lines(m.rtt)[1]);
            }
            out.push(a);
            out.push(b);
        },
        None => {
            out.push("RTT       no replies".to_owned());
        },
    }
    proof {
        assert(crate::text::views(out@) =~= seq![""@] + rtt_lines(m.rtt));
    }
    match &m.jitter {
        Some(j) => {
            let mut t = "Jitter    IPDV avg ".to_owned();
            t.append(ms(j.ipdv_avg_us).as_str());
            t.append(" ms  PDV p95 ");
            t.append(ms(j.pdv_p95_us).as_str());
            t.append(" ms");
            out.push(t);
        },
        None => {
            out.push("Jitter    insufficient data".to_owned());
        },
    }
    out.push(show_loss(&m.loss));
    let mut order = "Order     ".to_owned();
    push_decimal(&mut order, m.reorder.reordered as u128);
    order.append(" reordered (max displacement ");
    push_decimal(&mut order, m.reorder.max_displacement as u128);
    order.append(")  ");
    push_decimal(&mut order, m.reorder.duplicated as u128);
    order.append(" duplicated");
    out.push(order);
    match &m.dscp {
        Some(d) => {
            let mut t = "DSCP      requested ".to_owned();
            push_decimal(&mut t, d.requested as u128);
            t.append("  observed ");
            push_decimal(&mut t, d.observed_mode as u128);
            t.append("  conformant ");
            t.append(show_tenths(d.conformant_pct.hundredths).as_str());
            t.append("%");
            out.push(t);
        },
        None => {
            out.push("DSCP      not echoed by peer".to_owned());
        },
    }
    out
}

/// Without this the operator would read a gentler-than-requested test as if it
/// had run at the configured rate.
pub open spec fn late_lines(late: nat) -> Seq<Seq<char>> {
    if late == 0 {
        Seq::empty()
    } else {
        seq![
            ""@,
            "Note: "@ + crate::text::decimal(late)
                + " send ticks were late — this device could not sustain the"@,
            "      requested rate, so the offered load was lower than configured."@,
        ]
    }
}

pub fn late_note(late: u32) -> (r: Vec<String>)
    ensures
        crate::text::views(r@) == late_lines(late as nat),
{
    broadcast use crate::text::lemma_views_push;

    let mut out: Vec<String> = Vec::new();
    if late > 0 {
        out.push("".to_owned());
        let mut t = "Note: ".to_owned();
        push_decimal(&mut t, late as u128);
        t.append(" send ticks were late — this device could not sustain the");
        out.push(t);
        out.push("      requested rate, so the offered load was lower than configured.".to_owned());
    }
    proof {
        assert(crate::text::views(out@) =~= late_lines(late as nat));
    }
    out
}

/// A run where nothing came back is a successful measurement of a broken path,
/// but scripts need to tell it from a healthy one.
pub fn came_back(m: &ProbeMetrics) -> (r: bool)
    ensures
        r == (m.loss.received > 0),
{
    m.loss.received > 0
}

/// What a probe reports. `peer` is the address that was probed, `mos` the voice
/// score, or null where there is none.
pub fn probe_json(peer: &str, session: u64, m: &ProbeMetrics, mos: Json, late: u32) -> (r: Json)
    ensures
        r@ == JsonView::Object(Seq::empty()).put("peer"@, JsonView::Text(peer@)).put(
            "session_id"@,
            JsonView::Text(crate::text::hex(session as nat, 16, false)),
        ).put("metrics"@, crate::agent::report::metrics_value(*m)).put("mos"@, mos@).put(
            "late_ticks"@,
            JsonView::Number(crate::text::decimal(late as nat)),
        ),
{
    let mut id = String::new();
    push_hex(&mut id, session, 16, false);
    proof {
        assert(id@ =~= crate::text::hex(session as nat, 16, false));
    }
    Json::object().with("peer", Json::text(peer)).with("session_id", Json::text(id.as_str())).with(
        "metrics",
        metrics_json(m),
    ).with("mos", mos).with("late_ticks", Json::number(late as u64))
}

/// What a TWAMP probe reports.
pub fn twamp_json(peer: &str, m: &ProbeMetrics, mos: Json, late: u32, claims_sync: bool) -> (r: Json)
    ensures
        r@ == JsonView::Object(Seq::empty()).put("protocol"@, JsonView::Text("twamp-light"@)).put(
            "peer"@,
            JsonView::Text(peer@),
        ).put("metrics"@, crate::agent::report::metrics_value(*m)).put("mos"@, mos@).put(
            "late_ticks"@,
            JsonView::Number(crate::text::decimal(late as nat)),
        ).put("responder_claims_synchronised_clock"@, JsonView::Bool(claims_sync)),
{
    Json::object().with("protocol", Json::text("twamp-light")).with("peer", Json::text(peer)).with(
        "metrics",
        metrics_json(m),
    ).with("mos", mos).with("late_ticks", Json::number(late as u64)).with(
        "responder_claims_synchronised_clock",
        Json::Bool(claims_sync),
    )
}

// ---------------------------------------------------------------------------
// Bandwidth test
// ---------------------------------------------------------------------------

/// The verdict is the part that stops a CPU-bound number being read as a link
/// speed.
pub open spec fn verdict_text(v: CpuVerdict) -> Seq<char> {
    match v {
        CpuVerdict::LinkLimited => "link-limited — the router had headroom"@,
        CpuVerdict::RouterContributing => "router contributed to the ceiling"@,
        CpuVerdict::RouterLimited => "ROUTER-LIMITED — this measures the router, not the link"@,
    }
}

pub fn verdict_words(v: CpuVerdict) -> (r: &'static str)
    ensures
        r@ == verdict_text(v),
{
    match v {
        CpuVerdict::LinkLimited => "link-limited — the router had headroom",
        CpuVerdict::RouterContributing => "router contributed to the ceiling",
        CpuVerdict::RouterLimited => "ROUTER-LIMITED — this measures the router, not the link",
    }
}

/// A rate in Mbit/s with one decimal, to the nearest with ties to even.
pub open spec fn in_megabits(bps: nat) -> Seq<char> {
    let tenths = crate::round::rounded_quotient(bps, 100_000);
    crate::text::decimal(tenths / 10) + "."@ + crate::text::decimal(tenths % 10) + " Mbit/s"@
}

fn push_megabits(t: &mut String, bps: u64)
    ensures
        final(t)@ == old(t)@ + in_megabits(bps as nat),
{
    let tenths: u128 = round_div(bps as u128, 100_000);
    let ghost start = t@;
    push_decimal(t, tenths / 10);
    t.append(".");
    push_decimal(t, tenths % 10);
    t.append(" Mbit/s");
    proof {
        assert(t@ =~= start + in_megabits(bps as nat));
    }
}

/// A line for a figure, where there is one.
pub open spec fn line_for(label: Seq<char>, v: Option<Seq<char>>) -> Seq<Seq<char>> {
    match v {
        Some(s) => seq![label + s],
        None => Seq::empty(),
    }
}

pub open spec fn rate_text(v: Option<u64>) -> Option<Seq<char>> {
    match v {
        Some(bps) => Some(in_megabits(bps as nat)),
        None => None,
    }
}

pub open spec fn count_text(v: Option<u64>) -> Option<Seq<char>> {
    match v {
        Some(n) => Some(crate::text::decimal(n as nat)),
        None => None,
    }
}

/// How busy the routers were; nothing without a figure of the near one.
pub open spec fn cpu_text(local: Option<u8>, remote: Option<u8>) -> Option<Seq<char>> {
    match local {
        None => None,
        Some(c) => Some(
            match remote {
                None => crate::text::decimal(c as nat) + "%"@,
                Some(far) => crate::text::decimal(c as nat) + "%"@ + ", remote "@
                    + crate::text::decimal(far as nat) + "%"@,
            },
        ),
    }
}

pub open spec fn btest_lines(b: BtestResult) -> Seq<Seq<char>> {
    seq![""@] + line_for("  download (rx)  "@, rate_text(b.rx_bps)) + line_for(
        "  upload   (tx)  "@,
        rate_text(b.tx_bps),
    ) + seq!["  duration       "@ + crate::text::decimal(b.duration_s as nat) + "s"@] + line_for(
        "  CPU            local "@,
        cpu_text(b.local_cpu_load, b.remote_cpu_load),
    ) + line_for("  lost packets   "@, count_text(b.lost_packets)) + line_for(
        "  connections    "@,
        count_text(wide(b.connection_count)),
    ) + seq!["  measured by    "@ + b.source@, "  verdict        "@ + verdict_text(b.cpu_verdict)]
}

fn add_rate(out: &mut Vec<String>, label: &str, v: Option<u64>)
    ensures
        crate::text::views(final(out)@) == crate::text::views(old(out)@) + line_for(
            label@,
            rate_text(v),
        ),
{
    broadcast use crate::text::lemma_views_push;

    let ghost start = crate::text::views(out@);
    if let Some(bps) = v {
        let mut t = label.to_owned();
        push_megabits(&mut t, bps);
        out.push(t);
    }
    proof {
        assert(crate::text::views(out@) =~= start + line_for(label@, rate_text(v)));
    }
}

fn add_count(out: &mut Vec<String>, label: &str, v: Option<u64>)
    ensures
        crate::text::views(final(out)@) == crate::text::views(old(out)@) + line_for(
            label@,
            count_text(v),
        ),
{
    broadcast use crate::text::lemma_views_push;

    let ghost start = crate::text::views(out@);
    if let Some(n) = v {
        let mut t = label.to_owned();
        push_decimal(&mut t, n as u128);
        out.push(t);
    }
    proof {
        assert(crate::text::views(out@) =~= start + line_for(label@, count_text(v)));
    }
}

fn add_cpu(out: &mut Vec<String>, local: Option<u8>, remote: Option<u8>)
    ensures
        crate::text::views(final(out)@) == crate::text::views(old(out)@) + line_for(
            "  CPU            local "@,
            cpu_text(local, remote),
        ),
{
    broadcast use crate::text::lemma_views_push;

    let ghost start = crate::text::views(out@);
    if let Some(c) = local {
        let mut t = "  CPU            local ".to_owned();
        push_decimal(&mut t, c as u128);
        t.append("%");
        if let Some(far) = remote {
            t.append(", remote ");
            push_decimal(&mut t, far as u128);
            t.append("%");
        }
        proof {
            assert(t@ =~= "  CPU            local "@ + cpu_text(local, remote)->0);
        }
        out.push(t);
    }
    proof {
        assert(crate::text::views(out@) =~= start + line_for(
            "  CPU            local "@,
            cpu_text(local, remote),
        ));
    }
}

/// What a bandwidth test came to, and what is to be said of it.
pub fn btest_report(b: &BtestResult) -> (r: Vec<String>)
    ensures
        crate::text::views(r@) == with_notes(btest_lines(*b), b.notes@),
{
    broadcast use crate::text::lemma_views_push;

    let mut out: Vec<String> = Vec::new();
    out.push("".to_owned());
    proof {
        assert(crate::text::views(out@) =~= seq![""@]);
    }
    add_rate(&mut out, "  download (rx)  ", b.rx_bps);
    add_rate(&mut out, "  upload   (tx)  ", b.tx_bps);
    let ghost before = crate::text::views(out@);
    let mut span = "  duration       ".to_owned();
    push_decimal(&mut span, b.duration_s as u128);
    span.append("s");
    out.push(span);
    proof {
        assert(crate::text::views(out@) =~= before + seq![
            "  duration       "@ + crate::text::decimal(b.duration_s as nat) + "s"@,
        ]);
    }
    add_cpu(&mut out, b.local_cpu_load, b.remote_cpu_load);
    add_count(&mut out, "  lost packets   ", b.lost_packets);
    add_count(&mut out, "  connections    ", widen(b.connection_count));
    let ghost before = crate::text::views(out@);
    let mut source = "  measured by    ".to_owned();
    source.append(b.source);
    out.push(source);
    let mut verdict = "  verdict        ".to_owned();
    verdict.append(verdict_words(b.cpu_verdict));
    out.push(verdict);
    proof {
        assert(crate::text::views(out@) =~= before + seq![
            "  measured by    "@ + b.source@,
            "  verdict        "@ + verdict_text(b.cpu_verdict),
        ]);
        assert(crate::text::views(out@) =~= btest_lines(*b));
    }
    add_notes(&mut out, &b.notes);
    out
}

pub open spec fn optional(v: Option<u64>) -> JsonView {
    match v {
        Some(n) => JsonView::Number(crate::text::decimal(n as nat)),
        None => JsonView::Null,
    }
}

fn number_or_null(v: Option<u64>) -> (r: Json)
    ensures
        r@ == optional(v),
{
    match v {
        Some(n) => Json::number(n),
        None => Json::Null,
    }
}

pub open spec fn wide(v: Option<u32>) -> Option<u64> {
    match v {
        Some(n) => Some(n as u64),
        None => None,
    }
}

pub open spec fn widened(v: Option<u8>) -> Option<u64> {
    match v {
        Some(n) => Some(n as u64),
        None => None,
    }
}

fn widen(v: Option<u32>) -> (r: Option<u64>)
    ensures
        r == wide(v),
{
    match v {
        Some(n) => Some(n as u64),
        None => None,
    }
}

fn widen_byte(v: Option<u8>) -> (r: Option<u64>)
    ensures
        r == widened(v),
{
    match v {
        Some(n) => Some(n as u64),
        None => None,
    }
}

pub open spec fn btest_value(b: BtestResult) -> JsonView {
    JsonView::Object(Seq::empty()).put(
        "protocol"@,
        JsonView::Text(
            match b.protocol {
                Protocol::Tcp => "tcp"@,
                Protocol::Udp => "udp"@,
            },
        ),
    ).put(
        "direction"@,
        JsonView::Text(
            match b.direction {
                Direction::Receive => "receive"@,
                Direction::Transmit => "transmit"@,
                Direction::Both => "both"@,
            },
        ),
    ).put("tx_bps"@, optional(b.tx_bps)).put("rx_bps"@, optional(b.rx_bps)).put(
        "duration_s"@,
        JsonView::Number(crate::text::decimal(b.duration_s as nat)),
    ).put("local_cpu_load"@, optional(widened(b.local_cpu_load))).put(
        "remote_cpu_load"@,
        optional(widened(b.remote_cpu_load)),
    ).put("lost_packets"@, optional(b.lost_packets)).put(
        "connection_count"@,
        optional(wide(b.connection_count)),
    ).put("status"@, JsonView::Text(b.status@)).put(
        "cpu_verdict"@,
        JsonView::Text(
            match b.cpu_verdict {
                CpuVerdict::LinkLimited => "link_limited"@,
                CpuVerdict::RouterContributing => "router_contributing"@,
                CpuVerdict::RouterLimited => "router_limited"@,
            },
        ),
    ).put(
        "notes"@,
        JsonView::List(
            Seq::new(b.notes@.len(), |i: int| JsonView::Text(crate::text::views(b.notes@)[i])),
        ),
    ).put("source"@, JsonView::Text(b.source@))
}

pub fn btest_json(b: &BtestResult) -> (r: Json)
    ensures
        r@ == btest_value(*b),
{
    let protocol = match b.protocol {
        Protocol::Tcp => "tcp",
        Protocol::Udp => "udp",
    };
    let direction = match b.direction {
        Direction::Receive => "receive",
        Direction::Transmit => "transmit",
        Direction::Both => "both",
    };
    let verdict = match b.cpu_verdict {
        CpuVerdict::LinkLimited => "link_limited",
        CpuVerdict::RouterContributing => "router_contributing",
        CpuVerdict::RouterLimited => "router_limited",
    };
    Json::object().with("protocol", Json::text(protocol)).with(
        "direction",
        Json::text(direction),
    ).with("tx_bps", number_or_null(b.tx_bps)).with("rx_bps", number_or_null(b.rx_bps)).with(
        "duration_s",
        Json::number(b.duration_s),
    ).with("local_cpu_load", number_or_null(widen_byte(b.local_cpu_load))).with(
        "remote_cpu_load",
        number_or_null(widen_byte(b.remote_cpu_load)),
    ).with("lost_packets", number_or_null(b.lost_packets)).with(
        "connection_count",
        number_or_null(widen(b.connection_count)),
    ).with("status", Json::text(b.status.as_str())).with("cpu_verdict", Json::text(verdict)).with(
        "notes",
        Json::texts(&b.notes),
    ).with("source", Json::text(b.source))
}

// ---------------------------------------------------------------------------
// Captures
// ---------------------------------------------------------------------------

/// How many transmitters, hosts and protocols are listed.
pub const TOP_TRANSMITTERS: usize = 8;

pub const TOP_HOSTS: usize = 12;

pub const TOP_PROTOCOLS: usize = 6;

/// The signals of the frames that `src` sent, added up.
pub open spec fn signal_sum(frames: Seq<WirelessFrame>, src: Seq<char>) -> int
    decreases frames.len(),
{
    if frames.len() == 0 {
        0
    } else {
        signal_sum(frames.drop_last(), src) + (if frames.last().src@ == src {
            frames.last().signal_dbm as int
        } else {
            0
        })
    }
}

pub open spec fn frames_from(frames: Seq<WirelessFrame>, src: Seq<char>) -> nat
    decreases frames.len(),
{
    if frames.len() == 0 {
        0
    } else {
        frames_from(frames.drop_last(), src) + (if frames.last().src@ == src {
            1nat
        } else {
            0
        })
    }
}

/// `a / b`, towards zero.
pub open spec fn towards_zero(a: int, b: int) -> int {
    if a < 0 {
        -((-a) / b)
    } else {
        a / b
    }
}

/// The average signal of the frames that `src` sent, in whole dBm.
pub open spec fn average_signal(frames: Seq<WirelessFrame>, src: Seq<char>) -> int {
    if frames_from(frames, src) == 0 {
        0
    } else {
        towards_zero(signal_sum(frames, src), frames_from(frames, src) as int)
    }
}

pub fn mean_signal(frames: &Vec<WirelessFrame>, src: &str) -> (r: i32)
    ensures
        r == average_signal(frames@, src@),
{
    let mut sum: i128 = 0;
    let mut n: u64 = 0;
    let mut i: usize = 0;
    proof {
        crate::discovery::group::lemma_take_ends(frames@);
    }
    while i < frames.len()
        invariant
            i <= frames@.len(),
            n <= i,
            sum == signal_sum(frames@.take(i as int), src@),
            n == frames_from(frames@.take(i as int), src@),
            -(n * 0x8000_0000) <= sum <= n * 0x7FFF_FFFF,
        decreases frames@.len() - i,
    {
        proof {
            crate::discovery::group::lemma_take_step(frames@, i as int);
        }
        if same(frames[i].src.as_str(), src) {
            sum = sum + frames[i].signal_dbm as i128;
            n = n + 1;
        }
        i = i + 1;
    }
    if n == 0 {
        return 0;
    }
    if sum < 0 {
        let q: u128 = ((-sum) as u128) / (n as u128);
        proof {
            assert(q <= 0x8000_0000) by (nonlinear_arith)
                requires
                    q == ((-sum) as u128) / (n as u128),
                    0 <= -sum <= n * 0x8000_0000,
                    n > 0,
            ;
        }
        (-(q as i64)) as i32
    } else {
        let q: u128 = (sum as u128) / (n as u128);
        proof {
            assert(q <= 0x7FFF_FFFF) by (nonlinear_arith)
                requires
                    q == (sum as u128) / (n as u128),
                    0 <= sum <= n * 0x7FFF_FFFF,
                    n > 0,
            ;
        }
        q as i32
    }
}

pub open spec fn failed_frames(frames: Seq<WirelessFrame>) -> nat {
    crate::discovery::group::count(frames, |f: WirelessFrame| f.crc_error)
}

fn count_failed(frames: &Vec<WirelessFrame>) -> (r: usize)
    ensures
        r == failed_frames(frames@),
{
    let ghost p = |f: WirelessFrame| f.crc_error;
    let mut n: usize = 0;
    let mut i: usize = 0;
    proof {
        crate::discovery::group::lemma_take_ends(frames@);
    }
    while i < frames.len()
        invariant
            n <= i <= frames@.len(),
            p == (|f: WirelessFrame| f.crc_error),
            n == crate::discovery::group::count(frames@.take(i as int), p),
        decreases frames@.len() - i,
    {
        proof {
            crate::discovery::group::lemma_take_step(frames@, i as int);
        }
        if frames[i].crc_error {
            n = n + 1;
        }
        i = i + 1;
    }
    n
}

pub open spec fn transmitter_line(frames: Seq<WirelessFrame>, t: TalliedView) -> Seq<char> {
    "    "@ + t.name + "  "@ + crate::text::right_of(crate::text::decimal(t.count as nat), 5)
        + " frames  avg "@ + crate::text::decimal_int(average_signal(frames, t.name)) + " dBm"@
}

fn show_transmitter(frames: &Vec<WirelessFrame>, t: &Tallied) -> (r: String)
    ensures
        r@ == transmitter_line(frames@, t@),
{
    let mut s = "    ".to_owned();
    s.append(t.name.as_str());
    s.append("  ");
    let n = to_decimal(t.count as u128);
    push_right(&mut s, n.as_str(), 5);
    s.append(" frames  avg ");
    let avg: i32 = mean_signal(frames, t.name.as_str());
    push_decimal_int(&mut s, avg as i64);
    s.append(" dBm");
    s
}

/// The first `n` of `s`, or all where there are fewer.
pub open spec fn top<A>(s: Seq<A>, n: nat) -> Seq<A> {
    if s.len() <= n {
        s
    } else {
        s.take(n as int)
    }
}

pub open spec fn wireless_lines(c: Capture) -> Seq<Seq<char>> {
    let head = seq![
        ""@,
        crate::text::decimal(c.wireless_frames as nat) + " 802.11 frames captured on "@
            + c.interface@ + " in "@ + crate::text::decimal(c.duration_s as nat) + "s"@,
    ];
    let channel = if c.frames@.len() == 0 {
        head
    } else {
        head.push("  channel        "@ + c.frames@[0].channel@).push(
            "  CRC failures   "@ + crate::text::decimal(failed_frames(c.frames@)) + " of "@
                + crate::text::decimal(c.frames@.len()),
        )
    };
    let ranked = crate::discovery::capture::ranking(c.frames@, Tally::Source);
    if ranked.len() == 0 {
        channel
    } else {
        crate::cli::show::followed(
            channel.push(""@).push("  transmitters (by frame count)"@),
            top(ranked, TOP_TRANSMITTERS as nat),
            |t: TalliedView| transmitter_line(c.frames@, t),
        )
    }
}

fn wireless_report(c: &Capture) -> (r: Vec<String>)
    ensures
        crate::text::views(r@) == wireless_lines(*c),
{
    broadcast use crate::text::lemma_views_push;

    let mut out: Vec<String> = Vec::new();
    out.push("".to_owned());
    let mut t = to_decimal(c.wireless_frames as u128);
    t.append(" 802.11 frames captured on ");
    t.append(c.interface.as_str());
    t.append(" in ");
    push_decimal(&mut t, c.duration_s as u128);
    t.append("s");
    out.push(t);
    let ghost head = seq![
        ""@,
        crate::text::decimal(c.wireless_frames as nat) + " 802.11 frames captured on "@
            + c.interface@ + " in "@ + crate::text::decimal(c.duration_s as nat) + "s"@,
    ];
    proof {
        assert(crate::text::views(out@) =~= head);
    }
    if c.frames.len() > 0 {
        let mut ch = "  channel        ".to_owned();
        ch.append(c.frames[0].channel.as_str());
        out.push(ch);
        let mut crc = "  CRC failures   ".to_owned();
        push_decimal(&mut crc, count_failed(&c.frames) as u128);
        crc.append(" of ");
        push_decimal(&mut crc, c.frames.len() as u128);
        out.push(crc);
    }
    let ranked = rank_frames(&c.frames, Tally::Source);
    let ghost views = crate::discovery::capture::tallied_views(ranked@);
    proof {
        assert(views.len() == ranked@.len());
    }
    if ranked.len() == 0 {
        return out;
    }
    out.push("".to_owned());
    out.push("  transmitters (by frame count)".to_owned());
    let n: usize = if ranked.len() <= TOP_TRANSMITTERS {
        ranked.len()
    } else {
        TOP_TRANSMITTERS
    };
    let ghost a = crate::text::views(out@);
    let ghost line = |t: TalliedView| transmitter_line(c.frames@, t);
    let ghost shown = top(views, TOP_TRANSMITTERS as nat);
    let mut i: usize = 0;
    proof {
        crate::cli::show::lemma_followed_ends(a, shown, line);
    }
    while i < n
        invariant
            i <= n <= ranked@.len(),
            n == shown.len(),
            shown == top(views, TOP_TRANSMITTERS as nat),
            views == crate::discovery::capture::tallied_views(ranked@),
            views.len() == ranked@.len(),
            line == (|t: TalliedView| transmitter_line(c.frames@, t)),
            crate::text::views(out@) == crate::cli::show::followed(a, shown.take(i as int), line),
        decreases n - i,
    {
        broadcast use crate::text::lemma_views_push;

        proof {
            crate::cli::show::lemma_followed_step(a, shown, line, i as int);
            assert(shown[i as int] == views[i as int]);
        }
        out.push(show_transmitter(&c.frames, &ranked[i]));
        i = i + 1;
    }
    out
}

pub open spec fn host_line(h: HostTraffic) -> Seq<char> {
    "  "@ + crate::text::left_of(h.address@, 40) + " tx "@ + crate::text::right_of(
        crate::text::decimal(h.tx_rate_bps as nat),
        10,
    ) + " B/s   rx "@ + crate::text::right_of(crate::text::decimal(h.rx_rate_bps as nat), 10)
        + " B/s"@
}

fn show_host(h: &HostTraffic) -> (r: String)
    ensures
        r@ == host_line(*h),
{
    let mut t = "  ".to_owned();
    push_left(&mut t, h.address.as_str(), 40);
    t.append(" tx ");
    let tx = to_decimal(h.tx_rate_bps as u128);
    push_right(&mut t, tx.as_str(), 10);
    t.append(" B/s   rx ");
    let rx = to_decimal(h.rx_rate_bps as u128);
    push_right(&mut t, rx.as_str(), 10);
    t.append(" B/s");
    t
}

pub open spec fn protocol_line(p: ProtocolTraffic) -> Seq<char> {
    "  "@ + crate::text::left_of(p.protocol@, 16) + " "@ + crate::text::right_of(
        crate::text::decimal(p.bytes as nat),
        12,
    ) + " bytes  "@ + crate::text::right_of(crate::text::fixed(p.share as int, 1), 6) + "%  ("@
        + crate::text::decimal(p.packets as nat) + " packets)"@
}

fn show_protocol(p: &ProtocolTraffic) -> (r: String)
    ensures
        r@ == protocol_line(*p),
{
    let mut t = "  ".to_owned();
    push_left(&mut t, p.protocol.as_str(), 16);
    t.append(" ");
    let bytes = to_decimal(p.bytes as u128);
    push_right(&mut t, bytes.as_str(), 12);
    t.append(" bytes  ");
    let mut share = String::new();
    push_fixed(&mut share, p.share, true);
    proof {
        assert(share@ =~= crate::text::fixed(p.share as int, 1));
    }
    push_right(&mut t, share.as_str(), 6);
    t.append("%  (");
    push_decimal(&mut t, p.packets as u128);
    t.append(" packets)");
    t
}

pub open spec fn packet_lines(c: Capture) -> Seq<Seq<char>> {
    let hosts = crate::cli::show::followed(
        seq![
            ""@,
            crate::text::decimal(c.hosts@.len()) + " hosts seen in "@ + crate::text::decimal(
                c.duration_s as nat,
            ) + "s — busiest first"@,
        ],
        top(c.hosts@, TOP_HOSTS as nat),
        |h: HostTraffic| host_line(h),
    );
    if c.protocols@.len() == 0 {
        hosts
    } else {
        crate::cli::show::followed(
            hosts.push(""@).push("protocols"@),
            top(c.protocols@, TOP_PROTOCOLS as nat),
            |p: ProtocolTraffic| protocol_line(p),
        )
    }
}

fn packet_report(c: &Capture) -> (r: Vec<String>)
    ensures
        crate::text::views(r@) == packet_lines(*c),
{
    broadcast use crate::text::lemma_views_push;

    let mut out: Vec<String> = Vec::new();
    out.push("".to_owned());
    let mut t = to_decimal(c.hosts.len() as u128);
    t.append(" hosts seen in ");
    push_decimal(&mut t, c.duration_s as u128);
    t.append("s — busiest first");
    out.push(t);
    let ghost head = seq![
        ""@,
        crate::text::decimal(c.hosts@.len()) + " hosts seen in "@ + crate::text::decimal(
            c.duration_s as nat,
        ) + "s — busiest first"@,
    ];
    let ghost host = |h: HostTraffic| host_line(h);
    let ghost hosts = top(c.hosts@, TOP_HOSTS as nat);
    let n: usize = if c.hosts.len() <= TOP_HOSTS {
        c.hosts.len()
    } else {
        TOP_HOSTS
    };
    let mut i: usize = 0;
    proof {
        assert(crate::text::views(out@) =~= head);
        crate::cli::show::lemma_followed_ends(head, hosts, host);
    }
    while i < n
        invariant
            i <= n <= c.hosts@.len(),
            n == hosts.len(),
            hosts == top(c.hosts@, TOP_HOSTS as nat),
            host == (|h: HostTraffic| host_line(h)),
            crate::text::views(out@) == crate::cli::show::followed(
                head,
                hosts.take(i as int),
                host,
            ),
        decreases n - i,
    {
        broadcast use crate::text::lemma_views_push;

        proof {
            crate::cli::show::lemma_followed_step(head, hosts, host, i as int);
            assert(hosts[i as int] == c.hosts@[i as int]);
        }
        out.push(show_host(&c.hosts[i]));
        i = i + 1;
    }
    if c.protocols.len() == 0 {
        return out;
    }
    out.push("".to_owned());
    out.push("protocols".to_owned());
    let ghost a = crate::text::views(out@);
    let ghost line = |p: ProtocolTraffic| protocol_line(p);
    let ghost shown = top(c.protocols@, TOP_PROTOCOLS as nat);
    let m: usize = if c.protocols.len() <= TOP_PROTOCOLS {
        c.protocols.len()
    } else {
        TOP_PROTOCOLS
    };
    let mut k: usize = 0;
    proof {
        crate::cli::show::lemma_followed_ends(a, shown, line);
    }
    while k < m
        invariant
            k <= m <= c.protocols@.len(),
            m == shown.len(),
            shown == top(c.protocols@, TOP_PROTOCOLS as nat),
            line == (|p: ProtocolTraffic| protocol_line(p)),
            crate::text::views(out@) == crate::cli::show::followed(a, shown.take(k as int), line),
        decreases m - k,
    {
        broadcast use crate::text::lemma_views_push;

        proof {
            crate::cli::show::lemma_followed_step(a, shown, line, k as int);
            assert(shown[k as int] == c.protocols@[k as int]);
        }
        out.push(show_protocol(&c.protocols[k]));
        k = k + 1;
    }
    out
}

/// Notes, each behind an empty line.
pub open spec fn with_notes(a: Seq<Seq<char>>, notes: Seq<String>) -> Seq<Seq<char>>
    decreases notes.len(),
{
    if notes.len() == 0 {
        a
    } else {
        with_notes(a, notes.drop_last()).push(""@).push("  note: "@ + notes.last()@)
    }
}

/// What a capture saw, and what is to be said of it.
pub fn capture_report(c: &Capture) -> (r: Vec<String>)
    ensures
        crate::text::views(r@) == with_notes(
            if c.used_wireless_sniffer {
                wireless_lines(*c)
            } else {
                packet_lines(*c)
            },
            c.notes@,
        ),
{
    let mut out = if c.used_wireless_sniffer {
        wireless_report(c)
    } else {
        packet_report(c)
    };
    add_notes(&mut out, &c.notes);
    out
}

pub fn add_notes(out: &mut Vec<String>, notes: &Vec<String>)
    ensures
        crate::text::views(final(out)@) == with_notes(crate::text::views(old(out)@), notes@),
{
    let ghost start = crate::text::views(out@);
    let mut i: usize = 0;
    proof {
        crate::discovery::group::lemma_take_ends(notes@);
    }
    while i < notes.len()
        invariant
            i <= notes@.len(),
            crate::text::views(out@) == with_notes(start, notes@.take(i as int)),
        decreases notes@.len() - i,
    {
        broadcast use crate::text::lemma_views_push;

        proof {
            crate::discovery::group::lemma_take_step(notes@, i as int);
        }
        out.push("".to_owned());
        let mut t = "  note: ".to_owned();
        t.append(notes[i].as_str());
        out.push(t);
        i = i + 1;
    }
}

pub open spec fn traffic_value(h: HostTraffic) -> JsonView {
    JsonView::Object(Seq::empty()).put("address"@, JsonView::Text(h.address@)).put(
        "tx_rate_bps"@,
        optional(Some(h.tx_rate_bps)),
    ).put("rx_rate_bps"@, optional(Some(h.rx_rate_bps))).put(
        "peak_tx_bps"@,
        optional(Some(h.peak_tx_bps)),
    ).put("peak_rx_bps"@, optional(Some(h.peak_rx_bps))).put(
        "total_bytes"@,
        optional(Some(h.total_bytes)),
    )
}

pub open spec fn share_value(p: ProtocolTraffic) -> JsonView {
    JsonView::Object(Seq::empty()).put("protocol"@, JsonView::Text(p.protocol@)).put(
        "bytes"@,
        optional(Some(p.bytes)),
    ).put("packets"@, optional(Some(p.packets))).put(
        "share_pct"@,
        JsonView::Number(crate::text::thousandths(p.share as int)),
    )
}

pub open spec fn frame_value(f: WirelessFrame) -> JsonView {
    JsonView::Object(Seq::empty()).put("src"@, JsonView::Text(f.src@)).put(
        "dst"@,
        JsonView::Text(f.dst@),
    ).put("channel"@, JsonView::Text(f.channel@)).put(
        "signal_dbm"@,
        JsonView::Number(crate::text::decimal_int(f.signal_dbm as int)),
    ).put("rate_mbps"@, JsonView::Number(crate::text::thousandths(f.rate_kbps as int))).put(
        "crc_error"@,
        JsonView::Bool(f.crc_error),
    ).put("frame_type"@, JsonView::Text(f.frame_type@))
}

fn traffic_list(v: &Vec<HostTraffic>) -> (r: Json)
    ensures
        r@ == JsonView::List(Seq::new(v@.len(), |i: int| traffic_value(v@[i]))),
{
    let mut out: Vec<Json> = Vec::new();
    let mut i: usize = 0;
    while i < v.len()
        invariant
            i <= v@.len(),
            out@.len() == i,
            forall|k: int| 0 <= k < i ==> (#[trigger] out@[k])@ == traffic_value(v@[k]),
        decreases v@.len() - i,
    {
        let h = &v[i];
        let j = Json::object().with("address", Json::text(h.address.as_str())).with(
            "tx_rate_bps",
            Json::number(h.tx_rate_bps),
        ).with("rx_rate_bps", Json::number(h.rx_rate_bps)).with(
            "peak_tx_bps",
            Json::number(h.peak_tx_bps),
        ).with("peak_rx_bps", Json::number(h.peak_rx_bps)).with(
            "total_bytes",
            Json::number(h.total_bytes),
        );
        out.push(j);
        i = i + 1;
    }
    proof {
        assert(crate::json::views(out@) =~= Seq::new(v@.len(), |i: int| traffic_value(v@[i])));
    }
    Json::list(out)
}

fn share_list(v: &Vec<ProtocolTraffic>) -> (r: Json)
    ensures
        r@ == JsonView::List(Seq::new(v@.len(), |i: int| share_value(v@[i]))),
{
    let mut out: Vec<Json> = Vec::new();
    let mut i: usize = 0;
    while i < v.len()
        invariant
            i <= v@.len(),
            out@.len() == i,
            forall|k: int| 0 <= k < i ==> (#[trigger] out@[k])@ == share_value(v@[k]),
        decreases v@.len() - i,
    {
        let p = &v[i];
        let j = Json::object().with("protocol", Json::text(p.protocol.as_str())).with(
            "bytes",
            Json::number(p.bytes),
        ).with("packets", Json::number(p.packets)).with(
            "share_pct",
            Json::Number(to_thousandths(p.share as i128)),
        );
        out.push(j);
        i = i + 1;
    }
    proof {
        assert(crate::json::views(out@) =~= Seq::new(v@.len(), |i: int| share_value(v@[i])));
    }
    Json::list(out)
}

fn frame_list(v: &Vec<WirelessFrame>) -> (r: Json)
    ensures
        r@ == JsonView::List(Seq::new(v@.len(), |i: int| frame_value(v@[i]))),
{
    let mut out: Vec<Json> = Vec::new();
    let mut i: usize = 0;
    while i < v.len()
        invariant
            i <= v@.len(),
            out@.len() == i,
            forall|k: int| 0 <= k < i ==> (#[trigger] out@[k])@ == frame_value(v@[k]),
        decreases v@.len() - i,
    {
        let f = &v[i];
        let mut signal = String::new();
        push_decimal_int(&mut signal, f.signal_dbm as i64);
        proof {
            assert(signal@ =~= crate::text::decimal_int(f.signal_dbm as int));
        }
        let j = Json::object().with("src", Json::text(f.src.as_str())).with(
            "dst",
            Json::text(f.dst.as_str()),
        ).with("channel", Json::text(f.channel.as_str())).with(
            "signal_dbm",
            Json::Number(signal),
        ).with("rate_mbps", Json::Number(to_thousandths(f.rate_kbps as i128))).with(
            "crc_error",
            Json::Bool(f.crc_error),
        ).with("frame_type", Json::text(f.frame_type.as_str()));
        out.push(j);
        i = i + 1;
    }
    proof {
        assert(crate::json::views(out@) =~= Seq::new(v@.len(), |i: int| frame_value(v@[i])));
    }
    Json::list(out)
}

pub open spec fn capture_value(c: Capture) -> JsonView {
    JsonView::Object(Seq::empty()).put("interface"@, JsonView::Text(c.interface@)).put(
        "duration_s"@,
        optional(Some(c.duration_s)),
    ).put(
        "hosts"@,
        JsonView::List(Seq::new(c.hosts@.len(), |i: int| traffic_value(c.hosts@[i]))),
    ).put(
        "protocols"@,
        JsonView::List(Seq::new(c.protocols@.len(), |i: int| share_value(c.protocols@[i]))),
    ).put("wireless_frames"@, optional(Some(c.wireless_frames))).put(
        "frames"@,
        JsonView::List(Seq::new(c.frames@.len(), |i: int| frame_value(c.frames@[i]))),
    ).put("used_wireless_sniffer"@, JsonView::Bool(c.used_wireless_sniffer)).put(
        "notes"@,
        JsonView::List(
            Seq::new(c.notes@.len(), |i: int| JsonView::Text(crate::text::views(c.notes@)[i])),
        ),
    )
}

pub fn capture_json(router: &str, c: &Capture, found: &Vec<Finding>) -> (r: Json)
    ensures
        r@ == JsonView::Object(Seq::empty()).put("router"@, JsonView::Text(router@)).put(
            "capture"@,
            capture_value(*c),
        ).put("findings"@, crate::cli::show::findings_value(found@)),
{
    let v = Json::object().with("interface", Json::text(c.interface.as_str())).with(
        "duration_s",
        Json::number(c.duration_s),
    ).with("hosts", traffic_list(&c.hosts)).with("protocols", share_list(&c.protocols)).with(
        "wireless_frames",
        Json::number(c.wireless_frames),
    ).with("frames", frame_list(&c.frames)).with(
        "used_wireless_sniffer",
        Json::Bool(c.used_wireless_sniffer),
    ).with("notes", Json::texts(&c.notes));
    Json::object().with("router", Json::text(router)).with("capture", v).with(
        "findings",
        crate::cli::show::findings_json(found),
    )
}

} // verus!
