//! What is shown of a measurement: each figure under its own name, and each text
//! with the figures it is about.

use vstd::prelude::*;

use crate::collector::stats::{DscpStats, JitterStats, LossStats, ProbeMetrics, RttStats};
use crate::discovery::capture::{Capture, HostTraffic, ProtocolTraffic, WirelessFrame};
use crate::discovery::findings::{Finding, Severity, Snapshot};
use crate::discovery::tools::{Hop, ScanHost};
use crate::json::JsonView;
use crate::routeros::btest::{BtestResult, CpuVerdict, Direction, Protocol};

verus! {

/// The number, or a null where there is none.
pub open spec fn optional_number(v: Option<nat>) -> JsonView {
    match v {
        Some(n) => JsonView::Number(crate::text::decimal(n)),
        None => JsonView::Null,
    }
}

pub open spec fn widest(v: Option<u64>) -> Option<nat> {
    match v {
        Some(n) => Some(n as nat),
        None => None,
    }
}

pub open spec fn byte_of(v: Option<u8>) -> Option<nat> {
    match v {
        Some(n) => Some(n as nat),
        None => None,
    }
}

pub open spec fn count_of(v: Option<u32>) -> Option<nat> {
    match v {
        Some(n) => Some(n as nat),
        None => None,
    }
}

/// A finding is shown as it is: its code, how severe it is, what it says.
pub proof fn law_findings_are_shown(f: Finding)
    ensures
        ({
            let j = crate::cli::show::finding_value(f);
            &&& j.get("code"@) == Some(JsonView::Text(f.code@))
            &&& j.get("severity"@) == Some(JsonView::Text(match f.severity {
                    Severity::Critical => "critical"@,
                    Severity::Warning => "warning"@,
                    Severity::Info => "info"@,
                }))
            &&& j.get("summary"@) == Some(JsonView::Text(f.summary@))
            &&& j.get("evidence"@) == Some(JsonView::List(Seq::new(f.evidence@.len(), |i: int| JsonView::Text(crate::text::views(f.evidence@)[i]))))
        }),
{
    reveal_strlit("code");
    reveal_strlit("severity");
    reveal_strlit("summary");
    reveal_strlit("evidence");
    assert("code"@.len() == 4);
    assert("severity"@.len() == 8);
    assert("summary"@.len() == 7);
    assert("evidence"@.len() == 8);
    assert("severity"@[0] == 's' && "evidence"@[0] == 'e');
    let f = crate::cli::show::finding_value(f)->Object_0;
    assert(f.len() == 4);
    assert(f[0].0 == "code"@);
    assert(f[1].0 == "severity"@);
    assert(f[2].0 == "summary"@);
    assert(f[3].0 == "evidence"@);
    crate::json::lemma_field_at(f, 0);
    crate::json::lemma_field_at(f, 1);
    crate::json::lemma_field_at(f, 2);
    crate::json::lemma_field_at(f, 3);
}

/// A hop is shown with its own figures, in milliseconds and percent.
pub proof fn law_hops_are_shown(h: Hop)
    ensures
        ({
            let j = crate::cli::show::hop_value(h);
            &&& j.get("ttl"@) == Some(JsonView::Number(crate::text::decimal(h.ttl as nat)))
            &&& j.get("address"@) == Some(JsonView::Text(h.address@))
            &&& j.get("sent"@) == Some(JsonView::Number(crate::text::decimal(h.sent as nat)))
            &&& j.get("loss_pct"@) == Some(JsonView::Number(crate::text::thousandths(h.loss as int)))
            &&& j.get("avg_ms"@) == Some(JsonView::Number(crate::text::thousandths(h.avg as int)))
            &&& j.get("best_ms"@) == Some(JsonView::Number(crate::text::thousandths(h.best as int)))
            &&& j.get("worst_ms"@) == Some(JsonView::Number(crate::text::thousandths(h.worst as int)))
        }),
{
    reveal_strlit("ttl");
    reveal_strlit("address");
    reveal_strlit("sent");
    reveal_strlit("loss_pct");
    reveal_strlit("avg_ms");
    reveal_strlit("best_ms");
    reveal_strlit("worst_ms");
    assert("ttl"@.len() == 3);
    assert("address"@.len() == 7);
    assert("sent"@.len() == 4);
    assert("loss_pct"@.len() == 8);
    assert("avg_ms"@.len() == 6);
    assert("best_ms"@.len() == 7);
    assert("worst_ms"@.len() == 8);
    assert("address"@[0] == 'a' && "best_ms"@[0] == 'b');
    assert("loss_pct"@[0] == 'l' && "worst_ms"@[0] == 'w');
    let f = crate::cli::show::hop_value(h)->Object_0;
    assert(f.len() == 7);
    assert(f[0].0 == "ttl"@);
    assert(f[1].0 == "address"@);
    assert(f[2].0 == "sent"@);
    assert(f[3].0 == "loss_pct"@);
    assert(f[4].0 == "avg_ms"@);
    assert(f[5].0 == "best_ms"@);
    assert(f[6].0 == "worst_ms"@);
    crate::json::lemma_field_at(f, 0);
    crate::json::lemma_field_at(f, 1);
    crate::json::lemma_field_at(f, 2);
    crate::json::lemma_field_at(f, 3);
    crate::json::lemma_field_at(f, 4);
    crate::json::lemma_field_at(f, 5);
    crate::json::lemma_field_at(f, 6);
}

/// A trace is shown with the router it was made from, its target, every hop in
/// its place, and what was found.
pub proof fn law_traces_are_shown(router: Seq<char>, target: Seq<char>, hops: Seq<Hop>, found: Seq<Finding>)
    ensures
        ({
            let j = crate::cli::show::trace_value(router, target, hops, found);
            &&& j.get("router"@) == Some(JsonView::Text(router))
            &&& j.get("target"@) == Some(JsonView::Text(target))
            &&& j.get("hops"@) == Some(JsonView::List(Seq::new(hops.len(), |i: int| crate::cli::show::hop_value(hops[i]))))
            &&& j.get("findings"@) == Some(JsonView::List(Seq::new(found.len(), |i: int| crate::cli::show::finding_value(found[i]))))
        }),
{
    reveal_strlit("router");
    reveal_strlit("target");
    reveal_strlit("hops");
    reveal_strlit("findings");
    assert("router"@.len() == 6);
    assert("target"@.len() == 6);
    assert("hops"@.len() == 4);
    assert("findings"@.len() == 8);
    assert("router"@[0] == 'r' && "target"@[0] == 't');
    let f = crate::cli::show::trace_value(router, target, hops, found)->Object_0;
    assert(f.len() == 4);
    assert(f[0].0 == "router"@);
    assert(f[1].0 == "target"@);
    assert(f[2].0 == "hops"@);
    assert(f[3].0 == "findings"@);
    crate::json::lemma_field_at(f, 0);
    crate::json::lemma_field_at(f, 1);
    crate::json::lemma_field_at(f, 2);
    crate::json::lemma_field_at(f, 3);
}

/// A host that answered a scan is shown as it is.
pub proof fn law_scanned_hosts_are_shown(h: ScanHost)
    ensures
        ({
            let j = crate::cli::show::host_value(h);
            &&& j.get("address"@) == Some(JsonView::Text(h.address@))
            &&& j.get("mac"@) == Some(JsonView::Text(h.mac@))
            &&& j.get("dns"@) == Some(JsonView::Text(h.dns@))
            &&& j.get("netbios"@) == Some(JsonView::Text(h.netbios@))
        }),
{
    reveal_strlit("address");
    reveal_strlit("mac");
    reveal_strlit("dns");
    reveal_strlit("netbios");
    assert("address"@.len() == 7);
    assert("mac"@.len() == 3);
    assert("dns"@.len() == 3);
    assert("netbios"@.len() == 7);
    assert("address"@[0] == 'a' && "netbios"@[0] == 'n');
    assert("mac"@[0] == 'm' && "dns"@[0] == 'd');
    let f = crate::cli::show::host_value(h)->Object_0;
    assert(f.len() == 4);
    assert(f[0].0 == "address"@);
    assert(f[1].0 == "mac"@);
    assert(f[2].0 == "dns"@);
    assert(f[3].0 == "netbios"@);
    crate::json::lemma_field_at(f, 0);
    crate::json::lemma_field_at(f, 1);
    crate::json::lemma_field_at(f, 2);
    crate::json::lemma_field_at(f, 3);
}

/// A scan is shown with the router it was made from, its range, every host in
/// its place, and what was found.
pub proof fn law_scans_are_shown(router: Seq<char>, range: Seq<char>, hosts: Seq<ScanHost>, found: Seq<Finding>)
    ensures
        ({
            let j = crate::cli::show::scan_value(router, range, hosts, found);
            &&& j.get("router"@) == Some(JsonView::Text(router))
            &&& j.get("range"@) == Some(JsonView::Text(range))
            &&& j.get("hosts"@) == Some(JsonView::List(Seq::new(hosts.len(), |i: int| crate::cli::show::host_value(hosts[i]))))
            &&& j.get("findings"@) == Some(JsonView::List(Seq::new(found.len(), |i: int| crate::cli::show::finding_value(found[i]))))
        }),
{
    reveal_strlit("router");
    reveal_strlit("range");
    reveal_strlit("hosts");
    reveal_strlit("findings");
    assert("router"@.len() == 6);
    assert("range"@.len() == 5);
    assert("hosts"@.len() == 5);
    assert("findings"@.len() == 8);
    assert("range"@[0] == 'r' && "hosts"@[0] == 'h');
    let f = crate::cli::show::scan_value(router, range, hosts, found)->Object_0;
    assert(f.len() == 4);
    assert(f[0].0 == "router"@);
    assert(f[1].0 == "range"@);
    assert(f[2].0 == "hosts"@);
    assert(f[3].0 == "findings"@);
    crate::json::lemma_field_at(f, 0);
    crate::json::lemma_field_at(f, 1);
    crate::json::lemma_field_at(f, 2);
    crate::json::lemma_field_at(f, 3);
}

/// A throughput test is shown with every figure under its own name; one that was
/// not measured is null.
pub proof fn law_throughput_is_shown(b: BtestResult)
    ensures
        ({
            let j = crate::cli::figures::btest_value(b);
            &&& j.get("protocol"@) == Some(JsonView::Text(match b.protocol {
                    Protocol::Tcp => "tcp"@,
                    Protocol::Udp => "udp"@,
                }))
            &&& j.get("direction"@) == Some(JsonView::Text(match b.direction {
                    Direction::Receive => "receive"@,
                    Direction::Transmit => "transmit"@,
                    Direction::Both => "both"@,
                }))
            &&& j.get("tx_bps"@) == Some(optional_number(widest(b.tx_bps)))
            &&& j.get("rx_bps"@) == Some(optional_number(widest(b.rx_bps)))
            &&& j.get("duration_s"@) == Some(JsonView::Number(crate::text::decimal(b.duration_s as nat)))
            &&& j.get("local_cpu_load"@) == Some(optional_number(byte_of(b.local_cpu_load)))
            &&& j.get("remote_cpu_load"@) == Some(optional_number(byte_of(b.remote_cpu_load)))
            &&& j.get("lost_packets"@) == Some(optional_number(widest(b.lost_packets)))
            &&& j.get("connection_count"@) == Some(optional_number(count_of(b.connection_count)))
            &&& j.get("status"@) == Some(JsonView::Text(b.status@))
            &&& j.get("cpu_verdict"@) == Some(JsonView::Text(match b.cpu_verdict {
                    CpuVerdict::LinkLimited => "link_limited"@,
                    CpuVerdict::RouterContributing => "router_contributing"@,
                    CpuVerdict::RouterLimited => "router_limited"@,
                }))
            &&& j.get("notes"@) == Some(JsonView::List(Seq::new(b.notes@.len(), |i: int| JsonView::Text(crate::text::views(b.notes@)[i]))))
            &&& j.get("source"@) == Some(JsonView::Text(b.source@))
        }),
{
    reveal_strlit("protocol");
    reveal_strlit("direction");
    reveal_strlit("tx_bps");
    reveal_strlit("rx_bps");
    reveal_strlit("duration_s");
    reveal_strlit("local_cpu_load");
    reveal_strlit("remote_cpu_load");
    reveal_strlit("lost_packets");
    reveal_strlit("connection_count");
    reveal_strlit("status");
    reveal_strlit("cpu_verdict");
    reveal_strlit("notes");
    reveal_strlit("source");
    assert("protocol"@.len() == 8);
    assert("direction"@.len() == 9);
    assert("tx_bps"@.len() == 6);
    assert("rx_bps"@.len() == 6);
    assert("duration_s"@.len() == 10);
    assert("local_cpu_load"@.len() == 14);
    assert("remote_cpu_load"@.len() == 15);
    assert("lost_packets"@.len() == 12);
    assert("connection_count"@.len() == 16);
    assert("status"@.len() == 6);
    assert("cpu_verdict"@.len() == 11);
    assert("notes"@.len() == 5);
    assert("source"@.len() == 6);
    assert("tx_bps"@[0] == 't' && "rx_bps"@[0] == 'r');
    assert("tx_bps"@[0] == 't' && "status"@[0] == 's');
    assert("tx_bps"@[0] == 't' && "source"@[0] == 's');
    assert("rx_bps"@[0] == 'r' && "status"@[0] == 's');
    assert("rx_bps"@[0] == 'r' && "source"@[0] == 's');
    assert("status"@[1] == 't' && "source"@[1] == 'o');
    let f = crate::cli::figures::btest_value(b)->Object_0;
    assert(f.len() == 13);
    assert(f[0].0 == "protocol"@);
    assert(f[1].0 == "direction"@);
    assert(f[2].0 == "tx_bps"@);
    assert(f[3].0 == "rx_bps"@);
    assert(f[4].0 == "duration_s"@);
    assert(f[5].0 == "local_cpu_load"@);
    assert(f[6].0 == "remote_cpu_load"@);
    assert(f[7].0 == "lost_packets"@);
    assert(f[8].0 == "connection_count"@);
    assert(f[9].0 == "status"@);
    assert(f[10].0 == "cpu_verdict"@);
    assert(f[11].0 == "notes"@);
    assert(f[12].0 == "source"@);
    crate::json::lemma_field_at(f, 0);
    crate::json::lemma_field_at(f, 1);
    crate::json::lemma_field_at(f, 2);
    crate::json::lemma_field_at(f, 3);
    crate::json::lemma_field_at(f, 4);
    crate::json::lemma_field_at(f, 5);
    crate::json::lemma_field_at(f, 6);
    crate::json::lemma_field_at(f, 7);
    crate::json::lemma_field_at(f, 8);
    crate::json::lemma_field_at(f, 9);
    crate::json::lemma_field_at(f, 10);
    crate::json::lemma_field_at(f, 11);
    crate::json::lemma_field_at(f, 12);
}

/// A captured host is shown with its own figures.
pub proof fn law_captured_hosts_are_shown(h: HostTraffic)
    ensures
        ({
            let j = crate::cli::figures::traffic_value(h);
            &&& j.get("address"@) == Some(JsonView::Text(h.address@))
            &&& j.get("tx_rate_bps"@) == Some(JsonView::Number(crate::text::decimal(h.tx_rate_bps as nat)))
            &&& j.get("rx_rate_bps"@) == Some(JsonView::Number(crate::text::decimal(h.rx_rate_bps as nat)))
            &&& j.get("peak_tx_bps"@) == Some(JsonView::Number(crate::text::decimal(h.peak_tx_bps as nat)))
            &&& j.get("peak_rx_bps"@) == Some(JsonView::Number(crate::text::decimal(h.peak_rx_bps as nat)))
            &&& j.get("total_bytes"@) == Some(JsonView::Number(crate::text::decimal(h.total_bytes as nat)))
        }),
{
    reveal_strlit("address");
    reveal_strlit("tx_rate_bps");
    reveal_strlit("rx_rate_bps");
    reveal_strlit("peak_tx_bps");
    reveal_strlit("peak_rx_bps");
    reveal_strlit("total_bytes");
    assert("address"@.len() == 7);
    assert("tx_rate_bps"@.len() == 11);
    assert("rx_rate_bps"@.len() == 11);
    assert("peak_tx_bps"@.len() == 11);
    assert("peak_rx_bps"@.len() == 11);
    assert("total_bytes"@.len() == 11);
    assert("tx_rate_bps"@[0] == 't' && "rx_rate_bps"@[0] == 'r');
    assert("tx_rate_bps"@[0] == 't' && "peak_tx_bps"@[0] == 'p');
    assert("tx_rate_bps"@[0] == 't' && "peak_rx_bps"@[0] == 'p');
    assert("tx_rate_bps"@[1] == 'x' && "total_bytes"@[1] == 'o');
    assert("rx_rate_bps"@[0] == 'r' && "peak_tx_bps"@[0] == 'p');
    assert("rx_rate_bps"@[0] == 'r' && "peak_rx_bps"@[0] == 'p');
    assert("rx_rate_bps"@[0] == 'r' && "total_bytes"@[0] == 't');
    assert("peak_tx_bps"@[5] == 't' && "peak_rx_bps"@[5] == 'r');
    assert("peak_tx_bps"@[0] == 'p' && "total_bytes"@[0] == 't');
    assert("peak_rx_bps"@[0] == 'p' && "total_bytes"@[0] == 't');
    let f = crate::cli::figures::traffic_value(h)->Object_0;
    assert(f.len() == 6);
    assert(f[0].0 == "address"@);
    assert(f[1].0 == "tx_rate_bps"@);
    assert(f[2].0 == "rx_rate_bps"@);
    assert(f[3].0 == "peak_tx_bps"@);
    assert(f[4].0 == "peak_rx_bps"@);
    assert(f[5].0 == "total_bytes"@);
    crate::json::lemma_field_at(f, 0);
    crate::json::lemma_field_at(f, 1);
    crate::json::lemma_field_at(f, 2);
    crate::json::lemma_field_at(f, 3);
    crate::json::lemma_field_at(f, 4);
    crate::json::lemma_field_at(f, 5);
}

/// A captured protocol is shown with its own figures.
pub proof fn law_captured_protocols_are_shown(p: ProtocolTraffic)
    ensures
        ({
            let j = crate::cli::figures::share_value(p);
            &&& j.get("protocol"@) == Some(JsonView::Text(p.protocol@))
            &&& j.get("bytes"@) == Some(JsonView::Number(crate::text::decimal(p.bytes as nat)))
            &&& j.get("packets"@) == Some(JsonView::Number(crate::text::decimal(p.packets as nat)))
            &&& j.get("share_pct"@) == Some(JsonView::Number(crate::text::thousandths(p.share as int)))
        }),
{
    reveal_strlit("protocol");
    reveal_strlit("bytes");
    reveal_strlit("packets");
    reveal_strlit("share_pct");
    assert("protocol"@.len() == 8);
    assert("bytes"@.len() == 5);
    assert("packets"@.len() == 7);
    assert("share_pct"@.len() == 9);
    let f = crate::cli::figures::share_value(p)->Object_0;
    assert(f.len() == 4);
    assert(f[0].0 == "protocol"@);
    assert(f[1].0 == "bytes"@);
    assert(f[2].0 == "packets"@);
    assert(f[3].0 == "share_pct"@);
    crate::json::lemma_field_at(f, 0);
    crate::json::lemma_field_at(f, 1);
    crate::json::lemma_field_at(f, 2);
    crate::json::lemma_field_at(f, 3);
}

/// A captured frame is shown as it is, its rate in Mbit/s.
pub proof fn law_captured_frames_are_shown(x: WirelessFrame)
    ensures
        ({
            let j = crate::cli::figures::frame_value(x);
            &&& j.get("src"@) == Some(JsonView::Text(x.src@))
            &&& j.get("dst"@) == Some(JsonView::Text(x.dst@))
            &&& j.get("channel"@) == Some(JsonView::Text(x.channel@))
            &&& j.get("signal_dbm"@) == Some(JsonView::Number(crate::text::decimal_int(x.signal_dbm as int)))
            &&& j.get("rate_mbps"@) == Some(JsonView::Number(crate::text::thousandths(x.rate_kbps as int)))
            &&& j.get("crc_error"@) == Some(JsonView::Bool(x.crc_error))
            &&& j.get("frame_type"@) == Some(JsonView::Text(x.frame_type@))
        }),
{
    reveal_strlit("src");
    reveal_strlit("dst");
    reveal_strlit("channel");
    reveal_strlit("signal_dbm");
    reveal_strlit("rate_mbps");
    reveal_strlit("crc_error");
    reveal_strlit("frame_type");
    assert("src"@.len() == 3);
    assert("dst"@.len() == 3);
    assert("channel"@.len() == 7);
    assert("signal_dbm"@.len() == 10);
    assert("rate_mbps"@.len() == 9);
    assert("crc_error"@.len() == 9);
    assert("frame_type"@.len() == 10);
    assert("src"@[0] == 's' && "dst"@[0] == 'd');
    assert("signal_dbm"@[0] == 's' && "frame_type"@[0] == 'f');
    assert("rate_mbps"@[0] == 'r' && "crc_error"@[0] == 'c');
    let f = crate::cli::figures::frame_value(x)->Object_0;
    assert(f.len() == 7);
    assert(f[0].0 == "src"@);
    assert(f[1].0 == "dst"@);
    assert(f[2].0 == "channel"@);
    assert(f[3].0 == "signal_dbm"@);
    assert(f[4].0 == "rate_mbps"@);
    assert(f[5].0 == "crc_error"@);
    assert(f[6].0 == "frame_type"@);
    crate::json::lemma_field_at(f, 0);
    crate::json::lemma_field_at(f, 1);
    crate::json::lemma_field_at(f, 2);
    crate::json::lemma_field_at(f, 3);
    crate::json::lemma_field_at(f, 4);
    crate::json::lemma_field_at(f, 5);
    crate::json::lemma_field_at(f, 6);
}

/// A capture is shown whole: where and how long, every host, protocol and frame,
/// and what was noted.
pub proof fn law_captures_are_shown(c: Capture)
    ensures
        ({
            let j = crate::cli::figures::capture_value(c);
            &&& j.get("interface"@) == Some(JsonView::Text(c.interface@))
            &&& j.get("duration_s"@) == Some(JsonView::Number(crate::text::decimal(c.duration_s as nat)))
            &&& j.get("hosts"@) == Some(JsonView::List(Seq::new(c.hosts@.len(), |i: int| crate::cli::figures::traffic_value(c.hosts@[i]))))
            &&& j.get("protocols"@) == Some(JsonView::List(Seq::new(c.protocols@.len(), |i: int| crate::cli::figures::share_value(c.protocols@[i]))))
            &&& j.get("wireless_frames"@) == Some(JsonView::Number(crate::text::decimal(c.wireless_frames as nat)))
            &&& j.get("frames"@) == Some(JsonView::List(Seq::new(c.frames@.len(), |i: int| crate::cli::figures::frame_value(c.frames@[i]))))
            &&& j.get("used_wireless_sniffer"@) == Some(JsonView::Bool(c.used_wireless_sniffer))
            &&& j.get("notes"@) == Some(JsonView::List(Seq::new(c.notes@.len(), |i: int| JsonView::Text(crate::text::views(c.notes@)[i]))))
        }),
{
    reveal_strlit("interface");
    reveal_strlit("duration_s");
    reveal_strlit("hosts");
    reveal_strlit("protocols");
    reveal_strlit("wireless_frames");
    reveal_strlit("frames");
    reveal_strlit("used_wireless_sniffer");
    reveal_strlit("notes");
    assert("interface"@.len() == 9);
    assert("duration_s"@.len() == 10);
    assert("hosts"@.len() == 5);
    assert("protocols"@.len() == 9);
    assert("wireless_frames"@.len() == 15);
    assert("frames"@.len() == 6);
    assert("used_wireless_sniffer"@.len() == 21);
    assert("notes"@.len() == 5);
    assert("interface"@[0] == 'i' && "protocols"@[0] == 'p');
    assert("hosts"@[0] == 'h' && "notes"@[0] == 'n');
    let f = crate::cli::figures::capture_value(c)->Object_0;
    assert(f.len() == 8);
    assert(f[0].0 == "interface"@);
    assert(f[1].0 == "duration_s"@);
    assert(f[2].0 == "hosts"@);
    assert(f[3].0 == "protocols"@);
    assert(f[4].0 == "wireless_frames"@);
    assert(f[5].0 == "frames"@);
    assert(f[6].0 == "used_wireless_sniffer"@);
    assert(f[7].0 == "notes"@);
    crate::json::lemma_field_at(f, 0);
    crate::json::lemma_field_at(f, 1);
    crate::json::lemma_field_at(f, 2);
    crate::json::lemma_field_at(f, 3);
    crate::json::lemma_field_at(f, 4);
    crate::json::lemma_field_at(f, 5);
    crate::json::lemma_field_at(f, 6);
    crate::json::lemma_field_at(f, 7);
}

/// What a survey came upon, as it is shown.
pub open spec fn inventory_of(s: Snapshot) -> JsonView {
    crate::cli::show::discover_value(Seq::empty(), Seq::empty(), s, Seq::empty()).get(
        "inventory"@,
    )->0
}

proof fn lemma_inventory(s: Snapshot)
    ensures
        inventory_of(s) == crate::cli::show::discover_value(
            Seq::empty(),
            Seq::empty(),
            s,
            Seq::empty(),
        )->Object_0[2].1,
{
    reveal_strlit("router");
    reveal_strlit("host");
    reveal_strlit("inventory");
    assert("router"@.len() == 6);
    assert("host"@.len() == 4);
    assert("inventory"@.len() == 9);
    let f = crate::cli::show::discover_value(
        Seq::empty(),
        Seq::empty(),
        s,
        Seq::empty(),
    )->Object_0;
    assert(f[0].0 == "router"@ && f[1].0 == "host"@ && f[2].0 == "inventory"@);
    crate::json::lemma_field_at(f, 2);
}

/// An inventory counts the clients, radios, ARP entries, leases and interfaces,
/// and gives the size of the pool where that is known.
pub proof fn law_inventories_count(s: Snapshot)
    ensures
        ({
            let j = inventory_of(s);
            &&& j.get("wifi_clients"@) == Some(JsonView::Number(crate::text::decimal(s.clients@.len())))
            &&& j.get("radios"@) == Some(JsonView::Number(crate::text::decimal(s.radios@.len())))
            &&& j.get("arp_entries"@) == Some(JsonView::Number(crate::text::decimal(s.arp@.len())))
            &&& j.get("dhcp_leases"@) == Some(JsonView::Number(crate::text::decimal(s.leases@.len())))
            &&& j.get("interfaces"@) == Some(JsonView::Number(crate::text::decimal(s.interfaces@.len())))
            &&& j.get("dhcp_pool_size"@) == Some(match s.dhcp_pool_size {
                Some(p) => JsonView::Number(crate::text::decimal(p as nat)),
                None => JsonView::Null,
            })
        }),
{
    reveal_strlit("wifi_clients");
    reveal_strlit("radios");
    reveal_strlit("arp_entries");
    reveal_strlit("dhcp_leases");
    reveal_strlit("interfaces");
    reveal_strlit("dhcp_pool_size");
    assert("wifi_clients"@.len() == 12);
    assert("radios"@.len() == 6);
    assert("arp_entries"@.len() == 11);
    assert("dhcp_leases"@.len() == 11);
    assert("interfaces"@.len() == 10);
    assert("dhcp_pool_size"@.len() == 14);
    assert("arp_entries"@[0] == 'a' && "dhcp_leases"@[0] == 'd');
    lemma_inventory(s);
    let f = inventory_of(s)->Object_0;
    assert(f.len() == 6);
    assert(f[0].0 == "wifi_clients"@);
    assert(f[1].0 == "radios"@);
    assert(f[2].0 == "arp_entries"@);
    assert(f[3].0 == "dhcp_leases"@);
    assert(f[4].0 == "interfaces"@);
    assert(f[5].0 == "dhcp_pool_size"@);
    crate::json::lemma_field_at(f, 0);
    crate::json::lemma_field_at(f, 1);
    crate::json::lemma_field_at(f, 2);
    crate::json::lemma_field_at(f, 3);
    crate::json::lemma_field_at(f, 4);
    crate::json::lemma_field_at(f, 5);
}

/// A survey is shown with the router and host it was made of, how much of each
/// kind there is, and what was found.
pub proof fn law_surveys_are_shown(router: Seq<char>, host: Seq<char>, s: Snapshot, found: Seq<Finding>)
    ensures
        ({
            let j = crate::cli::show::discover_value(router, host, s, found);
            &&& j.get("router"@) == Some(JsonView::Text(router))
            &&& j.get("host"@) == Some(JsonView::Text(host))
            &&& j.get("inventory"@) == Some(inventory_of(s))
            &&& j.get("findings"@) == Some(JsonView::List(Seq::new(found.len(), |i: int| crate::cli::show::finding_value(found[i]))))
        }),
{
    reveal_strlit("router");
    reveal_strlit("host");
    reveal_strlit("inventory");
    reveal_strlit("findings");
    assert("router"@.len() == 6);
    assert("host"@.len() == 4);
    assert("inventory"@.len() == 9);
    assert("findings"@.len() == 8);
    lemma_inventory(s);
    let f = crate::cli::show::discover_value(router, host, s, found)->Object_0;
    assert(f.len() == 4);
    assert(f[0].0 == "router"@);
    assert(f[1].0 == "host"@);
    assert(f[2].0 == "inventory"@);
    assert(f[3].0 == "findings"@);
    crate::json::lemma_field_at(f, 0);
    crate::json::lemma_field_at(f, 1);
    crate::json::lemma_field_at(f, 2);
    crate::json::lemma_field_at(f, 3);
}

/// Microseconds are shown in milliseconds, exactly.
pub proof fn law_milliseconds_are_exact(us: nat)
    requires
        us <= i64::MAX,
    ensures
        crate::text::milli(crate::cli::figures::in_millis(us)) == Some(us as int),
{
    reveal_strlit(".");
    assert("."@ =~= seq!['.']);
    let rest = us % 1000;
    let a = rest / 100;
    let b = rest / 10 % 10;
    let c = rest % 10;
    let part = crate::text::decimal(a) + crate::text::decimal(b) + crate::text::decimal(c);
    crate::text_laws::lemma_three_decimals(us / 1000, a, b, c);
    assert(crate::cli::figures::in_millis(us) =~= crate::text::decimal(us / 1000) + seq!['.'] + part);
}

/// A percentage is shown to the hundredth, exactly.
pub proof fn law_percentages_are_exact(h: nat)
    requires
        h * 10 <= i64::MAX,
    ensures
        crate::text::milli(crate::cli::figures::in_percent(h)) == Some((h * 10) as int),
{
    reveal_strlit(".");
    assert("."@ =~= seq!['.']);
    let a = h / 10 % 10;
    let b = h % 10;
    crate::text_laws::lemma_two_decimals(h / 100, a, b);
    assert(crate::cli::figures::in_percent(h) =~= crate::text::decimal(h / 100) + seq!['.'] + (
    crate::text::decimal(a) + crate::text::decimal(b)));
}

/// A share is shown to the tenth of a percent, and is off by half of one at most.
pub proof fn law_shares_are_near(h: nat)
    requires
        h * 10 + 2_000 <= i64::MAX,
    ensures
        ({
            let r = crate::text::milli(crate::cli::figures::in_tenths(h));
            r is Some && r->0 % 100 == 0 && -50 <= r->0 - 10 * h <= 50
        }),
{
    reveal_strlit(".");
    assert("."@ =~= seq!['.']);
    let t = crate::round::rounded_quotient(h, 10);
    crate::discovery::laws::lemma_rounded(h, 10);
    crate::text_laws::lemma_one_decimal(t / 10, t % 10);
    assert(crate::cli::figures::in_tenths(h) =~= crate::text::decimal(t / 10) + seq!['.']
        + crate::text::decimal(t % 10));
}

/// A rate is shown in Mbit/s to the tenth, and is off by half of one at most.
pub proof fn law_rates_are_near(bps: nat)
    requires
        bps <= u64::MAX,
    ensures
        exists|front: Seq<char>|
            crate::cli::figures::in_megabits(bps) == front + " Mbit/s"@ && {
                let r = #[trigger] crate::text::milli(front);
                r is Some && r->0 % 100 == 0 && -50_000 <= r->0 * 1000 - bps <= 50_000
            },
{
    reveal_strlit(".");
    assert("."@ =~= seq!['.']);
    let t = crate::round::rounded_quotient(bps, 100_000);
    crate::discovery::laws::lemma_rounded(bps, 100_000);
    crate::text_laws::lemma_one_decimal(t / 10, t % 10);
    let front = crate::text::decimal(t / 10) + seq!['.'] + crate::text::decimal(t % 10);
    assert(crate::cli::figures::in_megabits(bps) =~= front + " Mbit/s"@);
    assert(crate::text::milli(front) == Some((t * 100) as int));
}

/// The lines of a run give its figures under their names.
pub proof fn law_run_lines(r: RttStats, j: JitterStats, l: LossStats, d: DscpStats, m: ProbeMetrics)
    requires
        m.rtt == Some(r),
        m.jitter == Some(j),
        m.loss == l,
        m.dscp == Some(d),
        l.received <= l.sent,
    ensures
        ({
            let lines = crate::cli::figures::probe_lines(m);
            &&& lines.len() == 7
            &&& lines[1] == "RTT       min "@ + crate::cli::figures::in_millis(r.min_us as nat)
                + " ms  avg "@ + crate::cli::figures::in_millis(r.avg_us as nat) + " ms  max "@
                + crate::cli::figures::in_millis(r.max_us as nat) + " ms  stddev "@
                + crate::cli::figures::in_millis(r.stddev_us as nat) + " ms"@
            &&& lines[2] == "          p50 "@ + crate::cli::figures::in_millis(r.p50_us as nat)
                + " ms  p95 "@ + crate::cli::figures::in_millis(r.p95_us as nat) + " ms  p99 "@
                + crate::cli::figures::in_millis(r.p99_us as nat) + " ms"@
            &&& lines[3] == "Jitter    IPDV avg "@ + crate::cli::figures::in_millis(
                j.ipdv_avg_us as nat,
            ) + " ms  PDV p95 "@ + crate::cli::figures::in_millis(j.pdv_p95_us as nat) + " ms"@
            &&& crate::discovery::laws::opens_with(
                lines[4],
                "Loss      "@ + crate::text::decimal((l.sent - l.received) as nat) + "/"@
                    + crate::text::decimal(l.sent as nat) + " lost ("@
                    + crate::cli::figures::in_percent(l.loss_pct.hundredths as nat) + "%)"@,
            )
            &&& l.forward_lost > 0 || l.reverse_lost > 0 ==> crate::discovery::laws::opens_with(
                lines[4],
                "Loss      "@ + crate::text::decimal((l.sent - l.received) as nat) + "/"@
                    + crate::text::decimal(l.sent as nat) + " lost ("@
                    + crate::cli::figures::in_percent(l.loss_pct.hundredths as nat) + "%)"@ + (
                "  [forward "@ + crate::text::decimal(l.forward_lost as nat) + " · reverse "@
                    + crate::text::decimal(l.reverse_lost as nat) + "]"@),
            )
            &&& lines[5] == "Order     "@ + crate::text::decimal(m.reorder.reordered as nat)
                + " reordered (max displacement "@ + crate::text::decimal(
                m.reorder.max_displacement as nat,
            ) + ")  "@ + crate::text::decimal(m.reorder.duplicated as nat) + " duplicated"@
            &&& lines[6] == "DSCP      requested "@ + crate::text::decimal(d.requested as nat)
                + "  observed "@ + crate::text::decimal(d.observed_mode as nat)
                + "  conformant "@ + crate::cli::figures::in_tenths(
                d.conformant_pct.hundredths as nat,
            ) + "%"@
        }),
{
    let lines = crate::cli::figures::probe_lines(m);
    let front = "Loss      "@ + crate::text::decimal((l.sent - l.received) as nat) + "/"@
        + crate::text::decimal(l.sent as nat) + " lost ("@ + crate::cli::figures::in_percent(
        l.loss_pct.hundredths as nat,
    ) + "%)"@;
    let more = "  [forward "@ + crate::text::decimal(l.forward_lost as nat) + " · reverse "@
        + crate::text::decimal(l.reverse_lost as nat) + "]"@;
    assert(lines[4] == crate::cli::figures::loss_line(l));
    assert(lines[4].take(front.len() as int) =~= front);
    if l.forward_lost > 0 || l.reverse_lost > 0 {
        assert(lines[4].take((front + more).len() as int) =~= front + more);
    }
}

/// The frame was sent by `src`.
pub open spec fn is_by(f: WirelessFrame, src: Seq<char>) -> bool {
    f.src@ == src
}

proof fn lemma_signals(frames: Seq<WirelessFrame>, src: Seq<char>)
    ensures
        ({
            let own = frames.filter(|f: WirelessFrame| is_by(f, src));
            &&& crate::cli::figures::frames_from(frames, src) == own.len()
            &&& crate::cli::figures::signal_sum(frames, src) == own.fold_left(
                0,
                |a: int, f: WirelessFrame| a + f.signal_dbm,
            )
        }),
    decreases frames.len(),
{
    reveal(Seq::filter);
    reveal(Seq::fold_left);
    let p = |f: WirelessFrame| is_by(f, src);
    if frames.len() > 0 {
        let rest = frames.drop_last();
        lemma_signals(rest, src);
        if p(frames.last()) {
            assert(rest.filter(p).push(frames.last()).drop_last() =~= rest.filter(p));
        }
    }
}

/// The average signal of a station is the sum of the signals of its own frames
/// over their number, rounded towards zero.
pub proof fn law_average_signals(frames: Seq<WirelessFrame>, src: Seq<char>)
    ensures
        ({
            let own = frames.filter(|f: WirelessFrame| is_by(f, src));
            let n = own.len();
            let sum = own.fold_left(0, |a: int, f: WirelessFrame| a + f.signal_dbm);
            let avg = crate::cli::figures::average_signal(frames, src);
            &&& n == 0 ==> avg == 0
            &&& n > 0 && sum <= 0 ==> avg <= 0 && (avg - 1) * n < sum <= avg * n
            &&& n > 0 && sum >= 0 ==> avg >= 0 && avg * n <= sum < (avg + 1) * n
        }),
{
    lemma_signals(frames, src);
    let own = frames.filter(|f: WirelessFrame| is_by(f, src));
    let n = own.len() as int;
    let sum = own.fold_left(0, |a: int, f: WirelessFrame| a + f.signal_dbm);
    let avg = crate::cli::figures::average_signal(frames, src);
    if n > 0 {
        if sum < 0 {
            let q = (-sum) / n;
            assert(avg == -q);
            assert(q >= 0 && q * n <= -sum < (q + 1) * n) by (nonlinear_arith)
                requires
                    q == (-sum) / n,
                    n > 0,
                    sum < 0,
            ;
            assert((-q) * n == -(q * n) && (-q - 1) * n == -((q + 1) * n)) by (nonlinear_arith);
        } else {
            assert(avg >= 0 && avg * n <= sum < (avg + 1) * n) by (nonlinear_arith)
                requires
                    avg == sum / n,
                    n > 0,
                    sum >= 0,
            ;
            if sum == 0 {
                assert(avg == 0) by (nonlinear_arith)
                    requires
                        avg == 0int / n,
                        n > 0,
                ;
                assert((avg - 1) * n == -n) by (nonlinear_arith)
                    requires
                        avg == 0,
                ;
            }
        }
    }
}

/// A report on findings shows each: how severe it is and its code on one line,
/// and what it says on the next. Where there is none it says so.
pub proof fn law_every_finding_is_reported(found: Seq<Finding>, i: int)
    requires
        0 <= i < found.len(),
    ensures
        ({
            let lines = crate::cli::show::findings_lines(found);
            let head = "  ["@ + (match found[i].severity {
                Severity::Critical => "CRITICAL"@,
                Severity::Warning => "WARNING "@,
                Severity::Info => "INFO    "@,
            }) + "] "@ + found[i].code@;
            exists|k: int|
                0 <= k && k + 1 < lines.len() && #[trigger] lines[k] == head && lines[k + 1] == "  "@
                    + found[i].summary@
        }),
        crate::cli::show::findings_lines(found)[1] == "Findings ("@ + crate::text::decimal(
            found.len(),
        ) + ")"@,
        crate::cli::show::findings_lines(Seq::empty()) == seq![""@, "No problems found."@],
{
    let start = seq![""@, "Findings ("@ + crate::text::decimal(found.len()) + ")"@];
    let k = lemma_finding_lines(start, found, i);
    lemma_findings_follow(start, found);
    let lines = crate::cli::show::findings_lines(found);
    assert(lines[1] == lines.take(2)[1]);
    assert(lines[k] == lines[k]);
}

proof fn lemma_findings_follow(a: Seq<Seq<char>>, found: Seq<Finding>)
    ensures
        ({
            let all = crate::cli::show::with_findings(a, found);
            all.len() >= a.len() && all.take(a.len() as int) == a
        }),
    decreases found.len(),
{
    let all = crate::cli::show::with_findings(a, found);
    if found.len() > 0 {
        let rest = crate::cli::show::with_findings(a, found.drop_last());
        lemma_findings_follow(a, found.drop_last());
        assert(all.take(rest.len() as int) =~= rest);
        assert(all.take(a.len() as int) =~= rest.take(a.len() as int));
    } else {
        assert(all.take(a.len() as int) =~= a);
    }
}

proof fn lemma_finding_lines(a: Seq<Seq<char>>, found: Seq<Finding>, i: int) -> (k: int)
    requires
        0 <= i < found.len(),
    ensures
        ({
            let all = crate::cli::show::with_findings(a, found);
            &&& 0 <= k && k + 1 < all.len()
            &&& all[k] == "  ["@ + crate::cli::show::tag(found[i].severity) + "] "@ + found[i].code@
            &&& all[k + 1] == "  "@ + found[i].summary@
        }),
    decreases found.len(),
{
    let rest = crate::cli::show::with_findings(a, found.drop_last());
    let all = crate::cli::show::with_findings(a, found);
    if i < found.len() - 1 {
        let k = lemma_finding_lines(a, found.drop_last(), i);
        assert(found.drop_last()[i] == found[i]);
        assert(all[k] == rest[k] && all[k + 1] == rest[k + 1]);
        k
    } else {
        rest.len() as int + 1
    }
}

proof fn lemma_in_either(a: Seq<Seq<char>>, b: Seq<Seq<char>>, x: Seq<char>)
    requires
        a.contains(x) || b.contains(x),
    ensures
        (a + b).contains(x),
{
    if a.contains(x) {
        let k = choose|k: int| 0 <= k < a.len() && a[k] == x;
        assert((a + b)[k] == x);
    } else {
        let k = choose|k: int| 0 <= k < b.len() && b[k] == x;
        assert((a + b)[a.len() + k] == x);
    }
}

/// A report on throughput gives what was received as download and what was sent
/// as upload, how long it took, and last the verdict.
pub proof fn law_throughput_lines(b: BtestResult)
    ensures
        ({
            let lines = crate::cli::figures::btest_lines(b);
            &&& b.rx_bps matches Some(n) ==> lines.contains(
                "  download (rx)  "@ + crate::cli::figures::in_megabits(n as nat),
            )
            &&& b.tx_bps matches Some(n) ==> lines.contains(
                "  upload   (tx)  "@ + crate::cli::figures::in_megabits(n as nat),
            )
            &&& lines.contains("  duration       "@ + crate::text::decimal(b.duration_s as nat) + "s"@)
            &&& b.lost_packets matches Some(n) ==> lines.contains(
                "  lost packets   "@ + crate::text::decimal(n as nat),
            )
            &&& b.connection_count matches Some(n) ==> lines.contains(
                "  connections    "@ + crate::text::decimal(n as nat),
            )
            &&& b.local_cpu_load is Some && b.remote_cpu_load is Some ==> lines.contains(
                "  CPU            local "@ + (crate::text::decimal(b.local_cpu_load->0 as nat) + "%"@
                    + ", remote "@ + crate::text::decimal(b.remote_cpu_load->0 as nat) + "%"@),
            )
            &&& lines.last() == "  verdict        "@ + match b.cpu_verdict {
                CpuVerdict::LinkLimited => "link-limited — the router had headroom"@,
                CpuVerdict::RouterContributing => "router contributed to the ceiling"@,
                CpuVerdict::RouterLimited =>
                    "ROUTER-LIMITED — this measures the router, not the link"@,
            }
        }),
{
    let p0 = seq![""@];
    let p1 = crate::cli::figures::line_for(
        "  download (rx)  "@,
        crate::cli::figures::rate_text(b.rx_bps),
    );
    let p2 = crate::cli::figures::line_for(
        "  upload   (tx)  "@,
        crate::cli::figures::rate_text(b.tx_bps),
    );
    let p3 = seq!["  duration       "@ + crate::text::decimal(b.duration_s as nat) + "s"@];
    let p4 = crate::cli::figures::line_for(
        "  CPU            local "@,
        crate::cli::figures::cpu_text(b.local_cpu_load, b.remote_cpu_load),
    );
    let p5 = crate::cli::figures::line_for(
        "  lost packets   "@,
        crate::cli::figures::count_text(b.lost_packets),
    );
    let p6 = crate::cli::figures::line_for(
        "  connections    "@,
        crate::cli::figures::count_text(crate::cli::figures::wide(b.connection_count)),
    );
    let p7 = seq![
        "  measured by    "@ + b.source@,
        "  verdict        "@ + crate::cli::figures::verdict_text(b.cpu_verdict),
    ];
    let lines = crate::cli::figures::btest_lines(b);
    assert(lines == p0 + p1 + p2 + p3 + p4 + p5 + p6 + p7);
    assert forall|x: Seq<char>|
        p1.contains(x) || p2.contains(x) || p3.contains(x) || p4.contains(x) || p5.contains(x)
            || p6.contains(x) implies #[trigger] lines.contains(x) by {
        if p1.contains(x) {
            lemma_in_either(p0, p1, x);
        }
        if p1.contains(x) || p2.contains(x) {
            lemma_in_either(p0 + p1, p2, x);
        }
        if p1.contains(x) || p2.contains(x) || p3.contains(x) {
            lemma_in_either(p0 + p1 + p2, p3, x);
        }
        if p1.contains(x) || p2.contains(x) || p3.contains(x) || p4.contains(x) {
            lemma_in_either(p0 + p1 + p2 + p3, p4, x);
        }
        if p1.contains(x) || p2.contains(x) || p3.contains(x) || p4.contains(x) || p5.contains(x) {
            lemma_in_either(p0 + p1 + p2 + p3 + p4, p5, x);
        }
        lemma_in_either(p0 + p1 + p2 + p3 + p4 + p5, p6, x);
        lemma_in_either(p0 + p1 + p2 + p3 + p4 + p5 + p6, p7, x);
    }
    if b.rx_bps is Some {
        assert(p1.contains(p1[0]));
    }
    if b.tx_bps is Some {
        assert(p2.contains(p2[0]));
    }
    assert(p3.contains(p3[0]));
    if b.local_cpu_load is Some {
        assert(p4.contains(p4[0]));
    }
    if b.lost_packets is Some {
        assert(p5.contains(p5[0]));
    }
    if b.connection_count is Some {
        assert(p6.contains(p6[0]));
    }
    assert(lines.last() == p7[1]);
}

/// An inventory counts each kind on its own line, and then has a line for each
/// radio and each client.
pub proof fn law_inventory_lines(s: Snapshot, i: int, k: int)
    requires
        0 <= i < s.radios@.len(),
        0 <= k < s.clients@.len(),
    ensures
        ({
            let lines = crate::cli::show::inventory_lines(s);
            let r = s.radios@[i];
            let c = s.clients@[k];
            &&& lines.len() == 7 + s.radios@.len() + s.clients@.len()
            &&& lines[2] == "  wifi clients   "@ + crate::text::decimal(s.clients@.len())
            &&& lines[3] == "  radios         "@ + crate::text::decimal(s.radios@.len())
            &&& lines[4] == "  ARP entries    "@ + crate::text::decimal(s.arp@.len())
            &&& crate::discovery::laws::opens_with(
                lines[5],
                "  DHCP leases    "@ + crate::text::decimal(s.leases@.len()),
            )
            &&& lines[6] == "  interfaces     "@ + crate::text::decimal(s.interfaces@.len())
            &&& crate::discovery::laws::opens_with(lines[7 + i], "  radio "@ + r.name@)
            &&& crate::discovery::laws::opens_with(
                lines[7 + s.radios@.len() + k],
                "  client "@ + c.mac@ + " "@ + crate::text::right_of(
                    crate::text::decimal_int(c.signal_dbm as int),
                    5,
                ) + " dBm  tx "@ + crate::text::right_of(
                    crate::text::decimal(c.tx_rate_bps as nat / 1_000_000),
                    4,
                ) + " Mbit/s  rx "@ + crate::text::right_of(
                    crate::text::decimal(c.rx_rate_bps as nat / 1_000_000),
                    4,
                ) + " Mbit/s"@,
            )
        }),
{
    let lines = crate::cli::show::inventory_lines(s);
    let r = s.radios@[i];
    let c = s.clients@[k];
    crate::discovery::laws::lemma_opens(
        "  DHCP leases    "@ + crate::text::decimal(s.leases@.len()),
        crate::cli::show::pool_words(s.dhcp_pool_size),
    );
    assert(lines[7 + i] == crate::cli::show::radio_line(r));
    let front = "  radio "@ + r.name@;
    assert(lines[7 + i].take(front.len() as int) =~= front);
    let at = 7 + s.radios@.len() + k;
    assert(lines[at] == crate::cli::show::client_line(c));
    reveal_strlit(" Mbit/s  ");
    reveal_strlit(" Mbit/s");
    let head = "  client "@ + c.mac@ + " "@ + crate::text::right_of(
        crate::text::decimal_int(c.signal_dbm as int),
        5,
    ) + " dBm  tx "@ + crate::text::right_of(
        crate::text::decimal(c.tx_rate_bps as nat / 1_000_000),
        4,
    ) + " Mbit/s  rx "@ + crate::text::right_of(
        crate::text::decimal(c.rx_rate_bps as nat / 1_000_000),
        4,
    ) + " Mbit/s"@;
    assert(lines[at].take(head.len() as int) =~= head);
}

/// A line of a captured host gives its own rates, that of a protocol its own
/// bytes and packets, and that of a transmitter its frames and average signal.
pub proof fn law_capture_lines(
    h: HostTraffic,
    p: ProtocolTraffic,
    frames: Seq<WirelessFrame>,
    t: crate::discovery::capture::TalliedView,
)
    ensures
        crate::cli::figures::host_line(h) == "  "@ + crate::text::left_of(h.address@, 40) + " tx "@
            + crate::text::right_of(crate::text::decimal(h.tx_rate_bps as nat), 10) + " B/s   rx "@
            + crate::text::right_of(crate::text::decimal(h.rx_rate_bps as nat), 10) + " B/s"@,
        crate::discovery::laws::opens_with(
            crate::cli::figures::protocol_line(p),
            "  "@ + crate::text::left_of(p.protocol@, 16) + " "@ + crate::text::right_of(
                crate::text::decimal(p.bytes as nat),
                12,
            ) + " bytes  "@,
        ),
        crate::cli::figures::transmitter_line(frames, t) == "    "@ + t.name + "  "@
            + crate::text::right_of(crate::text::decimal(t.count as nat), 5) + " frames  avg "@
            + crate::text::decimal_int(crate::cli::figures::average_signal(frames, t.name)) + " dBm"@,
{
    let front = "  "@ + crate::text::left_of(p.protocol@, 16) + " "@ + crate::text::right_of(
        crate::text::decimal(p.bytes as nat),
        12,
    ) + " bytes  "@;
    assert(crate::cli::figures::protocol_line(p).take(front.len() as int) =~= front);
}

/// A hop that answered has its address and its times on its line, one that did
/// not says so; a host of a scan has its address first.
pub proof fn law_hop_and_host_lines(h: Hop, x: ScanHost)
    ensures
        h.address@.len() > 0 && h.loss < 100_000 ==> crate::discovery::laws::opens_with(
            crate::cli::show::hop_line(h),
            "  "@ + crate::text::right_of(crate::text::decimal(h.ttl as nat), 2) + "  "@
                + crate::text::left_of(h.address@, 16) + " "@ + crate::text::right_of(
                crate::text::fixed(h.avg as int, 1),
                7,
            ) + " ms  (best "@ + crate::text::fixed(h.best as int, 1) + ", worst "@
                + crate::text::fixed(h.worst as int, 1) + ")  "@ + crate::text::fixed(
                h.loss as int,
                0,
            ),
        ),
        h.address@.len() == 0 || h.loss >= 100_000 ==> crate::cli::show::hop_line(h) == "  "@
            + crate::text::right_of(crate::text::decimal(h.ttl as nat), 2) + "  "@
            + crate::text::left_of("*"@, 16) + " no response"@,
        crate::discovery::laws::opens_with(
            crate::cli::show::scan_line(x),
            "  "@ + crate::text::left_of(x.address@, 16) + " "@,
        ),
{
    let front = "  "@ + crate::text::right_of(crate::text::decimal(h.ttl as nat), 2) + "  "@
        + crate::text::left_of(h.address@, 16) + " "@ + crate::text::right_of(
        crate::text::fixed(h.avg as int, 1),
        7,
    ) + " ms  (best "@ + crate::text::fixed(h.best as int, 1) + ", worst "@ + crate::text::fixed(
        h.worst as int,
        1,
    ) + ")  "@ + crate::text::fixed(h.loss as int, 0);
    crate::discovery::laws::lemma_opens(front, "% loss"@);
    let head = "  "@ + crate::text::left_of(x.address@, 16) + " "@;
    assert(crate::cli::show::scan_line(x).take(head.len() as int) =~= head);
}

/// Late ticks are told of exactly where there are any, with how many.
pub proof fn law_late_lines(late: nat)
    ensures
        late == 0 ==> crate::cli::figures::late_lines(late).len() == 0,
        late > 0 ==> crate::cli::figures::late_lines(late).len() == 3
            && crate::discovery::laws::opens_with(
            crate::cli::figures::late_lines(late)[1],
            "Note: "@ + crate::text::decimal(late),
        ),
{
    let front = "Note: "@ + crate::text::decimal(late);
    if late > 0 {
        assert(crate::cli::figures::late_lines(late)[1].take(front.len() as int) =~= front);
    }
}

/// A text stands at its side of a column: as it is where it fills it, else with
/// spaces on the other side.
pub proof fn law_columns(s: Seq<char>, width: nat)
    ensures
        s.len() >= width ==> crate::text::right_of(s, width) == s && crate::text::left_of(s, width)
            == s,
        s.len() < width ==> crate::text::right_of(s, width).len() == width && crate::text::left_of(
            s,
            width,
        ).len() == width,
        s.len() < width ==> crate::text::right_of(s, width).skip(width - s.len()) == s,
        s.len() < width ==> crate::text::left_of(s, width).take(s.len() as int) == s,
        forall|i: int|
            0 <= i < width - s.len() ==> #[trigger] crate::text::right_of(s, width)[i] == ' ',
        forall|i: int|
            s.len() <= i < width ==> #[trigger] crate::text::left_of(s, width)[i] == ' ',
{
    if s.len() < width {
        assert(crate::text::right_of(s, width).skip(width - s.len()) =~= s);
        assert(crate::text::left_of(s, width).take(s.len() as int) =~= s);
    }
}

} // verus!
