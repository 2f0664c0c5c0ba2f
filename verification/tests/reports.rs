use mqagent::cli::figures::{
    btest_json, btest_report, came_back, capture_json, capture_report, late_note, mean_signal, probe_json,
    probe_report, twamp_json, verdict_words,
};
use mqagent::cli::jobs::{
    btest_config, connect, port_hint, probe_config, reflect_peer, scan_request, trace_request,
    twamp_config,
};
use mqagent::cli::show::{
    discover_json, findings_report, inventory, path_report, scan_json, scan_report, trace_json,
};
use mqagent::cli::{parse, Command};
use mqagent::collector::stats::{summarise, Sample};
use mqagent::discovery::capture::{Capture, HostTraffic, ProtocolTraffic, WirelessFrame};
use mqagent::discovery::findings::{Finding, Radio, Severity, Snapshot, WifiClient};
use mqagent::discovery::tools::{Hop, ScanHost};
use mqagent::duration::Duration;
use mqagent::json::Json;
use mqagent::net::SocketAddr;
use mqagent::routeros::btest::{self, BtestConfig, CpuVerdict, Direction, Protocol};

fn command(args: &[&str]) -> Command {
    let argv = std::iter::once("mqagent").chain(args.iter().copied()).map(String::from).collect();
    parse(argv).unwrap()
}

fn refusal(args: &[&str]) -> String {
    let argv = std::iter::once("mqagent").chain(args.iter().copied()).map(String::from).collect();
    parse(argv).unwrap_err()
}

fn finding() -> Finding {
    Finding {
        code: "path.loss",
        severity: Severity::Warning,
        summary: "packets are lost".into(),
        evidence: vec!["hop 2".into(), "hop 3".into()],
    }
}

#[test]
fn findings_are_listed_with_their_evidence() {
    assert_eq!(findings_report(&vec![]), vec!["", "No problems found."]);
    let mut worse = finding();
    worse.severity = Severity::Critical;
    worse.evidence.clear();
    assert_eq!(
        findings_report(&vec![worse, finding()]),
        vec![
            "",
            "Findings (2)",
            "",
            "  [CRITICAL] path.loss",
            "  packets are lost",
            "",
            "  [WARNING ] path.loss",
            "  packets are lost",
            "    · hop 2",
            "    · hop 3",
        ]
    );
}

#[test]
fn a_survey_is_summed_up() {
    let s = Snapshot {
        clients: vec![WifiClient {
            mac: "AA:BB".into(),
            interface: "wifi1".into(),
            ssid: "Site".into(),
            signal_dbm: -17,
            tx_rate_bps: 6_999_999,
            rx_rate_bps: 1_200_000_000,
            band: "5ghz-ac".into(),
            uptime_s: 1,
            last_activity_s: 1,
        }],
        radios: vec![Radio {
            name: "wifi1".into(),
            band: "5ghz-ax".into(),
            frequency_mhz: Some(5180),
            width: "80mhz".into(),
            country: "Canada".into(),
        }],
        dhcp_pool_size: Some(245),
        ..Default::default()
    };
    assert_eq!(
        inventory(&s),
        vec![
            "",
            "Inventory",
            "  wifi clients   1",
            "  radios         1",
            "  ARP entries    0",
            "  DHCP leases    0 of 245 pool addresses",
            "  interfaces     0",
            "  radio wifi1    5ghz-ax 80mhz 5180 MHz",
            "  client AA:BB   -17 dBm  tx    6 Mbit/s  rx 1200 Mbit/s  Site",
        ]
    );
    assert_eq!(
        discover_json("edge", "10.0.0.1", &s, &vec![finding()]).render(),
        concat_lines(&[
            r#"{"findings":[{"code":"path.loss","evidence":["hop 2","hop 3"],"#,
            r#""severity":"warning","summary":"packets are lost"}],"host":"10.0.0.1","#,
            r#""inventory":{"arp_entries":0,"dhcp_leases":0,"dhcp_pool_size":245,"#,
            r#""interfaces":0,"radios":1,"wifi_clients":1},"router":"edge"}"#,
        ])
    );
}

fn concat_lines(parts: &[&str]) -> String {
    parts.iter().copied().collect()
}

#[test]
fn a_path_is_shown_hop_by_hop() {
    let hops = vec![
        Hop {
            ttl: 1,
            address: "10.0.0.1".into(),
            sent: 3,
            loss: 33_333,
            avg: 1_849,
            best: 400,
            worst: 12_000,
        },
        Hop { ttl: 12, address: "".into(), sent: 3, loss: 100_000, avg: 0, best: 0, worst: 0 },
    ];
    assert_eq!(
        path_report(&hops),
        vec![
            "",
            "   1  10.0.0.1             1.8 ms  (best 0.4, worst 12.0)  33% loss",
            "  12  *                no response",
        ]
    );
    assert_eq!(
        trace_json("edge", "1.1.1.1", &hops, &vec![]).get("hops").unwrap().row(0).render(),
        concat_lines(&[
            r#"{"address":"10.0.0.1","avg_ms":1.849,"best_ms":0.4,"loss_pct":33.333,"#,
            r#""sent":3,"ttl":1,"worst_ms":12.0}"#,
        ])
    );
}

#[test]
fn scanned_hosts_go_by_whatever_identifies_them() {
    let host = |address: &str, mac: &str, dns: &str, netbios: &str| ScanHost {
        address: address.into(),
        mac: mac.into(),
        dns: dns.into(),
        netbios: netbios.into(),
    };
    let hosts = vec![
        host("10.0.0.1", "AA:BB:CC:00:00:01", "nas.lan", "NAS"),
        host("10.0.0.2", "", "", "DESKTOP"),
    ];
    assert_eq!(
        scan_report(&hosts),
        vec![
            "",
            "2 host(s) responding",
            "  10.0.0.1         AA:BB:CC:00:00:01  nas.lan",
            "  10.0.0.2         -                  DESKTOP",
        ]
    );
    let j = scan_json("edge", "10.0.0.0/24", &hosts, &vec![]);
    assert_eq!(j.get("hosts").unwrap().row(1).get("netbios").unwrap().as_str(), Some("DESKTOP"));
    assert_eq!(j.get("range").unwrap().as_str(), Some("10.0.0.0/24"));
}

fn sample(seq: u32, rtt_us: u64) -> Sample {
    Sample {
        seq,
        reflector_seq: Some(seq),
        rtt_ns: rtt_us * 1_000,
        tx_dscp: 46,
        rx_dscp: Some(if seq % 2 == 0 { 46 } else { 0 }),
        arrival_index: seq,
    }
}

#[test]
fn a_probe_is_reported_in_milliseconds() {
    let m = summarise(4, &[sample(0, 1_000), sample(1, 1_040), sample(2, 1_000)], Some(46));
    assert_eq!(
        probe_report(&m),
        vec![
            "",
            "RTT       min 1.000 ms  avg 1.013 ms  max 1.040 ms  stddev 0.018 ms",
            "          p50 1.000 ms  p95 1.040 ms  p99 1.040 ms",
            "Jitter    IPDV avg 0.040 ms  PDV p95 0.040 ms",
            "Loss      1/4 lost (25.00%)  [forward 1 · reverse 0]",
            "Order     0 reordered (max displacement 0)  0 duplicated",
            "DSCP      requested 46  observed 46  conformant 66.7%",
        ]
    );
    assert!(came_back(&m));

    let none = summarise(3, &[], None);
    assert!(!came_back(&none));
    assert_eq!(
        probe_report(&none),
        vec![
            "",
            "RTT       no replies",
            "Jitter    insufficient data",
            "Loss      3/3 lost (100.00%)  [3 undetermined]",
            "Order     0 reordered (max displacement 0)  0 duplicated",
            "DSCP      not echoed by peer",
        ]
    );
    let j = probe_json("10.0.0.1:5301", 0xcafe, &none, Json::Null, 2);
    assert_eq!(j.get("session_id").unwrap().as_str(), Some("000000000000cafe"));
    assert_eq!(j.get("late_ticks").unwrap().as_u64(), Some(2));
    let t = twamp_json("10.0.0.1:862", &none, Json::Null, 0, true);
    assert_eq!(t.get("protocol").unwrap().as_str(), Some("twamp-light"));
    assert!(matches!(
        t.get("responder_claims_synchronised_clock").unwrap(),
        Json::Bool(true)
    ));
}

#[test]
fn losses_are_shown_by_direction() {
    let mut late = sample(3, 1_000);
    late.reflector_seq = Some(2);
    let m = summarise(4, &[sample(0, 1_000), late], None);
    assert_eq!(m.loss.reverse_lost, 1);
    let report = probe_report(&m);
    assert_eq!(report[4], "Loss      2/4 lost (50.00%)  [forward 1 · reverse 1]");
}

#[test]
fn late_ticks_are_owned_up_to() {
    assert!(late_note(0).is_empty());
    assert_eq!(
        late_note(7)[1],
        "Note: 7 send ticks were late — this device could not sustain the"
    );
}

#[test]
fn a_bandwidth_test_is_reported_with_its_verdict() {
    let raw = Json::parse(
        r#"[{"status": "done testing", "duration": "6s", "rx-total-average": "621022992", "local-cpu-load": "99"}]"#,
    )
    .unwrap();
    let cfg = BtestConfig::new("10.0.0.1", Direction::Receive, Protocol::Tcp);
    let r = btest::parse(&raw, &cfg).unwrap();
    let j = btest_json(&r);
    assert_eq!(j.get("rx_bps").unwrap().as_u64(), Some(621_022_992));
    assert!(matches!(j.get("tx_bps").unwrap(), Json::Null));
    assert_eq!(j.get("direction").unwrap().as_str(), Some("receive"));
    assert_eq!(j.get("cpu_verdict").unwrap().as_str(), Some("router_limited"));
    assert_eq!(j.get("local_cpu_load").unwrap().as_u64(), Some(99));
    assert!(j.get("notes").unwrap().row_count() > 0);
    assert_eq!(
        verdict_words(r.cpu_verdict),
        "ROUTER-LIMITED — this measures the router, not the link"
    );
    assert_eq!(verdict_words(CpuVerdict::LinkLimited), "link-limited — the router had headroom");

    let report = btest_report(&r);
    assert_eq!(
        report[..6],
        [
            "",
            "  download (rx)  621.0 Mbit/s",
            "  duration       6s",
            "  CPU            local 99%",
            "  measured by    routeros_host",
            "  verdict        ROUTER-LIMITED — this measures the router, not the link",
        ]
    );
    assert_eq!(report.len(), 6 + 2 * r.notes.len(), "each note stands behind an empty line");
}

fn frame(src: &str, signal: i32, crc: bool) -> WirelessFrame {
    WirelessFrame {
        src: src.into(),
        dst: "FF:FF".into(),
        channel: "2412/20/gn(17dBm)".into(),
        signal_dbm: signal,
        rate_kbps: 5_500,
        crc_error: crc,
        frame_type: "data".into(),
    }
}

#[test]
fn a_wireless_capture_ranks_its_transmitters() {
    let c = Capture {
        interface: "wlan1".into(),
        duration_s: 5,
        wireless_frames: 4,
        frames: vec![
            frame("BB", -50, false),
            frame("AA", -70, true),
            frame("BB", -53, false),
            frame("", -10, false),
        ],
        used_wireless_sniffer: true,
        notes: vec!["hopping".into()],
        ..Default::default()
    };
    assert_eq!(mean_signal(&c.frames, "BB"), -51, "towards zero");
    assert_eq!(mean_signal(&c.frames, "ZZ"), 0);
    assert_eq!(
        capture_report(&c),
        vec![
            "",
            "4 802.11 frames captured on wlan1 in 5s",
            "  channel        2412/20/gn(17dBm)",
            "  CRC failures   1 of 4",
            "",
            "  transmitters (by frame count)",
            "    BB      2 frames  avg -51 dBm",
            "    AA      1 frames  avg -70 dBm",
            "",
            "  note: hopping",
        ]
    );
    let j = capture_json("edge", &c, &vec![]);
    assert_eq!(
        j.get("capture").unwrap().get("frames").unwrap().row(0).render(),
        concat_lines(&[
            r#"{"channel":"2412/20/gn(17dBm)","crc_error":false,"dst":"FF:FF","#,
            r#""frame_type":"data","rate_mbps":5.5,"signal_dbm":-50,"src":"BB"}"#,
        ])
    );
}

#[test]
fn a_packet_capture_lists_the_busiest() {
    let c = Capture {
        interface: "".into(),
        duration_s: 10,
        hosts: vec![HostTraffic {
            address: "10.0.0.1".into(),
            tx_rate_bps: 12,
            rx_rate_bps: 3456,
            peak_tx_bps: 1,
            peak_rx_bps: 2,
            total_bytes: 3,
        }],
        protocols: vec![ProtocolTraffic {
            protocol: "tcp".into(),
            bytes: 8453,
            packets: 11,
            share: 88_540,
        }],
        ..Default::default()
    };
    assert_eq!(
        capture_report(&c),
        vec![
            "",
            "1 hosts seen in 10s — busiest first",
            "  10.0.0.1                                 tx         12 B/s   rx       3456 B/s",
            "",
            "protocols",
            "  tcp                      8453 bytes    88.5%  (11 packets)",
        ]
    );
    let j = capture_json("edge", &c, &vec![]);
    let share = j.get("capture").unwrap().get("protocols").unwrap().row(0);
    assert_eq!(share.get("share_pct").unwrap().render(), "88.54");
}

#[test]
fn options_become_jobs() {
    let Command::Reflect(a) = command(&["reflect"]) else { panic!() };
    assert_eq!(reflect_peer(&a), SocketAddr::parse("0.0.0.0:0").unwrap());
    let Command::Reflect(a) = command(&["reflect", "--peer", "10.0.0.1"]) else { panic!() };
    assert_eq!(reflect_peer(&a), SocketAddr::parse("10.0.0.1:0").unwrap());

    let Command::Probe(a) = command(&["probe", "--peer", "10.0.0.1", "--interval", "5", "--dscp", "46"])
    else {
        panic!()
    };
    let c = probe_config(&a);
    assert_eq!((c.session_id, c.interval, c.dscp), (1, Duration::from_millis(5), Some(46)));
    assert_eq!(c.linger, Duration::from_secs(2));

    let Command::TwampProbe(a) = command(&["twamp-probe", "--peer", "10.0.0.1"]) else { panic!() };
    let c = twamp_config(&a);
    assert_eq!(c.peer, SocketAddr::parse("10.0.0.1:862").unwrap());
    assert_eq!((c.count, c.payload_bytes, c.timeout), (100, 41, Duration::from_secs(1)));

    let Command::Btest(a) = command(&[
        "btest", "--host", "r", "--target", "10.0.0.9", "--direction", "both", "--protocol", "udp",
        "--duration", "7", "--bt-user", "u", "--connections", "3", "--limit", "5000",
    ]) else {
        panic!()
    };
    let c = btest_config(&a);
    assert_eq!((c.direction, c.protocol), (Direction::Both, Protocol::Udp));
    assert_eq!((c.duration, c.connection_count), (Duration::from_secs(7), Some(3)));
    assert_eq!((c.local_tx_speed, c.remote_tx_speed), (Some(5000), Some(5000)));
    assert_eq!((c.user.as_str(), c.password.as_str()), ("u", ""));

    let Command::Discover(a) = command(&["discover", "--host", "10.0.0.1", "--tls"]) else { panic!() };
    let ros = connect(&a, 20);
    assert_eq!(ros.base, "https://10.0.0.1:443");
    assert_eq!((ros.user.as_str(), ros.timeout), ("admin", Duration::from_secs(20)));

    assert_eq!(
        trace_request("1.1.1.1", 3).render(),
        r#"{"address":"1.1.1.1","count":"3","timeout":"1"}"#
    );
    assert_eq!(
        scan_request("10.0.0.0/24", 10).render(),
        r#"{"address-range":"10.0.0.0/24","duration":"10"}"#
    );
    assert_eq!(port_hint(862), " (ports below 1024 need elevated privileges)");
    assert_eq!(port_hint(1024), "");
}

#[test]
fn every_router_command_is_understood() {
    let Command::Trace(t) = command(&["trace", "--host", "r", "--target", "1.1.1.1", "--json"]) else {
        panic!()
    };
    assert_eq!((t.count, t.ros.port, t.ros.json, t.ros.tls), (3, 80, true, false));
    let Command::Scan(s) = command(&["scan", "--range", "10.0.0.0/24", "--host", "r"]) else { panic!() };
    assert_eq!((s.duration_s, s.range.as_str()), (10, "10.0.0.0/24"));
    let Command::Capture(c) = command(&[
        "capture", "--host", "r", "--wireless", "--hop", "--interface", "wlan1", "--pass", "x",
    ]) else {
        panic!()
    };
    assert!(c.wireless && c.hop);
    assert_eq!((c.duration_s, c.interface.as_str(), c.ros.pass.as_str()), (10, "wlan1", "x"));
    let Command::TwampReflect(t) = command(&["twamp-reflect", "--peer", "::1", "--peer", "10.0.0.1"])
    else {
        panic!()
    };
    assert_eq!((t.port, t.peers.len()), (862, 2));
}

#[test]
fn complaints_name_what_is_wrong() {
    assert_eq!(refusal(&["reflect", "stray"]), "unexpected argument \"stray\"");
    assert_eq!(refusal(&["reflect", "--port", "x"]), "--port \"x\" is not a number");
    assert_eq!(refusal(&["reflect", "--session", "zz"]), "--session \"zz\" is not hexadecimal");
    assert_eq!(refusal(&["reflect", "--peer", "here"]), "--peer \"here\" is not an IP");
    assert_eq!(refusal(&["reflect", "--twamp-port", "x"]), "--twamp-port \"x\" is not a port");
    assert_eq!(refusal(&["reflect", "--twamp-peer", "x"]), "--twamp-peer \"x\" is not an IP");
    assert_eq!(refusal(&["probe", "--peer", "a:b"]), "--peer \"a:b\" is not addr:port");
    assert_eq!(refusal(&["probe", "--peer", "ab"]), "--peer \"ab\" is not an IP");
    assert_eq!(refusal(&["probe", "--peer", "10.0.0.1", "--dscp", "x"]), "--dscp \"x\" is not a number");
    assert_eq!(refusal(&["twamp-reflect", "--peer", "x"]), "--peer \"x\" is not an IP address");
    assert_eq!(refusal(&["twamp-probe"]), "twamp-probe requires --peer");
    assert_eq!(refusal(&["trace", "--target", "x"]), "--host is required");
    assert_eq!(refusal(&["trace", "--host", "x"]), "trace requires --target");
    assert_eq!(refusal(&["scan", "--host", "x"]), "scan requires --range");
    assert_eq!(refusal(&["discover"]), "discover requires --host");
    assert_eq!(refusal(&["btest", "--host", "x"]), "btest requires --target");
    let btest = |more: &[&str]| {
        let mut a = vec!["btest", "--host", "x", "--target", "y"];
        a.extend(more);
        refusal(&a)
    };
    assert_eq!(btest(&["--direction", "up"]), "--direction must be rx, tx or both");
    assert_eq!(btest(&["--protocol", "sctp"]), "--protocol must be tcp or udp");
    assert_eq!(btest(&["--connections", "x"]), "--connections is not a number");
    assert_eq!(btest(&["--limit", "x"]), "--limit is not a number");
    assert_eq!(refusal(&["nope"]), "unknown command \"nope\" — try --help");
    assert_eq!(
        refusal(&["probe", "--peer", "10.0.0.1", "--codec", "MP3"]),
        "unknown codec \"mp3\"",
        "as it was compared"
    );
    // The first value of an option counts.
    let Command::Reflect(r) = command(&["reflect", "--port", "1", "--port", "2"]) else { panic!() };
    assert_eq!(r.port, 1);
}
