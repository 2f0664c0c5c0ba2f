use mqagent::discovery::capture::{
    analyse, clamp, is_broadcastish, parse_frames, parse_hosts, parse_protocols,
    parse_signal_at_rate, split_rate, Capture, HostTraffic, WirelessFrame, MAX_CAPTURE_SECS,
};
use mqagent::discovery::findings::{Finding, Severity};
use mqagent::duration::Duration;
use mqagent::json::Json;

/// The value that a JSON text spells.
fn value(text: &str) -> Json {
    Json::parse(text).unwrap()
}

fn host(addr: &str, tx: u64, rx: u64) -> HostTraffic {
    HostTraffic {
        address: addr.into(),
        tx_rate_bps: tx,
        rx_rate_bps: rx,
        peak_tx_bps: tx,
        peak_rx_bps: rx,
        total_bytes: tx + rx,
    }
}

fn cap(hosts: Vec<HostTraffic>) -> Capture {
    Capture { duration_s: 10, hosts, ..Default::default() }
}

fn find(f: &[Finding], code: &str) -> Option<Finding> {
    f.iter().find(|x| x.code == code).cloned()
}

#[test]
fn parses_a_real_host_table() {
    // Captured verbatim from a hAP ac³ running RouterOS 7.24.2, where the
    // rate field is "tx/rx".
    let v = value(r#"[{".id": "*1", "address": "162.216.185.241", "rate": "0/2736", "peak-rate": "0/8192", "total": "0/54720"}, {".id": "*2", "address": "172.16.220.4", "rate": "0/0", "peak-rate": "0/0", "total": "0/0"}]"#);
    let hosts = parse_hosts(&v);
    assert_eq!(hosts.len(), 2);
    assert_eq!(hosts[0].address, "162.216.185.241");
    assert_eq!(hosts[0].rx_rate_bps, 2736, "the second field is rx");
    assert_eq!(hosts[0].tx_rate_bps, 0);
    assert_eq!(hosts[0].peak_rx_bps, 8192);
    assert_eq!(hosts[0].total_bytes, 54_720);
}

#[test]
fn hosts_come_back_busiest_first() {
    // The entire point is to name the top talker, so ordering is not
    // cosmetic.
    let v = value(r#"[{"address": "10.0.0.1", "rate": "10/10"}, {"address": "10.0.0.2", "rate": "9000/0"}, {"address": "10.0.0.3", "rate": "0/500"}]"#);
    let hosts = parse_hosts(&v);
    assert_eq!(hosts[0].address, "10.0.0.2");
    assert_eq!(hosts[1].address, "10.0.0.3");
}

#[test]
fn malformed_rows_do_not_sink_the_capture() {
    let v = value(r#"[{"address": "10.0.0.1", "rate": "not-a-rate"}, {"rate": "1/2"}, {"address": "10.0.0.2", "rate": "5"}]"#);
    let hosts = parse_hosts(&v);
    assert_eq!(hosts.len(), 2, "the row with no address is unusable");
    // "5" with no slash is a tx figure with no rx.
    assert!(hosts.iter().any(|h| h.address == "10.0.0.2" && h.tx_rate_bps == 5));
}

#[test]
fn a_dominant_host_is_named() {
    let f = analyse(&cap(vec![
        host("10.0.0.99", 900_000, 0),
        host("10.0.0.1", 1_000, 1_000),
        host("10.0.0.2", 500, 500),
    ]));
    let hit = find(&f, "capture.dominant_host").expect("should name the talker");
    assert!(hit.summary.contains("10.0.0.99"), "{}", hit.summary);
    assert_eq!(hit.severity, Severity::Warning);
}

#[test]
fn evenly_shared_traffic_names_nobody() {
    let f = analyse(&cap(vec![
        host("10.0.0.1", 1000, 1000),
        host("10.0.0.2", 1000, 1000),
        host("10.0.0.3", 1000, 1000),
    ]));
    assert!(find(&f, "capture.dominant_host").is_none());
}

#[test]
fn a_single_host_is_not_called_dominant() {
    // With one host it is trivially 100% and says nothing.
    let f = analyse(&cap(vec![host("10.0.0.1", 9999, 0)]));
    assert!(find(&f, "capture.dominant_host").is_none());
}

#[test]
fn broadcast_heavy_traffic_is_flagged_critical() {
    let f = analyse(&cap(vec![
        host("255.255.255.255", 800_000, 0),
        host("10.0.0.1", 1_000, 1_000),
    ]));
    let hit = find(&f, "capture.broadcast_storm_source").expect("should flag the storm");
    assert_eq!(hit.severity, Severity::Critical);
    assert!(hit.summary.contains("airtime"), "must explain the wifi cost: {}", hit.summary);
}

#[test]
fn multicast_counts_towards_the_storm_share() {
    let f = analyse(&cap(vec![
        host("224.0.0.251", 500_000, 0), // mDNS
        host("239.255.255.250", 300_000, 0), // SSDP
        host("10.0.0.1", 1_000, 0),
    ]));
    assert!(find(&f, "capture.broadcast_storm_source").is_some());
}

#[test]
fn ordinary_unicast_traffic_is_not_a_storm() {
    let f = analyse(&cap(vec![host("10.0.0.1", 900_000, 0), host("10.0.0.2", 100_000, 0)]));
    assert!(find(&f, "capture.broadcast_storm_source").is_none());
}

#[test]
fn broadcast_classification_covers_the_real_cases() {
    for a in ["255.255.255.255", "224.0.0.1", "239.255.255.250", "ff02::1", "0.0.0.0"] {
        assert!(is_broadcastish(a), "{a} should count as broadcast/multicast");
    }
    for a in ["10.0.0.1", "192.168.1.255", "2001:db8::1", "not-an-address"] {
        assert!(!is_broadcastish(a), "{a} should not");
    }
}

#[test]
fn protocol_rows_prefer_the_informative_label() {
    // Captured verbatim: every IP row also carries protocol="ip", so
    // preferring that field labels the whole table "ip".
    let v = value(r#"[{"bytes": "8453", "ip-protocol": "tcp", "packets": "11", "protocol": "ip", "share": "88.54"}, {"bytes": "914", "ip-protocol": "udp", "packets": "3", "protocol": "ip", "share": "9.57"}, {"bytes": "180", "packets": "3", "protocol": "arp", "share": "1.88"}]"#);
    let ps = parse_protocols(&v);
    assert_eq!(ps[0].protocol, "tcp");
    assert_eq!(ps[0].share, 88_540);
    assert_eq!(ps[1].protocol, "udp");
    assert_eq!(ps[2].protocol, "arp", "a row with no ip-protocol keeps its own label");
}

#[test]
fn an_empty_capture_is_safe() {
    assert!(analyse(&Capture::default()).is_empty());
    assert!(parse_hosts(&value(r#"null"#)).is_empty());
    assert!(parse_protocols(&value(r#""nonsense""#)).is_empty());
}

fn frame(src: &str, dst: &str, sig: i32, rate: f64, crc: bool) -> WirelessFrame {
    WirelessFrame {
        src: src.into(),
        dst: dst.into(),
        channel: "2412/20/gn(17dBm)".into(),
        signal_dbm: sig,
        rate_kbps: (rate * 1000.0) as u64,
        crc_error: crc,
        frame_type: "data".into(),
    }
}

fn typed(mut f: WirelessFrame, t: &str) -> WirelessFrame {
    f.frame_type = t.into();
    f
}

fn wcap(frames: Vec<WirelessFrame>) -> Capture {
    Capture {
        interface: "wlan1".into(),
        duration_s: 5,
        wireless_frames: frames.len() as u64,
        frames,
        used_wireless_sniffer: true,
        ..Default::default()
    }
}

#[test]
fn parses_a_real_sniffed_frame() {
    // Captured verbatim from a hAP ac³ on RouterOS 7.24.2.
    let v = value(r#"[{"channel": "2412/20/gn(17dBm)", "crc-error": "false", "dst": "FF:FF:FF:FF:FF:FF", "interface": "wlan1", "signal-at-rate": "-58@5.5Mbps", "src": "B8:69:F4:CC:48:27", "type": "data"}]"#);
    let f = &parse_frames(&v)[0];
    assert_eq!(f.src, "B8:69:F4:CC:48:27");
    assert_eq!(f.signal_dbm, -58);
    assert_eq!(f.rate_kbps, 5_500, "the rate rides in the same field as the signal");
    assert!(!f.crc_error);
    assert!(f.is_broadcast());
}

#[test]
fn signal_at_rate_parses_defensively() {
    assert_eq!(parse_signal_at_rate("-58@5.5Mbps"), (-58, 5_500));
    assert_eq!(parse_signal_at_rate("-70@130Mbps"), (-70, 130_000));
    assert_eq!(parse_signal_at_rate("-64"), (-64, 0));
    assert_eq!(parse_signal_at_rate(""), (0, 0));
}

#[test]
fn crc_failures_are_flagged_because_a_packet_capture_never_sees_them() {
    let mut frames: Vec<WirelessFrame> =
        (0..6).map(|_| frame("AA:BB:CC:00:00:01", "DD:..", -70, 54.0, true)).collect();
    frames.extend((0..14).map(|_| frame("AA:BB:CC:00:00:01", "DD:..", -70, 54.0, false)));

    let hit = find(&analyse(&wcap(frames)), "capture.wifi_crc_errors").expect("should flag");
    assert!(hit.summary.contains("30%"), "{}", hit.summary);
    assert_eq!(hit.severity, Severity::Critical);
}

#[test]
fn a_clean_channel_raises_no_crc_finding() {
    let frames: Vec<WirelessFrame> =
        (0..20).map(|_| frame("AA:BB:CC:00:00:01", "DD:..", -50, 130.0, false)).collect();
    assert!(find(&analyse(&wcap(frames)), "capture.wifi_crc_errors").is_none());
}

#[test]
fn low_rate_data_frames_name_the_transmitters_responsible() {
    let mut frames: Vec<WirelessFrame> =
        (0..25).map(|_| frame("AA:BB:CC:00:00:99", "DD:..", -80, 5.5, false)).collect();
    frames.extend((0..10).map(|_| frame("AA:BB:CC:00:00:01", "DD:..", -45, 130.0, false)));

    let hit = find(&analyse(&wcap(frames)), "capture.wifi_low_rate_frames").expect("flag");
    assert!(hit.summary.contains("data frames"), "{}", hit.summary);
    assert!(hit.evidence[0].contains("AA:BB:CC:00:00:99"), "{:?}", hit.evidence);
}

#[test]
fn beacons_are_not_counted_as_slow_clients() {
    // The real distribution from a hAP ac3: 51 beacons and 8 data frames,
    // every beacon at 5.5 Mbit/s because that is what beacons do. Counting
    // them reported "92% of frames low rate" on a healthy channel.
    let mut frames: Vec<WirelessFrame> = (0..51)
        .map(|_| typed(frame("B8:69:F4:CC:48:27", "FF:FF:FF:FF:FF:FF", -63, 5.5, false), "beacon"))
        .collect();
    frames.extend((0..8).map(|_| typed(frame("D4:01:C3:C8:EF:D2", "AA:..", -75, 5.5, false), "probe-resp")));
    frames.extend((0..17).map(|_| typed(frame("24:A4:3C:70:27:F8", "AA:..", -85, 12.0, false), "ack")));

    let f = analyse(&wcap(frames));
    assert!(
        find(&f, "capture.wifi_low_rate_frames").is_none(),
        "management and control frames are low-rate by design: {f:?}"
    );
}

#[test]
fn too_few_data_frames_is_not_a_measurement() {
    // Three slow data frames in a capture is noise, not a finding.
    let mut frames: Vec<WirelessFrame> =
        (0..3).map(|_| frame("AA:BB:CC:00:00:99", "DD:..", -80, 5.5, false)).collect();
    frames.extend((0..40).map(|_| typed(frame("BB:..", "FF:FF:FF:FF:FF:FF", -60, 5.5, false), "beacon")));
    assert!(find(&analyse(&wcap(frames)), "capture.wifi_low_rate_frames").is_none());
}

#[test]
fn the_frame_mix_is_reported_because_it_is_informative_on_its_own() {
    let mut frames: Vec<WirelessFrame> =
        (0..10).map(|_| typed(frame("AA:..", "FF:FF:FF:FF:FF:FF", -60, 5.5, false), "beacon")).collect();
    frames.extend((0..4).map(|_| typed(frame("BB:..", "AA:..", -60, 54.0, false), "probe-req")));
    let hit = find(&analyse(&wcap(frames)), "capture.wifi_frame_mix").expect("should report");
    assert!(hit.summary.contains("beacon"), "{}", hit.summary);
}

#[test]
fn a_broadcast_heavy_channel_is_flagged_on_data_frames() {
    let frames: Vec<WirelessFrame> = (0..25)
        .map(|_| frame("AA:BB:CC:00:00:01", "FF:FF:FF:FF:FF:FF", -50, 130.0, false))
        .collect();
    let hit = find(&analyse(&wcap(frames)), "capture.wifi_broadcast_heavy").expect("flag");
    assert!(hit.summary.contains("data frames"), "{}", hit.summary);
}

#[test]
fn beacons_do_not_make_an_idle_channel_look_broadcast_heavy() {
    // Every beacon is addressed to the broadcast MAC by definition. The
    // real capture was 52 beacons of 88 frames and this fired at 61% on a
    // radio carrying no user traffic at all.
    let mut frames: Vec<WirelessFrame> = (0..52)
        .map(|_| typed(frame("AA:..", "FF:FF:FF:FF:FF:FF", -60, 5.5, false), "beacon"))
        .collect();
    frames.extend((0..22).map(|_| typed(frame("BB:..", "CC:..", -60, 24.0, false), "ack")));
    frames.extend((0..4).map(|_| frame("CC:..", "DD:..", -60, 54.0, false)));

    let f = analyse(&wcap(frames));
    assert!(
        find(&f, "capture.wifi_broadcast_heavy").is_none(),
        "beacons are broadcast by design: {f:?}"
    );
}

#[test]
fn a_silent_channel_says_so_rather_than_nothing() {
    let hit = find(&analyse(&wcap(vec![])), "capture.wireless_silent").expect("should report");
    assert!(hit.summary.contains("wlan1"));
}

#[test]
fn an_overlong_capture_is_shortened_and_explained() {
    // A sniffer left running is a denial of service against the router's
    // own control plane.
    let (secs, notes) = clamp(Duration::from_secs(600));
    assert_eq!(secs, MAX_CAPTURE_SECS);
    assert!(notes[0].contains("shortened"), "{notes:?}");

    let (secs, notes) = clamp(Duration::from_secs(10));
    assert_eq!(secs, 10);
    assert!(notes.is_empty());
}

#[test]
fn rate_pairs_parse_defensively() {
    assert_eq!(split_rate("0/2736"), (0, 2736));
    assert_eq!(split_rate("100/200"), (100, 200));
    assert_eq!(split_rate("42"), (42, 0));
    assert_eq!(split_rate(""), (0, 0));
    assert_eq!(split_rate("junk/more"), (0, 0));
}

#[test]
fn management_frames_change_no_rate_or_broadcast_finding() {
    let everyone = "FF:FF:FF:FF:FF:FF";
    let mut frames: Vec<WirelessFrame> = (0..20)
        .map(|i| {
            let (src, dst) = if i % 3 == 0 { ("AA", everyone) } else { ("BB", "CC") };
            frame(src, dst, -50, if i % 2 == 0 { 6.0 } else { 54.0 }, false)
        })
        .collect();
    let before = analyse(&wcap(frames.clone()));
    let slow = find(&before, "capture.wifi_low_rate_frames").unwrap();
    let heavy = find(&before, "capture.wifi_broadcast_heavy").unwrap();
    for at in [0, 7, 21, 30] {
        for kind in ["beacon", "ack"] {
            let at = at.min(frames.len());
            frames.insert(at, typed(frame("AA", everyone, -40, 1.0, false), kind));
        }
    }
    let after = analyse(&wcap(frames));
    assert_eq!(find(&after, "capture.wifi_low_rate_frames").unwrap(), slow);
    let again = find(&after, "capture.wifi_broadcast_heavy").unwrap();
    assert_eq!((again.severity, again.summary), (heavy.severity, heavy.summary));
}
