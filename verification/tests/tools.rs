use mqagent::discovery::findings::{DhcpLease, Finding, Severity};
use mqagent::discovery::tools::{
    analyse_path, analyse_scan, parse_ip_scan, parse_traceroute, Hop, ScanHost,
};
use mqagent::json::Json;

/// The value that a JSON text spells.
fn value(text: &str) -> Json {
    Json::parse(text).unwrap()
}

fn hop(ttl: usize, addr: &str, avg: f64, loss: f64) -> Hop {
    Hop {
        ttl,
        address: addr.into(),
        sent: 3,
        loss: (loss * 1000.0) as i64,
        avg: (avg * 1000.0) as i64,
        best: (avg * 900.0) as i64,
        worst: (avg * 1200.0) as i64,
    }
}

fn find(f: &[Finding], code: &str) -> Option<Finding> {
    f.iter().find(|x| x.code == code).cloned()
}

#[test]
fn only_the_last_section_is_parsed() {
    // Captured shape from a real RouterOS run: two rounds over two hops
    // returns four rows. Treating them all as hops would double the path.
    let v = value(r#"[{".section": "0", "address": "10.0.0.1", "sent": "1", "loss": "0", "avg": "0.5", "best": "0.4", "worst": "0.6"}, {".section": "0", "address": "10.0.1.1", "sent": "1", "loss": "0", "avg": "2.0", "best": "1.9", "worst": "2.1"}, {".section": "1", "address": "10.0.0.1", "sent": "2", "loss": "0", "avg": "0.4", "best": "0.3", "worst": "0.6"}, {".section": "1", "address": "10.0.1.1", "sent": "2", "loss": "0", "avg": "1.8", "best": "1.7", "worst": "2.0"}]"#);
    let hops = parse_traceroute(&v);
    assert_eq!(hops.len(), 2, "two hops, not four");
    assert_eq!(hops[0].ttl, 1);
    assert_eq!(hops[1].ttl, 2);
    assert_eq!(hops[1].sent, 2, "the last section carries cumulative counts");
    assert!((hops[1].avg - 1_800).abs() < 10);
}

#[test]
fn a_clean_path_produces_no_findings() {
    let hops = vec![
        hop(1, "172.16.220.1", 0.4, 0.0),
        hop(2, "172.16.100.52", 1.1, 0.0),
        hop(3, "1.1.1.1", 8.7, 0.0),
    ];
    assert!(analyse_path(&hops, "1.1.1.1").is_empty());
}

#[test]
fn a_latency_step_names_the_link_that_introduced_it() {
    let hops = vec![
        hop(1, "192.168.1.1", 1.0, 0.0),
        hop(2, "10.0.0.1", 3.0, 0.0),
        hop(3, "203.0.113.1", 95.0, 0.0), // satellite or congested uplink
        hop(4, "1.1.1.1", 98.0, 0.0),
    ];
    let f = analyse_path(&hops, "1.1.1.1");
    let hit = find(&f, "path.latency_step").expect("should locate the step");
    assert!(hit.summary.contains("hop 2"), "{}", hit.summary);
    assert!(hit.summary.contains("hop 3"), "{}", hit.summary);
}

#[test]
fn an_icmp_deprioritising_hop_is_not_reported_as_latency() {
    // The most misread thing in a traceroute: one router answers its own
    // ICMP slowly while forwarding perfectly. Reporting it would send an
    // engineer after a device that is working fine.
    let hops = vec![
        hop(1, "192.168.1.1", 1.0, 0.0),
        hop(2, "10.0.0.1", 250.0, 0.0), // slow to answer, fast to forward
        hop(3, "203.0.113.1", 9.0, 0.0),
        hop(4, "1.1.1.1", 10.0, 0.0),
    ];
    assert!(
        find(&analyse_path(&hops, "1.1.1.1"), "path.latency_step").is_none(),
        "a spike that does not persist to the destination is not path latency"
    );
}

#[test]
fn intermediate_loss_that_does_not_persist_is_ignored() {
    // Same reasoning for loss: routers rate-limit ICMP to themselves.
    let hops = vec![
        hop(1, "192.168.1.1", 1.0, 0.0),
        hop(2, "10.0.0.1", 3.0, 60.0), // rate-limited, still forwarding
        hop(3, "1.1.1.1", 9.0, 0.0),
    ];
    assert!(find(&analyse_path(&hops, "1.1.1.1"), "path.loss").is_none());
}

#[test]
fn loss_reaching_the_destination_is_reported_with_its_onset() {
    let hops = vec![
        hop(1, "192.168.1.1", 1.0, 0.0),
        hop(2, "10.0.0.1", 3.0, 12.0),
        hop(3, "1.1.1.1", 9.0, 14.0),
    ];
    let hit = find(&analyse_path(&hops, "1.1.1.1"), "path.loss").expect("should report");
    assert_eq!(hit.severity, Severity::Critical);
    assert!(hit.summary.contains("hop 2"), "should name the onset: {}", hit.summary);
}

#[test]
fn an_unreached_destination_is_critical_and_shows_the_whole_path() {
    let hops = vec![
        hop(1, "192.168.1.1", 1.0, 0.0),
        hop(2, "10.0.0.1", 3.0, 0.0),
        Hop { address: String::new(), ..hop(3, "", 0.0, 100.0) },
    ];
    let hit = find(&analyse_path(&hops, "1.1.1.1"), "path.unreachable").expect("should flag");
    assert_eq!(hit.severity, Severity::Critical);
    assert!(hit.evidence.iter().any(|e| e.contains("no response")));
}

#[test]
fn a_totally_silent_path_is_distinguished_from_an_incomplete_one() {
    let hops = vec![
        Hop { address: String::new(), ..hop(1, "", 0.0, 100.0) },
        Hop { address: String::new(), ..hop(2, "", 0.0, 100.0) },
    ];
    let f = analyse_path(&hops, "1.1.1.1");
    assert!(find(&f, "path.no_response").is_some());
    assert!(find(&f, "path.unreachable").is_none(), "only one diagnosis, not two");
}

#[test]
fn a_repeated_address_is_a_routing_loop() {
    let hops = vec![
        hop(1, "10.0.0.1", 1.0, 0.0),
        hop(2, "10.0.0.2", 2.0, 0.0),
        hop(3, "10.0.0.1", 3.0, 0.0),
        hop(4, "10.0.0.2", 4.0, 0.0),
    ];
    let hit = find(&analyse_path(&hops, "9.9.9.9"), "path.routing_loop").expect("should flag");
    assert_eq!(hit.severity, Severity::Critical);
    assert_eq!(hit.evidence.len(), 2);
}

#[test]
fn cgnat_on_the_path_is_surfaced() {
    // Invisible from the customer's own router, and explains why port
    // forwarding "does not work" no matter what they configure.
    let hops = vec![
        hop(1, "192.168.1.1", 1.0, 0.0),
        hop(2, "100.64.12.1", 4.0, 0.0),
        hop(3, "1.1.1.1", 9.0, 0.0),
    ];
    let hit = find(&analyse_path(&hops, "1.1.1.1"), "path.cgnat").expect("should flag");
    assert!(hit.summary.contains("port forwarding"), "{}", hit.summary);
}

#[test]
fn ordinary_private_ranges_are_not_mistaken_for_cgnat() {
    // 100.64/10 is easy to confuse with 10/8 and 172.16/12 when checking
    // by prefix rather than by range.
    for addr in ["10.0.0.1", "172.16.220.1", "192.168.1.1", "100.128.0.1", "100.63.255.255"] {
        let hops = vec![hop(1, addr, 1.0, 0.0), hop(2, "1.1.1.1", 9.0, 0.0)];
        assert!(
            find(&analyse_path(&hops, "1.1.1.1"), "path.cgnat").is_none(),
            "{addr} is not CGNAT"
        );
    }
    // Both ends of the real range are.
    for addr in ["100.64.0.0", "100.127.255.255"] {
        let hops = vec![hop(1, addr, 1.0, 0.0), hop(2, "1.1.1.1", 9.0, 0.0)];
        assert!(find(&analyse_path(&hops, "1.1.1.1"), "path.cgnat").is_some(), "{addr}");
    }
}

// --- ip scan ---------------------------------------------------------

#[test]
fn scan_parses_the_last_section_and_strips_trailing_dots() {
    let v = value(r#"[{".section": "0", "address": "10.0.0.1", "mac-address": "AA:BB:CC:00:00:01"}, {".section": "1", "address": "10.0.0.1", "mac-address": "AA:BB:CC:00:00:01", "dns": "router.lan."}, {".section": "1", "address": "10.0.0.2", "mac-address": "AA:BB:CC:00:00:02", "netbios": "DESKTOP"}]"#);
    let hosts = parse_ip_scan(&v);
    assert_eq!(hosts.len(), 2);
    assert_eq!(hosts[0].dns, "router.lan", "trailing dot is noise in a report");
    assert_eq!(hosts[1].netbios, "DESKTOP");
}

#[test]
fn a_dash_placeholder_is_treated_as_absent() {
    // RouterOS prints "-" for a field it has no value for; carrying that
    // into a report as if it were a MAC address would be misleading.
    let v = value(r#"[{".section": "0", "address": "10.0.0.1", "mac-address": "-"}]"#);
    assert_eq!(parse_ip_scan(&v)[0].mac, "");
}

#[test]
fn one_mac_on_several_addresses_is_flagged() {
    let hosts = vec![
        ScanHost { address: "10.0.0.5".into(), mac: "AA:BB:CC:00:00:01".into(), dns: String::new(), netbios: String::new() },
        ScanHost { address: "10.0.0.9".into(), mac: "AA:BB:CC:00:00:01".into(), dns: String::new(), netbios: String::new() },
    ];
    let hit = find(&analyse_scan(&hosts, &[]), "scan.mac_multiple_addresses").expect("flag");
    assert_eq!(hit.severity, Severity::Warning);
    assert!(hit.evidence[0].contains("10.0.0.5"));
}

#[test]
fn hosts_without_a_lease_are_listed_with_whatever_identifies_them() {
    let hosts = vec![
        ScanHost { address: "10.0.0.5".into(), mac: "AA:BB:CC:00:00:01".into(), dns: "nas.lan".into(), netbios: String::new() },
        ScanHost { address: "10.0.0.6".into(), mac: "AA:BB:CC:00:00:02".into(), dns: String::new(), netbios: String::new() },
    ];
    let leases = vec![DhcpLease {
        address: "10.0.0.5".into(),
        mac: "aa:bb:cc:00:00:01".into(),
        hostname: "nas".into(),
        active: true,
    }];
    let hit = find(&analyse_scan(&hosts, &leases), "scan.unmanaged_host").expect("flag");
    assert_eq!(hit.evidence.len(), 1, "the leased host must not be listed");
    assert!(hit.evidence[0].contains("unidentified"), "{:?}", hit.evidence);
}

#[test]
fn without_lease_data_no_host_is_called_unmanaged() {
    let hosts = vec![ScanHost {
        address: "10.0.0.6".into(),
        mac: "AA:BB:CC:00:00:02".into(),
        dns: String::new(),
        netbios: String::new(),
    }];
    assert!(find(&analyse_scan(&hosts, &[]), "scan.unmanaged_host").is_none());
}

#[test]
fn empty_input_is_safe() {
    assert!(analyse_path(&[], "1.1.1.1").is_empty());
    assert!(analyse_scan(&[], &[]).is_empty());
    assert!(parse_traceroute(&value(r#"null"#)).is_empty());
    assert!(parse_ip_scan(&value(r#""nonsense""#)).is_empty());
}

#[test]
fn loss_is_put_down_to_the_hop_where_it_stays() {
    // Hop 2 limits its own answers; the loss that arrives begins at hop 4.
    let hops = vec![
        hop(1, "10.0.0.1", 1.0, 0.0),
        hop(2, "10.0.1.1", 2.0, 50.0),
        hop(3, "10.0.2.1", 3.0, 0.0),
        hop(4, "10.0.3.1", 4.0, 5.0),
        hop(5, "1.1.1.1", 5.0, 5.0),
    ];
    let hit = find(&analyse_path(&hops, "1.1.1.1"), "path.loss").unwrap();
    assert!(hit.summary.contains("first appearing at hop 4 (10.0.3.1)"), "{}", hit.summary);

    // Where it begins at the destination itself, no hop before it is named.
    let hops = vec![hop(1, "10.0.1.1", 2.0, 50.0), hop(2, "10.0.2.1", 3.0, 0.0), hop(3, "1.1.1.1", 4.0, 5.0)];
    let hit = find(&analyse_path(&hops, "1.1.1.1"), "path.loss").unwrap();
    assert_eq!(hit.summary, "5% loss to 1.1.1.1");
}
