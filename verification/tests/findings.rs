use mqagent::discovery::findings::{
    analyse, ArpEntry, DhcpLease, Finding, InterfaceStats, NeighbourAp, Radio, Severity, Snapshot,
    WifiClient,
};

fn client(mac: &str, signal: i32, tx_mbps: u64) -> WifiClient {
    WifiClient {
        mac: mac.into(),
        interface: "wifi1".into(),
        ssid: "Site".into(),
        signal_dbm: signal,
        tx_rate_bps: tx_mbps * 1_000_000,
        rx_rate_bps: tx_mbps * 1_000_000,
        band: "5ghz-ac".into(),
        uptime_s: 600,
        last_activity_s: 1,
    }
}

fn idle(mut c: WifiClient) -> WifiClient {
    c.last_activity_s = 600;
    c
}

fn codes(f: &[Finding]) -> Vec<&str> {
    f.iter().map(|x| x.code).collect()
}

/// Returns an owned copy so callers can write `find(&analyse(&s), ..)`
/// without borrowing from a temporary.
fn find(f: &[Finding], code: &str) -> Option<Finding> {
    f.iter().find(|x| x.code == code).cloned()
}

#[test]
fn a_healthy_snapshot_produces_no_findings() {
    let s = Snapshot {
        clients: vec![client("aa", -45, 300), client("bb", -50, 400)],
        radios: vec![Radio {
            name: "wifi1".into(),
            band: "5ghz-ax".into(),
            frequency_mhz: Some(5180),
            width: "80mhz".into(),
            country: "Canada".into(),
        }],
        ..Default::default()
    };
    assert!(analyse(&s).is_empty(), "got {:?}", analyse(&s));
}

#[test]
fn one_slow_client_is_flagged_as_hurting_the_whole_radio() {
    // The headline case: a single 6 Mbit/s device flattening an SSID.
    let s = Snapshot {
        clients: vec![client("slow", -70, 6), client("a", -45, 300), client("b", -50, 300)],
        ..Default::default()
    };
    let f = analyse(&s);
    let hit = find(&f, "wifi.slow_client_airtime").expect("should flag airtime");
    assert_eq!(hit.severity, Severity::Critical, "50x airtime cost is critical");
    assert!(
        hit.summary.contains("shares airtime"),
        "the explanation is the useful part: {}",
        hit.summary
    );
    assert!(hit.evidence.iter().any(|e| e.contains("50x")), "{:?}", hit.evidence);
}

#[test]
fn a_uniformly_fast_radio_is_not_flagged() {
    let s = Snapshot {
        clients: vec![client("a", -45, 300), client("b", -50, 400)],
        ..Default::default()
    };
    assert!(find(&analyse(&s), "wifi.slow_client_airtime").is_none());
}

#[test]
fn airtime_findings_are_per_radio() {
    // wifi1 is healthy; wifi2 has a slow client contending with a fast one.
    // Only wifi2 should be named, and contention is judged per radio rather
    // than across the whole device.
    let on = |c: WifiClient, iface: &str| WifiClient { interface: iface.into(), ..c };
    let s = Snapshot {
        clients: vec![
            on(client("a", -45, 300), "wifi1"),
            on(client("b", -46, 300), "wifi1"),
            on(client("slow", -70, 6), "wifi2"),
            on(client("c", -45, 300), "wifi2"),
        ],
        ..Default::default()
    };
    let f = analyse(&s);
    let hits: Vec<&Finding> =
        f.iter().filter(|x| x.code == "wifi.slow_client_airtime").collect();
    assert_eq!(hits.len(), 1, "only the affected radio should be flagged");
    assert!(hits[0].summary.contains("wifi2"), "should name it: {}", hits[0].summary);
}

#[test]
fn strong_signal_with_a_low_rate_is_called_out_separately() {
    // The anomaly seen on a real router: -17 dBm at 6 Mbit/s.
    // Distance cannot explain it, so it needs a different diagnosis from a
    // weak-signal client.
    let s = Snapshot { clients: vec![client("odd", -17, 6)], ..Default::default() };
    let f = analyse(&s);
    let hit = find(&f, "wifi.rate_signal_mismatch").expect("should flag the mismatch");
    assert!(hit.evidence[0].contains("-17"), "{:?}", hit.evidence);
    assert!(
        find(&f, "wifi.weak_signal").is_none(),
        "a -17 dBm client is not a coverage problem"
    );
}

#[test]
fn a_distant_client_is_a_coverage_problem_not_a_mismatch() {
    let s = Snapshot { clients: vec![client("far", -85, 6)], ..Default::default() };
    let f = analyse(&s);
    assert!(find(&f, "wifi.weak_signal").is_some());
    assert!(
        find(&f, "wifi.rate_signal_mismatch").is_none(),
        "distance explains this rate, so it is not an anomaly"
    );
}

#[test]
fn band_steering_is_only_suggested_when_5ghz_exists() {
    let mut c = client("dualband", -50, 100);
    c.band = "2ghz-n".into();

    let without = Snapshot { clients: vec![c.clone()], ..Default::default() };
    assert!(find(&analyse(&without), "wifi.band_steering_opportunity").is_none());

    let with = Snapshot {
        clients: vec![c],
        radios: vec![Radio {
            name: "wifi1".into(),
            band: "5ghz-ax".into(),
            frequency_mhz: Some(5180),
            width: "80mhz".into(),
            country: "Canada".into(),
        }],
        ..Default::default()
    };
    assert!(find(&analyse(&with), "wifi.band_steering_opportunity").is_some());
}

#[test]
fn co_channel_neighbours_are_counted_only_on_our_own_channel() {
    let radio = Radio {
        name: "wifi1".into(),
        band: "5ghz-ax".into(),
        frequency_mhz: Some(5180),
        width: "80mhz".into(),
        country: "Canada".into(),
    };
    let s = Snapshot {
        radios: vec![radio],
        neighbour_aps: vec![
            NeighbourAp { ssid: "NeighbourA".into(), frequency_mhz: 5180, signal_dbm: -60 },
            NeighbourAp { ssid: "NeighbourB".into(), frequency_mhz: 5180, signal_dbm: -70 },
            // Different channel: not contending.
            NeighbourAp { ssid: "Elsewhere".into(), frequency_mhz: 5745, signal_dbm: -50 },
            // Same channel but too weak to matter.
            NeighbourAp { ssid: "Distant".into(), frequency_mhz: 5180, signal_dbm: -95 },
        ],
        ..Default::default()
    };
    let hit = find(&analyse(&s), "wifi.co_channel_contention").expect("should flag");
    assert!(hit.summary.contains('2'), "only two genuine contenders: {}", hit.summary);
    assert_eq!(hit.evidence.len(), 2);
}

#[test]
fn a_crowded_channel_is_critical() {
    let s = Snapshot {
        radios: vec![Radio {
            name: "wifi2".into(),
            band: "2ghz".into(),
            frequency_mhz: Some(2412),
            width: "20mhz".into(),
            country: "Canada".into(),
        }],
        neighbour_aps: (0..5)
            .map(|i| NeighbourAp {
                ssid: format!("AP{i}"),
                frequency_mhz: 2412,
                signal_dbm: -55,
            })
            .collect(),
        ..Default::default()
    };
    assert_eq!(
        find(&analyse(&s), "wifi.co_channel_contention").unwrap().severity,
        Severity::Critical
    );
}

#[test]
fn broadcast_storms_are_critical_and_explain_the_wifi_impact() {
    let s = Snapshot {
        interfaces: vec![InterfaceStats {
            name: "bridge".into(),
            rx_packets_per_s: 2_000,
            tx_packets_per_s: 100,
            rx_broadcast_per_s: 1_500,
            rx_multicast_per_s: 200,
            running: true,
        }],
        ..Default::default()
    };
    let hit = find(&analyse(&s), "network.broadcast_storm").expect("should flag");
    assert_eq!(hit.severity, Severity::Critical);
    assert!(hit.summary.contains("airtime"), "must explain the wifi cost: {}", hit.summary);
}

#[test]
fn normal_broadcast_chatter_is_not_a_storm() {
    let s = Snapshot {
        interfaces: vec![InterfaceStats {
            name: "bridge".into(),
            rx_packets_per_s: 900,
            tx_packets_per_s: 800,
            rx_broadcast_per_s: 12,
            rx_multicast_per_s: 30,
            running: true,
        }],
        ..Default::default()
    };
    assert!(find(&analyse(&s), "network.broadcast_storm").is_none());
}

#[test]
fn a_down_interface_is_not_inspected() {
    let s = Snapshot {
        interfaces: vec![InterfaceStats {
            name: "ether5".into(),
            rx_packets_per_s: 5_000,
            tx_packets_per_s: 0,
            rx_broadcast_per_s: 5_000,
            rx_multicast_per_s: 0,
            running: false,
        }],
        ..Default::default()
    };
    assert!(find(&analyse(&s), "network.broadcast_storm").is_none());
}

#[test]
fn two_macs_on_one_address_is_critical() {
    let s = Snapshot {
        arp: vec![
            ArpEntry {
                address: "192.168.5.10".into(),
                mac: "AA:BB:CC:00:00:01".into(),
                interface: "bridge".into(),
                from_dhcp: false,
                complete: true,
            },
            ArpEntry {
                address: "192.168.5.10".into(),
                mac: "AA:BB:CC:00:00:02".into(),
                interface: "bridge".into(),
                from_dhcp: false,
                complete: true,
            },
        ],
        leases: vec![DhcpLease {
            address: "192.168.5.99".into(),
            mac: "AA:BB:CC:00:00:01".into(),
            hostname: "x".into(),
            active: true,
        }],
        ..Default::default()
    };
    let hit = find(&analyse(&s), "network.duplicate_address").expect("should flag");
    assert_eq!(hit.severity, Severity::Critical);
    assert_eq!(analyse(&s)[0].code, "network.duplicate_address", "critical sorts first");
}

#[test]
fn incomplete_arp_entries_do_not_fake_a_duplicate() {
    // An incomplete entry has no resolved MAC and must not be compared.
    let s = Snapshot {
        arp: vec![
            ArpEntry {
                address: "192.168.5.10".into(),
                mac: "AA:BB:CC:00:00:01".into(),
                interface: "bridge".into(),
                from_dhcp: true,
                complete: true,
            },
            ArpEntry {
                address: "192.168.5.10".into(),
                mac: String::new(),
                interface: "bridge".into(),
                from_dhcp: false,
                complete: false,
            },
        ],
        ..Default::default()
    };
    assert!(find(&analyse(&s), "network.duplicate_address").is_none());
}

#[test]
fn unleased_devices_are_reported_when_lease_data_exists() {
    let s = Snapshot {
        arp: vec![
            ArpEntry {
                address: "192.168.5.20".into(),
                mac: "DE:AD:BE:EF:00:01".into(),
                interface: "bridge".into(),
                from_dhcp: false,
                complete: true,
            },
            ArpEntry {
                address: "192.168.5.21".into(),
                mac: "AA:BB:CC:00:00:01".into(),
                interface: "bridge".into(),
                from_dhcp: true,
                complete: true,
            },
        ],
        leases: vec![DhcpLease {
            address: "192.168.5.21".into(),
            mac: "aa:bb:cc:00:00:01".into(), // lowercase: matching must be case-insensitive
            hostname: "laptop".into(),
            active: true,
        }],
        ..Default::default()
    };
    let hit = find(&analyse(&s), "network.unleased_device").expect("should flag the stray");
    assert_eq!(hit.evidence.len(), 1);
    assert!(hit.evidence[0].contains("192.168.5.20"));
}

#[test]
fn without_lease_data_no_device_is_called_unleased() {
    // Otherwise a router that simply is not the DHCP server would report
    // every device on the network as a rogue.
    let s = Snapshot {
        arp: vec![ArpEntry {
            address: "192.168.5.20".into(),
            mac: "DE:AD:BE:EF:00:01".into(),
            interface: "bridge".into(),
            from_dhcp: false,
            complete: true,
        }],
        ..Default::default()
    };
    assert!(find(&analyse(&s), "network.unleased_device").is_none());
}

#[test]
fn dhcp_pool_pressure_escalates_as_it_fills() {
    let lease = |i: usize| DhcpLease {
        address: format!("192.168.5.{}", 10 + i),
        mac: format!("AA:BB:CC:00:00:{i:02X}"),
        hostname: format!("d{i}"),
        active: true,
    };

    let comfortable = Snapshot {
        leases: (0..50).map(lease).collect(),
        dhcp_pool_size: Some(100),
        ..Default::default()
    };
    assert!(find(&analyse(&comfortable), "network.dhcp_pool_pressure").is_none());

    let tight = Snapshot {
        leases: (0..88).map(lease).collect(),
        dhcp_pool_size: Some(100),
        ..Default::default()
    };
    assert_eq!(
        find(&analyse(&tight), "network.dhcp_pool_pressure").unwrap().severity,
        Severity::Warning
    );

    let critical = Snapshot {
        leases: (0..97).map(lease).collect(),
        dhcp_pool_size: Some(100),
        ..Default::default()
    };
    let hit = find(&analyse(&critical), "network.dhcp_pool_pressure").unwrap();
    assert_eq!(hit.severity, Severity::Critical);
    assert!(
        hit.summary.contains("connected, no internet"),
        "should name the user-visible symptom: {}",
        hit.summary
    );
}

#[test]
fn inactive_leases_do_not_count_towards_pool_pressure() {
    let s = Snapshot {
        leases: (0..95)
            .map(|i| DhcpLease {
                address: format!("192.168.5.{i}"),
                mac: format!("AA:BB:CC:00:00:{i:02X}"),
                hostname: String::new(),
                active: false,
            })
            .collect(),
        dhcp_pool_size: Some(100),
        ..Default::default()
    };
    assert!(find(&analyse(&s), "network.dhcp_pool_pressure").is_none());
}

#[test]
fn findings_are_ordered_most_severe_first() {
    // An operator reads the top of the list; the thing ruining the site
    // must be there.
    let s = Snapshot {
        clients: vec![client("slow", -70, 6), client("a", -45, 300)],
        interfaces: vec![InterfaceStats {
            name: "bridge".into(),
            rx_packets_per_s: 3_000,
            tx_packets_per_s: 100,
            rx_broadcast_per_s: 2_500,
            rx_multicast_per_s: 100,
            running: true,
        }],
        arp: vec![ArpEntry {
            address: "192.168.5.7".into(),
            mac: "AA:BB:CC:00:00:09".into(),
            interface: "bridge".into(),
            from_dhcp: false,
            complete: true,
        }],
        leases: vec![DhcpLease {
            address: "192.168.5.8".into(),
            mac: "AA:BB:CC:00:00:10".into(),
            hostname: "x".into(),
            active: true,
        }],
        ..Default::default()
    };
    let f = analyse(&s);
    assert_eq!(f[0].severity, Severity::Critical);
    let last = f.last().unwrap().severity;
    assert!(last <= f[0].severity, "codes: {:?}", codes(&f));
}

#[test]
fn a_lone_slow_client_is_not_an_airtime_problem() {
    // Real routers surfaced this: with one client the summary read "1 of 1
    // clients ... slows every other client", and the airtime ratio was a
    // meaningless 1x. There is nobody to contend with.
    let s = Snapshot { clients: vec![client("only", -40, 6)], ..Default::default() };
    assert!(
        find(&analyse(&s), "wifi.slow_client_airtime").is_none(),
        "one client cannot contend with itself"
    );
}

#[test]
fn idle_clients_are_excluded_from_rate_based_rules() {
    // An idle 802.11 client reports whatever rate it last transmitted at,
    // which is the lowest basic rate. Judging it by that would raise a
    // critical finding on every quiet, healthy network.
    let s = Snapshot {
        clients: vec![idle(client("quiet1", -40, 6)), idle(client("quiet2", -45, 6))],
        ..Default::default()
    };
    let f = analyse(&s);
    assert!(find(&f, "wifi.slow_client_airtime").is_none(), "{f:?}");
    assert!(find(&f, "wifi.rate_signal_mismatch").is_none(), "{f:?}");
}

#[test]
fn an_active_slow_client_among_active_peers_is_still_caught() {
    // The guard must not have disabled the rule it protects.
    let s = Snapshot {
        clients: vec![client("slow", -50, 6), client("fast", -45, 300)],
        ..Default::default()
    };
    assert!(find(&analyse(&s), "wifi.slow_client_airtime").is_some());
}

#[test]
fn idle_peers_do_not_count_towards_contention() {
    // One active slow client plus idle neighbours is not contention: the
    // idle ones are not using airtime.
    let s = Snapshot {
        clients: vec![client("slow", -50, 6), idle(client("asleep", -45, 300))],
        ..Default::default()
    };
    assert!(find(&analyse(&s), "wifi.slow_client_airtime").is_none());
}

#[test]
fn weak_signal_is_reported_even_when_idle() {
    // Coverage is a property of where the device is, not whether it is
    // currently transmitting, so this rule deliberately ignores activity.
    let s = Snapshot { clients: vec![idle(client("far", -88, 6))], ..Default::default() };
    assert!(find(&analyse(&s), "wifi.weak_signal").is_some());
}

#[test]
fn an_empty_snapshot_is_safe() {
    assert!(analyse(&Snapshot::default()).is_empty());
}

#[test]
fn idle_clients_change_no_rate_finding_wherever_they_stand() {
    let base = vec![client("aa", -45, 300), client("bb", -50, 6), client("cc", -40, 12)];
    let rates = |clients: &Vec<WifiClient>| -> Vec<Finding> {
        let s = Snapshot { clients: clients.clone(), ..Default::default() };
        analyse(&s)
            .into_iter()
            .filter(|f| {
                f.code == "wifi.slow_client_airtime" || f.code == "wifi.rate_signal_mismatch"
            })
            .collect()
    };
    let want = rates(&base);
    assert_eq!(want.len(), 2);
    for at in 0..=base.len() {
        for radio in ["wifi1", "aaa", "wifi9"] {
            let mut quiet = idle(client("dd", -41, 1));
            quiet.interface = radio.into();
            let mut clients = base.clone();
            clients.insert(at, quiet);
            assert_eq!(rates(&clients), want, "idle on {radio} at {at}");
        }
    }
}
