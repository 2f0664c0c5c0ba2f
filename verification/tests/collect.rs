use mqagent::discovery::collect::{
    count_range, num_of, parse_arp, parse_leases, parse_legacy_clients, parse_scan, parse_uptime,
    parse_wifi_clients,
};
use mqagent::json::Json;

/// The value that a JSON text spells.
fn value(text: &str) -> Json {
    Json::parse(text).unwrap()
}

#[test]
fn parses_a_real_wifi_registration_row() {
    // Captured verbatim from a hAP ax³ running RouterOS 7.24.2.
    let v = value(r#"[{"mac-address": "08:55:31:E2:89:7C", "interface": "wifi1", "ssid": "Lyttonnet 0", "signal": "-17", "band": "5ghz-ac", "tx-rate": "6000000", "rx-rate": "300000000", "uptime": "1h22m56s", "bytes": "4108,60349", "last-activity": "6s"}]"#);
    let c = &parse_wifi_clients(&v)[0];
    assert_eq!(c.mac, "08:55:31:E2:89:7C");
    assert_eq!(c.signal_dbm, -17);
    assert_eq!(c.tx_rate_bps, 6_000_000);
    assert_eq!(c.rx_rate_bps, 300_000_000);
    assert_eq!(c.uptime_s, 4976);
    assert_eq!(c.last_activity_s, 6, "activity drives whether the rate is trusted");
}

#[test]
fn parses_legacy_signal_and_rate_formats() {
    let v = value(r#"[{"mac-address": "AA:BB:CC:00:00:01", "interface": "wlan1", "signal-strength": "-64@6mbps", "tx-rate": "54Mbps", "rx-rate": "6Mbps-40MHz/1S", "uptime": "2d3h4m5s"}]"#);
    let c = &parse_legacy_clients(&v)[0];
    assert_eq!(c.signal_dbm, -64, "must strip the @rate suffix");
    assert_eq!(c.tx_rate_bps, 54_000_000);
    assert_eq!(c.rx_rate_bps, 6_000_000, "must stop at the first unit");
    assert_eq!(c.uptime_s, 2 * 86_400 + 3 * 3_600 + 4 * 60 + 5);
}

#[test]
fn comma_separated_counters_take_the_first_component() {
    // RouterOS reports "bytes":"4108,60349" as an rx,tx pair. Parsing the
    // whole string would yield zero and silently lose the value.
    let v = value(r#"{"packets": "34,533"}"#);
    assert_eq!(num_of(&v, "packets"), 34);
}

#[test]
fn missing_and_malformed_fields_degrade_to_defaults() {
    // A collector that panics on one odd row loses the other nine.
    let v = value(r#"[{"mac-address": "AA:BB:CC:00:00:01"}]"#);
    let c = &parse_wifi_clients(&v)[0];
    assert_eq!(c.signal_dbm, 0);
    assert_eq!(c.tx_rate_bps, 0);
    assert_eq!(c.uptime_s, 0);

    assert!(parse_wifi_clients(&value(r#""not an array""#)).is_empty());
    assert!(parse_arp(&value(r#"null"#)).is_empty());
}

#[test]
fn arp_booleans_come_back_as_strings() {
    let v = value(r#"[{"address": "192.168.5.10", "mac-address": "AA:BB:CC:00:00:01", "interface": "bridge", "dhcp": "true", "complete": "true"}]"#);
    let e = &parse_arp(&v)[0];
    assert!(e.from_dhcp);
    assert!(e.complete);

    let v2 = value(r#"[{"address": "1.2.3.4", "complete": "false", "dhcp": "false"}]"#);
    assert!(!parse_arp(&v2)[0].complete);
}

#[test]
fn leases_prefer_the_live_binding_over_the_reservation() {
    let v = value(r#"[{"address": "192.168.5.50", "active-address": "192.168.5.51", "mac-address": "AA:BB:CC:00:00:01", "active-mac-address": "AA:BB:CC:00:00:02", "host-name": "laptop", "status": "bound"}]"#);
    let l = &parse_leases(&v)[0];
    assert_eq!(l.address, "192.168.5.51");
    assert_eq!(l.mac, "AA:BB:CC:00:00:02");
    assert!(l.active);
}

#[test]
fn counts_addresses_across_pool_ranges() {
    assert_eq!(count_range("192.168.5.10-192.168.5.254"), 245);
    assert_eq!(count_range("192.168.5.10-192.168.5.20,192.168.6.1-192.168.6.10"), 21);
    assert_eq!(count_range("192.168.5.7"), 1);
    assert_eq!(count_range(""), 0);
    // A reversed range is nonsense; count nothing rather than underflow.
    assert_eq!(count_range("192.168.5.20-192.168.5.10"), 0);
}

#[test]
fn scan_results_become_neighbour_aps() {
    let v = value(r#"[{"ssid": "Neighbour", "frequency": "5180", "signal": "-62"}, {"ssid": "", "channel": "2412", "signal": "-70"}, {"ssid": "NoFreq", "signal": "-50"}]"#);
    let aps = parse_scan(&v);
    assert_eq!(aps.len(), 2, "a scan row with no frequency is unusable");
    assert_eq!(aps[0].frequency_mhz, 5180);
    assert_eq!(aps[1].frequency_mhz, 2412, "falls back to the channel field");
}

#[test]
fn uptime_handles_every_unit() {
    assert_eq!(parse_uptime("6s"), 6);
    assert_eq!(parse_uptime("1h22m56s"), 4976);
    assert_eq!(parse_uptime("3d17h58m3s"), 3 * 86_400 + 17 * 3_600 + 58 * 60 + 3);
    assert_eq!(parse_uptime("1w2d"), 604_800 + 2 * 86_400);
    assert_eq!(parse_uptime(""), 0);
}
