use std::collections::HashMap;

use mqagent::config::{parse_bool, Config, ConfigError};
use mqagent::duration::Duration;
use mqagent::net::IpAddr;
use mqagent::spool::DEFAULT_MAX_ENTRIES;

fn base() -> HashMap<&'static str, &'static str> {
    HashMap::from([
        ("MQ_CONTROLLER_URL", "https://controller.example.net"),
        ("MQ_AGENT_NAME", "yvr-branch-01"),
        ("MQ_AGENT_GROUP", "west-wan"),
        ("MQ_ENROLMENT_TOKEN", "enrol-secret"),
    ])
}

fn load(map: &HashMap<&'static str, &'static str>) -> Result<Config, ConfigError> {
    Config::from_source(|k| map.get(k).map(|v| v.to_string()))
}

#[test]
fn minimal_configuration_loads_with_sane_defaults() {
    let c = load(&base()).unwrap();
    assert_eq!(c.name, "yvr-branch-01");
    assert_eq!(c.group, "west-wan");
    assert_eq!(c.probe_bind.port, 5301);
    assert_eq!(c.state_dir, "/var/lib/mqagent");
    assert_eq!(c.heartbeat_interval, Duration::from_secs(30));
    assert!(!c.can_bandwidth_test(), "no RouterOS config means no throughput offload");
}

#[test]
fn every_required_variable_is_enforced() {
    for missing in
        ["MQ_CONTROLLER_URL", "MQ_AGENT_NAME", "MQ_AGENT_GROUP", "MQ_ENROLMENT_TOKEN"]
    {
        let mut m = base();
        m.remove(missing);
        match load(&m) {
            Err(ConfigError::Missing(var)) => assert_eq!(var, missing),
            other => panic!("expected {missing} to be required, got {other:?}"),
        }
    }
}

#[test]
fn blank_values_count_as_missing() {
    // RouterOS envlists make it easy to define a key with an empty value;
    // treating that as "set" would produce confusing downstream failures.
    let mut m = base();
    m.insert("MQ_AGENT_NAME", "   ");
    assert!(matches!(load(&m), Err(ConfigError::Missing("MQ_AGENT_NAME"))));
}

#[test]
fn controller_url_must_carry_a_scheme() {
    let mut m = base();
    m.insert("MQ_CONTROLLER_URL", "controller.example.net");
    assert!(matches!(
        load(&m),
        Err(ConfigError::Invalid { var: "MQ_CONTROLLER_URL", .. })
    ));
}

#[test]
fn trailing_slash_on_controller_url_is_normalised() {
    // Otherwise every request path would come out doubled-up.
    let mut m = base();
    m.insert("MQ_CONTROLLER_URL", "https://controller.example.net/");
    assert_eq!(load(&m).unwrap().controller_url, "https://controller.example.net");
}

#[test]
fn routeros_defaults_to_the_plaintext_binary_api_port() {
    let mut m = base();
    m.insert("MQ_ROUTEROS_HOST", "172.17.0.1");
    m.insert("MQ_ROUTEROS_USER", "btagent");
    m.insert("MQ_ROUTEROS_PASS", "secret");

    let ros = load(&m).unwrap().routeros.unwrap();
    assert_eq!(ros.port, 8728);
    assert!(!ros.use_tls);
    assert_eq!(ros.host, IpAddr::parse("172.17.0.1").unwrap());
}

#[test]
fn enabling_tls_moves_the_default_routeros_port() {
    let mut m = base();
    m.insert("MQ_ROUTEROS_HOST", "172.17.0.1");
    m.insert("MQ_ROUTEROS_USER", "btagent");
    m.insert("MQ_ROUTEROS_PASS", "secret");
    m.insert("MQ_ROUTEROS_TLS", "yes");

    let ros = load(&m).unwrap().routeros.unwrap();
    assert!(ros.use_tls);
    assert_eq!(ros.port, 8729);
}

#[test]
fn a_blank_routeros_password_is_accepted() {
    // Lab and factory-default MikroTiks ship with one. Rejecting it made
    // the agent refuse to start against the devices it exists to measure,
    // while the REST client takes blank passwords.
    let mut m = base();
    m.insert("MQ_ROUTEROS_HOST", "172.16.220.138");
    m.insert("MQ_ROUTEROS_USER", "admin");
    m.insert("MQ_ROUTEROS_PASS", "");

    let ros = load(&m).unwrap().routeros.expect("blank password is a valid choice");
    assert_eq!(ros.username, "admin");
    assert!(ros.password.is_empty());
}

#[test]
fn partial_routeros_credentials_are_rejected_loudly() {
    // The failure mode this prevents: the agent advertises the
    // bandwidth-test capability, gets scheduled throughput work, and then
    // fails every single task at run time.
    let mut m = base();
    m.insert("MQ_ROUTEROS_HOST", "172.17.0.1");
    assert!(matches!(load(&m), Err(ConfigError::PartialRouterOs("MQ_ROUTEROS_USER"))));

    // Omitting the variable entirely is still a mistake -- that is the
    // half-configured case worth catching.
    m.insert("MQ_ROUTEROS_USER", "btagent");
    assert!(matches!(load(&m), Err(ConfigError::PartialRouterOs("MQ_ROUTEROS_PASS"))));
}

#[test]
fn routeros_host_must_be_an_ip_not_a_hostname() {
    // A scratch image has no resolver configured by default, so a hostname
    // here would fail at connect time with a much less obvious error.
    let mut m = base();
    m.insert("MQ_ROUTEROS_HOST", "my-router.lan");
    m.insert("MQ_ROUTEROS_USER", "btagent");
    m.insert("MQ_ROUTEROS_PASS", "secret");
    assert!(matches!(load(&m), Err(ConfigError::Invalid { var: "MQ_ROUTEROS_HOST", .. })));
}

#[test]
fn numeric_fields_reject_garbage_rather_than_defaulting() {
    let mut m = base();
    m.insert("MQ_PROBE_PORT", "not-a-port");
    assert!(matches!(load(&m), Err(ConfigError::Invalid { var: "MQ_PROBE_PORT", .. })));
}

#[test]
fn advertise_address_is_optional_but_validated() {
    let mut m = base();
    assert!(load(&m).unwrap().advertise_addr.is_none());

    m.insert("MQ_ADVERTISE_ADDR", "203.0.113.24");
    assert_eq!(
        load(&m).unwrap().advertise_addr,
        Some(IpAddr::parse("203.0.113.24").unwrap())
    );

    m.insert("MQ_ADVERTISE_ADDR", "definitely not an ip");
    assert!(matches!(load(&m), Err(ConfigError::Invalid { var: "MQ_ADVERTISE_ADDR", .. })));
}

#[test]
fn a_managed_agent_can_also_answer_twamp() {
    // Otherwise switching a standalone responder to managed mode silently
    // removes the TWAMP service it was deployed for.
    let mut m = base();
    m.insert("MQ_TWAMP_PORT", "862");
    m.insert("MQ_TWAMP_PEERS", "162.216.190.1, 10.0.0.5");

    let c = load(&m).unwrap();
    assert_eq!(c.twamp_port, Some(862));
    assert_eq!(c.twamp_peers.len(), 2);
}

#[test]
fn twamp_is_off_unless_a_port_is_given() {
    let c = load(&base()).unwrap();
    assert!(c.twamp_port.is_none());
    assert!(c.twamp_peers.is_empty());
}

#[test]
fn a_malformed_twamp_peer_is_rejected_not_skipped() {
    let mut m = base();
    m.insert("MQ_TWAMP_PORT", "862");
    m.insert("MQ_TWAMP_PEERS", "10.0.0.1,nonsense");
    assert!(matches!(load(&m), Err(ConfigError::Invalid { var: "MQ_TWAMP_PEERS", .. })));
}

#[test]
fn spool_defaults_protect_the_onset() {
    let c = load(&base()).unwrap();
    assert_eq!(c.spool.max_entries, DEFAULT_MAX_ENTRIES);
    assert!(c.spool.onset_reserve > 0, "onset protection must be on by default");
    assert!(c.spool.onset_reserve < c.spool.max_entries);
}

#[test]
fn spool_limits_are_tunable_for_tighter_devices() {
    let mut m = base();
    m.insert("MQ_SPOOL_MAX_ENTRIES", "500");
    m.insert("MQ_SPOOL_MAX_BYTES", "262144");
    m.insert("MQ_SPOOL_ONSET_PCT", "40");

    let c = load(&m).unwrap();
    assert_eq!(c.spool.max_entries, 500);
    assert_eq!(c.spool.max_bytes, 262_144);
    assert_eq!(c.spool.onset_reserve, 200);
}

#[test]
fn spool_onset_percentage_cannot_consume_the_whole_spool() {
    // 100% would leave nothing evictable and the spool would jam.
    let mut m = base();
    m.insert("MQ_SPOOL_MAX_ENTRIES", "100");
    m.insert("MQ_SPOOL_ONSET_PCT", "100");
    let c = load(&m).unwrap();
    assert!(c.spool.onset_reserve < c.spool.max_entries);
}

#[test]
fn boolean_parsing_accepts_the_usual_spellings() {
    assert!(parse_bool(Some("yes"), false));
    assert!(parse_bool(Some("TRUE"), false));
    assert!(parse_bool(Some("1"), false));
    assert!(parse_bool(Some(" on "), false));
    assert!(!parse_bool(Some("no"), true));
    assert!(!parse_bool(Some("0"), true));
    assert!(parse_bool(None, true), "absent falls back to the default");
    assert!(parse_bool(Some("banana"), true), "unrecognised falls back too");
}
