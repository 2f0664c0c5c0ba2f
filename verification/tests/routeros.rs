use mqagent::duration::Duration;
use mqagent::routeros::RouterOs;

#[test]
fn builds_urls_for_both_schemes() {
    let plain = RouterOs::new("172.17.0.1", 80, "u", "p", false, Duration::from_secs(5));
    assert_eq!(plain.base, "http://172.17.0.1:80");

    let tls = RouterOs::new("172.17.0.1", 443, "u", "p", true, Duration::from_secs(5));
    assert_eq!(tls.base, "https://172.17.0.1:443");
}

#[test]
fn a_blank_password_is_accepted() {
    // Lab and factory-default routers frequently have one, and refusing it
    // would make the tool unusable exactly where it is most needed.
    assert_eq!(RouterOs::new("10.0.0.1", 80, "admin", "", false, Duration::from_secs(5)).pass, "");
}
