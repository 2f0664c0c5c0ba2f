use mqagent::collector::stats;
use mqagent::duration::Duration;
use mqagent::net::{IpAddr, SocketAddr};
use mqagent::probe::socket::RecvMeta;
use mqagent::probe::twamp::{
    AllowList, TwampConfig, TwampProbing, TwampReflector, TwampSenderError,
};
use mqagent::proto::twamp::{
    stamp_sender_tx, NtpTimestamp, ReflectorPacket, MAX_PACKET_LEN, REFLECTOR_MIN_LEN,
    SENDER_MIN_LEN,
};

fn addr(text: &str) -> SocketAddr {
    SocketAddr::parse(text).unwrap()
}

fn ip(text: &str) -> IpAddr {
    IpAddr::parse(text).unwrap()
}

fn responder() -> SocketAddr {
    addr("127.0.0.1:862")
}

fn sender() -> SocketAddr {
    addr("127.0.0.1:40000")
}

fn cfg(count: u32) -> TwampConfig {
    TwampConfig {
        peer: responder(),
        count,
        interval: Duration::from_millis(2),
        linger: Duration::from_millis(300),
        ..Default::default()
    }
}

/// The moment so many nanoseconds into the run.
fn at(ns: u128) -> NtpTimestamp {
    NtpTimestamp::from_unix_nanos(1_790_035_200_000_000_000 + ns)
}

/// Hand a datagram to the responder and return what it sends back.
fn answer(r: &mut TwampReflector, allow: &AllowList, datagram: &[u8], held: u128) -> Option<Vec<u8>> {
    let mut buf = vec![0xEEu8; MAX_PACKET_LEN];
    buf[..datagram.len()].copy_from_slice(datagram);
    let meta = RecvMeta { dscp: Some(46), ttl: Some(61) };
    let n = r.receive(allow, &mut buf, datagram.len(), sender(), meta, at(0))?;
    assert!(r.depart(&mut buf, at(held)));
    r.sent(true);
    Some(buf[..n].to_vec())
}

/// Run a session against a responder that holds each packet for `held`
/// nanoseconds, over a path of one millisecond in all.
fn run_against(c: TwampConfig, allow: &AllowList, held: u128) -> TwampProbing {
    let mut r = TwampReflector::new();
    let mut run = TwampProbing::begin(c, 0).unwrap();
    let mut buf = vec![0u8; c.payload_bytes];
    let mut now = 0u64;
    while run.has_more() {
        run.prepare(now, &mut buf);
        let t1 = at(now as u128);
        stamp_sender_tx(&mut buf, t1).unwrap();
        run.sent(Some(t1));
        if let Some(wire) = answer(&mut r, allow, &buf, held) {
            run.receive(&wire, c.peer, at(now as u128 + 1_000_000 + held));
        }
        now += 2_000_000;
    }
    run
}

#[test]
fn a_full_session_completes_over_loopback() {
    let run = run_against(cfg(20), &AllowList::open(), 0).finish();
    assert_eq!(run.sent, 20);
    assert_eq!(run.samples.len(), 20, "loopback should not lose TWAMP packets");

    let m = stats::summarise(run.sent, &run.samples, None);
    assert_eq!(m.loss.loss_pct.hundredths, 0);
    assert!(m.rtt.unwrap().avg_us < 50_000);
}

#[test]
fn reflector_turnaround_is_excluded_from_rtt() {
    let run = run_against(cfg(10), &AllowList::open(), 300_000_000).finish();
    let r = stats::summarise(run.sent, &run.samples, None).rtt.unwrap();
    assert!(r.min_us >= 999 && r.max_us <= 1_001, "{r:?}");
}

#[test]
fn dscp_conformance_is_unavailable_not_zero() {
    let mut c = cfg(10);
    c.dscp = Some(46);
    let run = run_against(c, &AllowList::open(), 0).finish();
    assert!(stats::summarise(run.sent, &run.samples, Some(46)).dscp.is_none());
}

#[test]
fn a_source_that_is_not_allowed_gets_silence() {
    let mut list = AllowList::new();
    list.allow(ip("203.0.113.9"));
    let run = run_against(cfg(5), &list, 0).finish();
    assert!(run.samples.is_empty(), "reflector must not answer an unlisted source");

    let mut r = TwampReflector::new();
    assert!(answer(&mut r, &list, &[0u8; 41], 0).is_none());
    assert_eq!((r.stats().refused, r.sequence), (1, 0));
}

#[test]
fn an_explicitly_allowed_source_is_answered() {
    let mut list = AllowList::new();
    list.allow(ip("127.0.0.1"));
    let run = run_against(cfg(5), &list, 0).finish();
    assert_eq!(run.samples.len(), 5);
}

#[test]
fn the_reflector_survives_garbage() {
    let mut r = TwampReflector::new();
    let open = AllowList::open();
    assert!(answer(&mut r, &open, b"hi", 0).is_none());
    assert!(answer(&mut r, &open, &[0u8; 3], 0).is_none());
    assert_eq!(r.stats().malformed, 2);
    assert!(answer(&mut r, &open, &[0u8; SENDER_MIN_LEN], 0).is_some());
    assert_eq!(r.stats().reflected, 1, "reflector should still be serving");
}

#[test]
fn twamp_samples_carry_no_direction_attribution() {
    let run = run_against(cfg(6), &AllowList::open(), 0).finish();
    assert!(!run.samples.is_empty());
    assert!(
        run.samples.iter().all(|s| s.reflector_seq.is_none()),
        "TWAMP must not claim a direction it cannot know"
    );

    let l = stats::summarise(run.sent, &run.samples, None).loss;
    assert_eq!(l.reverse_lost, 0);
    assert_eq!(l.forward_lost, 0);
}

#[test]
fn our_reflector_does_not_claim_a_synchronised_clock() {
    let run = run_against(cfg(5), &AllowList::open(), 0).finish();
    assert!(
        !run.peer_claims_sync,
        "we cannot verify NTP on a customer router, so we must not assert it"
    );
}

#[test]
fn a_responder_that_claims_a_synchronised_clock_is_noticed() {
    let mut r = TwampReflector::new();
    let mut wire = answer(&mut r, &AllowList::open(), &[0u8; 41], 0).unwrap();
    wire[12] |= 0x80;
    let mut run = TwampProbing::begin(cfg(2), 0).unwrap();
    assert!(!run.receive(&wire, addr("127.0.0.2:862"), at(0)));
    assert!(!run.peer_claims_sync, "another address says nothing of our peer");
    assert!(!run.receive(&wire, responder(), at(0)), "nothing was sent yet");
    assert!(run.finish().peer_claims_sync);
}

#[test]
fn an_unreachable_responder_is_total_loss_not_an_error() {
    let run = run_against(cfg(4), &AllowList::new(), 0).finish();
    assert_eq!(run.sent, 4);
    assert!(run.samples.is_empty());
    assert_eq!(
        stats::summarise(run.sent, &run.samples, None).loss.loss_pct.hundredths,
        10_000
    );
}

#[test]
fn invalid_configuration_is_rejected() {
    let begin = |c: TwampConfig| TwampProbing::begin(c, 0).map(|_| ());
    assert_eq!(begin(TwampConfig { count: 0, ..cfg(1) }), Err(TwampSenderError::EmptyRun));
    assert_eq!(
        begin(TwampConfig { payload_bytes: 4, ..cfg(1) }),
        Err(TwampSenderError::BadPacketSize { requested: 4 })
    );
    assert_eq!(
        TwampSenderError::BadPacketSize { requested: 4 }.message(),
        "packet size 4 is out of range (14..=1400)"
    );
    assert_eq!(TwampSenderError::EmptyRun.message(), "count must be at least 1");
    assert_eq!(TwampSenderError::Io("gone".into()).message(), "socket error: gone");
}

#[test]
fn an_empty_allow_list_permits_nobody() {
    let list = AllowList::new();
    assert!(!list.permits(&ip("127.0.0.1")));
    assert!(list.is_empty());
}

#[test]
fn allow_and_revoke_behave() {
    let ip = ip("10.0.0.5");
    let mut list = AllowList::new();
    list.allow(ip);
    assert!(list.permits(&ip));
    assert_eq!(list.len(), 1);
    assert!(list.revoke(&ip));
    assert!(!list.permits(&ip));
    assert!(!list.revoke(&ip), "revoking twice reports nothing was there");
}

#[test]
fn an_address_is_listed_once_however_often_it_is_allowed() {
    let mut list = AllowList::for_peers(&vec![ip("10.0.0.1"), ip("10.0.0.2"), ip("10.0.0.1")]);
    assert_eq!(list.len(), 2);
    assert!(list.revoke(&ip("10.0.0.1")));
    assert!(!list.permits(&ip("10.0.0.1")));
    assert!(list.permits(&ip("10.0.0.2")));

    let open = AllowList::for_peers(&vec![]);
    assert!(open.permits(&ip("192.0.2.1")), "no list means anyone");
    assert!(!open.is_empty());
    assert_eq!(open.len(), 0);
}

#[test]
fn a_reply_is_as_long_as_its_request_and_echoes_the_padding() {
    let mut r = TwampReflector::new();
    let mut request = vec![0x5Au8; 100];
    request[..4].copy_from_slice(&[0, 0, 0, 9]);
    let wire = answer(&mut r, &AllowList::open(), &request, 0).unwrap();
    assert_eq!(wire.len(), 100);
    assert_eq!(wire[REFLECTOR_MIN_LEN..], request[REFLECTOR_MIN_LEN..]);
    let p = ReflectorPacket::decode(&wire).unwrap();
    assert_eq!(p.sender_sequence, 9);
    assert_eq!(p.sender_ttl, 61);
    assert_eq!(p.receive_timestamp, at(0));

    let short = answer(&mut r, &AllowList::open(), &request[..SENDER_MIN_LEN], 0).unwrap();
    assert_eq!(short.len(), REFLECTOR_MIN_LEN);
    assert_eq!(ReflectorPacket::decode(&short).unwrap().sequence, 1, "one counter for all peers");

    let mut cramped = [0u8; 20];
    let meta = RecvMeta::default();
    assert_eq!(
        r.receive(&AllowList::open(), &mut cramped, 14, sender(), meta, at(0)),
        None,
        "no room for a reply"
    );
}
