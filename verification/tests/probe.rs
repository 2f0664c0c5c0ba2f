use mqagent::collector::stats;
use mqagent::duration::{Duration, Instant};
use mqagent::net::{IpAddr, SocketAddr};
use mqagent::probe::reflector::{Reflector, Registry, REPLY_TTL};
use mqagent::probe::sender::{is_late, ProbeConfig, ProbeError, Probing};
use mqagent::probe::socket::{any_address_for, tos_byte, ControlMessage, RecvMeta};
use mqagent::probe::{hold, ntp_after, Clock};
use mqagent::proto::mqp::{
    self, flags, Header, PacketType, DEFAULT_PACKET_LEN, HEADER_LEN, MAX_PACKET_LEN,
};

#[test]
fn clock_is_monotonic() {
    let c = Clock::new();
    let a = c.now_ns();
    let b = c.now_ns();
    assert!(b >= a, "monotonic clock went backwards: {a} then {b}");
}

#[test]
fn the_wall_clock_reading_follows_the_monotonic_one() {
    let c = Clock::new();
    let a = c.now_ntp();
    let b = c.now_ntp();
    assert!(b.duration_since(a).is_some(), "{a:?} then {b:?}");
    assert!(a.seconds > 0, "an NTP timestamp of today is far from zero");
}

#[test]
fn a_clock_is_anchored_where_the_wall_clock_was_read() {
    let origin = std::time::Instant::now();
    let read = Clock::anchored(origin, Some(1_790_035_200_000_000_000));
    let since = read.now_ntp().to_unix_nanos() - 1_790_035_200_000_000_000;
    assert!(since < 10_000_000_000, "{since} ns after the anchor");
    // A host whose clock stands before the epoch counts from the epoch.
    let unread = Clock::anchored(origin, None);
    assert!(unread.now_ntp().to_unix_nanos() < 10_000_000_000);
}

#[test]
fn readings_saturate_rather_than_wrap() {
    assert_eq!(hold(12), 12);
    assert_eq!(hold(u64::MAX as u128), u64::MAX);
    assert_eq!(hold(u64::MAX as u128 + 1), u64::MAX);
    let t = ntp_after(1_790_035_200_000_000_000, 500_000_000);
    assert_eq!(t.fraction, 0x8000_0000);
    assert_eq!(t.to_unix_nanos(), 1_790_035_200_500_000_000);
}

fn addr(text: &str) -> SocketAddr {
    SocketAddr::parse(text).unwrap()
}

fn client() -> SocketAddr {
    addr("127.0.0.1:40000")
}

fn meta() -> RecvMeta {
    RecvMeta { dscp: Some(46), ttl: Some(63) }
}

fn request(session_id: u64, seq: u32) -> Vec<u8> {
    let h = Header::request(session_id, seq, 46, (DEFAULT_PACKET_LEN - 56) as u16);
    let mut buf = vec![0u8; h.wire_len()];
    h.encode(&mut buf).unwrap();
    buf
}

/// Hand a datagram to the reflector and return what it sends back.
fn reflect(
    r: &mut Reflector,
    reg: &mut Registry,
    datagram: &[u8],
    from: SocketAddr,
    t2: u64,
    t3: u64,
) -> Option<Vec<u8>> {
    let mut buf = vec![0u8; MAX_PACKET_LEN];
    buf[..datagram.len()].copy_from_slice(datagram);
    r.receive(reg, &mut buf, datagram.len(), from, meta(), t2)?;
    assert!(r.depart(&mut buf, t3));
    r.sent(true);
    Some(buf[..datagram.len()].to_vec())
}

#[test]
fn reflects_a_granted_session() {
    let (mut r, mut reg) = (Reflector::new(), Registry::new());
    reg.grant(0xAAAA, client());
    let wire = reflect(&mut r, &mut reg, &request(0xAAAA, 7), client(), 100, 130).unwrap();

    let reply = Header::decode(&wire).unwrap();
    assert_eq!(reply.pkt_type, PacketType::Reply);
    assert_eq!(reply.seq, 7, "sender's seq must survive reflection");
    assert_eq!(reply.session_id, 0xAAAA);
    assert_eq!(reply.t2, 100, "reflector must stamp arrival");
    assert_eq!(reply.t3, 130);
    assert_eq!(reply.rx_dscp, 46, "reflector must echo the DSCP it observed");
    assert_eq!(reply.ttl_fwd, 63);
    assert_eq!(reply.ttl_rev, REPLY_TTL);
    assert_eq!(r.stats().reflected, 1);
}

#[test]
fn wildcard_grant_accepts_any_source_address() {
    let (mut r, mut reg) = (Reflector::new(), Registry::new());
    reg.grant(0xF00D, addr("0.0.0.0:0"));
    let wire = reflect(&mut r, &mut reg, &request(0xF00D, 1), client(), 1, 2).unwrap();
    assert_eq!(Header::decode(&wire).unwrap().seq, 1);

    reg.grant(0xF00E, addr("[::]:0"));
    assert!(reflect(&mut r, &mut reg, &request(0xF00E, 1), client(), 1, 2).is_some());
}

#[test]
fn specific_grant_still_rejects_a_different_source() {
    let (mut r, mut reg) = (Reflector::new(), Registry::new());
    reg.grant(0xBEEF, addr("203.0.113.99:5301"));
    assert!(reflect(&mut r, &mut reg, &request(0xBEEF, 0), client(), 1, 2).is_none());
    assert_eq!(r.stats().unknown_session, 1);
    assert_eq!(reg.session(0xBEEF).unwrap().packets, 0, "a refused packet is not counted");
}

#[test]
fn ignores_ungranted_sessions_silently() {
    let (mut r, mut reg) = (Reflector::new(), Registry::new());
    assert!(reflect(&mut r, &mut reg, &request(0xDEAD_BEEF, 0), client(), 1, 2).is_none());
    assert_eq!(r.stats().unknown_session, 1);
}

#[test]
fn reflector_seq_increments_to_expose_reverse_loss() {
    let (mut r, mut reg) = (Reflector::new(), Registry::new());
    reg.grant(0xBBBB, client());
    for i in 0..3u32 {
        let wire = reflect(&mut r, &mut reg, &request(0xBBBB, i), client(), 1, 2).unwrap();
        let reply = Header::decode(&wire).unwrap();
        assert_eq!(reply.reflector_seq, i, "reflector counter must advance once per reply");
    }
}

#[test]
fn a_packet_that_wants_no_reply_is_counted_only() {
    let (mut r, mut reg) = (Reflector::new(), Registry::new());
    reg.grant(5, client());
    let mut h = Header::request(5, 0, 0, 0);
    h.flags = flags::NO_REFLECT;
    let mut buf = vec![0u8; h.wire_len()];
    h.encode(&mut buf).unwrap();
    assert!(reflect(&mut r, &mut reg, &buf, client(), 1, 2).is_none());
    let s = reg.session(5).unwrap();
    assert_eq!((s.packets, s.reflector_seq), (1, 0), "recorded, but no reply was generated");

    let wire = reflect(&mut r, &mut reg, &request(5, 1), client(), 1, 2).unwrap();
    assert_eq!(Header::decode(&wire).unwrap().reflector_seq, 0, "no gap where no reply was due");
}

#[test]
fn malformed_packets_do_not_kill_the_reflector() {
    let (mut r, mut reg) = (Reflector::new(), Registry::new());
    reg.grant(0xCCCC, client());
    assert!(reflect(&mut r, &mut reg, b"not an mqp packet at all", client(), 1, 2).is_none());
    assert!(reflect(&mut r, &mut reg, &[0u8; 200], client(), 1, 2).is_none());
    let wire = reflect(&mut r, &mut reg, &request(0xCCCC, 1), client(), 1, 2).unwrap();
    assert_eq!(Header::decode(&wire).unwrap().seq, 1);
    // A reply must never be reflected again.
    assert!(reflect(&mut r, &mut reg, &wire, client(), 1, 2).is_none());
    assert_eq!(r.stats().malformed, 3);
}

#[test]
fn revoked_session_stops_being_reflected() {
    let (mut r, mut reg) = (Reflector::new(), Registry::new());
    reg.grant(0xEEEE, client());
    assert!(reflect(&mut r, &mut reg, &request(0xEEEE, 0), client(), 1, 2).is_some());

    let packets = reg.revoke(0xEEEE);
    assert_eq!(packets, Some(1), "revoke should report packets served");
    assert_eq!(reg.revoke(0xEEEE), None);
    assert!(
        reflect(&mut r, &mut reg, &request(0xEEEE, 1), client(), 1, 2).is_none(),
        "revoked session must no longer be reflected"
    );
}

#[test]
fn serves_multiple_concurrent_sessions() {
    let (mut r, mut reg) = (Reflector::new(), Registry::new());
    let (a, b) = (addr("127.0.0.1:1001"), addr("127.0.0.2:1002"));
    reg.grant(0x1111, a);
    reg.grant(0x2222, b);
    assert_eq!(reg.active_count(), 2);
    for (id, from) in [(0x1111, a), (0x2222, b)] {
        let wire = reflect(&mut r, &mut reg, &request(id, 0), from, 1, 2).unwrap();
        assert_eq!(Header::decode(&wire).unwrap().session_id, id);
    }
    assert_eq!(reg.session(0x1111).unwrap().reflector_seq, 1);
    assert_eq!(reg.session(0x2222).unwrap().reflector_seq, 1);
}

#[test]
fn reflector_counts_what_it_could_not_send() {
    let mut r = Reflector::new();
    r.sent(false);
    assert_eq!(r.stats().send_errors, 1);
    let mut short = [0u8; 10];
    assert!(!r.depart(&mut short, 5), "there is no reply in ten bytes");
    assert_eq!(r.stats().malformed, 1);
}

fn fast_cfg(session_id: u64, peer: SocketAddr, count: u32) -> ProbeConfig {
    ProbeConfig {
        session_id,
        peer,
        count,
        interval: Duration::from_millis(2),
        dscp: Some(46),
        linger: Duration::from_millis(300),
        ..Default::default()
    }
}

/// Send every packet of a run to a reflector that takes `held` nanoseconds, over
/// a path of one microsecond each way.
fn run_against(cfg: ProbeConfig, r: &mut Reflector, reg: &mut Registry, held: u64) -> Probing {
    let mut run = Probing::begin(cfg, 0).unwrap();
    let mut buf = vec![0u8; cfg.payload_bytes];
    let mut now = 0;
    while run.has_more() {
        run.prepare(now, &mut buf);
        let t1 = now + 10;
        mqp::stamp_t1(&mut buf, t1).unwrap();
        run.sent(Some(t1));
        if let Some(wire) = reflect(r, reg, &buf, client(), 77_000, 77_000 + held) {
            assert!(run.receive(&wire, cfg.peer, t1 + 2_000 + held));
        }
        now += 2_000_000;
    }
    run
}

#[test]
fn only_the_final_packet_of_a_run_is_marked() {
    for count in [1u32, 5] {
        let cfg = fast_cfg(0x5001, addr("127.0.0.1:5301"), count);
        let mut run = Probing::begin(cfg, 0).unwrap();
        let mut buf = vec![0u8; cfg.payload_bytes];
        let mut marked = vec![];
        while run.has_more() {
            run.prepare(0, &mut buf);
            let h = Header::decode(&buf).unwrap();
            assert!(h.has_flag(flags::REQUEST_DSCP_ECHO));
            if h.has_flag(flags::LAST_PACKET) {
                marked.push(h.seq);
            }
            run.sent(Some(1));
        }
        assert_eq!(marked, [count - 1]);
    }
}

fn at(nanos: u128) -> Instant {
    Instant { nanos }
}

#[test]
fn a_standing_session_begins_anew_after_its_final_packet() {
    let (linger, idle) = (Duration::from_nanos(1_000), Duration::from_nanos(9_000));
    let (mut r, mut reg) = (Reflector::new(), Registry::new());
    reg.grant(0x5001, addr("127.0.0.1:0"));
    let cfg = fast_cfg(0x5001, addr("127.0.0.1:5301"), 3);
    run_against(cfg, &mut r, &mut reg, 0);
    let s = reg.session(0x5001).unwrap();
    assert_eq!((s.reflector_seq, s.finished, s.active_at), (3, true, Some(at(77_000))));

    reg.retire(at(77_999), linger, idle);
    assert_eq!(reg.session(0x5001).unwrap().reflector_seq, 3, "stragglers may still come");
    reg.retire(at(78_000), linger, idle);
    let s = reg.session(0x5001).unwrap();
    assert_eq!((s.reflector_seq, s.finished, s.active_at, s.packets), (0, false, None, 3));

    // The next run is answered, and numbered from zero.
    let run = run_against(cfg, &mut r, &mut reg, 0).finish();
    assert_eq!(run.samples[0].reflector_seq, Some(0));
    let m = stats::summarise(run.sent, &run.samples, None);
    assert_eq!((m.loss.forward_lost, m.loss.reverse_lost), (0, 0));
}

#[test]
fn leased_sessions_retire_and_others_stay() {
    let (linger, idle) = (Duration::from_nanos(10), Duration::from_nanos(100));
    let (mut r, mut reg) = (Reflector::new(), Registry::new());
    reg.lease(1, client(), at(0), None);
    reg.lease(2, client(), at(0), Some(at(50)));
    reg.lease(3, client(), at(0), None);
    reg.grant(4, client());

    // Session 1 ends its run at 20; session 3 goes on.
    let mut last = Header::request(1, 0, 0, 0);
    last.flags = flags::LAST_PACKET;
    let mut buf = vec![0u8; last.wire_len()];
    last.encode(&mut buf).unwrap();
    assert!(reflect(&mut r, &mut reg, &buf, client(), 20, 21).is_some());
    assert!(reflect(&mut r, &mut reg, &request(3, 0), client(), 20, 21).is_some());

    let held = |reg: &Registry| -> Vec<u64> {
        (1..=4).filter(|id| reg.session(*id).is_some()).collect()
    };
    reg.retire(at(29), linger, idle);
    assert_eq!(held(&reg), [1, 2, 3, 4]);
    reg.retire(at(30), linger, idle);
    assert_eq!(held(&reg), [2, 3, 4], "the final packet came a linger ago");
    assert!(reflect(&mut r, &mut reg, &request(1, 1), client(), 31, 32).is_none());
    reg.retire(at(50), linger, idle);
    assert_eq!(held(&reg), [3, 4], "its lease has ended");
    reg.retire(at(120), linger, idle);
    assert_eq!(held(&reg), [4], "nothing came for too long");
    assert_eq!(reg.session(4).unwrap().packets, 0);
}

#[test]
fn loopback_run_returns_every_packet() {
    let (mut r, mut reg) = (Reflector::new(), Registry::new());
    reg.grant(0x5001, addr("127.0.0.1:0"));
    let cfg = fast_cfg(0x5001, addr("127.0.0.1:5301"), 20);
    let run = run_against(cfg, &mut r, &mut reg, 0).finish();

    assert_eq!(run.sent, 20);
    assert_eq!(run.samples.len(), 20, "loopback should not lose packets");
    assert!(run.samples.iter().enumerate().all(|(i, s)| s.arrival_index as usize == i));
    assert_eq!(run.late_ticks, 0);

    let m = stats::summarise(run.sent, &run.samples, Some(46));
    assert_eq!(m.loss.loss_pct.hundredths, 0);
    assert_eq!(m.reorder.reordered, 0);
    assert_eq!(m.rtt.unwrap().avg_us, 2);
}

#[test]
fn reflector_processing_time_is_excluded_from_rtt() {
    let (mut r, mut reg) = (Reflector::new(), Registry::new());
    reg.grant(0x5002, addr("127.0.0.1:0"));
    let cfg = fast_cfg(0x5002, addr("127.0.0.1:5301"), 10);
    let run = run_against(cfg, &mut r, &mut reg, 40_000_000).finish();
    assert!(run.samples.iter().all(|s| s.rtt_ns == 2_000), "{:?}", run.samples);
}

#[test]
fn dscp_marking_survives_the_round_trip() {
    let (mut r, mut reg) = (Reflector::new(), Registry::new());
    reg.grant(0x5003, addr("127.0.0.1:0"));
    let cfg = fast_cfg(0x5003, addr("127.0.0.1:5301"), 10);
    let run = run_against(cfg, &mut r, &mut reg, 0).finish();
    let d = stats::summarise(run.sent, &run.samples, Some(46))
        .dscp
        .expect("reflector should have echoed DSCP");
    assert_eq!(d.conformant_pct.hundredths, 10_000, "EF marking should survive loopback intact");
}

#[test]
fn unanswered_run_reports_total_loss_not_an_error() {
    let cfg = fast_cfg(0x5004, addr("127.0.0.1:1"), 5);
    let run = run_against(cfg, &mut Reflector::new(), &mut Registry::new(), 0).finish();
    assert_eq!(run.sent, 5);
    assert!(run.samples.is_empty());

    let m = stats::summarise(run.sent, &run.samples, None);
    assert_eq!(m.loss.loss_pct.hundredths, 10_000);
    assert_eq!(m.loss.unknown_direction, 5);
}

#[test]
fn rejects_invalid_configuration() {
    let peer = addr("127.0.0.1:9");
    let begin = |c: ProbeConfig| Probing::begin(c, 0).map(|_| ());

    let empty = ProbeConfig { count: 0, peer, ..Default::default() };
    assert_eq!(begin(empty), Err(ProbeError::EmptyRun));

    let tiny = ProbeConfig { payload_bytes: 10, peer, ..Default::default() };
    assert_eq!(begin(tiny), Err(ProbeError::BadPacketSize { requested: 10 }));

    let huge = ProbeConfig { payload_bytes: 9000, peer, ..Default::default() };
    assert_eq!(begin(huge), Err(ProbeError::BadPacketSize { requested: 9000 }));

    let least = ProbeConfig { payload_bytes: HEADER_LEN, peer, ..Default::default() };
    assert!(begin(least).is_ok());
    let most = ProbeConfig { payload_bytes: MAX_PACKET_LEN, peer, ..Default::default() };
    assert!(begin(most).is_ok());

    assert_eq!(ProbeError::EmptyRun.message(), "count must be at least 1");
    assert_eq!(
        ProbeError::BadPacketSize { requested: 10 }.message(),
        "packet size 10 is out of range (56..=1400)"
    );
    assert_eq!(ProbeError::Io("gone".into()).message(), "probe socket error: gone");
}

#[test]
fn replies_for_a_foreign_session_are_ignored() {
    let (mut r, mut reg) = (Reflector::new(), Registry::new());
    reg.grant(0x5005, addr("127.0.0.1:0"));
    let run = run_against(fast_cfg(0x9999, addr("127.0.0.1:5301"), 5), &mut r, &mut reg, 0);
    assert!(run.samples.is_empty(), "reflector must not answer an ungranted session");

    // Nor does the sender take a reply of a session that is not its own.
    let mut other = Probing::begin(fast_cfg(0x9999, addr("127.0.0.1:5301"), 5), 0).unwrap();
    let mut buf = vec![0u8; DEFAULT_PACKET_LEN];
    other.prepare(0, &mut buf);
    other.sent(Some(10));
    let wire = reflect(&mut r, &mut reg, &request(0x5005, 0), client(), 1, 2).unwrap();
    assert!(!other.receive(&wire, addr("127.0.0.1:5301"), 2_000));
}

#[test]
fn honours_the_configured_packet_size() {
    let (mut r, mut reg) = (Reflector::new(), Registry::new());
    reg.grant(0x5006, addr("127.0.0.1:0"));
    let cfg = ProbeConfig { payload_bytes: 512, ..fast_cfg(0x5006, addr("127.0.0.1:5301"), 5) };
    let run = run_against(cfg, &mut r, &mut reg, 0).finish();
    assert_eq!(run.samples.len(), 5, "512-byte probes should round-trip fine");
}

#[test]
fn only_timely_replies_to_packets_that_were_sent_count() {
    let (mut r, mut reg) = (Reflector::new(), Registry::new());
    let peer = addr("127.0.0.1:5301");
    reg.grant(1, addr("127.0.0.1:0"));
    let cfg = ProbeConfig { timeout: Duration::from_micros(10), ..fast_cfg(1, peer, 3) };
    let mut run = Probing::begin(cfg, 0).unwrap();
    let mut buf = vec![0u8; cfg.payload_bytes];
    run.prepare(0, &mut buf);
    run.sent(Some(1_000));
    let wire = reflect(&mut r, &mut reg, &buf, client(), 1, 2).unwrap();

    assert!(!run.receive(&wire, addr("127.0.0.2:5301"), 2_000), "another address");
    assert!(!run.receive(&wire, peer, 999), "before it was sent");
    assert!(!run.receive(&wire, peer, 12_000), "after we gave up on it");
    assert!(!run.receive(&buf, peer, 2_000), "our own request");
    assert!(run.receive(&wire, peer, 11_001), "exactly the timeout, the reflector's time aside");
    assert_eq!(run.samples[0].rtt_ns, 10_000);

    // The second packet could not be sent: an answer to it is not one of ours.
    run.prepare(2_000_000, &mut buf);
    run.sent(None);
    let wire = reflect(&mut r, &mut reg, &buf, client(), 1, 2).unwrap();
    assert!(!run.receive(&wire, peer, 2_000_500));
    assert_eq!(run.finish().sent, 1);
}

#[test]
fn a_reply_without_a_ttl_reports_no_dscp() {
    let peer = addr("127.0.0.1:5301");
    let mut reg = Registry::new();
    reg.grant(1, peer);
    let mut run = Probing::begin(fast_cfg(1, peer, 1), 0).unwrap();
    let mut buf = vec![0u8; DEFAULT_PACKET_LEN];
    run.prepare(0, &mut buf);
    run.sent(Some(0));
    let mut r = Reflector::new();
    let n = buf.len();
    let none = RecvMeta::default();
    assert_eq!(r.receive(&mut reg, &mut buf, n, peer, none, 5), Some(0));
    assert!(r.depart(&mut buf, 6));
    assert!(run.receive(&buf, peer, 500));
    assert_eq!(run.samples[0].rx_dscp, None);
    assert_eq!(run.samples[0].tx_dscp, 46);
}

#[test]
fn a_tick_is_late_only_past_a_whole_interval() {
    let step = Duration::from_millis(20);
    assert!(!is_late(1_000, step, 0, 20_001_000));
    assert!(is_late(1_000, step, 0, 20_001_001));
    assert!(!is_late(1_000, step, 4, 100_001_000));
    assert!(is_late(1_000, step, 4, 100_001_001));
    assert!(!is_late(u64::MAX, step, u32::MAX, u64::MAX), "no overflow at the end of time");
    assert!(!is_late(0, Duration { nanos: u128::MAX }, u32::MAX, u64::MAX));

    let mut run = Probing::begin(fast_cfg(1, client(), 2), 0).unwrap();
    let mut buf = vec![0u8; DEFAULT_PACKET_LEN];
    run.prepare(5_000_000, &mut buf);
    run.sent(Some(5_000_000));
    run.prepare(5_000_001, &mut buf);
    run.sent(Some(5_000_001));
    assert_eq!(run.finish().late_ticks, 2);
}

#[test]
fn dscp_is_shifted_into_the_upper_six_bits() {
    // Guards the likeliest silent bug here: DSCP 46 (EF) must become TOS
    // 0xB8, not TOS 46.
    assert_eq!(tos_byte(46) as u32, (46u32) << 2);
    assert_eq!(tos_byte(46), 0xB8);
    for dscp in 0..64u8 {
        let mut m = RecvMeta::default();
        m.note(ControlMessage::Tos(tos_byte(dscp)));
        assert_eq!(m.dscp, Some(dscp));
    }
}

#[test]
fn control_messages_are_read_as_the_kernel_writes_them() {
    let mut m = RecvMeta::default();
    m.note(ControlMessage::TrafficClass(0xB8));
    m.note(ControlMessage::HopLimit(57));
    assert_eq!(m, RecvMeta { dscp: Some(46), ttl: Some(57) });
    m.note(ControlMessage::Ttl(-1));
    assert_eq!(m.ttl, Some(255), "only the low byte of the int counts");
    m.note(ControlMessage::Ttl(0x1_40));
    assert_eq!(m.ttl, Some(0x40));
}

#[test]
fn the_local_address_has_the_family_of_the_peer() {
    assert_eq!(any_address_for(addr("10.0.0.1:5301")), addr("0.0.0.0:0"));
    assert_eq!(any_address_for(addr("[2001:db8::1]:5301")).ip, IpAddr::V6(0));
}
