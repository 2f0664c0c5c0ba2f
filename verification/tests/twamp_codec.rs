use mqagent::duration::Duration;
use mqagent::proto::twamp::{
    round_trip, stamp_reflector_tx, ErrorEstimate, NtpTimestamp, ReflectorPacket, SenderPacket,
    TwampError, DEFAULT_PACKET_LEN, MAX_PACKET_LEN, NTP_UNIX_OFFSET, REFLECTOR_MIN_LEN,
    SENDER_MIN_LEN,
};

fn ts(secs: u32, frac: u32) -> NtpTimestamp {
    NtpTimestamp { seconds: secs, fraction: frac }
}

#[test]
fn packet_sizes_match_the_rfc() {
    // These are wire constants; a change silently breaks interop with
    // every third-party responder.
    assert_eq!(SENDER_MIN_LEN, 14);
    assert_eq!(REFLECTOR_MIN_LEN, 41);
}

#[test]
fn ntp_epoch_offset_is_correct() {
    // 1900-01-01 to 1970-01-01 is 70 years with 17 leap days.
    assert_eq!(NTP_UNIX_OFFSET, (70 * 365 + 17) * 86_400);
}

#[test]
fn unix_time_round_trips_through_ntp_format() {
    // 2026-09-22T00:00:00Z
    let unix_ns: u128 = 1_790_035_200_000_000_000;
    let t = NtpTimestamp::from_unix_nanos(unix_ns);
    assert_eq!(t.seconds as u64, 1_790_035_200 + NTP_UNIX_OFFSET);
    assert_eq!(t.fraction, 0);
    assert_eq!(t.to_unix_nanos(), unix_ns);
}

#[test]
fn fractional_seconds_survive_to_the_microsecond() {
    // The fraction is in units of 2^-32 s, so exact nanosecond round trips
    // are not possible; a microsecond is what the protocol can carry.
    for ns in [1_000u128, 500_000, 123_456_000, 999_999_000] {
        let t = NtpTimestamp::from_unix_nanos(1_790_035_200_000_000_000 + ns);
        let back = t.to_unix_nanos() - 1_790_035_200_000_000_000;
        assert!(
            (back as i128 - ns as i128).abs() < 1_000,
            "ns {ns} came back as {back}"
        );
    }
}

#[test]
fn half_a_second_is_the_top_fraction_bit() {
    let t = NtpTimestamp::from_unix_nanos(500_000_000);
    assert_eq!(t.fraction, 0x8000_0000);
}

#[test]
fn timestamps_serialise_big_endian() {
    let t = ts(0xAABB_CCDD, 0x1122_3344);
    assert_eq!(t.to_bytes(), [0xAA, 0xBB, 0xCC, 0xDD, 0x11, 0x22, 0x33, 0x44]);
    assert_eq!(NtpTimestamp::from_bytes(t.to_bytes()), t);
}

#[test]
fn duration_between_two_readings_is_exact_enough() {
    let a = ts(100, 0);
    let b = ts(100, 0x8000_0000); // +0.5 s
    let d = b.duration_since(a).unwrap();
    assert_eq!(d.as_millis(), 500);
    assert_eq!(ts(101, 0).duration_since(a).unwrap(), Duration::from_secs(1));
}

#[test]
fn a_backwards_pair_is_reported_rather_than_folded_to_zero() {
    // Two readings of one clock cannot go backwards; if they do, something
    // stepped the clock and the measurement is not salvageable.
    assert!(ts(100, 0).duration_since(ts(101, 0)).is_none());
}

#[test]
fn error_estimate_round_trips_every_field() {
    for sync in [true, false] {
        for scale in [0u8, 1, 31, 63] {
            for mult in [0u8, 1, 200, 255] {
                let e = ErrorEstimate { synchronized: sync, scale, multiplier: mult };
                assert_eq!(ErrorEstimate::from_u16(e.to_u16()), e, "{e:?}");
            }
        }
    }
}

#[test]
fn the_must_be_zero_bit_is_masked_out_of_the_scale() {
    // Folding Z into the scale would multiply the reported estimate by
    // 2^32 — turning microseconds into over a century.
    let with_z = 0x4000u16 | (5 << 8) | 7;
    let e = ErrorEstimate::from_u16(with_z);
    assert_eq!(e.scale, 5);
    assert_eq!(e.multiplier, 7);
    assert!(!e.synchronized);
}

#[test]
fn our_error_estimate_does_not_claim_synchronisation() {
    // Agents run on customer routers whose NTP state we do not control. A
    // receiver that trusts this bit will compute one-way delay from our
    // timestamps.
    let e = ErrorEstimate::unsynchronized();
    assert!(!e.synchronized);
    assert_eq!(e.to_u16() & 0x8000, 0);
    let d = e.as_duration();
    assert!(d < Duration::from_millis(1), "claimed error {d:?} is implausibly large");
}

#[test]
fn sender_packet_round_trips() {
    let p = SenderPacket {
        sequence: 0xDEAD_BEEF,
        timestamp: ts(0x1234_5678, 0x9ABC_DEF0),
        error_estimate: ErrorEstimate::unsynchronized(),
    };
    let mut buf = vec![0u8; DEFAULT_PACKET_LEN];
    p.encode(&mut buf).unwrap();
    assert_eq!(SenderPacket::decode(&buf).unwrap(), p);
}

#[test]
fn sender_fields_land_at_the_offsets_the_rfc_specifies() {
    // A third-party responder reads by offset, so these are the contract.
    let p = SenderPacket {
        sequence: 0x0102_0304,
        timestamp: ts(0x1112_1314, 0x2122_2324),
        error_estimate: ErrorEstimate { synchronized: true, scale: 1, multiplier: 2 },
    };
    let mut buf = vec![0u8; SENDER_MIN_LEN];
    p.encode(&mut buf).unwrap();
    assert_eq!(&buf[0..4], &[1, 2, 3, 4]);
    assert_eq!(&buf[4..12], &[0x11, 0x12, 0x13, 0x14, 0x21, 0x22, 0x23, 0x24]);
    assert_eq!(&buf[12..14], &[0x81, 0x02]);
}

#[test]
fn reflector_packet_round_trips() {
    let p = ReflectorPacket {
        sequence: 7,
        timestamp: ts(300, 3),
        error_estimate: ErrorEstimate::unsynchronized(),
        receive_timestamp: ts(200, 2),
        sender_sequence: 42,
        sender_timestamp: ts(100, 1),
        sender_error_estimate: ErrorEstimate { synchronized: true, scale: 9, multiplier: 5 },
        sender_ttl: 64,
    };
    let mut buf = vec![0u8; REFLECTOR_MIN_LEN];
    p.encode(&mut buf).unwrap();
    assert_eq!(ReflectorPacket::decode(&buf).unwrap(), p);
}

#[test]
fn reflector_fields_land_at_the_offsets_the_rfc_specifies() {
    let p = ReflectorPacket {
        sequence: 0x0102_0304,
        timestamp: ts(0x1111_1111, 0x2222_2222),
        error_estimate: ErrorEstimate { synchronized: false, scale: 0, multiplier: 1 },
        receive_timestamp: ts(0x3333_3333, 0x4444_4444),
        sender_sequence: 0x0506_0708,
        sender_timestamp: ts(0x5555_5555, 0x6666_6666),
        sender_error_estimate: ErrorEstimate { synchronized: false, scale: 0, multiplier: 2 },
        sender_ttl: 0xFE,
    };
    let mut buf = vec![0u8; REFLECTOR_MIN_LEN];
    p.encode(&mut buf).unwrap();

    assert_eq!(&buf[0..4], &[1, 2, 3, 4], "reflector sequence");
    assert_eq!(&buf[14..16], &[0, 0], "MBZ after the error estimate");
    assert_eq!(&buf[16..20], &[0x33, 0x33, 0x33, 0x33], "receive timestamp");
    assert_eq!(&buf[24..28], &[5, 6, 7, 8], "sender sequence echoed");
    assert_eq!(&buf[38..40], &[0, 0], "second MBZ");
    assert_eq!(buf[40], 0xFE, "sender TTL is the last header byte");
}

#[test]
fn a_reply_echoes_everything_the_sender_needs_to_match_it() {
    let req = SenderPacket {
        sequence: 99,
        timestamp: ts(1000, 500),
        error_estimate: ErrorEstimate { synchronized: true, scale: 3, multiplier: 4 },
    };
    let r = ReflectorPacket::reply_to(&req, 5, ts(1001, 0), 61);

    // Without these the sender cannot pair a reply with the packet it sent.
    assert_eq!(r.sender_sequence, 99);
    assert_eq!(r.sender_timestamp, req.timestamp);
    assert_eq!(r.sender_error_estimate, req.error_estimate);
    assert_eq!(r.receive_timestamp, ts(1001, 0));
    assert_eq!(r.sender_ttl, 61);
    assert_eq!(r.timestamp, NtpTimestamp::zero(), "T3 is stamped at send time");
}

#[test]
fn stamping_does_not_disturb_neighbouring_fields() {
    let req = SenderPacket {
        sequence: 1,
        timestamp: ts(10, 0),
        error_estimate: ErrorEstimate::unsynchronized(),
    };
    let r = ReflectorPacket::reply_to(&req, 2, ts(11, 0), 64);
    let mut buf = vec![0u8; REFLECTOR_MIN_LEN];
    r.encode(&mut buf).unwrap();

    stamp_reflector_tx(&mut buf, ts(12, 34)).unwrap();
    let back = ReflectorPacket::decode(&buf).unwrap();
    assert_eq!(back.timestamp, ts(12, 34));
    assert_eq!(back.sequence, 2);
    assert_eq!(back.receive_timestamp, ts(11, 0));
    assert_eq!(back.sender_sequence, 1);
}

#[test]
fn round_trip_removes_the_reflector_turnaround() {
    // Sender sees 100 ms wall to wall; the reflector held the packet for
    // 40 ms of it. The path cost 60 ms.
    let t1 = ts(1000, 0);
    let t4 = NtpTimestamp::from_unix_nanos(
        t1.to_unix_nanos() + Duration::from_millis(100).as_nanos(),
    );
    // The reflector's clock is deliberately far from the sender's, which
    // must not matter.
    let t2 = ts(9_000_000, 0);
    let t3 = NtpTimestamp::from_unix_nanos(
        t2.to_unix_nanos() + Duration::from_millis(40).as_nanos(),
    );

    let rtt = round_trip(t1, t2, t3, t4).unwrap();
    assert!(
        (rtt.as_millis() as i64 - 60).abs() <= 1,
        "expected about 60 ms, got {rtt:?}"
    );
}

#[test]
fn a_wildly_wrong_reflector_clock_cannot_produce_a_negative_rtt() {
    // A reflector claiming a turnaround longer than the whole round trip
    // is not credible; the result must stay a real duration.
    let t1 = ts(1000, 0);
    let t4 = NtpTimestamp::from_unix_nanos(
        t1.to_unix_nanos() + Duration::from_millis(10).as_nanos(),
    );
    let t2 = ts(500, 0);
    let t3 = ts(900, 0); // claims a 400-second turnaround
    assert_eq!(round_trip(t1, t2, t3, t4), Some(Duration::default()));
}

#[test]
fn a_backwards_sender_pair_yields_no_measurement() {
    assert!(round_trip(ts(100, 0), ts(1, 0), ts(2, 0), ts(99, 0)).is_none());
}

#[test]
fn short_packets_are_rejected_with_the_size_they_needed() {
    assert_eq!(
        SenderPacket::decode(&[0u8; 13]),
        Err(TwampError::TooShort { got: 13, need: SENDER_MIN_LEN })
    );
    assert_eq!(
        ReflectorPacket::decode(&[0u8; 40]),
        Err(TwampError::TooShort { got: 40, need: REFLECTOR_MIN_LEN })
    );
    // A 14-byte sender packet is valid but is not a reflector packet.
    assert!(SenderPacket::decode(&[0u8; 14]).is_ok());
    assert!(ReflectorPacket::decode(&[0u8; 14]).is_err());
}

#[test]
fn oversized_packets_are_refused() {
    assert!(matches!(
        SenderPacket::decode(&vec![0u8; MAX_PACKET_LEN + 1]),
        Err(TwampError::TooLong { .. })
    ));
}

#[test]
fn default_size_makes_both_directions_equal() {
    // Unequal sizes would let a path that polices by size measure the two
    // directions differently for reasons unrelated to the network.
    assert_eq!(DEFAULT_PACKET_LEN, REFLECTOR_MIN_LEN);
    assert!(DEFAULT_PACKET_LEN >= SENDER_MIN_LEN);
}
