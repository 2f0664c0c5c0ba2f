use mqagent::proto::mqp::{
    crc16_ccitt, flags, make_reply_in_place, stamp_t1, stamp_t3, DecodeError, Header, PacketType,
    DEFAULT_PACKET_LEN, HEADER_LEN, VERSION,
};

fn sample_header() -> Header {
    Header {
        version: VERSION,
        pkt_type: PacketType::Request,
        flags: flags::REQUEST_DSCP_ECHO | flags::ECHO_PAYLOAD,
        session_id: 0x7F3A_9C2B_1D4E_8A60,
        seq: 12345,
        reflector_seq: 0,
        t1: 1_234_567_890_123,
        t2: 0,
        t3: 0,
        tx_dscp: 46,
        rx_dscp: 0,
        ttl_fwd: 0,
        ttl_rev: 0,
        payload_len: (DEFAULT_PACKET_LEN - HEADER_LEN) as u16,
    }
}

#[test]
fn round_trip_preserves_every_field() {
    let h = sample_header();
    let mut buf = vec![0u8; h.wire_len()];
    h.encode(&mut buf).unwrap();
    assert_eq!(Header::decode(&buf).unwrap(), h);
}

#[test]
fn header_is_exactly_56_bytes() {
    // The layout is a wire contract; a silent change here desynchronises
    // every deployed agent.
    assert_eq!(HEADER_LEN, 56);
    let h = sample_header();
    assert_eq!(h.wire_len(), DEFAULT_PACKET_LEN);
}

#[test]
fn rejects_foreign_traffic() {
    let mut buf = vec![0u8; DEFAULT_PACKET_LEN];
    buf[0..2].copy_from_slice(&0xDEADu16.to_be_bytes());
    assert!(matches!(Header::decode(&buf), Err(DecodeError::BadMagic { .. })));
}

#[test]
fn rejects_short_packet() {
    let buf = vec![0u8; 20];
    assert!(matches!(Header::decode(&buf), Err(DecodeError::TooShort { got: 20 })));
}

#[test]
fn rejects_future_version() {
    let h = sample_header();
    let mut buf = vec![0u8; h.wire_len()];
    h.encode(&mut buf).unwrap();
    buf[2] = 99;
    assert!(matches!(
        Header::decode(&buf),
        Err(DecodeError::UnsupportedVersion { got: 99 })
    ));
}

#[test]
fn rejects_unknown_flags() {
    let mut h = sample_header();
    h.flags = 0x8000; // reserved bit
    let mut buf = vec![0u8; h.wire_len()];
    h.encode(&mut buf).unwrap();
    assert!(matches!(Header::decode(&buf), Err(DecodeError::UnknownFlags { .. })));
}

#[test]
fn detects_corrupted_timestamp() {
    // The case the checksum exists for: a flipped byte in t1 would
    // otherwise decode as a plausible-looking but wrong latency.
    let h = sample_header();
    let mut buf = vec![0u8; h.wire_len()];
    h.encode(&mut buf).unwrap();
    buf[27] ^= 0x01;
    assert!(matches!(Header::decode(&buf), Err(DecodeError::BadChecksum { .. })));
}

#[test]
fn detects_truncated_payload() {
    let h = sample_header();
    let mut buf = vec![0u8; h.wire_len()];
    h.encode(&mut buf).unwrap();
    buf.truncate(h.wire_len() - 10);
    assert!(matches!(Header::decode(&buf), Err(DecodeError::LengthMismatch { .. })));
}

#[test]
fn stamping_t1_keeps_packet_valid() {
    let h = sample_header();
    let mut buf = vec![0u8; h.wire_len()];
    h.encode(&mut buf).unwrap();
    stamp_t1(&mut buf, 999_999_999).unwrap();
    let decoded = Header::decode(&buf).unwrap();
    assert_eq!(decoded.t1, 999_999_999);
    assert_eq!(decoded.seq, h.seq, "stamping must not disturb other fields");
}

#[test]
fn reflection_sets_reply_fields_and_stays_valid() {
    let h = sample_header();
    let mut buf = vec![0u8; h.wire_len()];
    h.encode(&mut buf).unwrap();

    make_reply_in_place(&mut buf, 5_000, 77, 46, 62, 64).unwrap();
    stamp_t3(&mut buf, 5_120).unwrap();

    let r = Header::decode(&buf).unwrap();
    assert_eq!(r.pkt_type, PacketType::Reply);
    assert_eq!(r.t2, 5_000);
    assert_eq!(r.t3, 5_120);
    assert_eq!(r.reflector_seq, 77);
    assert_eq!(r.rx_dscp, 46);
    assert_eq!(r.ttl_fwd, 62);
    // Sender-side fields must survive reflection untouched — the sender
    // matches the reply to its sample by seq and t1.
    assert_eq!(r.seq, h.seq);
    assert_eq!(r.t1, h.t1);
    assert_eq!(r.session_id, h.session_id);
}

#[test]
fn crc_matches_known_vector() {
    // CRC-16/CCITT-FALSE check value for "123456789" is 0x29B1.
    assert_eq!(crc16_ccitt(b"123456789"), 0x29B1);
}
