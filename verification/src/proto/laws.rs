//! Where each field stands on the wire.

use vstd::prelude::*;

use crate::proto::mqp::{DecodeError, Header, PacketType};
use crate::proto::twamp::{NtpTimestamp, ReflectorPacket, SenderPacket, TwampError};

verus! {

/// The number in two bytes, the first the more significant.
pub open spec fn two(b: Seq<u8>, at: int) -> int {
    b[at] * 256 + b[at + 1]
}

/// The number in four bytes.
pub open spec fn four(b: Seq<u8>, at: int) -> int {
    two(b, at) * 65_536 + two(b, at + 2)
}

/// The number in eight bytes.
pub open spec fn eight(b: Seq<u8>, at: int) -> int {
    four(b, at) * 4_294_967_296 + four(b, at + 4)
}

proof fn lemma_joined(s: Seq<u8>, at: int, w: int)
    requires
        0 <= at,
        1 <= w,
        at + w <= s.len(),
    ensures
        crate::bytes::field(s, at, w) == crate::bytes::field(s, at, w - 1) * 256 + s[at + w - 1],
{
    let part = s.subrange(at, at + w);
    assert(part.drop_last() =~= s.subrange(at, at + w - 1));
    assert(part.last() == s[at + w - 1]);
}

proof fn lemma_none(s: Seq<u8>, at: int)
    requires
        0 <= at <= s.len(),
    ensures
        crate::bytes::field(s, at, 0) == 0,
{
    assert(s.subrange(at, at) =~= Seq::<u8>::empty());
}

proof fn lemma_one(s: Seq<u8>, at: int)
    requires
        0 <= at,
        at + 1 <= s.len(),
    ensures
        crate::bytes::field(s, at, 1) == s[at],
{
    lemma_none(s, at);
    lemma_joined(s, at, 1);
}

proof fn lemma_two(s: Seq<u8>, at: int)
    requires
        0 <= at,
        at + 2 <= s.len(),
    ensures
        crate::bytes::field(s, at, 2) == two(s, at),
{
    lemma_one(s, at);
    lemma_joined(s, at, 2);
}

proof fn lemma_four(s: Seq<u8>, at: int)
    requires
        0 <= at,
        at + 4 <= s.len(),
    ensures
        crate::bytes::field(s, at, 4) == four(s, at),
{
    lemma_two(s, at);
    lemma_joined(s, at, 3);
    lemma_joined(s, at, 4);
}

proof fn lemma_eight(s: Seq<u8>, at: int)
    requires
        0 <= at,
        at + 8 <= s.len(),
    ensures
        crate::bytes::field(s, at, 8) == eight(s, at),
{
    lemma_four(s, at);
    lemma_joined(s, at, 5);
    lemma_joined(s, at, 6);
    lemma_joined(s, at, 7);
    lemma_joined(s, at, 8);
}

/// A packet that is read starts with the letters `MQ` and a version of one, is
/// 56 bytes and its payload long, and has each field at its own place, the most
/// significant byte first.
pub proof fn law_where_the_fields_of_a_probe_stand(b: Seq<u8>, h: Header)
    requires
        crate::proto::mqp::decoded(b) == Ok::<Header, DecodeError>(h),
    ensures
        b.len() == 56 + h.payload_len,
        b[0] == 0x4D,
        b[1] == 0x51,
        b[2] == 1,
        h.version == 1,
        b[3] == 1 <==> h.pkt_type == PacketType::Request,
        b[3] == 2 <==> h.pkt_type == PacketType::Reply,
        h.flags == two(b, 4),
        h.session_id == eight(b, 8),
        h.seq == four(b, 16),
        h.reflector_seq == four(b, 20),
        h.t1 == eight(b, 24),
        h.t2 == eight(b, 32),
        h.t3 == eight(b, 40),
        h.tx_dscp == b[48],
        h.rx_dscp == b[49],
        h.ttl_fwd == b[50],
        h.ttl_rev == b[51],
        h.payload_len == two(b, 52),
        two(b, 54) == crate::proto::mqp::crc(b.subrange(0, 54)),
{
    lemma_two(b, 0);
    lemma_one(b, 2);
    lemma_one(b, 3);
    lemma_two(b, 4);
    lemma_eight(b, 8);
    lemma_four(b, 16);
    lemma_four(b, 20);
    lemma_eight(b, 24);
    lemma_eight(b, 32);
    lemma_eight(b, 40);
    lemma_one(b, 48);
    lemma_one(b, 49);
    lemma_one(b, 50);
    lemma_one(b, 51);
    lemma_two(b, 52);
    lemma_two(b, 54);
}

/// What is not a packet is told apart by the first thing that is wrong with it:
/// its length, its first two bytes, its version, its type.
pub proof fn law_what_is_not_a_probe(b: Seq<u8>)
    ensures
        b.len() < 56 ==> crate::proto::mqp::decoded(b) == Err::<Header, DecodeError>(
            DecodeError::TooShort { got: b.len() as usize },
        ),
        b.len() >= 56 && !(b[0] == 0x4D && b[1] == 0x51) ==> crate::proto::mqp::decoded(b) == Err::<
            Header,
            DecodeError,
        >(DecodeError::BadMagic { got: two(b, 0) as u16 }),
        b.len() >= 56 && b[0] == 0x4D && b[1] == 0x51 && b[2] != 1 ==> crate::proto::mqp::decoded(b)
            == Err::<Header, DecodeError>(DecodeError::UnsupportedVersion { got: b[2] }),
        b.len() >= 56 && b[0] == 0x4D && b[1] == 0x51 && b[2] == 1 && b[3] != 1 && b[3] != 2
            ==> crate::proto::mqp::decoded(b) == Err::<Header, DecodeError>(
            DecodeError::UnknownType { got: b[3] },
        ),
{
    if b.len() >= 56 {
        lemma_two(b, 0);
        lemma_one(b, 2);
        lemma_one(b, 3);
    }
}

/// The checksum starts from all ones and takes in one byte after the other:
/// for each of its bits the state is doubled, and what is carried out is folded
/// back in through 0x1021.
pub proof fn law_how_the_checksum_is_made(data: Seq<u8>, byte: u8, state: u16)
    ensures
        crate::proto::mqp::crc(Seq::empty()) == 0xFFFF,
        crate::proto::mqp::crc(data.push(byte)) == crate::proto::mqp::crc_byte(
            crate::proto::mqp::crc(data),
            byte,
        ),
        state < 0x8000 ==> crate::proto::mqp::crc_bit(state) == 2 * state,
        state >= 0x8000 ==> crate::proto::mqp::crc_bit(state) == (((2 * state - 0x1_0000) as u16)
            ^ 0x1021),
{
    assert(data.push(byte).drop_last() =~= data);
    assert(state < 0x8000 ==> state & 0x8000 == 0 && state << 1u16 == 2 * state) by (bit_vector);
    assert(state >= 0x8000 ==> state & 0x8000 != 0 && state << 1u16 == 2 * state - 0x1_0000)
        by (bit_vector);
}

/// A TWAMP request has its sequence number in the first four bytes, its
/// timestamp in the next eight, and its error estimate in the two after them.
pub proof fn law_where_the_fields_of_a_twamp_request_stand(b: Seq<u8>, p: SenderPacket)
    requires
        crate::proto::twamp::sender_decoded(b) == Ok::<SenderPacket, TwampError>(p),
    ensures
        14 <= b.len() <= 1400,
        p.sequence == four(b, 0),
        p.timestamp.seconds == four(b, 4),
        p.timestamp.fraction == four(b, 8),
        p.error_estimate.synchronized <==> b[12] >= 128,
        p.error_estimate.scale == b[12] % 64,
        p.error_estimate.multiplier == b[13],
{
    lemma_four(b, 0);
    lemma_four(b, 4);
    lemma_four(b, 8);
    lemma_two(b, 12);
}

/// A TWAMP reply has the reflector's own number, timestamp and error estimate
/// first, then when the request came, then what the request said, and last the
/// hops it had left.
pub proof fn law_where_the_fields_of_a_twamp_reply_stand(b: Seq<u8>, p: ReflectorPacket)
    requires
        crate::proto::twamp::reflector_decoded(b) == Ok::<ReflectorPacket, TwampError>(p),
    ensures
        41 <= b.len() <= 1400,
        p.sequence == four(b, 0),
        p.timestamp.seconds == four(b, 4),
        p.timestamp.fraction == four(b, 8),
        p.error_estimate.synchronized <==> b[12] >= 128,
        p.receive_timestamp.seconds == four(b, 16),
        p.receive_timestamp.fraction == four(b, 20),
        p.sender_sequence == four(b, 24),
        p.sender_timestamp.seconds == four(b, 28),
        p.sender_timestamp.fraction == four(b, 32),
        p.sender_error_estimate.multiplier == b[37],
        p.sender_ttl == b[40],
{
    lemma_four(b, 0);
    lemma_four(b, 4);
    lemma_four(b, 8);
    lemma_two(b, 12);
    lemma_four(b, 16);
    lemma_four(b, 20);
    lemma_four(b, 24);
    lemma_four(b, 28);
    lemma_four(b, 32);
    lemma_two(b, 36);
    lemma_one(b, 40);
}

/// A timestamp counts the seconds from 1900, 2208988800 more than from 1970,
/// and a fraction of a second in units of one in 2^32.
pub proof fn law_timestamps_count_from_1900(secs: nat, half: bool)
    requires
        secs + 2_208_988_800 <= u32::MAX,
    ensures
        ({
            let ns = secs * 1_000_000_000 + if half {
                500_000_000int
            } else {
                0
            };
            crate::proto::twamp::ntp_of_unix(ns as nat) == (NtpTimestamp {
                seconds: (secs + 2_208_988_800) as u32,
                fraction: if half {
                    0x8000_0000
                } else {
                    0
                },
            })
        }),
{
}

} // verus!
