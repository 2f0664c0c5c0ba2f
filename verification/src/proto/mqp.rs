//! MQP wire codec.
//!
//! Fixed 56-byte header, big-endian, no allocation on the hot path. Encoding
//! writes into a caller-owned buffer; decoding borrows one. The reflector
//! mutates a received buffer in place and sends it straight back.

use vstd::prelude::*;
use vstd::slice::slice_subrange;
use vstd::string::StringExecFns;

use crate::bytes::{get_be, put_be};
use crate::text::{push_decimal, push_hex};

pub mod flags;

verus! {

pub const MAGIC: u16 = 0x4D51;

pub const VERSION: u8 = 1;

pub const HEADER_LEN: usize = 56;

/// Default probe size: a 20 ms G.711 frame over RTP/UDP/IP is 172 bytes on the
/// wire, so the default probe stresses the path like the traffic we care about.
pub const DEFAULT_PACKET_LEN: usize = 172;

/// Largest packet we will send or accept. Keeps the reflector's per-session
/// buffer bounded and avoids IP fragmentation on a 1500-byte path.
pub const MAX_PACKET_LEN: usize = 1400;

#[derive(Debug, Clone, Copy, PartialEq, Eq, Structural)]
pub enum PacketType {
    Request,
    Reply,
}

impl PacketType {
    /// The type's byte on the wire.
    pub open spec fn code(self) -> u8 {
        match self {
            PacketType::Request => 1u8,
            PacketType::Reply => 2u8,
        }
    }

    pub fn to_u8(self) -> (r: u8)
        ensures
            r == self.code(),
    {
        match self {
            PacketType::Request => 1u8,
            PacketType::Reply => 2u8,
        }
    }

    pub fn from_u8(v: u8) -> (r: Option<PacketType>)
        ensures
            r == packet_type(v),
    {
        if v == 1 {
            Some(PacketType::Request)
        } else if v == 2 {
            Some(PacketType::Reply)
        } else {
            None
        }
    }
}

/// The packet type with this byte on the wire, if there is one.
pub open spec fn packet_type(v: u8) -> Option<PacketType> {
    if v == PacketType::Request.code() {
        Some(PacketType::Request)
    } else if v == PacketType::Reply.code() {
        Some(PacketType::Reply)
    } else {
        None
    }
}

#[allow(inconsistent_fields)]
#[derive(Debug, Clone, Copy, PartialEq, Eq, Structural)]
pub enum DecodeError {
    TooShort { got: usize },
    BadMagic { got: u16 },
    UnsupportedVersion { got: u8 },
    UnknownType { got: u8 },
    UnknownFlags { got: u16 },
    LengthMismatch { declared: usize, actual: usize },
    BadChecksum { expected: u16, got: u16 },
}

/// A 16-bit word as it is shown: four capital hexadecimal digits.
pub open spec fn shown_word(v: u16) -> Seq<char> {
    "0x"@ + crate::text::hex(v as nat, 4, true)
}

/// What an error says.
pub open spec fn error_message(e: DecodeError) -> Seq<char> {
    match e {
        DecodeError::TooShort { got } => "packet too short: "@ + crate::text::decimal(got as nat)
            + " bytes, need at least "@ + crate::text::decimal(HEADER_LEN as nat),
        DecodeError::BadMagic { got } => "bad magic "@ + shown_word(got) + ", expected "@
            + shown_word(MAGIC),
        DecodeError::UnsupportedVersion { got } => "unsupported protocol version "@
            + crate::text::decimal(got as nat) + ", this agent speaks "@ + crate::text::decimal(
            VERSION as nat,
        ),
        DecodeError::UnknownType { got } => "unknown packet type "@ + crate::text::decimal(
            got as nat,
        ),
        DecodeError::UnknownFlags { got } => "unknown flag bits set: "@ + shown_word(got),
        DecodeError::LengthMismatch { declared, actual } => "payload_len declares "@
            + crate::text::decimal(declared as nat) + " bytes but packet carries "@
            + crate::text::decimal(actual as nat),
        DecodeError::BadChecksum { expected, got } => "checksum mismatch: computed "@ + shown_word(
            expected,
        ) + ", header says "@ + shown_word(got),
    }
}

fn show_word(v: u16) -> (r: String)
    ensures
        r@ == shown_word(v),
{
    let mut t = "0x".to_owned();
    push_hex(&mut t, v as u64, 4, true);
    t
}

impl DecodeError {
    pub fn message(&self) -> (r: String)
        ensures
            r@ == error_message(*self),
    {
        match self {
            DecodeError::TooShort { got } => {
                let mut t = "packet too short: ".to_owned();
                push_decimal(&mut t, *got as u128);
                t.append(" bytes, need at least ");
                push_decimal(&mut t, HEADER_LEN as u128);
                t
            },
            DecodeError::BadMagic { got } => {
                let mut t = "bad magic ".to_owned();
                t.append(show_word(*got).as_str());
                t.append(", expected ");
                t.append(show_word(MAGIC).as_str());
                t
            },
            DecodeError::UnsupportedVersion { got } => {
                let mut t = "unsupported protocol version ".to_owned();
                push_decimal(&mut t, *got as u128);
                t.append(", this agent speaks ");
                push_decimal(&mut t, VERSION as u128);
                t
            },
            DecodeError::UnknownType { got } => {
                let mut t = "unknown packet type ".to_owned();
                push_decimal(&mut t, *got as u128);
                t
            },
            DecodeError::UnknownFlags { got } => {
                let mut t = "unknown flag bits set: ".to_owned();
                t.append(show_word(*got).as_str());
                t
            },
            DecodeError::LengthMismatch { declared, actual } => {
                let mut t = "payload_len declares ".to_owned();
                push_decimal(&mut t, *declared as u128);
                t.append(" bytes but packet carries ");
                push_decimal(&mut t, *actual as u128);
                t
            },
            DecodeError::BadChecksum { expected, got } => {
                let mut t = "checksum mismatch: computed ".to_owned();
                t.append(show_word(*expected).as_str());
                t.append(", header says ");
                t.append(show_word(*got).as_str());
                t
            },
        }
    }
}

/// A decoded MQP header. Padding is not copied: the caller still holds the
/// buffer if it needs to inspect or echo it.
#[derive(Debug, Clone, Copy, PartialEq, Eq, Structural)]
pub struct Header {
    pub version: u8,
    pub pkt_type: PacketType,
    pub flags: u16,
    pub session_id: u64,
    pub seq: u32,
    pub reflector_seq: u32,
    /// Sender TX, ns on the *sender's* clock.
    pub t1: u64,
    /// Reflector RX, ns on the *reflector's* clock.
    pub t2: u64,
    /// Reflector TX, ns on the *reflector's* clock.
    pub t3: u64,
    pub tx_dscp: u8,
    pub rx_dscp: u8,
    pub ttl_fwd: u8,
    pub ttl_rev: u8,
    pub payload_len: u16,
}

/// `b` starts with the wire form of `h`: every field in its place, the
/// reserved bytes zero, and the checksum over the 54 bytes before it.
pub open spec fn lays_out(b: Seq<u8>, h: Header) -> bool {
    &&& b.len() >= HEADER_LEN
    &&& crate::bytes::field(b, 0, 2) == MAGIC
    &&& crate::bytes::field(b, 2, 1) == h.version
    &&& crate::bytes::field(b, 3, 1) == h.pkt_type.code()
    &&& crate::bytes::field(b, 4, 2) == h.flags
    &&& crate::bytes::field(b, 6, 2) == 0
    &&& crate::bytes::field(b, 8, 8) == h.session_id
    &&& crate::bytes::field(b, 16, 4) == h.seq
    &&& crate::bytes::field(b, 20, 4) == h.reflector_seq
    &&& crate::bytes::field(b, 24, 8) == h.t1
    &&& crate::bytes::field(b, 32, 8) == h.t2
    &&& crate::bytes::field(b, 40, 8) == h.t3
    &&& crate::bytes::field(b, 48, 1) == h.tx_dscp
    &&& crate::bytes::field(b, 49, 1) == h.rx_dscp
    &&& crate::bytes::field(b, 50, 1) == h.ttl_fwd
    &&& crate::bytes::field(b, 51, 1) == h.ttl_rev
    &&& crate::bytes::field(b, 52, 2) == h.payload_len
    &&& crate::bytes::field(b, 54, 2) == crc(b.subrange(0, 54))
}

/// What a datagram decodes to: the first check that it fails, or the header
/// that it carries.
pub open spec fn decoded(b: Seq<u8>) -> Result<Header, DecodeError> {
    if b.len() < HEADER_LEN {
        Err(DecodeError::TooShort { got: b.len() as usize })
    } else if crate::bytes::field(b, 0, 2) != MAGIC {
        Err(DecodeError::BadMagic { got: crate::bytes::field(b, 0, 2) as u16 })
    } else if crate::bytes::field(b, 2, 1) != VERSION {
        Err(DecodeError::UnsupportedVersion { got: crate::bytes::field(b, 2, 1) as u8 })
    } else if packet_type(crate::bytes::field(b, 3, 1) as u8) is None {
        Err(DecodeError::UnknownType { got: crate::bytes::field(b, 3, 1) as u8 })
    } else if (crate::bytes::field(b, 4, 2) as u16) & !flags::KNOWN != 0 {
        Err(DecodeError::UnknownFlags { got: (crate::bytes::field(b, 4, 2) as u16) & !flags::KNOWN })
    } else if crate::bytes::field(b, 54, 2) != crc(b.subrange(0, 54)) {
        Err(
            DecodeError::BadChecksum {
                expected: crc(b.subrange(0, 54)),
                got: crate::bytes::field(b, 54, 2) as u16,
            },
        )
    } else if crate::bytes::field(b, 52, 2) != b.len() - HEADER_LEN {
        Err(
            DecodeError::LengthMismatch {
                declared: crate::bytes::field(b, 52, 2) as usize,
                actual: (b.len() - HEADER_LEN) as usize,
            },
        )
    } else {
        Ok(
            Header {
                version: crate::bytes::field(b, 2, 1) as u8,
                pkt_type: packet_type(crate::bytes::field(b, 3, 1) as u8)->0,
                flags: crate::bytes::field(b, 4, 2) as u16,
                session_id: crate::bytes::field(b, 8, 8) as u64,
                seq: crate::bytes::field(b, 16, 4) as u32,
                reflector_seq: crate::bytes::field(b, 20, 4) as u32,
                t1: crate::bytes::field(b, 24, 8) as u64,
                t2: crate::bytes::field(b, 32, 8) as u64,
                t3: crate::bytes::field(b, 40, 8) as u64,
                tx_dscp: crate::bytes::field(b, 48, 1) as u8,
                rx_dscp: crate::bytes::field(b, 49, 1) as u8,
                ttl_fwd: crate::bytes::field(b, 50, 1) as u8,
                ttl_rev: crate::bytes::field(b, 51, 1) as u8,
                payload_len: crate::bytes::field(b, 52, 2) as u16,
            },
        )
    }
}

/// `b` with its checksum recomputed.
pub open spec fn sealed(b: Seq<u8>) -> Seq<u8> {
    crate::bytes::patched(b, 54, crate::bytes::be_bytes(crc(b.subrange(0, 54)) as nat, 2))
}

/// `b` with `t1` stamped and the checksum fixed.
pub open spec fn stamped_t1(b: Seq<u8>, t1: u64) -> Seq<u8> {
    sealed(crate::bytes::patched(b, 24, crate::bytes::be_bytes(t1 as nat, 8)))
}

/// `b` with `t3` stamped and the checksum fixed.
pub open spec fn stamped_t3(b: Seq<u8>, t3: u64) -> Seq<u8> {
    sealed(crate::bytes::patched(b, 40, crate::bytes::be_bytes(t3 as nat, 8)))
}

/// `b` turned into a reply; the checksum is left for [`stamped_t3`].
pub open spec fn reply_of(
    b: Seq<u8>,
    t2: u64,
    reflector_seq: u32,
    rx_dscp: u8,
    ttl_fwd: u8,
    ttl_rev: u8,
) -> Seq<u8> {
    let b = crate::bytes::patched(b, 3, crate::bytes::be_bytes(PacketType::Reply.code() as nat, 1));
    let b = crate::bytes::patched(b, 20, crate::bytes::be_bytes(reflector_seq as nat, 4));
    let b = crate::bytes::patched(b, 32, crate::bytes::be_bytes(t2 as nat, 8));
    let b = crate::bytes::patched(b, 49, crate::bytes::be_bytes(rx_dscp as nat, 1));
    let b = crate::bytes::patched(b, 50, crate::bytes::be_bytes(ttl_fwd as nat, 1));
    crate::bytes::patched(b, 51, crate::bytes::be_bytes(ttl_rev as nat, 1))
}

impl Header {
    /// A fresh Request header. Timestamps and reflector fields are zero; the
    /// sender fills `t1` immediately before the socket write.
    pub fn request(session_id: u64, seq: u32, tx_dscp: u8, payload_len: u16) -> (r: Header)
        ensures
            r == (Header {
                version: VERSION,
                pkt_type: PacketType::Request,
                flags: flags::REQUEST_DSCP_ECHO,
                session_id,
                seq,
                reflector_seq: 0,
                t1: 0,
                t2: 0,
                t3: 0,
                tx_dscp,
                rx_dscp: 0,
                ttl_fwd: 0,
                ttl_rev: 0,
                payload_len,
            }),
    {
        Header {
            version: VERSION,
            pkt_type: PacketType::Request,
            flags: flags::REQUEST_DSCP_ECHO,
            session_id,
            seq,
            reflector_seq: 0,
            t1: 0,
            t2: 0,
            t3: 0,
            tx_dscp,
            rx_dscp: 0,
            ttl_fwd: 0,
            ttl_rev: 0,
            payload_len,
        }
    }

    pub fn has_flag(&self, flag: u16) -> (r: bool)
        ensures
            r == (self.flags & flag != 0),
    {
        self.flags & flag != 0
    }

    /// Total wire size of a packet carrying this header.
    pub fn wire_len(&self) -> (r: usize)
        ensures
            r == HEADER_LEN + self.payload_len,
    {
        HEADER_LEN + self.payload_len as usize
    }

    /// Write the header into the first [`HEADER_LEN`] bytes of `buf`, including
    /// the checksum. Padding beyond the header is left untouched.
    pub fn encode(&self, buf: &mut [u8]) -> (r: Result<(), DecodeError>)
        ensures
            old(buf)@.len() < HEADER_LEN ==> r == Err::<(), DecodeError>(
                DecodeError::TooShort { got: old(buf)@.len() as usize },
            ) && final(buf)@ == old(buf)@,
            old(buf)@.len() >= HEADER_LEN ==> r is Ok && lays_out(final(buf)@, *self),
            final(buf)@.len() == old(buf)@.len(),
            forall|i: int|
                HEADER_LEN <= i < old(buf)@.len() ==> #[trigger] final(buf)@[i] == old(buf)@[i],
    {
        if buf.len() < HEADER_LEN {
            return Err(DecodeError::TooShort { got: buf.len() });
        }
        let ghost before = buf@;
        put_be(buf, 0, 2, MAGIC as u64);
        put_be(buf, 2, 1, self.version as u64);
        put_be(buf, 3, 1, self.pkt_type.to_u8() as u64);
        put_be(buf, 4, 2, self.flags as u64);
        put_be(buf, 6, 2, 0);
        put_be(buf, 8, 8, self.session_id);
        put_be(buf, 16, 4, self.seq as u64);
        put_be(buf, 20, 4, self.reflector_seq as u64);
        put_be(buf, 24, 8, self.t1);
        put_be(buf, 32, 8, self.t2);
        put_be(buf, 40, 8, self.t3);
        put_be(buf, 48, 1, self.tx_dscp as u64);
        put_be(buf, 49, 1, self.rx_dscp as u64);
        put_be(buf, 50, 1, self.ttl_fwd as u64);
        put_be(buf, 51, 1, self.ttl_rev as u64);
        put_be(buf, 52, 2, self.payload_len as u64);
        seal(buf);
        proof {
            broadcast use {
                crate::bytes::lemma_field_own,
                crate::bytes::lemma_field_apart,
                crate::bytes::lemma_patched_apart,
                crate::bytes::lemma_be_bytes_width,
            };
            crate::bytes::lemma_be_bounds();
        }
        Ok(())
    }

    /// Parse and validate a header from the front of `buf`.
    ///
    /// Validation is ordered cheapest-first so that stray traffic hitting the
    /// probe port is rejected in a few instructions.
    pub fn decode(buf: &[u8]) -> (r: Result<Header, DecodeError>)
        ensures
            r == decoded(buf@),
    {
        if buf.len() < HEADER_LEN {
            return Err(DecodeError::TooShort { got: buf.len() });
        }
        proof {
            crate::bytes::lemma_be_bounds();
            crate::bytes::lemma_field_bounds(buf@);
        }
        let magic: u16 = get_be(buf, 0, 2) as u16;
        if magic != MAGIC {
            return Err(DecodeError::BadMagic { got: magic });
        }
        let version: u8 = buf_byte(buf, 2);
        if version != VERSION {
            return Err(DecodeError::UnsupportedVersion { got: version });
        }
        let type_byte: u8 = buf_byte(buf, 3);
        let pkt_type = match PacketType::from_u8(type_byte) {
            Some(t) => t,
            None => {
                return Err(DecodeError::UnknownType { got: type_byte });
            },
        };
        let flag_bits: u16 = get_be(buf, 4, 2) as u16;
        if flag_bits & !flags::KNOWN != 0 {
            return Err(DecodeError::UnknownFlags { got: flag_bits & !flags::KNOWN });
        }
        let stated_crc: u16 = get_be(buf, 54, 2) as u16;
        let computed: u16 = crc16_ccitt(slice_subrange(buf, 0, 54));
        if stated_crc != computed {
            return Err(DecodeError::BadChecksum { expected: computed, got: stated_crc });
        }
        let payload_len: u16 = get_be(buf, 52, 2) as u16;
        let actual_payload: usize = buf.len() - HEADER_LEN;
        if payload_len as usize != actual_payload {
            return Err(
                DecodeError::LengthMismatch {
                    declared: payload_len as usize,
                    actual: actual_payload,
                },
            );
        }
        Ok(
            Header {
                version,
                pkt_type,
                flags: flag_bits,
                session_id: get_be(buf, 8, 8),
                seq: get_be(buf, 16, 4) as u32,
                reflector_seq: get_be(buf, 20, 4) as u32,
                t1: get_be(buf, 24, 8),
                t2: get_be(buf, 32, 8),
                t3: get_be(buf, 40, 8),
                tx_dscp: buf_byte(buf, 48),
                rx_dscp: buf_byte(buf, 49),
                ttl_fwd: buf_byte(buf, 50),
                ttl_rev: buf_byte(buf, 51),
                payload_len,
            },
        )
    }
}

fn buf_byte(buf: &[u8], at: usize) -> (r: u8)
    requires
        at < buf@.len(),
    ensures
        r == crate::bytes::field(buf@, at as int, 1),
{
    proof {
        crate::bytes::lemma_field_byte(buf@, at as int);
    }
    buf[at]
}

/// Recomputes the checksum of an encoded header.
fn seal(buf: &mut [u8])
    requires
        old(buf)@.len() >= HEADER_LEN,
    ensures
        final(buf)@ == sealed(old(buf)@),
{
    let sum: u16 = crc16_ccitt(slice_subrange(buf, 0, 54));
    put_be(buf, 54, 2, sum as u64);
}

/// Patch `t1` in an already-encoded buffer and fix the checksum.
///
/// The sender encodes the packet once, then stamps the clock as late as
/// possible: after the buffer is built, immediately before the send. Anything
/// between the stamp and the write is counted as network latency, so this
/// window is kept as small as it can be.
pub fn stamp_t1(buf: &mut [u8], t1: u64) -> (r: Result<(), DecodeError>)
    ensures
        old(buf)@.len() < HEADER_LEN ==> r == Err::<(), DecodeError>(
            DecodeError::TooShort { got: old(buf)@.len() as usize },
        ) && final(buf)@ == old(buf)@,
        old(buf)@.len() >= HEADER_LEN ==> r is Ok && final(buf)@ == stamped_t1(old(buf)@, t1),
{
    if buf.len() < HEADER_LEN {
        return Err(DecodeError::TooShort { got: buf.len() });
    }
    put_be(buf, 24, 8, t1);
    seal(buf);
    Ok(())
}

/// Turn a received Request buffer into a Reply, in place.
///
/// `t3` is stamped by the caller via [`stamp_t3`] just before the send, for the
/// same reason [`stamp_t1`] exists.
pub fn make_reply_in_place(
    buf: &mut [u8],
    t2: u64,
    reflector_seq: u32,
    rx_dscp: u8,
    ttl_fwd: u8,
    ttl_rev: u8,
) -> (r: Result<(), DecodeError>)
    ensures
        old(buf)@.len() < HEADER_LEN ==> r == Err::<(), DecodeError>(
            DecodeError::TooShort { got: old(buf)@.len() as usize },
        ) && final(buf)@ == old(buf)@,
        old(buf)@.len() >= HEADER_LEN ==> r is Ok && final(buf)@ == reply_of(
            old(buf)@,
            t2,
            reflector_seq,
            rx_dscp,
            ttl_fwd,
            ttl_rev,
        ),
{
    if buf.len() < HEADER_LEN {
        return Err(DecodeError::TooShort { got: buf.len() });
    }
    put_be(buf, 3, 1, PacketType::Reply.to_u8() as u64);
    put_be(buf, 20, 4, reflector_seq as u64);
    put_be(buf, 32, 8, t2);
    put_be(buf, 49, 1, rx_dscp as u64);
    put_be(buf, 50, 1, ttl_fwd as u64);
    put_be(buf, 51, 1, ttl_rev as u64);
    Ok(())
}

/// Stamp `t3` and recompute the checksum. Call immediately before sending.
pub fn stamp_t3(buf: &mut [u8], t3: u64) -> (r: Result<(), DecodeError>)
    ensures
        old(buf)@.len() < HEADER_LEN ==> r == Err::<(), DecodeError>(
            DecodeError::TooShort { got: old(buf)@.len() as usize },
        ) && final(buf)@ == old(buf)@,
        old(buf)@.len() >= HEADER_LEN ==> r is Ok && final(buf)@ == stamped_t3(old(buf)@, t3),
{
    if buf.len() < HEADER_LEN {
        return Err(DecodeError::TooShort { got: buf.len() });
    }
    put_be(buf, 40, 8, t3);
    seal(buf);
    Ok(())
}

/// One bit of CRC-16/CCITT-FALSE: shift out the top bit and fold it back
/// through the polynomial.
pub open spec fn crc_bit(crc: u16) -> u16 {
    if crc & 0x8000 != 0 {
        (crc << 1) ^ 0x1021
    } else {
        crc << 1
    }
}

/// Eight bits of CRC-16/CCITT-FALSE, with `byte` taken in at the top.
pub open spec fn crc_byte(crc: u16, byte: u8) -> u16 {
    crc_bit(crc_bit(crc_bit(crc_bit(crc_bit(crc_bit(crc_bit(crc_bit(crc ^ ((byte as u16) << 8)))))))))
}

/// CRC-16/CCITT-FALSE of `data`: initial value 0xFFFF, no final xor.
pub open spec fn crc(data: Seq<u8>) -> u16
    decreases data.len(),
{
    if data.len() == 0 {
        0xFFFF
    } else {
        crc_byte(crc(data.drop_last()), data.last())
    }
}

/// CRC-16/CCITT-FALSE: poly 0x1021, init 0xFFFF, no reflection, no final xor.
///
/// This guards against a corrupt header being silently parsed as plausible
/// values: a truncated timestamp would otherwise show up as a wild RTT rather
/// than as a dropped packet. It is not a security mechanism.
pub fn crc16_ccitt(data: &[u8]) -> (r: u16)
    ensures
        r == crc(data@),
{
    let mut state: u16 = 0xFFFF;
    let mut i: usize = 0;
    proof {
        assert(data@.take(0) =~= Seq::empty());
    }
    while i < data.len()
        invariant
            i <= data@.len(),
            state == crc(data@.take(i as int)),
        decreases data@.len() - i,
    {
        proof {
            assert(data@.take(i + 1).drop_last() =~= data@.take(i as int));
        }
        state = crc_step(state, data[i]);
        i = i + 1;
    }
    proof {
        assert(data@.take(data@.len() as int) =~= data@);
    }
    state
}

fn crc_step(state: u16, byte: u8) -> (r: u16)
    ensures
        r == crc_byte(state, byte),
{
    let mut s: u16 = state ^ ((byte as u16) << 8);
    s = crc_shift(s);
    s = crc_shift(s);
    s = crc_shift(s);
    s = crc_shift(s);
    s = crc_shift(s);
    s = crc_shift(s);
    s = crc_shift(s);
    crc_shift(s)
}

fn crc_shift(state: u16) -> (r: u16)
    ensures
        r == crc_bit(state),
{
    if state & 0x8000 != 0 {
        (state << 1) ^ 0x1021
    } else {
        state << 1
    }
}

/// A checksum step forgets nothing of the state or of the byte: two different
/// states, or two different bytes, never meet again.
proof fn lemma_crc_byte_injective(s1: u16, s2: u16, b1: u8, b2: u8)
    ensures
        crc_byte(s1, b1) == crc_byte(s2, b1) ==> s1 == s2,
        crc_byte(s1, b1) == crc_byte(s1, b2) ==> b1 == b2,
{
    assert(crc_byte(s1, b1) == crc_byte(s2, b1) ==> s1 == s2) by (bit_vector);
    assert(crc_byte(s1, b1) == crc_byte(s1, b2) ==> b1 == b2) by (bit_vector);
}

/// Every change of a single byte changes the checksum.
pub proof fn law_checksum_detects_a_changed_byte(data: Seq<u8>, at: int, byte: u8)
    requires
        0 <= at < data.len(),
        data[at] != byte,
    ensures
        crc(data.update(at, byte)) != crc(data),
    decreases data.len(),
{
    let changed = data.update(at, byte);
    lemma_crc_byte_injective(
        crc(data.drop_last()),
        crc(changed.drop_last()),
        data.last(),
        changed.last(),
    );
    if at == data.len() - 1 {
        assert(changed.drop_last() =~= data.drop_last());
    } else {
        law_checksum_detects_a_changed_byte(data.drop_last(), at, byte);
        assert(changed.drop_last() =~= data.drop_last().update(at, byte));
    }
}

/// Decoding what was encoded gives the same header back.
pub proof fn law_decoding_inverts_encoding(b: Seq<u8>, h: Header)
    requires
        lays_out(b, h),
        b.len() == HEADER_LEN + h.payload_len,
        h.version == VERSION,
        h.flags & !flags::KNOWN == 0,
    ensures
        decoded(b) == Ok::<Header, DecodeError>(h),
{
}

/// A datagram that decodes, its reserved bytes zero as they are sent, carries
/// exactly the header it decodes to, speaks this version and sets no unknown
/// flag.
pub proof fn law_decoded_header_is_on_the_wire(b: Seq<u8>, h: Header)
    requires
        decoded(b) == Ok::<Header, DecodeError>(h),
        crate::bytes::field(b, 6, 2) == 0,
    ensures
        lays_out(b, h),
        b.len() == HEADER_LEN + h.payload_len,
        h.version == VERSION,
        h.flags & !flags::KNOWN == 0,
{
    crate::bytes::lemma_be_bounds();
    crate::bytes::lemma_field_bounds(b);
}

/// Stamping `t1` changes that field and nothing else, and the packet stays
/// valid.
pub proof fn law_stamping_t1_keeps_the_rest(b: Seq<u8>, h: Header, t1: u64)
    requires
        decoded(b) == Ok::<Header, DecodeError>(h),
    ensures
        decoded(stamped_t1(b, t1)) == Ok::<Header, DecodeError>(Header { t1, ..h }),
        stamped_t1(b, t1).skip(HEADER_LEN as int) == b.skip(HEADER_LEN as int),
{
    broadcast use {
        crate::bytes::lemma_field_own,
        crate::bytes::lemma_field_apart,
        crate::bytes::lemma_patched_apart,
        crate::bytes::lemma_be_bytes_width,
    };

    crate::bytes::lemma_be_bounds();
    assert(stamped_t1(b, t1).skip(HEADER_LEN as int) =~= b.skip(HEADER_LEN as int));
}

/// Reflecting a valid packet gives a valid reply: the reflector's fields are
/// the ones given, and every sender-side field and the payload survive.
pub proof fn law_reflection_keeps_the_senders_fields(
    b: Seq<u8>,
    h: Header,
    t2: u64,
    t3: u64,
    reflector_seq: u32,
    rx_dscp: u8,
    ttl_fwd: u8,
    ttl_rev: u8,
)
    requires
        decoded(b) == Ok::<Header, DecodeError>(h),
    ensures
        decoded(stamped_t3(reply_of(b, t2, reflector_seq, rx_dscp, ttl_fwd, ttl_rev), t3)) == Ok::<
            Header,
            DecodeError,
        >(
            Header {
                pkt_type: PacketType::Reply,
                t2,
                t3,
                reflector_seq,
                rx_dscp,
                ttl_fwd,
                ttl_rev,
                ..h
            },
        ),
        stamped_t3(reply_of(b, t2, reflector_seq, rx_dscp, ttl_fwd, ttl_rev), t3).skip(
            HEADER_LEN as int,
        ) == b.skip(HEADER_LEN as int),
{
    broadcast use {
        crate::bytes::lemma_field_own,
        crate::bytes::lemma_field_apart,
        crate::bytes::lemma_patched_apart,
        crate::bytes::lemma_be_bytes_width,
    };

    crate::bytes::lemma_be_bounds();
    assert(stamped_t3(reply_of(b, t2, reflector_seq, rx_dscp, ttl_fwd, ttl_rev), t3).skip(
        HEADER_LEN as int,
    ) =~= b.skip(HEADER_LEN as int));
}

/// No datagram decodes once a single byte of its header was changed.
pub proof fn law_a_changed_header_byte_is_rejected(b: Seq<u8>, at: int, byte: u8)
    requires
        decoded(b) is Ok,
        0 <= at < HEADER_LEN,
        b[at] != byte,
    ensures
        decoded(b.update(at, byte)) is Err,
{
    let changed = b.update(at, byte);
    let head = b.subrange(0, 54);
    if at < 54 {
        law_checksum_detects_a_changed_byte(head, at, byte);
        assert(changed.subrange(0, 54) =~= head.update(at, byte));
        assert(changed.subrange(54, 56) =~= b.subrange(54, 56));
    } else {
        assert(changed.subrange(0, 54) =~= head);
        crate::bytes::lemma_be_round_trip_bytes(b.subrange(54, 56));
        crate::bytes::lemma_be_round_trip_bytes(changed.subrange(54, 56));
        assert(b.subrange(54, 56)[at - 54] != changed.subrange(54, 56)[at - 54]);
    }
}

} // verus!
