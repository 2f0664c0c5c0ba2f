//! What a datagram arrives with beyond its payload: the DSCP and the TTL, as
//! the kernel's control messages carry them.
//!
//! Verifying that QoS marking survives a path is one of this agent's headline
//! jobs, so what the control messages say is worth the plumbing.

use vstd::prelude::*;

use crate::net::{IpAddr, SocketAddr};

verus! {

/// What a datagram arrived with, beyond its payload.
#[derive(Debug, Clone, Copy, PartialEq, Eq, Default, Structural)]
pub struct RecvMeta {
    /// DSCP extracted from the received TOS byte (its upper 6 bits).
    /// `None` when the kernel supplied no TOS control message.
    pub dscp: Option<u8>,
    /// IP TTL / IPv6 hop limit on arrival. Subtracting from the sender's
    /// initial TTL gives the forward hop count.
    pub ttl: Option<u8>,
}

/// A control message of the kernel. Linux delivers the TOS as a single byte,
/// the other three as an `int`.
#[derive(Debug, Clone, Copy, PartialEq, Eq, Structural)]
pub enum ControlMessage {
    Tos(u8),
    Ttl(i32),
    TrafficClass(i32),
    HopLimit(i32),
}

/// The low byte of an `int`.
pub open spec fn low_byte(v: i32) -> u8 {
    (v as int % 256) as u8
}

/// `m` with what `c` says of it.
pub open spec fn noted(m: RecvMeta, c: ControlMessage) -> RecvMeta {
    match c {
        ControlMessage::Tos(b) => RecvMeta { dscp: Some((b as int / 4) as u8), ..m },
        ControlMessage::Ttl(v) => RecvMeta { ttl: Some(low_byte(v)), ..m },
        ControlMessage::TrafficClass(v) => RecvMeta {
            dscp: Some((low_byte(v) as int / 4) as u8),
            ..m
        },
        ControlMessage::HopLimit(v) => RecvMeta { ttl: Some(low_byte(v)), ..m },
    }
}

fn low(v: i32) -> (r: u8)
    ensures
        r == low_byte(v),
{
    let wide: i64 = v as i64 + 0x1_0000_0000;
    (wide % 256) as u8
}

impl RecvMeta {
    /// Take in one control message.
    pub fn note(&mut self, c: ControlMessage)
        ensures
            *final(self) == noted(*old(self), c),
    {
        match c {
            ControlMessage::Tos(b) => {
                self.dscp = Some(b / 4);
            },
            ControlMessage::Ttl(v) => {
                self.ttl = Some(low(v));
            },
            ControlMessage::TrafficClass(v) => {
                self.dscp = Some(low(v) / 4);
            },
            ControlMessage::HopLimit(v) => {
                self.ttl = Some(low(v));
            },
        }
    }
}

/// The TOS byte that marks packets with `dscp`.
pub open spec fn marked(dscp: u8) -> u8 {
    (dscp as int % 64 * 4) as u8
}

/// The TOS byte that marks packets with `dscp`.
///
/// DSCP occupies the upper 6 bits of the 8-bit TOS field. Passing 46 (EF)
/// unshifted would set TOS 46, which is DSCP 11: a silent, plausible-looking
/// mismarking.
pub fn tos_byte(dscp: u8) -> (r: u8)
    ensures
        r == dscp as int % 64 * 4,
        r == marked(dscp),
{
    dscp % 64 * 4
}

/// The address that stands for any of the family of `peer`.
pub open spec fn any_like(peer: IpAddr) -> IpAddr {
    match peer {
        IpAddr::V4(_) => IpAddr::V4(0),
        IpAddr::V6(_) => IpAddr::V6(0),
    }
}

/// The local address to bind before talking to `peer`: any, of its family, on a
/// port that the kernel picks.
pub fn any_address_for(peer: SocketAddr) -> (r: SocketAddr)
    ensures
        r.port == 0,
        r.scope_id == 0,
        r.ip == (match peer.ip {
            IpAddr::V4(_) => IpAddr::V4(0),
            IpAddr::V6(_) => IpAddr::V6(0),
        }),
        r.ip == any_like(peer.ip),
{
    match peer.ip {
        IpAddr::V4(_) => SocketAddr::new(IpAddr::V4(0), 0),
        IpAddr::V6(_) => SocketAddr::new(IpAddr::V6(0), 0),
    }
}

/// A DSCP that fits its six bits is the one that the far end reads from the TOS
/// byte it was sent in.
pub proof fn law_marking_survives_the_tos_byte(dscp: u8, m: RecvMeta)
    requires
        dscp < 64,
    ensures
        noted(m, ControlMessage::Tos((dscp as int % 64 * 4) as u8)).dscp == Some(dscp),
        noted(m, ControlMessage::TrafficClass((dscp as int % 64 * 4) as i32)).dscp == Some(dscp),
{
}

/// Whatever the control messages say, a DSCP that is read fits its six bits.
pub proof fn law_read_code_points_fit(m: RecvMeta, c: ControlMessage)
    requires
        m.dscp matches Some(d) ==> d < 64,
    ensures
        noted(m, c).dscp matches Some(d) ==> d < 64,
{
}

/// A packet that is marked with a class arrives, where nothing on the way
/// changes it, in that class; the byte for it leaves the two low bits alone.
pub proof fn law_marked_packets_arrive_in_their_class(dscp: u8, m: RecvMeta)
    requires
        dscp < 64,
    ensures
        noted(m, ControlMessage::Tos(marked(dscp))).dscp == Some(dscp),
        noted(m, ControlMessage::TrafficClass(marked(dscp) as i32)).dscp == Some(dscp),
        marked(dscp) == 4 * dscp,
{
}

/// What arrives with a packet is taken from the message that tells it, and
/// leaves the rest as it was.
pub proof fn law_what_control_messages_tell(m: RecvMeta, v: u8)
    ensures
        noted(m, ControlMessage::Ttl(v as i32)).ttl == Some(v),
        noted(m, ControlMessage::Ttl(v as i32)).dscp == m.dscp,
        noted(m, ControlMessage::HopLimit(v as i32)).ttl == Some(v),
        noted(m, ControlMessage::HopLimit(v as i32)).dscp == m.dscp,
        noted(m, ControlMessage::Tos(v)).ttl == m.ttl,
        noted(m, ControlMessage::Tos(v)).dscp == Some((v / 4) as u8),
        noted(m, ControlMessage::TrafficClass(v as i32)).ttl == m.ttl,
        noted(m, ControlMessage::TrafficClass(v as i32)).dscp == Some((v / 4) as u8),
{
}

/// The address to bind is of the family of the peer, and any of it.
pub proof fn law_the_local_address_is_of_the_peers_family(peer: IpAddr)
    ensures
        peer is V4 ==> any_like(peer) == IpAddr::V4(0),
        peer is V6 ==> any_like(peer) == IpAddr::V6(0),
{
}

} // verus!
