//! What a probe measures, and whom a reflector answers.

use vstd::prelude::*;

use crate::collector::stats::Sample;
use crate::duration::{Duration, Instant};
use crate::net::IpAddr;
use crate::probe::reflector::{Judgement, Session};
use crate::probe::sender::{ProbeConfig, ProbeError};
use crate::probe::socket::RecvMeta;
use crate::probe::twamp::{TwampConfig, TwampSenderError};
use crate::proto::mqp::{DecodeError, Header, PacketType};
use crate::proto::twamp::{NtpTimestamp, ReflectorPacket, SenderPacket, TwampError};

verus! {

/// A run is refused exactly when it would send nothing, or packets that do not
/// hold a header or are longer than 1400 bytes.
pub proof fn law_which_runs_are_refused(cfg: ProbeConfig)
    ensures
        crate::probe::sender::config_error(cfg) is None <==> cfg.count >= 1 && 56
            <= cfg.payload_bytes <= 1400,
        cfg.count == 0 ==> crate::probe::sender::config_error(cfg) == Some(ProbeError::EmptyRun),
        cfg.count > 0 && !(56 <= cfg.payload_bytes <= 1400) ==> crate::probe::sender::config_error(
            cfg,
        ) == Some(ProbeError::BadPacketSize { requested: cfg.payload_bytes }),
{
}

/// The same for TWAMP, whose header is shorter.
pub proof fn law_which_twamp_runs_are_refused(cfg: TwampConfig)
    ensures
        crate::probe::twamp::config_error(cfg) is None <==> cfg.count >= 1 && 14
            <= cfg.payload_bytes <= 1400,
        cfg.count == 0 ==> crate::probe::twamp::config_error(cfg) == Some(
            TwampSenderError::EmptyRun,
        ),
        cfg.count > 0 && !(14 <= cfg.payload_bytes <= 1400) ==> crate::probe::twamp::config_error(
            cfg,
        ) == Some(TwampSenderError::BadPacketSize { requested: cfg.payload_bytes }),
{
}

/// Each packet of a run is a request in the run's session, under its own number,
/// and says which class it asks for: best effort where none is asked for. What
/// follows the header fills the packet.
pub proof fn law_what_a_request_says(cfg: ProbeConfig, seq: u32)
    requires
        crate::probe::sender::config_error(cfg) is None,
    ensures
        ({
            let h = crate::probe::sender::request_header(cfg, seq);
            &&& h.pkt_type == PacketType::Request
            &&& h.session_id == cfg.session_id
            &&& h.seq == seq
            &&& cfg.dscp is Some ==> h.tx_dscp == cfg.dscp->0
            &&& cfg.dscp is None ==> h.tx_dscp == 0
            &&& h.payload_len + 56 == cfg.payload_bytes
        }),
{
}

/// A datagram counts as a reply exactly when it comes from the peer, reads as a
/// reply in the run's session to a packet that was sent, and its round trip,
/// less what the reflector took of it, is within the time that is waited.
pub proof fn law_which_replies_count(
    datagram: Seq<u8>,
    from: IpAddr,
    t4: u64,
    cfg: ProbeConfig,
    sent_at: Seq<Option<u64>>,
    arrival_index: u32,
    h: Header,
    t1: u64,
)
    requires
        crate::proto::mqp::decoded(datagram) == Ok::<Header, DecodeError>(h),
        h.seq < sent_at.len() ==> sent_at[h.seq as int] == Some(t1),
        t1 <= t4,
        h.t2 <= h.t3,
        h.t3 - h.t2 <= t4 - t1,
    ensures
        crate::probe::sender::sample_of(
            datagram,
            from,
            t4,
            cfg,
            sent_at,
            arrival_index,
        ) is Some <==> from == cfg.peer.ip && h.pkt_type == PacketType::Reply && h.session_id
            == cfg.session_id && h.seq < sent_at.len() && (t4 - t1) - (h.t3 - h.t2)
            <= cfg.timeout.nanos,
{
}

/// What a reply tells: its packet, the reflector's counter, the round trip less
/// the reflector's own time, and the class it arrived in, where the reflector
/// saw any of it.
pub proof fn law_what_a_reply_tells(
    datagram: Seq<u8>,
    from: IpAddr,
    t4: u64,
    cfg: ProbeConfig,
    sent_at: Seq<Option<u64>>,
    arrival_index: u32,
    h: Header,
    s: Sample,
)
    requires
        crate::proto::mqp::decoded(datagram) == Ok::<Header, DecodeError>(h),
        crate::probe::sender::sample_of(datagram, from, t4, cfg, sent_at, arrival_index) == Some(s),
    ensures
        s.seq == h.seq,
        s.reflector_seq == Some(h.reflector_seq),
        s.arrival_index == arrival_index,
        h.ttl_fwd > 0 ==> s.rx_dscp == Some(h.rx_dscp),
        h.ttl_fwd == 0 ==> s.rx_dscp is None,
        s.rtt_ns <= cfg.timeout.nanos,
        s.rtt_ns <= t4 - sent_at[h.seq as int]->0,
        h.t2 <= h.t3 && h.t3 - h.t2 <= t4 - sent_at[h.seq as int]->0 ==> s.rtt_ns == (t4
            - sent_at[h.seq as int]->0) - (h.t3 - h.t2),
        cfg.dscp is Some ==> s.tx_dscp == cfg.dscp->0,
{
}

/// As many packets count as sent as have a time at which they were.
pub proof fn law_sent_packets_are_counted<T>(sent_at: Seq<Option<T>>)
    ensures
        crate::probe::sender::sent_count(sent_at) == sent_at.filter(
            |t: Option<T>| t is Some,
        ).len(),
    decreases sent_at.len(),
{
    reveal(Seq::filter);
    if sent_at.len() > 0 {
        law_sent_packets_are_counted(sent_at.drop_last());
    }
}

/// A tick is late once a whole interval has passed since its packet was due:
/// packet number `seq` is due `seq` intervals after the start.
pub proof fn law_which_ticks_are_late(start: u64, interval: Duration, seq: u32, now: u64)
    ensures
        crate::probe::sender::comes_late(start, interval, seq, now) <==> now - start - seq
            * interval.nanos > interval.nanos,
{
    assert((seq + 1) * interval.nanos == seq * interval.nanos + interval.nanos) by (nonlinear_arith);
}

/// A datagram is answered exactly when it reads as a request in a session that
/// was granted to its sender, or to any sender, and does not ask for silence.
/// One that asks for silence is counted; one that is not a request is malformed;
/// any other is refused.
pub proof fn law_whom_the_reflector_answers(
    m: Map<u64, Session>,
    datagram: Seq<u8>,
    from: IpAddr,
    h: Header,
)
    requires
        crate::proto::mqp::decoded(datagram) == Ok::<Header, DecodeError>(h),
    ensures
        ({
            let j = crate::probe::reflector::judged(m, datagram, from);
            let granted = m.dom().contains(h.session_id) && (m[h.session_id].peer.ip == from
                || m[h.session_id].peer.ip == IpAddr::V4(0) || m[h.session_id].peer.ip
                == IpAddr::V6(0));
            &&& h.pkt_type == PacketType::Reply ==> j is Malformed
            &&& h.pkt_type == PacketType::Request && !granted ==> j is Refused
            &&& h.pkt_type == PacketType::Request && granted && h.flags & 4 == 0 ==> j
                == Judgement::Answered(h)
            &&& h.pkt_type == PacketType::Request && granted && h.flags & 4 != 0 ==> j
                == Judgement::Recorded(h)
        }),
{
}

/// What cannot be read is malformed.
pub proof fn law_what_cannot_be_read_is_malformed(
    m: Map<u64, Session>,
    datagram: Seq<u8>,
    from: IpAddr,
)
    requires
        crate::proto::mqp::decoded(datagram) is Err,
    ensures
        crate::probe::reflector::judged(m, datagram, from) is Malformed,
{
}

/// When a session's state ends: `linger` after the final packet of its run, and
/// `idle` after any packet; one that was never used does not end so. A lease
/// ends at its time in any case. A standing grant stays and starts over.
pub proof fn law_when_a_session_ends(
    s: Session,
    t: Instant,
    now: Instant,
    linger: Duration,
    idle: Duration,
)
    requires
        t.nanos + linger.nanos <= u128::MAX,
        t.nanos + idle.nanos <= u128::MAX,
    ensures
        ({
            let left = crate::probe::reflector::left_of(s, now, linger, idle);
            let over = now.nanos >= t.nanos + idle.nanos || (s.finished && now.nanos >= t.nanos
                + linger.nanos);
            &&& s.until is Some && now.nanos >= s.until->0.nanos ==> left is None
            &&& s.until is None && s.active_at is None ==> left == Some(s)
            &&& s.until is None && s.active_at == Some(t) && !over ==> left == Some(s)
            &&& s.until is None && s.active_at == Some(t) && over && !s.standing ==> left is None
            &&& s.until is None && s.active_at == Some(t) && over && s.standing ==> {
                &&& left is Some
                &&& left->0.peer == s.peer
                &&& left->0.standing
                &&& left->0.reflector_seq == 0
                &&& left->0.active_at is None
                &&& !left->0.finished
            }
        }),
{
}

/// Serving a packet counts it, notes when it came and whether it was the last of
/// its run, and moves the counter of replies by one where it is answered.
pub proof fn law_what_serving_changes(s: Session, replied: bool, t2: u64, last: bool)
    ensures
        ({
            let after = crate::probe::reflector::served(s, replied, t2, last);
            &&& after.peer == s.peer
            &&& after.standing == s.standing
            &&& after.until == s.until
            &&& s.packets < u64::MAX ==> after.packets == s.packets + 1
            &&& after.active_at is Some && after.active_at->0.nanos == t2
            &&& after.finished == last
            &&& !replied ==> after.reflector_seq == s.reflector_seq
            &&& replied && s.reflector_seq < u32::MAX ==> after.reflector_seq == s.reflector_seq + 1
        }),
{
}

/// A new grant starts from nothing: no reply numbered, no packet counted, no run
/// finished. A standing one has no end; a leased one has the end it is given and
/// counts as used when it is leased.
pub proof fn law_how_a_session_starts(
    peer: crate::net::SocketAddr,
    now: Instant,
    until: Option<Instant>,
)
    ensures
        ({
            let s = crate::probe::reflector::standing(peer);
            &&& s.peer == peer && s.reflector_seq == 0 && s.packets == 0 && !s.finished
            &&& s.standing && s.until is None && s.active_at is None
        }),
        ({
            let s = crate::probe::reflector::leased(peer, now, until);
            &&& s.peer == peer && s.reflector_seq == 0 && s.packets == 0 && !s.finished
            &&& !s.standing && s.until == until && s.active_at == Some(now)
        }),
{
}

/// A TWAMP reply echoes what the sender wrote, under the reflector's own counter
/// and with the time the request came.
pub proof fn law_what_a_twamp_reply_says(
    request: SenderPacket,
    sequence: u32,
    t2: NtpTimestamp,
    meta: RecvMeta,
)
    ensures
        ({
            let p = crate::probe::twamp::reply_for(request, sequence, t2, meta);
            &&& p.sequence == sequence
            &&& p.receive_timestamp == t2
            &&& p.sender_sequence == request.sequence
            &&& p.sender_timestamp == request.timestamp
            &&& p.sender_error_estimate == request.error_estimate
            &&& meta.ttl is Some ==> p.sender_ttl == meta.ttl->0
            &&& meta.ttl is None ==> p.sender_ttl == 0
            &&& !p.error_estimate.synchronized
        }),
{
}

/// A TWAMP reply is 41 bytes at least and 1400 at most, and between these as
/// long as the request.
pub proof fn law_how_long_a_twamp_reply_is(n: nat)
    ensures
        n <= 41 ==> crate::probe::twamp::reply_len(n) == 41,
        41 <= n <= 1400 ==> crate::probe::twamp::reply_len(n) == n,
        n >= 1400 ==> crate::probe::twamp::reply_len(n) == 1400,
{
}

/// A datagram counts as a TWAMP reply exactly when it comes from the peer, reads
/// as a reply to a packet that was sent, does not run backwards, and its round
/// trip is within the time that is waited.
pub proof fn law_which_twamp_replies_count(
    datagram: Seq<u8>,
    from: IpAddr,
    t4: NtpTimestamp,
    cfg: TwampConfig,
    sent_at: Seq<Option<NtpTimestamp>>,
    arrival_index: u32,
    p: ReflectorPacket,
    t1: NtpTimestamp,
)
    requires
        crate::proto::twamp::reflector_decoded(datagram) == Ok::<ReflectorPacket, TwampError>(p),
        p.sender_sequence < sent_at.len() ==> sent_at[p.sender_sequence as int] == Some(t1),
    ensures
        ({
            let s = crate::probe::twamp::sample_of(
                datagram,
                from,
                t4,
                cfg,
                sent_at,
                arrival_index,
            );
            let rtt = crate::proto::twamp::rtt_nanos(t1, p.receive_timestamp, p.timestamp, t4);
            &&& s is Some <==> from == cfg.peer.ip && p.sender_sequence < sent_at.len()
                && rtt is Some && rtt->0 <= cfg.timeout.nanos
            &&& s is Some ==> {
                &&& s->0.seq == p.sender_sequence
                &&& rtt->0 <= u64::MAX ==> s->0.rtt_ns == rtt->0
                &&& s->0.arrival_index == arrival_index
                &&& s->0.reflector_seq is None
                &&& s->0.rx_dscp is None
            }
        }),
{
}

/// A round trip is what passed between the sender's two readings less what
/// passed between the reflector's two, in nanoseconds: where all of them are
/// whole seconds it is so many billions.
pub proof fn law_round_trips_are_differences(
    t1: NtpTimestamp,
    t2: NtpTimestamp,
    t3: NtpTimestamp,
    t4: NtpTimestamp,
)
    requires
        t1.fraction == 0,
        t2.fraction == 0,
        t3.fraction == 0,
        t4.fraction == 0,
        t1.seconds <= t4.seconds,
        t2.seconds <= t3.seconds,
        t3.seconds - t2.seconds <= t4.seconds - t1.seconds,
    ensures
        crate::proto::twamp::rtt_nanos(t1, t2, t3, t4) == Some(
            (((t4.seconds - t1.seconds) - (t3.seconds - t2.seconds)) * 1_000_000_000) as nat,
        ),
{
    let a = t4.seconds - t1.seconds;
    let b = t3.seconds - t2.seconds;
    assert(t4.units() - t1.units() == a * 0x1_0000_0000);
    assert(t3.units() - t2.units() == b * 0x1_0000_0000);
    assert(a * 0x1_0000_0000 * 1_000_000_000 / 0x1_0000_0000 == a * 1_000_000_000);
    assert(b * 0x1_0000_0000 * 1_000_000_000 / 0x1_0000_0000 == b * 1_000_000_000);
}

/// A request that is answered is answered in the class it arrived in, and the
/// reply, once it is stamped, reads as the request with the reflector's own
/// counter, times, and what it saw of the request; the session has one packet
/// and one reply more. What is not answered is left as it is, and counted where
/// it is refused or malformed.
pub proof fn law_what_the_reflector_answers_with(
    m: Map<u64, Session>,
    buf: Seq<u8>,
    stats: crate::probe::reflector::ReflectorStats,
    n: int,
    from: IpAddr,
    meta: RecvMeta,
    t2: u64,
    t3: u64,
    r: Option<u8>,
    m_after: Map<u64, Session>,
    buf_after: Seq<u8>,
    stats_after: crate::probe::reflector::ReflectorStats,
    h: Header,
)
    requires
        crate::probe::reflector::reflects(
            m,
            buf,
            stats,
            n,
            from,
            meta,
            t2,
            r,
            m_after,
            buf_after,
            stats_after,
        ),
        0 <= n <= buf.len(),
        crate::proto::mqp::decoded(buf.take(n)) == Ok::<Header, DecodeError>(h),
    ensures
        ({
            let granted = m.dom().contains(h.session_id) && (m[h.session_id].peer.ip == from
                || m[h.session_id].peer.ip == IpAddr::V4(0) || m[h.session_id].peer.ip
                == IpAddr::V6(0));
            let wanted = h.pkt_type == PacketType::Request && granted && h.flags & 4 == 0;
            &&& r is Some <==> wanted
            &&& !wanted ==> buf_after == buf
            &&& wanted ==> {
                &&& meta.dscp is Some ==> r->0 == meta.dscp->0
                &&& meta.dscp is None ==> r->0 == 0
                &&& m_after[h.session_id].packets >= m[h.session_id].packets
                &&& m[h.session_id].reflector_seq < u32::MAX
                    ==> m_after[h.session_id].reflector_seq == m[h.session_id].reflector_seq + 1
                &&& stats_after == stats
                &&& crate::proto::mqp::decoded(
                    crate::proto::mqp::stamped_t3(buf_after, t3).take(n),
                ) matches Ok(p) && p.pkt_type == PacketType::Reply && p.session_id == h.session_id
                    && p.seq == h.seq && p.t1 == h.t1 && p.t2 == t2 && p.t3 == t3
                    && p.reflector_seq == m[h.session_id].reflector_seq && p.tx_dscp == h.tx_dscp
                    && p.rx_dscp == r->0 && (meta.ttl is Some ==> p.ttl_fwd == meta.ttl->0)
            }
            &&& h.pkt_type == PacketType::Request && !granted && stats.unknown_session < u64::MAX
                ==> stats_after.unknown_session == stats.unknown_session + 1 && m_after == m
            &&& h.pkt_type == PacketType::Reply && stats.malformed < u64::MAX
                ==> stats_after.malformed == stats.malformed + 1 && m_after == m
        }),
{
    law_whom_the_reflector_answers(m, buf.take(n), from, h);
    if h.pkt_type == PacketType::Request && m.dom().contains(h.session_id) {
        crate::probe::reflector::law_a_reply_carries_the_request(
            buf,
            n,
            h,
            t2,
            t3,
            m[h.session_id].reflector_seq,
            meta,
        );
    }
}

/// The counter of a TWAMP reflector moves by one and starts over after its top;
/// a peer claims to be synchronised when a datagram of its own says so.
pub proof fn law_twamp_counters_and_claims(
    sequence: u32,
    datagram: Seq<u8>,
    from: IpAddr,
    cfg: TwampConfig,
    p: ReflectorPacket,
)
    requires
        crate::proto::twamp::reflector_decoded(datagram) == Ok::<ReflectorPacket, TwampError>(p),
    ensures
        crate::probe::twamp::following(sequence) == (sequence + 1) % 0x1_0000_0000,
        crate::probe::twamp::claims_sync(datagram, from, cfg) <==> from == cfg.peer.ip
            && p.error_estimate.synchronized,
{
}

} // verus!
