//! The reflector: which datagrams are answered, and with what.
//!
//! It never initiates anything and holds only a small counter per session, so a
//! single armv7 device can reflect for many peers at once. Admission control is
//! the `session_id` the controller granted.

use std::collections::HashMap;

use vstd::prelude::*;

use crate::duration::{Duration, Instant};
use crate::net::{IpAddr, SocketAddr};
use crate::probe::socket::RecvMeta;
use crate::proto::mqp;
use crate::proto::mqp::{DecodeError, Header, PacketType};

verus! {

broadcast use vstd::std_specs::hash::group_hash_axioms;

/// TTL we set on replies. Fixed so the sender can derive the reverse hop count
/// by subtraction.
pub const REPLY_TTL: u8 = 64;

/// How long a session's state outlives its final packet, in seconds: as long as
/// a sender waits for stragglers.
pub const LINGER_SECS: u64 = 2;

/// How long a session's state outlives any other packet, in seconds. Well past
/// the gap between two packets of a run.
pub const IDLE_SECS: u64 = 300;

/// Per-session state. Deliberately tiny: this is multiplied by every concurrent
/// session the device is serving.
#[derive(Debug, Clone, Copy, PartialEq, Eq, Structural)]
pub struct Session {
    /// Increments once per reply generated. The sender uses gaps in this to
    /// tell reverse-path loss from forward-path loss.
    pub reflector_seq: u32,
    /// Only this peer may use this session ID. An unspecified address
    /// (`0.0.0.0` / `::`) is a wildcard.
    pub peer: SocketAddr,
    pub packets: u64,
    /// When its latest packet came, or its lease began; nothing for one that
    /// is not in use.
    pub active_at: Option<Instant>,
    /// Its latest packet was the final one of a run.
    pub finished: bool,
    /// Granted until it is revoked: only its state retires, not the grant.
    pub standing: bool,
    /// When its lease ends, where it has an end.
    pub until: Option<Instant>,
}

/// A session that was granted until it is revoked.
pub open spec fn standing(peer: SocketAddr) -> Session {
    Session {
        reflector_seq: 0,
        peer,
        packets: 0,
        active_at: None,
        finished: false,
        standing: true,
        until: None,
    }
}

/// A session that was leased at `now`.
pub open spec fn leased(peer: SocketAddr, now: Instant, until: Option<Instant>) -> Session {
    Session {
        reflector_seq: 0,
        peer,
        packets: 0,
        active_at: Some(now),
        finished: false,
        standing: false,
        until,
    }
}

/// The state of a session is over at `now`: `linger` after the final packet of
/// a run, or `idle` after any other.
pub open spec fn is_over(s: Session, now: Instant, linger: Duration, idle: Duration) -> bool {
    match s.active_at {
        None => false,
        Some(t) => {
            ||| s.finished && crate::duration::moved(t, linger).nanos <= now.nanos
            ||| crate::duration::moved(t, idle).nanos <= now.nanos
        },
    }
}

/// What is left of a session at `now`. Nothing is once its lease has ended.
/// Otherwise one whose state is over goes, unless it stands until it is
/// revoked: that one stays granted and numbers its replies from zero again, as
/// its next run expects. A standing grant must not depend on being renewed, or
/// a controller outage would look like a network fault between agents.
pub open spec fn left_of(s: Session, now: Instant, linger: Duration, idle: Duration) -> Option<
    Session,
> {
    if s.until is Some && s.until->0.nanos <= now.nanos {
        None
    } else if !is_over(s, now, linger, idle) {
        Some(s)
    } else if s.standing {
        Some(Session { reflector_seq: 0, active_at: None, finished: false, ..s })
    } else {
        None
    }
}

/// The grants that are left at `now`.
pub open spec fn retired(
    m: Map<u64, Session>,
    now: Instant,
    linger: Duration,
    idle: Duration,
) -> Map<u64, Session> {
    Map::new(
        |id: u64| m.dom().contains(id) && left_of(m[id], now, linger, idle) is Some,
        |id: u64| left_of(m[id], now, linger, idle)->0,
    )
}

/// Whether a packet from `from` may use a session granted to `peer`.
///
/// Matching is on address only, never port: the sender's source port is
/// ephemeral and the controller cannot know it when it issues the grant.
///
/// An unspecified address means any source. The controller always names a real
/// peer, so this only applies to the standalone `reflect` mode, where the
/// sender's address is not known up front. The session ID remains required
/// either way.
pub open spec fn accepted_from(peer: IpAddr, from: IpAddr) -> bool {
    peer == IpAddr::V4(0) || peer == IpAddr::V6(0) || peer == from
}

impl Session {
    pub fn accepts(&self, from: SocketAddr) -> (r: bool)
        ensures
            r == accepted_from(self.peer.ip, from.ip),
    {
        self.peer.ip == IpAddr::V4(0) || self.peer.ip == IpAddr::V6(0) || self.peer.ip == from.ip
    }

    fn leave(&self, now: Instant, linger: Duration, idle: Duration) -> (r: Option<Session>)
        ensures
            r == left_of(*self, now, linger, idle),
    {
        if let Some(end) = self.until {
            if end.nanos <= now.nanos {
                return None;
            }
        }
        let over: bool = match self.active_at {
            None => false,
            Some(t) => (self.finished && t.after(linger).nanos <= now.nanos) || t.after(idle).nanos
                <= now.nanos,
        };
        if !over {
            Some(*self)
        } else if self.standing {
            Some(Session { reflector_seq: 0, active_at: None, finished: false, ..*self })
        } else {
            None
        }
    }
}

/// A counter one further on; it stays at its top once it gets there.
pub open spec fn up(c: u64) -> u64 {
    if c < u64::MAX {
        (c + 1) as u64
    } else {
        u64::MAX
    }
}

/// A session after one more packet at `t2`, its run's final one where `last`,
/// and one more reply where `replied`.
pub open spec fn served(s: Session, replied: bool, t2: u64, last: bool) -> Session {
    Session {
        reflector_seq: if !replied {
            s.reflector_seq
        } else if s.reflector_seq < u32::MAX {
            (s.reflector_seq + 1) as u32
        } else {
            0
        },
        packets: up(s.packets),
        active_at: Some(Instant { nanos: t2 as u128 }),
        finished: last,
        ..s
    }
}

/// A packet says that it is the final one of its run.
pub open spec fn is_last(h: Header) -> bool {
    h.flags & mqp::flags::LAST_PACKET != 0
}

/// Grants issued by the controller, keyed by session ID.
pub struct Registry {
    sessions: HashMap<u64, Session>,
}

/// Grants of which the first `n` of `ids` were retired.
pub open spec fn partly_retired(
    m: Map<u64, Session>,
    ids: Seq<u64>,
    n: int,
    now: Instant,
    linger: Duration,
    idle: Duration,
) -> Map<u64, Session> {
    Map::new(
        |id: u64|
            m.dom().contains(id) && (ids.take(n).contains(id) ==> left_of(
                m[id],
                now,
                linger,
                idle,
            ) is Some),
        |id: u64|
            if ids.take(n).contains(id) {
                left_of(m[id], now, linger, idle)->0
            } else {
                m[id]
            },
    )
}

impl View for Registry {
    type V = Map<u64, Session>;

    closed spec fn view(&self) -> Map<u64, Session> {
        self.sessions@
    }
}

impl Registry {
    pub fn new() -> (r: Registry)
        ensures
            r@ == Map::<u64, Session>::empty(),
    {
        Registry { sessions: HashMap::new() }
    }

    /// Authorise a session ID from a given peer until it is revoked.
    pub fn grant(&mut self, session_id: u64, peer: SocketAddr)
        ensures
            final(self)@ == old(self)@.insert(session_id, standing(peer)),
    {
        self.sessions.insert(
            session_id,
            Session {
                reflector_seq: 0,
                peer,
                packets: 0,
                active_at: None,
                finished: false,
                standing: true,
                until: None,
            },
        );
    }

    /// Authorise a session ID from a given peer for a single run, until its
    /// lease ends.
    pub fn lease(&mut self, session_id: u64, peer: SocketAddr, now: Instant, until: Option<Instant>)
        ensures
            final(self)@ == old(self)@.insert(session_id, leased(peer, now, until)),
    {
        self.sessions.insert(
            session_id,
            Session {
                reflector_seq: 0,
                peer,
                packets: 0,
                active_at: Some(now),
                finished: false,
                standing: false,
                until,
            },
        );
    }

    /// Drop the sessions whose lease or run is over at `now`, and begin the
    /// standing ones anew. `now` is on the clock that packets are stamped with.
    pub fn retire(&mut self, now: Instant, linger: Duration, idle: Duration)
        ensures
            final(self)@ == retired(old(self)@, now, linger, idle),
    {
        let ids = self.ids();
        let ghost all = self@;
        let mut i: usize = 0;
        proof {
            assert(self@ =~= partly_retired(all, ids@, 0, now, linger, idle));
        }
        while i < ids.len()
            invariant
                i <= ids@.len(),
                ids@.no_duplicates(),
                ids@.to_set() == all.dom(),
                self@ == partly_retired(all, ids@, i as int, now, linger, idle),
            decreases ids@.len() - i,
        {
            let id: u64 = ids[i];
            proof {
                assert(ids@.to_set().contains(id));
                assert(!ids@.take(i as int).contains(id)) by {
                    if ids@.take(i as int).contains(id) {
                        let k = choose|k: int| 0 <= k < i && ids@.take(i as int)[k] == id;
                        assert(ids@[k] == ids@[i as int]);
                    }
                }
                assert(ids@.take(i + 1) =~= ids@.take(i as int).push(id));
                assert forall|x: u64| #[trigger]
                    ids@.take(i + 1).contains(x) == (ids@.take(i as int).contains(x) || x == id) by {
                    let a = ids@.take(i as int);
                    let b = ids@.take(i + 1);
                    if a.contains(x) {
                        let k = choose|k: int| 0 <= k < a.len() && a[k] == x;
                        assert(b[k] == x);
                    }
                    if x == id {
                        assert(b[i as int] == x);
                    }
                }
            }
            if let Some(s) = self.session(id) {
                match s.leave(now, linger, idle) {
                    Some(t) => self.update(id, t),
                    None => {
                        let _ = self.sessions.remove(&id);
                    },
                }
            }
            proof {
                assert(self@ =~= partly_retired(all, ids@, i + 1, now, linger, idle));
            }
            i = i + 1;
        }
        proof {
            assert(ids@.take(i as int) =~= ids@);
            assert forall|x: u64| all.dom().contains(x) implies ids@.contains(x) by {
                assert(ids@.to_set().contains(x));
            }
            assert(self@ =~= retired(all, now, linger, idle));
        }
    }

    /// The sessions that were granted, in no particular order.
    fn ids(&self) -> (r: Vec<u64>)
        ensures
            r@.no_duplicates(),
            r@.to_set() == self@.dom(),
    {
        let mut out: Vec<u64> = Vec::new();
        let ghost all = vstd::std_specs::hash::into_iter_keys(
            vstd::std_specs::hash::spec_keys_iter(&self.sessions),
        );
        for k in it: self.sessions.keys()
            invariant
                it.seq().unref() == all,
                all.to_set() == self@.dom(),
                out@ == all.take(it.index() as int),
        {
            out.push(*k);
        }
        proof {
            assert(out@ =~= all);
        }
        out
    }

    /// Revoke a session and report how many packets it reflected.
    pub fn revoke(&mut self, session_id: u64) -> (r: Option<u64>)
        ensures
            final(self)@ == old(self)@.remove(session_id),
            r == (if old(self)@.dom().contains(session_id) {
                Some(old(self)@[session_id].packets)
            } else {
                None
            }),
    {
        match self.sessions.remove(&session_id) {
            Some(s) => Some(s.packets),
            None => None,
        }
    }

    pub fn active_count(&self) -> (r: usize)
        ensures
            r == self@.len(),
    {
        self.sessions.len()
    }

    /// The state of a session that was granted.
    pub fn session(&self, session_id: u64) -> (r: Option<Session>)
        ensures
            match r {
                Some(s) => self@.dom().contains(session_id) && s == self@[session_id],
                None => !self@.dom().contains(session_id),
            },
    {
        match self.sessions.get(&session_id) {
            Some(s) => Some(*s),
            None => None,
        }
    }

    fn update(&mut self, session_id: u64, s: Session)
        ensures
            final(self)@ == old(self)@.insert(session_id, s),
    {
        self.sessions.insert(session_id, s);
    }
}

impl Default for Registry {
    fn default() -> (r: Registry)
        ensures
            r@ == Map::<u64, Session>::empty(),
    {
        Registry::new()
    }
}

/// Counters for the agent's own health reporting. A reflector that is quietly
/// dropping everything should be visible as such, not look idle.
#[derive(Debug, Default, Clone, Copy, PartialEq, Eq, Structural)]
pub struct ReflectorStats {
    pub reflected: u64,
    pub unknown_session: u64,
    pub wrong_peer: u64,
    pub malformed: u64,
    pub send_errors: u64,
}

/// What a datagram is to the reflector.
pub enum Judgement {
    /// Not a request that can be read. A reply arriving here means a
    /// misconfiguration, or a loop, and must not be reflected again.
    Malformed,
    /// No session that its sender may use.
    Refused,
    /// Counted, but its sender wants no reply.
    Recorded(Header),
    Answered(Header),
}

pub open spec fn judged(m: Map<u64, Session>, datagram: Seq<u8>, from: IpAddr) -> Judgement {
    match mqp::decoded(datagram) {
        Err(_) => Judgement::Malformed,
        Ok(h) => if h.pkt_type != PacketType::Request {
            Judgement::Malformed
        } else if !(m.dom().contains(h.session_id) && accepted_from(m[h.session_id].peer.ip, from)) {
            Judgement::Refused
        } else if h.flags & mqp::flags::NO_REFLECT != 0 {
            Judgement::Recorded(h)
        } else {
            Judgement::Answered(h)
        },
    }
}

/// The value that was observed, or zero where nothing was.
pub open spec fn observed(v: Option<u8>) -> u8 {
    match v {
        Some(b) => b,
        None => 0,
    }
}

fn or_zero(v: Option<u8>) -> (r: u8)
    ensures
        r == observed(v),
{
    match v {
        Some(b) => b,
        None => 0,
    }
}

/// What the reflector makes of a datagram in the first `n` bytes of a buffer:
/// the class to answer in, if it answers, and what becomes of the buffer, the
/// grants and the counters.
pub open spec fn reflects(
    m: Map<u64, Session>,
    buf: Seq<u8>,
    stats: ReflectorStats,
    n: int,
    from: IpAddr,
    meta: RecvMeta,
    t2: u64,
    r: Option<u8>,
    m_after: Map<u64, Session>,
    buf_after: Seq<u8>,
    stats_after: ReflectorStats,
) -> bool {
    match judged(m, buf.take(n), from) {
        Judgement::Malformed => {
            &&& r is None && buf_after == buf && m_after == m
            &&& stats_after == (ReflectorStats { malformed: up(stats.malformed), ..stats })
        },
        Judgement::Refused => {
            &&& r is None && buf_after == buf && m_after == m
            &&& stats_after == (ReflectorStats {
                unknown_session: up(stats.unknown_session),
                ..stats
            })
        },
        Judgement::Recorded(h) => {
            &&& r is None && buf_after == buf && stats_after == stats
            &&& m_after == m.insert(
                h.session_id,
                served(m[h.session_id], false, t2, is_last(h)),
            )
        },
        Judgement::Answered(h) => {
            &&& r == Some(observed(meta.dscp)) && stats_after == stats
            &&& buf_after == mqp::reply_of(
                buf,
                t2,
                m[h.session_id].reflector_seq,
                observed(meta.dscp),
                observed(meta.ttl),
                REPLY_TTL,
            )
            &&& m_after == m.insert(h.session_id, served(m[h.session_id], true, t2, is_last(h)))
        },
    }
}

/// The reflector's own state, apart from its socket and the grants.
#[derive(Debug, Clone, Copy, PartialEq, Eq, Structural)]
pub struct Reflector {
    pub stats: ReflectorStats,
}

impl Reflector {
    pub fn new() -> (r: Reflector)
        ensures
            r.stats == (ReflectorStats {
                reflected: 0,
                unknown_session: 0,
                wrong_peer: 0,
                malformed: 0,
                send_errors: 0,
            }),
    {
        Reflector {
            stats: ReflectorStats {
                reflected: 0,
                unknown_session: 0,
                wrong_peer: 0,
                malformed: 0,
                send_errors: 0,
            },
        }
    }

    pub fn stats(&self) -> (r: ReflectorStats)
        ensures
            r == self.stats,
    {
        self.stats
    }

    /// Judge the datagram in the first `n` bytes of `buf`, which arrived from
    /// `peer` at `t2`. Where it is to be answered, the reply stands in the same
    /// bytes afterwards but for its departure, and the DSCP to mark it with is
    /// returned: the one that arrived, so the return path is measured in the
    /// same traffic class. Anything else is met with silence: a reply would
    /// confirm to a scanner that this port is live.
    pub fn receive(
        &mut self,
        registry: &mut Registry,
        buf: &mut [u8],
        n: usize,
        peer: SocketAddr,
        meta: RecvMeta,
        t2: u64,
    ) -> (r: Option<u8>)
        requires
            n <= old(buf)@.len(),
        ensures
            match judged(old(registry)@, old(buf)@.take(n as int), peer.ip) {
                Judgement::Malformed => {
                    &&& r is None
                    &&& final(buf)@ == old(buf)@
                    &&& final(registry)@ == old(registry)@
                    &&& final(self).stats == (ReflectorStats {
                        malformed: up(old(self).stats.malformed),
                        ..old(self).stats
                    })
                },
                Judgement::Refused => {
                    &&& r is None
                    &&& final(buf)@ == old(buf)@
                    &&& final(registry)@ == old(registry)@
                    &&& final(self).stats == (ReflectorStats {
                        unknown_session: up(old(self).stats.unknown_session),
                        ..old(self).stats
                    })
                },
                Judgement::Recorded(h) => {
                    &&& r is None
                    &&& final(buf)@ == old(buf)@
                    &&& final(registry)@ == old(registry)@.insert(
                        h.session_id,
                        served(old(registry)@[h.session_id], false, t2, is_last(h)),
                    )
                    &&& final(self).stats == old(self).stats
                },
                Judgement::Answered(h) => {
                    &&& r == Some(observed(meta.dscp))
                    &&& final(buf)@ == mqp::reply_of(
                        old(buf)@,
                        t2,
                        old(registry)@[h.session_id].reflector_seq,
                        observed(meta.dscp),
                        observed(meta.ttl),
                        REPLY_TTL,
                    )
                    &&& final(registry)@ == old(registry)@.insert(
                        h.session_id,
                        served(old(registry)@[h.session_id], true, t2, is_last(h)),
                    )
                    &&& final(self).stats == old(self).stats
                },
            },
            reflects(
                old(registry)@,
                old(buf)@,
                old(self).stats,
                n as int,
                peer.ip,
                meta,
                t2,
                r,
                final(registry)@,
                final(buf)@,
                final(self).stats,
            ),
    {
        let ghost datagram = buf@.take(n as int);
        let decoded = {
            let view = vstd::slice::slice_subrange(&*buf, 0, n);
            proof {
                assert(view@ =~= datagram);
            }
            Header::decode(view)
        };
        let header = match decoded {
            Ok(h) => h,
            Err(_) => {
                self.stats.malformed = self.stats.malformed.saturating_add(1);
                return None;
            },
        };
        if header.pkt_type != PacketType::Request {
            self.stats.malformed = self.stats.malformed.saturating_add(1);
            return None;
        }
        let mut s = match registry.session(header.session_id) {
            Some(s) => s,
            None => {
                self.stats.unknown_session = self.stats.unknown_session.saturating_add(1);
                return None;
            },
        };
        if !s.accepts(peer) {
            self.stats.unknown_session = self.stats.unknown_session.saturating_add(1);
            return None;
        }
        let seq: u32 = s.reflector_seq;
        s.packets = s.packets.saturating_add(1);
        s.active_at = Some(Instant { nanos: t2 as u128 });
        s.finished = header.has_flag(mqp::flags::LAST_PACKET);
        if header.has_flag(mqp::flags::NO_REFLECT) {
            registry.update(header.session_id, s);
            return None;
        }
        s.reflector_seq = s.reflector_seq.wrapping_add(1);
        registry.update(header.session_id, s);
        let dscp: u8 = or_zero(meta.dscp);
        proof {
            assert(datagram.len() >= mqp::HEADER_LEN);
        }
        let _ = mqp::make_reply_in_place(buf, t2, seq, dscp, or_zero(meta.ttl), REPLY_TTL);
        Some(dscp)
    }

    /// Stamp the departure, as late as possible: everything between here and
    /// the system call would otherwise be charged to the network. The sender
    /// takes `t3 - t2` out of its measurement, so this window is exactly what
    /// is excluded. Says whether there is anything to send.
    pub fn depart(&mut self, buf: &mut [u8], t3: u64) -> (r: bool)
        ensures
            r == (old(buf)@.len() >= mqp::HEADER_LEN),
            r ==> final(buf)@ == mqp::stamped_t3(old(buf)@, t3) && *final(self) == *old(self),
            !r ==> final(buf)@ == old(buf)@ && final(self).stats == (ReflectorStats {
                malformed: up(old(self).stats.malformed),
                ..old(self).stats
            }),
    {
        if mqp::stamp_t3(buf, t3).is_err() {
            self.stats.malformed = self.stats.malformed.saturating_add(1);
            return false;
        }
        true
    }

    /// Count a reply that went out, or could not.
    pub fn sent(&mut self, ok: bool)
        ensures
            final(self).stats == (if ok {
                ReflectorStats { reflected: up(old(self).stats.reflected), ..old(self).stats }
            } else {
                ReflectorStats { send_errors: up(old(self).stats.send_errors), ..old(self).stats }
            }),
    {
        if ok {
            self.stats.reflected = self.stats.reflected.saturating_add(1);
        } else {
            self.stats.send_errors = self.stats.send_errors.saturating_add(1);
        }
    }
}

/// Only a request for a session that was granted to its sender, or to anyone,
/// is answered or even counted.
pub proof fn law_only_granted_sessions_are_served(
    m: Map<u64, Session>,
    datagram: Seq<u8>,
    from: IpAddr,
)
    ensures
        judged(m, datagram, from) matches Judgement::Answered(h) ==> m.dom().contains(h.session_id)
            && accepted_from(m[h.session_id].peer.ip, from) && h.pkt_type == PacketType::Request,
        judged(m, datagram, from) matches Judgement::Recorded(h) ==> m.dom().contains(h.session_id)
            && accepted_from(m[h.session_id].peer.ip, from) && h.pkt_type == PacketType::Request,
{
}

/// A session that was revoked is no longer reflected, for anyone.
pub proof fn law_revoked_sessions_fall_silent(
    m: Map<u64, Session>,
    session_id: u64,
    datagram: Seq<u8>,
    from: IpAddr,
    h: Header,
)
    requires
        mqp::decoded(datagram) == Ok::<Header, DecodeError>(h),
        h.session_id == session_id,
    ensures
        judged(m.remove(session_id), datagram, from) is Malformed || judged(
            m.remove(session_id),
            datagram,
            from,
        ) is Refused,
{
}

/// The counter of a session advances once per reply, from zero at the grant,
/// and serving one session leaves every other as it was.
pub proof fn law_the_counter_counts_replies(
    m: Map<u64, Session>,
    id: u64,
    other: u64,
    replied: bool,
    t2: u64,
    last: bool,
)
    requires
        m.dom().contains(id),
        other != id,
    ensures
        m.insert(id, served(m[id], replied, t2, last))[id].reflector_seq == (if replied {
            (m[id].reflector_seq + 1) % 0x1_0000_0000
        } else {
            m[id].reflector_seq as int
        }),
        m.dom().contains(other) ==> m.insert(id, served(m[id], replied, t2, last))[other]
            == m[other],
        m.insert(id, served(m[id], replied, t2, last)).dom() == m.dom(),
{
    assert(m.insert(id, served(m[id], replied, t2, last)).dom() =~= m.dom());
}

/// A leased session retires: once its lease has ended, or its run is over, it is
/// answered no more, for anyone. Its final packet is what ends a run, `linger`
/// later; otherwise silence does, `idle` after the latest packet.
pub proof fn law_a_leased_session_retires(
    m: Map<u64, Session>,
    id: u64,
    now: Instant,
    linger: Duration,
    idle: Duration,
    datagram: Seq<u8>,
    from: IpAddr,
    h: Header,
)
    requires
        m.dom().contains(id),
        (m[id].until is Some && m[id].until->0.nanos <= now.nanos) || (!m[id].standing && is_over(
            m[id],
            now,
            linger,
            idle,
        )),
        mqp::decoded(datagram) == Ok::<Header, DecodeError>(h),
        h.session_id == id,
    ensures
        !retired(m, now, linger, idle).dom().contains(id),
        judged(retired(m, now, linger, idle), datagram, from) is Malformed || judged(
            retired(m, now, linger, idle),
            datagram,
            from,
        ) is Refused,
{
}

/// A standing grant is never lost for want of renewal: it stays with its peer
/// and its packet count, and a run that begins after the last one is over has
/// its replies numbered from zero.
pub proof fn law_a_standing_grant_outlives_its_runs(
    m: Map<u64, Session>,
    id: u64,
    now: Instant,
    linger: Duration,
    idle: Duration,
)
    requires
        m.dom().contains(id),
        m[id].standing,
        m[id].until is None,
    ensures
        ({
            let after = retired(m, now, linger, idle);
            &&& after.dom().contains(id)
            &&& after[id].peer == m[id].peer
            &&& after[id].packets == m[id].packets
            &&& after[id].reflector_seq == (if is_over(m[id], now, linger, idle) {
                0
            } else {
                m[id].reflector_seq
            })
        }),
{
}

/// Retiring touches no session that is in use and whose lease holds.
pub proof fn law_sessions_in_use_are_kept(
    m: Map<u64, Session>,
    id: u64,
    now: Instant,
    linger: Duration,
    idle: Duration,
)
    requires
        m.dom().contains(id),
        m[id].until is None || now.nanos < m[id].until->0.nanos,
        !is_over(m[id], now, linger, idle),
    ensures
        retired(m, now, linger, idle).dom().contains(id),
        retired(m, now, linger, idle)[id] == m[id],
{
}

/// What the reflector sends for a request decodes to the request's own fields
/// with the reflector's in them: the sender's sequence number, session and
/// transmit time survive.
pub proof fn law_a_reply_carries_the_request(
    buf: Seq<u8>,
    n: int,
    h: Header,
    t2: u64,
    t3: u64,
    reflector_seq: u32,
    meta: RecvMeta,
)
    requires
        0 <= n <= buf.len(),
        mqp::decoded(buf.take(n)) == Ok::<Header, DecodeError>(h),
    ensures
        ({
            let reply = mqp::stamped_t3(
                mqp::reply_of(
                    buf,
                    t2,
                    reflector_seq,
                    observed(meta.dscp),
                    observed(meta.ttl),
                    REPLY_TTL,
                ),
                t3,
            );
            mqp::decoded(reply.take(n)) == Ok::<Header, DecodeError>(
                Header {
                    pkt_type: PacketType::Reply,
                    reflector_seq,
                    t2,
                    t3,
                    rx_dscp: observed(meta.dscp),
                    ttl_fwd: observed(meta.ttl),
                    ttl_rev: REPLY_TTL,
                    ..h
                },
            )
        }),
{
    let d = buf.take(n);
    let whole = mqp::reply_of(
        buf,
        t2,
        reflector_seq,
        observed(meta.dscp),
        observed(meta.ttl),
        REPLY_TTL,
    );
    let part = mqp::reply_of(
        d,
        t2,
        reflector_seq,
        observed(meta.dscp),
        observed(meta.ttl),
        REPLY_TTL,
    );
    broadcast use crate::bytes::lemma_be_bytes_width;

    mqp::law_reflection_keeps_the_senders_fields(
        d,
        h,
        t2,
        t3,
        reflector_seq,
        observed(meta.dscp),
        observed(meta.ttl),
        REPLY_TTL,
    );
    assert(whole.take(n) =~= part);
    let a = crate::bytes::patched(whole, 40, crate::bytes::be_bytes(t3 as nat, 8));
    let b = crate::bytes::patched(part, 40, crate::bytes::be_bytes(t3 as nat, 8));
    assert(a.take(n) =~= b);
    assert(a.subrange(0, 54) =~= b.subrange(0, 54));
    assert(mqp::stamped_t3(whole, t3).take(n) =~= mqp::stamped_t3(part, t3));
}

} // verus!
