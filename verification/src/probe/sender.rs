//! The sender: what a probe run sends, and which replies count.
//!
//! Receiving runs concurrently with sending rather than after it. Sending a
//! whole burst first and then draining replies would make every RTT include the
//! remainder of the burst: the measurement would be dominated by our own pacing
//! rather than by the network.

use vstd::prelude::*;
use vstd::string::StringExecFns;

use crate::collector::stats::Sample;
use crate::duration::Duration;
use crate::net::{IpAddr, SocketAddr};
use crate::probe::reflector::Session;
use crate::probe::socket::RecvMeta;
use crate::proto::mqp::flags;
use crate::proto::mqp::{Header, PacketType, DEFAULT_PACKET_LEN, HEADER_LEN, MAX_PACKET_LEN};
use crate::text::push_decimal;

verus! {

#[derive(Debug, Clone, Copy, PartialEq, Eq, Structural)]
pub struct ProbeConfig {
    pub session_id: u64,
    pub peer: SocketAddr,
    pub count: u32,
    pub interval: Duration,
    /// Total packet size on the wire, header included.
    pub payload_bytes: usize,
    pub dscp: Option<u8>,
    /// How long to wait for a reply before giving up on an individual packet.
    pub timeout: Duration,
    /// Grace period after the last packet, for stragglers still in flight.
    pub linger: Duration,
}

impl Default for ProbeConfig {
    fn default() -> (r: ProbeConfig)
        ensures
            r.session_id == 0,
            r.peer == (SocketAddr { ip: IpAddr::V4(0x7F00_0001), port: 5301, scope_id: 0 }),
            r.count == 100,
            r.interval.nanos == 20_000_000,
            r.payload_bytes == DEFAULT_PACKET_LEN,
            r.dscp is None,
            r.timeout.nanos == 1_000_000_000,
            r.linger.nanos == 2_000_000_000,
    {
        ProbeConfig {
            session_id: 0,
            peer: SocketAddr::new(IpAddr::V4(0x7F00_0001), 5301),
            count: 100,
            interval: Duration::from_millis(20),
            payload_bytes: DEFAULT_PACKET_LEN,
            dscp: None,
            timeout: Duration::from_secs(1),
            linger: Duration::from_secs(2),
        }
    }
}

#[derive(Debug, Clone, PartialEq, Eq)]
pub enum ProbeError {
    Io(String),
    BadPacketSize { requested: usize },
    EmptyRun,
}

/// What an error says.
pub open spec fn error_message(e: ProbeError) -> Seq<char> {
    match e {
        ProbeError::Io(s) => "probe socket error: "@ + s@,
        ProbeError::BadPacketSize { requested } => "packet size "@ + crate::text::decimal(
            requested as nat,
        ) + " is out of range ("@ + crate::text::decimal(HEADER_LEN as nat) + "..="@
            + crate::text::decimal(MAX_PACKET_LEN as nat) + ")"@,
        ProbeError::EmptyRun => "count must be at least 1"@,
    }
}

impl ProbeError {
    pub fn message(&self) -> (r: String)
        ensures
            r@ == error_message(*self),
    {
        match self {
            ProbeError::Io(s) => {
                let mut t = "probe socket error: ".to_owned();
                t.append(s.as_str());
                t
            },
            ProbeError::BadPacketSize { requested } => {
                let mut t = "packet size ".to_owned();
                push_decimal(&mut t, *requested as u128);
                t.append(" is out of range (");
                push_decimal(&mut t, HEADER_LEN as u128);
                t.append("..=");
                push_decimal(&mut t, MAX_PACKET_LEN as u128);
                t.append(")");
                t
            },
            ProbeError::EmptyRun => "count must be at least 1".to_owned(),
        }
    }
}

#[derive(Debug)]
pub struct ProbeRun {
    pub sent: u32,
    pub samples: Vec<Sample>,
    /// Packets whose pacing tick was late. High values mean the device could
    /// not keep up and the offered rate was not what was configured: the
    /// results are still valid, but the test was gentler than requested.
    pub late_ticks: u32,
}

/// What is wrong with a configuration.
pub open spec fn config_error(cfg: ProbeConfig) -> Option<ProbeError> {
    if cfg.count == 0 {
        Some(ProbeError::EmptyRun)
    } else if !(HEADER_LEN <= cfg.payload_bytes <= MAX_PACKET_LEN) {
        Some(ProbeError::BadPacketSize { requested: cfg.payload_bytes })
    } else {
        None
    }
}

pub open spec fn requested_dscp(cfg: ProbeConfig) -> u8 {
    match cfg.dscp {
        Some(d) => d,
        None => 0,
    }
}

/// The flags of packet `seq`: the final packet of a run says that it is.
pub open spec fn request_flags(cfg: ProbeConfig, seq: u32) -> u16 {
    if seq + 1 == cfg.count {
        crate::proto::mqp::flags::REQUEST_DSCP_ECHO | crate::proto::mqp::flags::LAST_PACKET
    } else {
        crate::proto::mqp::flags::REQUEST_DSCP_ECHO
    }
}

/// The header of packet `seq`.
pub open spec fn request_header(cfg: ProbeConfig, seq: u32) -> Header {
    Header {
        version: crate::proto::mqp::VERSION,
        pkt_type: PacketType::Request,
        flags: request_flags(cfg, seq),
        session_id: cfg.session_id,
        seq,
        reflector_seq: 0,
        t1: 0,
        t2: 0,
        t3: 0,
        tx_dscp: requested_dscp(cfg),
        rx_dscp: 0,
        ttl_fwd: 0,
        ttl_rev: 0,
        payload_len: (cfg.payload_bytes - HEADER_LEN) as u16,
    }
}

/// A tick for packet `seq` comes late when more than a whole interval has
/// passed since the packet was due.
pub open spec fn comes_late(start: u64, interval: Duration, seq: u32, now: u64) -> bool {
    now > start + (seq + 1) * interval.nanos
}

/// A difference that does not run backwards.
pub open spec fn forward(from: u64, to: u64) -> u64 {
    if from <= to {
        (to - from) as u64
    } else {
        0
    }
}

/// The sample that a datagram makes, where it counts as a reply. Everything
/// that does not is a reason to discard it rather than to fail the run.
///
/// The send time is our own record of it: a peer that mangles the echoed field
/// cannot corrupt our timing. The reflector's own processing time is taken out:
/// on a loaded armv7 router it can be milliseconds and would otherwise be read
/// as network latency. A reply that arrived after we gave up on it is real data
/// about a slow path, but including it would understate the loss the
/// application saw. A forward TTL other than zero proves that the reflector's
/// control messages work, so a DSCP of zero alongside it means the packet
/// really did arrive best-effort; without one nothing was observed.
pub open spec fn sample_of(
    datagram: Seq<u8>,
    from: IpAddr,
    t4: u64,
    cfg: ProbeConfig,
    sent_at: Seq<Option<u64>>,
    arrival_index: u32,
) -> Option<Sample> {
    if from != cfg.peer.ip {
        None
    } else {
        match crate::proto::mqp::decoded(datagram) {
            Err(_) => None,
            Ok(h) => if h.pkt_type != PacketType::Reply || h.session_id != cfg.session_id {
                None
            } else if h.seq >= sent_at.len() || sent_at[h.seq as int] is None || sent_at[h.seq as int]->0
                > t4 {
                None
            } else {
                let rtt = forward(forward(h.t2, h.t3), (t4 - sent_at[h.seq as int]->0) as u64);
                if rtt > cfg.timeout.nanos {
                    None
                } else {
                    Some(
                        Sample {
                            seq: h.seq,
                            reflector_seq: Some(h.reflector_seq),
                            rtt_ns: rtt,
                            tx_dscp: requested_dscp(cfg),
                            rx_dscp: if h.ttl_fwd > 0 {
                                Some(h.rx_dscp)
                            } else {
                                None
                            },
                            arrival_index,
                        },
                    )
                }
            },
        }
    }
}

/// How many packets went out.
pub open spec fn sent_count<T>(sent_at: Seq<Option<T>>) -> nat
    decreases sent_at.len(),
{
    if sent_at.len() == 0 {
        0
    } else {
        sent_count(sent_at.drop_last()) + (if sent_at.last() is Some {
            1nat
        } else {
            0nat
        })
    }
}

/// Validate a reply and turn it into a sample.
pub fn accept_reply(
    buf: &[u8],
    peer: SocketAddr,
    t4: u64,
    cfg: &ProbeConfig,
    sent_at: &Vec<Option<u64>>,
    arrival_index: u32,
) -> (r: Option<Sample>)
    ensures
        r == sample_of(buf@, peer.ip, t4, *cfg, sent_at@, arrival_index),
{
    if peer.ip != cfg.peer.ip {
        return None;
    }
    let h = match Header::decode(buf) {
        Ok(h) => h,
        Err(_) => return None,
    };
    if h.pkt_type != PacketType::Reply || h.session_id != cfg.session_id {
        return None;
    }
    if h.seq as u64 >= sent_at.len() as u64 {
        return None;
    }
    let t1: u64 = match sent_at[h.seq as usize] {
        Some(t) => t,
        None => return None,
    };
    if t1 > t4 {
        return None;
    }
    let round_trip: u64 = t4 - t1;
    let delay: u64 = if h.t2 <= h.t3 {
        h.t3 - h.t2
    } else {
        0
    };
    let rtt_ns: u64 = if delay <= round_trip {
        round_trip - delay
    } else {
        0
    };
    if rtt_ns as u128 > cfg.timeout.nanos {
        return None;
    }
    Some(
        Sample {
            seq: h.seq,
            reflector_seq: Some(h.reflector_seq),
            rtt_ns,
            tx_dscp: match cfg.dscp {
                Some(d) => d,
                None => 0,
            },
            rx_dscp: if h.ttl_fwd > 0 {
                Some(h.rx_dscp)
            } else {
                None
            },
            arrival_index,
        },
    )
}

/// Whether a tick for packet `seq` comes late.
pub fn is_late(start: u64, interval: Duration, seq: u32, now: u64) -> (r: bool)
    ensures
        r == comes_late(start, interval, seq, now),
{
    let n: u128 = seq as u128 + 1;
    let step: u128 = interval.nanos;
    proof {
        assert(n * step >= step) by (nonlinear_arith)
            requires
                n >= 1,
                step >= 0,
        ;
    }
    if now < start {
        return false;
    }
    let passed: u128 = (now - start) as u128;
    if step > passed {
        return false;
    }
    proof {
        assert(n * step <= 0x1_0000_0000 * 0xFFFF_FFFF_FFFF_FFFF) by (nonlinear_arith)
            requires
                0 <= n <= 0x1_0000_0000,
                0 <= step <= 0xFFFF_FFFF_FFFF_FFFF,
        ;
    }
    passed > n * step
}

/// How many of `sent_at` were sent.
pub fn count_sent<T>(sent_at: &Vec<Option<T>>) -> (r: usize)
    ensures
        r == sent_count(sent_at@),
        r <= sent_at@.len(),
{
    let mut n: usize = 0;
    let mut i: usize = 0;
    proof {
        assert(sent_at@.take(0) =~= Seq::empty());
    }
    while i < sent_at.len()
        invariant
            n <= i <= sent_at@.len(),
            n == sent_count(sent_at@.take(i as int)),
        decreases sent_at@.len() - i,
    {
        proof {
            assert(sent_at@.take(i + 1).drop_last() =~= sent_at@.take(i as int));
        }
        if sent_at[i].is_some() {
            n = n + 1;
        }
        i = i + 1;
    }
    proof {
        assert(sent_at@.take(i as int) =~= sent_at@);
    }
    n
}

/// A probe run under way: what was sent when, and what came back.
#[derive(Debug)]
pub struct Probing {
    pub cfg: ProbeConfig,
    pub start: u64,
    /// The packet to send next.
    pub seq: u32,
    /// When each packet was sent, on our clock. A packet that could not be sent
    /// was never sent, which is not the same as lost.
    pub sent_at: Vec<Option<u64>>,
    pub samples: Vec<Sample>,
    pub arrival_index: u32,
    pub late_ticks: u32,
}

/// The samples are numbered in the order they arrived.
pub open spec fn in_arrival_order(samples: Seq<Sample>) -> bool {
    forall|i: int| 0 <= i < samples.len() ==> (#[trigger] samples[i]).arrival_index == i
}

/// A sample of a run tells of a packet that was sent, in time.
pub open spec fn sound_sample(s: Sample, cfg: ProbeConfig, sent_at: Seq<Option<u64>>) -> bool {
    &&& s.seq < sent_at.len()
    &&& sent_at[s.seq as int] is Some
    &&& s.rtt_ns <= cfg.timeout.nanos
    &&& s.tx_dscp == requested_dscp(cfg)
}

impl Probing {
    pub open spec fn wf(&self) -> bool {
        &&& config_error(self.cfg) is None
        &&& self.sent_at@.len() == self.cfg.count
        &&& self.seq <= self.cfg.count
        &&& self.samples@.len() == self.arrival_index
        &&& in_arrival_order(self.samples@)
        &&& forall|i: int|
            self.seq <= i < self.sent_at@.len() ==> #[trigger] self.sent_at@[i] is None
        &&& forall|i: int|
            0 <= i < self.samples@.len() ==> sound_sample(
                #[trigger] self.samples@[i],
                self.cfg,
                self.sent_at@,
            )
    }

    /// Begin a run at `now`.
    pub fn begin(cfg: ProbeConfig, now: u64) -> (r: Result<Probing, ProbeError>)
        ensures
            match r {
                Ok(p) => {
                    &&& config_error(cfg) is None
                    &&& p.wf()
                    &&& p.cfg == cfg
                    &&& p.start == now
                    &&& p.seq == 0
                    &&& p.samples@.len() == 0
                    &&& p.arrival_index == 0
                    &&& p.late_ticks == 0
                },
                Err(e) => config_error(cfg) == Some(e),
            },
    {
        if cfg.count == 0 {
            return Err(ProbeError::EmptyRun);
        }
        if cfg.payload_bytes < HEADER_LEN || cfg.payload_bytes > MAX_PACKET_LEN {
            return Err(ProbeError::BadPacketSize { requested: cfg.payload_bytes });
        }
        let mut sent_at: Vec<Option<u64>> = Vec::new();
        let mut i: u32 = 0;
        while i < cfg.count
            invariant
                i <= cfg.count,
                sent_at@.len() == i,
                forall|k: int| 0 <= k < sent_at@.len() ==> #[trigger] sent_at@[k] is None,
            decreases cfg.count - i,
        {
            sent_at.push(None);
            i = i + 1;
        }
        Ok(
            Probing {
                cfg,
                start: now,
                seq: 0,
                sent_at,
                samples: Vec::new(),
                arrival_index: 0,
                late_ticks: 0,
            },
        )
    }

    /// Whether there are packets left to send.
    pub fn has_more(&self) -> (r: bool)
        ensures
            r == (self.seq < self.cfg.count),
    {
        self.seq < self.cfg.count
    }

    /// Lay out the packet to send next in `buf`, on a tick at `now`. Its send
    /// time is still to be stamped, as late as possible.
    pub fn prepare(&mut self, now: u64, buf: &mut [u8])
        requires
            old(self).wf(),
            old(self).seq < old(self).cfg.count,
            old(buf)@.len() == old(self).cfg.payload_bytes,
        ensures
            final(self).wf(),
            final(self).late_ticks == (if comes_late(
                old(self).start,
                old(self).cfg.interval,
                old(self).seq,
                now,
            ) && old(self).late_ticks < u32::MAX {
                (old(self).late_ticks + 1) as u32
            } else {
                old(self).late_ticks
            }),
            *final(self) == (Probing { late_ticks: final(self).late_ticks, ..*old(self) }),
            final(buf)@.len() == old(buf)@.len(),
            crate::proto::mqp::lays_out(
                final(buf)@,
                request_header(old(self).cfg, old(self).seq),
            ),
            forall|i: int|
                HEADER_LEN <= i < old(buf)@.len() ==> #[trigger] final(buf)@[i] == old(buf)@[i],
    {
        if is_late(self.start, self.cfg.interval, self.seq, now) {
            self.late_ticks = self.late_ticks.saturating_add(1);
        }
        let dscp: u8 = match self.cfg.dscp {
            Some(d) => d,
            None => 0,
        };
        let mut header = Header::request(
            self.cfg.session_id,
            self.seq,
            dscp,
            (self.cfg.payload_bytes - HEADER_LEN) as u16,
        );
        if self.seq + 1 == self.cfg.count {
            header.flags = header.flags | flags::LAST_PACKET;
        }
        let _ = header.encode(buf);
    }

    /// Record what became of the packet that was sent at `t1`.
    pub fn sent(&mut self, t1: Option<u64>)
        requires
            old(self).wf(),
            old(self).seq < old(self).cfg.count,
        ensures
            final(self).wf(),
            final(self).sent_at@ == old(self).sent_at@.update(old(self).seq as int, t1),
            final(self).seq == old(self).seq + 1,
            final(self).cfg == old(self).cfg,
            final(self).start == old(self).start,
            final(self).samples@ == old(self).samples@,
            final(self).arrival_index == old(self).arrival_index,
            final(self).late_ticks == old(self).late_ticks,
    {
        let i: usize = self.seq as usize;
        self.sent_at.set(i, t1);
        self.seq = self.seq + 1;
        proof {
            assert forall|k: int| 0 <= k < self.samples@.len() implies sound_sample(
                #[trigger] self.samples@[k],
                self.cfg,
                self.sent_at@,
            ) by {
                assert(sound_sample(old(self).samples@[k], old(self).cfg, old(self).sent_at@));
            }
        }
    }

    /// Take in a datagram that arrived from `peer` at `t4`. Says whether it
    /// counted. Replies that no index is left for do not.
    pub fn receive(&mut self, buf: &[u8], peer: SocketAddr, t4: u64) -> (r: bool)
        requires
            old(self).wf(),
        ensures
            final(self).wf(),
            match sample_of(
                buf@,
                peer.ip,
                t4,
                old(self).cfg,
                old(self).sent_at@,
                old(self).arrival_index,
            ) {
                Some(s) if old(self).arrival_index < u32::MAX => {
                    &&& r
                    &&& final(self).samples@ == old(self).samples@.push(s)
                    &&& final(self).arrival_index == old(self).arrival_index + 1
                },
                _ => {
                    &&& !r
                    &&& final(self).samples@ == old(self).samples@
                    &&& final(self).arrival_index == old(self).arrival_index
                },
            },
            final(self).cfg == old(self).cfg,
            final(self).start == old(self).start,
            final(self).seq == old(self).seq,
            final(self).sent_at == old(self).sent_at,
            final(self).late_ticks == old(self).late_ticks,
    {
        if self.arrival_index == u32::MAX {
            return false;
        }
        match accept_reply(buf, peer, t4, &self.cfg, &self.sent_at, self.arrival_index) {
            Some(s) => {
                self.samples.push(s);
                self.arrival_index = self.arrival_index + 1;
                true
            },
            None => false,
        }
    }

    /// What the run came to.
    pub fn finish(self) -> (r: ProbeRun)
        requires
            self.wf(),
        ensures
            r.sent == sent_count(self.sent_at@),
            r.sent <= self.cfg.count,
            r.samples@ == self.samples@,
            r.samples@.len() <= u32::MAX,
            in_arrival_order(r.samples@),
            r.late_ticks == self.late_ticks,
    {
        let n: usize = count_sent(&self.sent_at);
        ProbeRun { sent: n as u32, samples: self.samples, late_ticks: self.late_ticks }
    }
}

/// A run against a peer that stays silent is a measurement, not a failure: every
/// packet counts as sent, none as answered, and all of it as lost in no
/// direction that could be named.
pub proof fn law_silence_is_loss_not_failure(sent_at: Seq<Option<u64>>)
    requires
        0 < sent_at.len() <= u32::MAX,
        forall|i: int| 0 <= i < sent_at.len() ==> #[trigger] sent_at[i] is Some,
    ensures
        sent_count(sent_at) == sent_at.len(),
        ({
            let l = crate::collector::stats::loss_figures(
                sent_count(sent_at) as u32,
                Seq::empty(),
            );
            &&& l.sent == sent_at.len()
            &&& l.received == 0
            &&& l.forward_lost == 0 && l.reverse_lost == 0
            &&& l.unknown_direction == sent_at.len()
            &&& l.loss_pct.hundredths == 10_000
        }),
{
    lemma_all_sent(sent_at);
    crate::collector::stats::law_loss_is_a_share(sent_at.len() as u32, Seq::empty());
}

proof fn lemma_all_sent(sent_at: Seq<Option<u64>>)
    requires
        forall|i: int| 0 <= i < sent_at.len() ==> #[trigger] sent_at[i] is Some,
    ensures
        sent_count(sent_at) == sent_at.len(),
    decreases sent_at.len(),
{
    if sent_at.len() > 0 {
        lemma_all_sent(sent_at.drop_last());
    }
}

/// The reflector's own time is taken out of the round trip: a reply that took
/// the reflector `t3 - t2` counts for that much less.
pub proof fn law_reflector_time_is_excluded(
    datagram: Seq<u8>,
    from: IpAddr,
    t4: u64,
    cfg: ProbeConfig,
    sent_at: Seq<Option<u64>>,
    arrival_index: u32,
    h: Header,
)
    requires
        crate::proto::mqp::decoded(datagram) == Ok::<Header, crate::proto::mqp::DecodeError>(h),
        sample_of(datagram, from, t4, cfg, sent_at, arrival_index) is Some,
        h.t2 <= h.t3,
    ensures
        ({
            let s = sample_of(datagram, from, t4, cfg, sent_at, arrival_index)->0;
            let t1 = sent_at[s.seq as int]->0;
            s.rtt_ns == (if h.t3 - h.t2 <= t4 - t1 {
                (t4 - t1) - (h.t3 - h.t2)
            } else {
                0
            })
        }),
{
}

/// Replies that are not ours never count: another address, another session, a
/// packet that was never sent, or one that came after we gave up on it.
pub proof fn law_foreign_replies_are_ignored(
    datagram: Seq<u8>,
    from: IpAddr,
    t4: u64,
    cfg: ProbeConfig,
    sent_at: Seq<Option<u64>>,
    arrival_index: u32,
)
    requires
        sample_of(datagram, from, t4, cfg, sent_at, arrival_index) is Some,
    ensures
        from == cfg.peer.ip,
        crate::proto::mqp::decoded(datagram) is Ok,
        crate::proto::mqp::decoded(datagram)->Ok_0.session_id == cfg.session_id,
        crate::proto::mqp::decoded(datagram)->Ok_0.pkt_type == PacketType::Reply,
        sound_sample(
            sample_of(datagram, from, t4, cfg, sent_at, arrival_index)->0,
            cfg,
            sent_at,
        ),
{
}

/// A probe that reaches the reflector it was granted to, and whose reply comes
/// back, is measured: the reflector answers it, and the answer makes a sample
/// of its own sequence number whose round trip is `(t4 - t1) - (t3 - t2)`. The
/// two clocks need not agree: each difference is taken on one of them.
pub proof fn law_a_reflected_probe_is_measured(
    packet: Seq<u8>,
    cfg: ProbeConfig,
    seq: u32,
    grants: Map<u64, Session>,
    from: IpAddr,
    meta: RecvMeta,
    t1: u64,
    t2: u64,
    t3: u64,
    t4: u64,
    sent_at: Seq<Option<u64>>,
    arrival_index: u32,
)
    requires
        config_error(cfg) is None,
        packet.len() == cfg.payload_bytes,
        crate::proto::mqp::lays_out(packet, request_header(cfg, seq)),
        grants.dom().contains(cfg.session_id),
        crate::probe::reflector::accepted_from(grants[cfg.session_id].peer.ip, from),
        seq < sent_at.len(),
        sent_at[seq as int] == Some(t1),
        t1 <= t4,
        t2 <= t3,
        0 <= (t4 - t1) - (t3 - t2) <= cfg.timeout.nanos,
    ensures
        ({
            let request = crate::proto::mqp::stamped_t1(packet, t1);
            let reply = crate::proto::mqp::stamped_t3(
                crate::proto::mqp::reply_of(
                    request,
                    t2,
                    grants[cfg.session_id].reflector_seq,
                    crate::probe::reflector::observed(meta.dscp),
                    crate::probe::reflector::observed(meta.ttl),
                    crate::probe::reflector::REPLY_TTL,
                ),
                t3,
            );
            &&& crate::probe::reflector::judged(grants, request, from)
                == crate::probe::reflector::Judgement::Answered(
                Header { t1, ..request_header(cfg, seq) },
            )
            &&& reply.len() == request.len()
            &&& sample_of(reply, cfg.peer.ip, t4, cfg, sent_at, arrival_index) == Some(
                Sample {
                    seq,
                    reflector_seq: Some(grants[cfg.session_id].reflector_seq),
                    rtt_ns: ((t4 - t1) - (t3 - t2)) as u64,
                    tx_dscp: requested_dscp(cfg),
                    rx_dscp: if crate::probe::reflector::observed(meta.ttl) > 0 {
                        Some(crate::probe::reflector::observed(meta.dscp))
                    } else {
                        None
                    },
                    arrival_index,
                },
            )
        }),
{
    let h = request_header(cfg, seq);
    let request = crate::proto::mqp::stamped_t1(packet, t1);
    lemma_request_flags(cfg, seq);
    crate::proto::mqp::law_decoding_inverts_encoding(packet, h);
    crate::proto::mqp::law_stamping_t1_keeps_the_rest(packet, h, t1);
    crate::proto::mqp::law_reflection_keeps_the_senders_fields(
        request,
        Header { t1, ..h },
        t2,
        t3,
        grants[cfg.session_id].reflector_seq,
        crate::probe::reflector::observed(meta.dscp),
        crate::probe::reflector::observed(meta.ttl),
        crate::probe::reflector::REPLY_TTL,
    );
}

proof fn lemma_request_flags(cfg: ProbeConfig, seq: u32)
    ensures
        request_flags(cfg, seq) & !flags::KNOWN == 0,
        request_flags(cfg, seq) & flags::NO_REFLECT == 0,
        request_flags(cfg, seq) & flags::REQUEST_DSCP_ECHO != 0,
        (request_flags(cfg, seq) & flags::LAST_PACKET != 0) <==> seq + 1 == cfg.count,
{
    assert((8u16 | 2u16) & !15u16 == 0 && (8u16 | 2u16) & 4u16 == 0 && (8u16 | 2u16) & 8u16 != 0
        && (8u16 | 2u16) & 2u16 != 0) by (bit_vector);
    assert(8u16 & !15u16 == 0 && 8u16 & 4u16 == 0 && 8u16 & 8u16 != 0 && 8u16 & 2u16 == 0)
        by (bit_vector);
}

/// The last packet of a run says that it is the final one, and no earlier packet
/// does: the reflector retires the session's state by it.
pub proof fn law_only_the_final_packet_is_marked(packet: Seq<u8>, cfg: ProbeConfig, seq: u32)
    requires
        config_error(cfg) is None,
        seq < cfg.count,
        packet.len() == cfg.payload_bytes,
        crate::proto::mqp::lays_out(packet, request_header(cfg, seq)),
    ensures
        crate::proto::mqp::decoded(packet) == Ok::<Header, crate::proto::mqp::DecodeError>(
            request_header(cfg, seq),
        ),
        crate::probe::reflector::is_last(request_header(cfg, seq)) <==> seq == cfg.count - 1,
{
    lemma_request_flags(cfg, seq);
    crate::proto::mqp::law_decoding_inverts_encoding(packet, request_header(cfg, seq));
}

} // verus!
