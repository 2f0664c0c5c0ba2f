//! TWAMP-Light Session-Reflector and Session-Sender.
//!
//! RouterOS provides no TWAMP responder of its own, so where a MikroTik has to
//! answer TWAMP, for a carrier's test set, a customer's probe or our own
//! sender, this is what answers.
//!
//! # Why this has a socket of its own
//!
//! MQP begins with a two-byte magic, TWAMP with a four-byte sequence number. A
//! TWAMP packet whose sequence happens to start `0x4D51` would be
//! indistinguishable from an MQP packet on a shared port, and would be parsed
//! as one. Rather than guess between them, each protocol gets a socket.
//!
//! # Admission control is weaker than MQP's, unavoidably
//!
//! MQP carries an unguessable `session_id` that the controller issues per test,
//! and the reflector ignores anything else. TWAMP-Light has no session
//! identifier at all, which is the point of Light mode, so the only thing this
//! reflector can filter on is the source address. Replies are the same size as
//! requests, which removes the amplification factor, but the exposure is real:
//! keep the allow-list narrow and the firewall in front of it narrower.

use vstd::prelude::*;
use vstd::string::StringExecFns;

use crate::collector::stats::Sample;
use crate::duration::Duration;
use crate::net::{IpAddr, SocketAddr};
use crate::probe::hold;
use crate::probe::sender::{count_sent, is_late};
use crate::probe::socket::RecvMeta;
use crate::proto::twamp;
use crate::proto::twamp::{
    ErrorEstimate, NtpTimestamp, ReflectorPacket, SenderPacket, DEFAULT_PACKET_LEN, MAX_PACKET_LEN,
    REFLECTOR_MIN_LEN, SENDER_MIN_LEN,
};
use crate::text::push_decimal;

verus! {

/// Who the reflector will answer.
#[derive(Debug)]
pub struct AllowList {
    /// Each address once.
    peers: Vec<IpAddr>,
    /// Answer anyone. Intended for a lab or a port already firewalled to a
    /// known set; never a sensible production default, since TWAMP-Light has
    /// no other admission control.
    open: bool,
}

impl AllowList {
    /// The addresses that are listed.
    pub closed spec fn listed(&self) -> Set<IpAddr> {
        self.peers@.to_set()
    }

    pub closed spec fn is_open(&self) -> bool {
        self.open
    }

    pub closed spec fn wf(&self) -> bool {
        self.peers@.no_duplicates()
    }

    pub fn new() -> (r: AllowList)
        ensures
            r.wf(),
            r.listed() == Set::<IpAddr>::empty(),
            !r.is_open(),
    {
        let r = AllowList { peers: Vec::new(), open: false };
        proof {
            assert(r.listed() =~= Set::<IpAddr>::empty());
        }
        r
    }

    /// Answer any source. See the caveat above.
    pub fn open() -> (r: AllowList)
        ensures
            r.wf(),
            r.listed() == Set::<IpAddr>::empty(),
            r.is_open(),
    {
        let r = AllowList { peers: Vec::new(), open: true };
        proof {
            assert(r.listed() =~= Set::<IpAddr>::empty());
        }
        r
    }

    /// Answer those that `peers` lists, or anyone where it lists none.
    pub fn for_peers(peers: &Vec<IpAddr>) -> (r: AllowList)
        ensures
            r.wf(),
            r.listed() == peers@.to_set(),
            r.is_open() == (peers@.len() == 0),
    {
        let mut r = if peers.len() == 0 {
            AllowList::open()
        } else {
            AllowList::new()
        };
        let mut i: usize = 0;
        proof {
            assert(peers@.take(0).to_set() =~= Set::<IpAddr>::empty());
        }
        while i < peers.len()
            invariant
                i <= peers@.len(),
                r.wf(),
                r.listed() == peers@.take(i as int).to_set(),
                r.is_open() == (peers@.len() == 0),
            decreases peers@.len() - i,
        {
            proof {
                let a = peers@.take(i as int);
                let b = peers@.take(i + 1);
                assert(b =~= a.push(peers@[i as int]));
                assert(b.to_set() =~= a.to_set().insert(peers@[i as int])) by {
                    assert forall|x: IpAddr| b.to_set().contains(x) == a.to_set().insert(
                        peers@[i as int],
                    ).contains(x) by {
                        if a.contains(x) {
                            let k = choose|k: int| 0 <= k < a.len() && a[k] == x;
                            assert(b[k] == x);
                        }
                        assert(b[i as int] == peers@[i as int]);
                    }
                }
            }
            r.allow(peers[i]);
            i = i + 1;
        }
        proof {
            assert(peers@.take(i as int) =~= peers@);
        }
        r
    }

    fn find(&self, ip: &IpAddr) -> (r: Option<usize>)
        ensures
            match r {
                Some(k) => k < self.peers@.len() && self.peers@[k as int] == *ip,
                None => !self.peers@.contains(*ip),
            },
    {
        let mut i: usize = 0;
        while i < self.peers.len()
            invariant
                i <= self.peers@.len(),
                forall|k: int| 0 <= k < i ==> #[trigger] self.peers@[k] != *ip,
            decreases self.peers@.len() - i,
        {
            if self.peers[i] == *ip {
                return Some(i);
            }
            i = i + 1;
        }
        None
    }

    pub fn allow(&mut self, ip: IpAddr)
        requires
            old(self).wf(),
        ensures
            final(self).wf(),
            final(self).listed() == old(self).listed().insert(ip),
            final(self).is_open() == old(self).is_open(),
    {
        if self.find(&ip).is_none() {
            let ghost before = self.peers@;
            self.peers.push(ip);
            proof {
                let now = self.peers@;
                assert forall|x: IpAddr| now.to_set().contains(x) == before.to_set().insert(
                    ip,
                ).contains(x) by {
                    if before.contains(x) {
                        let k = choose|k: int| 0 <= k < before.len() && before[k] == x;
                        assert(now[k] == x);
                    }
                    assert(now.last() == ip);
                }
                assert(now.to_set() =~= before.to_set().insert(ip));
            }
        } else {
            proof {
                assert(self.peers@.to_set() =~= self.peers@.to_set().insert(ip));
            }
        }
    }

    /// Says whether the address was listed.
    pub fn revoke(&mut self, ip: &IpAddr) -> (r: bool)
        requires
            old(self).wf(),
        ensures
            final(self).wf(),
            final(self).listed() == old(self).listed().remove(*ip),
            final(self).is_open() == old(self).is_open(),
            r == old(self).listed().contains(*ip),
    {
        let ghost before = self.peers@;
        match self.find(ip) {
            Some(k) => {
                let _ = self.peers.remove(k);
                proof {
                    let now = self.peers@;
                    assert forall|x: IpAddr| now.to_set().contains(x) == before.to_set().remove(
                        *ip,
                    ).contains(x) by {
                        if before.contains(x) && x != *ip {
                            let j = choose|j: int| 0 <= j < before.len() && before[j] == x;
                            if j < k {
                                assert(now[j] == x);
                            } else {
                                assert(now[j - 1] == x);
                            }
                        }
                        if now.contains(x) {
                            let j = choose|j: int| 0 <= j < now.len() && now[j] == x;
                            let from = if j < k {
                                j
                            } else {
                                j + 1
                            };
                            assert(before[from] == x);
                            assert(before[k as int] == *ip);
                        }
                    }
                    assert(now.to_set() =~= before.to_set().remove(*ip));
                    assert(before.contains(before[k as int]));
                }
                true
            },
            None => {
                proof {
                    assert(before.to_set() =~= before.to_set().remove(*ip));
                }
                false
            },
        }
    }

    pub fn permits(&self, ip: &IpAddr) -> (r: bool)
        ensures
            r == (self.is_open() || self.listed().contains(*ip)),
    {
        if self.open {
            return true;
        }
        match self.find(ip) {
            Some(k) => {
                proof {
                    assert(self.peers@.contains(self.peers@[k as int]));
                }
                true
            },
            None => false,
        }
    }

    pub fn len(&self) -> (r: usize)
        requires
            self.wf(),
        ensures
            r == self.listed().len(),
    {
        proof {
            self.peers@.unique_seq_to_set();
        }
        self.peers.len()
    }

    pub fn is_empty(&self) -> (r: bool)
        ensures
            r == (self.listed() == Set::<IpAddr>::empty() && !self.is_open()),
    {
        proof {
            if self.peers@.len() == 0 {
                assert(self.listed() =~= Set::<IpAddr>::empty());
            } else {
                assert(self.peers@.contains(self.peers@[0]));
                assert(self.listed().contains(self.peers@[0]));
            }
        }
        self.peers.len() == 0 && !self.open
    }
}

#[derive(Debug, Default, Clone, Copy, PartialEq, Eq, Structural)]
pub struct ReflectorStats {
    pub reflected: u64,
    pub refused: u64,
    pub malformed: u64,
    pub send_errors: u64,
}

/// The reflector's own state, apart from its socket and the allow-list.
#[derive(Debug, Clone, Copy, PartialEq, Eq, Structural)]
pub struct TwampReflector {
    /// Advances once per reply generated, across all peers.
    ///
    /// RFC 5357 describes this as per-session, but Light mode has no session to
    /// scope it to. A single counter is the honest reading, and a sender uses
    /// it only to spot gaps on the return path.
    pub sequence: u32,
    pub stats: ReflectorStats,
}

/// The length of the reply to a request of `n` bytes: the same, where that is
/// enough for a reply, so neither direction is policed differently for its
/// size. A smaller request is padded up to the minimum the format requires.
pub open spec fn reply_len(n: nat) -> nat {
    if n < REFLECTOR_MIN_LEN {
        REFLECTOR_MIN_LEN as nat
    } else if n > MAX_PACKET_LEN {
        MAX_PACKET_LEN as nat
    } else {
        n
    }
}

/// The reply to `request`, but for its departure.
pub open spec fn reply_for(
    request: SenderPacket,
    sequence: u32,
    t2: NtpTimestamp,
    meta: RecvMeta,
) -> ReflectorPacket {
    ReflectorPacket {
        sequence,
        timestamp: NtpTimestamp { seconds: 0, fraction: 0 },
        error_estimate: ErrorEstimate { synchronized: false, scale: 12, multiplier: 1 },
        receive_timestamp: t2,
        sender_sequence: request.sequence,
        sender_timestamp: request.timestamp,
        sender_error_estimate: request.error_estimate,
        sender_ttl: crate::probe::reflector::observed(meta.ttl),
    }
}

pub open spec fn following(sequence: u32) -> u32 {
    if sequence < u32::MAX {
        (sequence + 1) as u32
    } else {
        0
    }
}

impl TwampReflector {
    pub fn new() -> (r: TwampReflector)
        ensures
            r.sequence == 0,
            r.stats == (ReflectorStats { reflected: 0, refused: 0, malformed: 0, send_errors: 0 }),
    {
        TwampReflector {
            sequence: 0,
            stats: ReflectorStats { reflected: 0, refused: 0, malformed: 0, send_errors: 0 },
        }
    }

    pub fn stats(&self) -> (r: ReflectorStats)
        ensures
            r == self.stats,
    {
        self.stats
    }

    /// Judge the datagram in the first `n` bytes of `buf`, which arrived from
    /// `peer` at `t2`. Where it is to be answered, the reply stands in `buf`
    /// afterwards but for its departure, and its length is returned. A source
    /// that is not allowed is met with silence, not a rejection: answering
    /// would confirm to a scanner that a reflector lives here. Padding beyond
    /// the header is whatever arrived, which is what the RFC expects to be
    /// echoed.
    pub fn receive(
        &mut self,
        allow: &AllowList,
        buf: &mut [u8],
        n: usize,
        peer: SocketAddr,
        meta: RecvMeta,
        t2: NtpTimestamp,
    ) -> (r: Option<usize>)
        requires
            n <= old(buf)@.len(),
        ensures
            ({
                let permitted = allow.is_open() || allow.listed().contains(peer.ip);
                let room = reply_len(n as nat) <= old(buf)@.len();
                match twamp::sender_decoded(old(buf)@.take(n as int)) {
                    _ if !permitted => {
                        &&& r is None
                        &&& final(buf)@ == old(buf)@
                        &&& final(self).sequence == old(self).sequence
                        &&& final(self).stats == (ReflectorStats {
                            refused: crate::probe::reflector::up(old(self).stats.refused),
                            ..old(self).stats
                        })
                    },
                    Err(_) => {
                        &&& r is None
                        &&& final(buf)@ == old(buf)@
                        &&& final(self).sequence == old(self).sequence
                        &&& final(self).stats == (ReflectorStats {
                            malformed: crate::probe::reflector::up(old(self).stats.malformed),
                            ..old(self).stats
                        })
                    },
                    Ok(request) => {
                        &&& final(self).sequence == following(old(self).sequence)
                        &&& !room ==> r is None && final(buf)@ == old(buf)@ && final(self).stats == (
                        ReflectorStats {
                            malformed: crate::probe::reflector::up(old(self).stats.malformed),
                            ..old(self).stats
                        })
                        &&& room ==> {
                            &&& r == Some(reply_len(n as nat) as usize)
                            &&& final(self).stats == old(self).stats
                            &&& final(buf)@.len() == old(buf)@.len()
                            &&& twamp::reflector_lays_out(
                                final(buf)@,
                                reply_for(request, old(self).sequence, t2, meta),
                            )
                            &&& forall|i: int|
                                REFLECTOR_MIN_LEN <= i < old(buf)@.len()
                                    ==> #[trigger] final(buf)@[i] == old(buf)@[i]
                        }
                    },
                }
            }),
    {
        if !allow.permits(&peer.ip) {
            self.stats.refused = self.stats.refused.saturating_add(1);
            return None;
        }
        let ghost datagram = buf@.take(n as int);
        let decoded = {
            let view = vstd::slice::slice_subrange(&*buf, 0, n);
            proof {
                assert(view@ =~= datagram);
            }
            SenderPacket::decode(view)
        };
        let request = match decoded {
            Ok(p) => p,
            Err(_) => {
                self.stats.malformed = self.stats.malformed.saturating_add(1);
                return None;
            },
        };
        let ttl: u8 = match meta.ttl {
            Some(t) => t,
            None => 0,
        };
        let reply = ReflectorPacket::reply_to(&request, self.sequence, t2, ttl);
        self.sequence = self.sequence.wrapping_add(1);
        let out_len: usize = if n < REFLECTOR_MIN_LEN {
            REFLECTOR_MIN_LEN
        } else if n > MAX_PACKET_LEN {
            MAX_PACKET_LEN
        } else {
            n
        };
        if buf.len() < out_len {
            self.stats.malformed = self.stats.malformed.saturating_add(1);
            return None;
        }
        let _ = reply.encode(buf);
        Some(out_len)
    }

    /// Stamp the departure, as late as possible. Says whether there is anything
    /// to send.
    pub fn depart(&mut self, buf: &mut [u8], t3: NtpTimestamp) -> (r: bool)
        ensures
            r == (old(buf)@.len() >= REFLECTOR_MIN_LEN),
            r ==> final(buf)@ == twamp::ts_patched(old(buf)@, 4, t3) && *final(self) == *old(self),
            !r ==> final(buf)@ == old(buf)@ && final(self).sequence == old(self).sequence
                && final(self).stats == (ReflectorStats {
                malformed: crate::probe::reflector::up(old(self).stats.malformed),
                ..old(self).stats
            }),
    {
        if twamp::stamp_reflector_tx(buf, t3).is_err() {
            self.stats.malformed = self.stats.malformed.saturating_add(1);
            return false;
        }
        true
    }

    /// Count a reply that went out, or could not.
    pub fn sent(&mut self, ok: bool)
        ensures
            final(self).sequence == old(self).sequence,
            final(self).stats == (if ok {
                ReflectorStats {
                    reflected: crate::probe::reflector::up(old(self).stats.reflected),
                    ..old(self).stats
                }
            } else {
                ReflectorStats {
                    send_errors: crate::probe::reflector::up(old(self).stats.send_errors),
                    ..old(self).stats
                }
            }),
    {
        if ok {
            self.stats.reflected = self.stats.reflected.saturating_add(1);
        } else {
            self.stats.send_errors = self.stats.send_errors.saturating_add(1);
        }
    }
}

// ---------------------------------------------------------------------------
// The sender
// ---------------------------------------------------------------------------

#[derive(Debug, Clone, Copy, PartialEq, Eq, Structural)]
pub struct TwampConfig {
    pub peer: SocketAddr,
    pub count: u32,
    pub interval: Duration,
    pub payload_bytes: usize,
    pub dscp: Option<u8>,
    pub timeout: Duration,
    pub linger: Duration,
}

impl Default for TwampConfig {
    fn default() -> (r: TwampConfig)
        ensures
            r.peer == (SocketAddr { ip: IpAddr::V4(0x7F00_0001), port: 862, scope_id: 0 }),
            r.count == 100,
            r.interval.nanos == 20_000_000,
            r.payload_bytes == DEFAULT_PACKET_LEN,
            r.dscp is None,
            r.timeout.nanos == 1_000_000_000,
            r.linger.nanos == 2_000_000_000,
    {
        TwampConfig {
            peer: SocketAddr::new(IpAddr::V4(0x7F00_0001), 862),
            count: 100,
            interval: Duration::from_millis(20),
            payload_bytes: DEFAULT_PACKET_LEN,
            dscp: None,
            timeout: Duration::from_secs(1),
            linger: Duration::from_secs(2),
        }
    }
}

#[derive(Debug, Clone, PartialEq, Eq)]
pub enum TwampSenderError {
    Io(String),
    BadPacketSize { requested: usize },
    EmptyRun,
}

/// What an error says.
pub open spec fn error_message(e: TwampSenderError) -> Seq<char> {
    match e {
        TwampSenderError::Io(s) => "socket error: "@ + s@,
        TwampSenderError::BadPacketSize { requested } => "packet size "@ + crate::text::decimal(
            requested as nat,
        ) + " is out of range ("@ + crate::text::decimal(SENDER_MIN_LEN as nat) + "..="@
            + crate::text::decimal(MAX_PACKET_LEN as nat) + ")"@,
        TwampSenderError::EmptyRun => "count must be at least 1"@,
    }
}

impl TwampSenderError {
    pub fn message(&self) -> (r: String)
        ensures
            r@ == error_message(*self),
    {
        match self {
            TwampSenderError::Io(s) => {
                let mut t = "socket error: ".to_owned();
                t.append(s.as_str());
                t
            },
            TwampSenderError::BadPacketSize { requested } => {
                let mut t = "packet size ".to_owned();
                push_decimal(&mut t, *requested as u128);
                t.append(" is out of range (");
                push_decimal(&mut t, SENDER_MIN_LEN as u128);
                t.append("..=");
                push_decimal(&mut t, MAX_PACKET_LEN as u128);
                t.append(")");
                t
            },
            TwampSenderError::EmptyRun => "count must be at least 1".to_owned(),
        }
    }
}

#[derive(Debug)]
pub struct TwampRun {
    pub sent: u32,
    pub samples: Vec<Sample>,
    pub late_ticks: u32,
    /// True when the responder ever set its synchronised bit. Recorded because
    /// one-way delay is only meaningful if it did, and ours never does.
    pub peer_claims_sync: bool,
}

/// What is wrong with a configuration.
pub open spec fn config_error(cfg: TwampConfig) -> Option<TwampSenderError> {
    if cfg.count == 0 {
        Some(TwampSenderError::EmptyRun)
    } else if !(SENDER_MIN_LEN <= cfg.payload_bytes <= MAX_PACKET_LEN) {
        Some(TwampSenderError::BadPacketSize { requested: cfg.payload_bytes })
    } else {
        None
    }
}

/// The packet numbered `seq`, but for its departure.
pub open spec fn request_packet(seq: u32) -> SenderPacket {
    SenderPacket {
        sequence: seq,
        timestamp: NtpTimestamp { seconds: 0, fraction: 0 },
        error_estimate: ErrorEstimate { synchronized: false, scale: 12, multiplier: 1 },
    }
}

/// A datagram from the peer says that its clock is synchronised.
pub open spec fn claims_sync(datagram: Seq<u8>, from: IpAddr, cfg: TwampConfig) -> bool {
    from == cfg.peer.ip && (twamp::reflector_decoded(datagram) matches Ok(r)
        && r.error_estimate.synchronized)
}

/// The sample that a datagram makes, where it counts as a reply.
///
/// The send time is our own record of it, not the echoed one: a responder that
/// mangles the field must not be able to corrupt our timing. Light mode has no
/// session, so the responder's counter spans all peers and tells this sender
/// nothing about its own return path. TWAMP has no field for the class a packet
/// arrived in, so DSCP conformance is unavailable rather than zero: that is the
/// gap MQP exists to close.
pub open spec fn sample_of(
    datagram: Seq<u8>,
    from: IpAddr,
    t4: NtpTimestamp,
    cfg: TwampConfig,
    sent_at: Seq<Option<NtpTimestamp>>,
    arrival_index: u32,
) -> Option<Sample> {
    if from != cfg.peer.ip {
        None
    } else {
        match twamp::reflector_decoded(datagram) {
            Err(_) => None,
            Ok(p) => if p.sender_sequence >= sent_at.len() || sent_at[p.sender_sequence as int] is None {
                None
            } else {
                match twamp::rtt_nanos(
                    sent_at[p.sender_sequence as int]->0,
                    p.receive_timestamp,
                    p.timestamp,
                    t4,
                ) {
                    None => None,
                    Some(rtt) => if rtt > cfg.timeout.nanos {
                        None
                    } else {
                        Some(
                            Sample {
                                seq: p.sender_sequence,
                                reflector_seq: None,
                                rtt_ns: crate::probe::held(rtt as u128),
                                tx_dscp: crate::probe::reflector::observed(cfg.dscp),
                                rx_dscp: None,
                                arrival_index,
                            },
                        )
                    },
                }
            },
        }
    }
}

/// Validate a reply and turn it into a sample. `peer_claims_sync` is set once
/// the responder sets its synchronised bit, whether the reply counts or not.
pub fn accept(
    buf: &[u8],
    peer: SocketAddr,
    t4: NtpTimestamp,
    cfg: &TwampConfig,
    sent_at: &Vec<Option<NtpTimestamp>>,
    arrival_index: u32,
    peer_claims_sync: &mut bool,
) -> (r: Option<Sample>)
    ensures
        r == sample_of(buf@, peer.ip, t4, *cfg, sent_at@, arrival_index),
        *final(peer_claims_sync) == (*old(peer_claims_sync) || claims_sync(buf@, peer.ip, *cfg)),
{
    if peer.ip != cfg.peer.ip {
        return None;
    }
    let p = match ReflectorPacket::decode(buf) {
        Ok(p) => p,
        Err(_) => return None,
    };
    if p.error_estimate.synchronized {
        *peer_claims_sync = true;
    }
    if p.sender_sequence as u64 >= sent_at.len() as u64 {
        return None;
    }
    let t1 = match sent_at[p.sender_sequence as usize] {
        Some(t) => t,
        None => return None,
    };
    let rtt = match twamp::round_trip(t1, p.receive_timestamp, p.timestamp, t4) {
        Some(d) => d,
        None => return None,
    };
    if rtt.nanos > cfg.timeout.nanos {
        return None;
    }
    Some(
        Sample {
            seq: p.sender_sequence,
            reflector_seq: None,
            rtt_ns: hold(rtt.nanos),
            tx_dscp: match cfg.dscp {
                Some(d) => d,
                None => 0,
            },
            rx_dscp: None,
            arrival_index,
        },
    )
}

/// A TWAMP run under way: what was sent when, and what came back.
///
/// Results reuse [`Sample`], so the same statistics and MOS code serves both
/// protocols.
#[derive(Debug)]
pub struct TwampProbing {
    pub cfg: TwampConfig,
    pub start: u64,
    /// The packet to send next.
    pub seq: u32,
    pub sent_at: Vec<Option<NtpTimestamp>>,
    pub samples: Vec<Sample>,
    pub arrival_index: u32,
    pub late_ticks: u32,
    pub peer_claims_sync: bool,
}

/// A sample of a run tells of a packet that was sent, in time, and claims
/// neither a direction nor a class.
pub open spec fn sound_sample(s: Sample, cfg: TwampConfig, sent_at: Seq<Option<NtpTimestamp>>) -> bool {
    &&& s.seq < sent_at.len()
    &&& sent_at[s.seq as int] is Some
    &&& s.rtt_ns <= cfg.timeout.nanos
    &&& s.reflector_seq is None
    &&& s.rx_dscp is None
}

impl TwampProbing {
    pub open spec fn wf(&self) -> bool {
        &&& config_error(self.cfg) is None
        &&& self.sent_at@.len() == self.cfg.count
        &&& self.seq <= self.cfg.count
        &&& self.samples@.len() == self.arrival_index
        &&& crate::probe::sender::in_arrival_order(self.samples@)
        &&& forall|i: int|
            self.seq <= i < self.sent_at@.len() ==> #[trigger] self.sent_at@[i] is None
        &&& forall|i: int|
            0 <= i < self.samples@.len() ==> sound_sample(
                #[trigger] self.samples@[i],
                self.cfg,
                self.sent_at@,
            )
    }

    /// Begin a run at `now`.
    pub fn begin(cfg: TwampConfig, now: u64) -> (r: Result<TwampProbing, TwampSenderError>)
        ensures
            match r {
                Ok(p) => {
                    &&& config_error(cfg) is None
                    &&& p.wf()
                    &&& p.cfg == cfg
                    &&& p.start == now
                    &&& p.seq == 0
                    &&& p.samples@.len() == 0
                    &&& p.arrival_index == 0
                    &&& p.late_ticks == 0
                    &&& !p.peer_claims_sync
                },
                Err(e) => config_error(cfg) == Some(e),
            },
    {
        if cfg.count == 0 {
            return Err(TwampSenderError::EmptyRun);
        }
        if cfg.payload_bytes < SENDER_MIN_LEN || cfg.payload_bytes > MAX_PACKET_LEN {
            return Err(TwampSenderError::BadPacketSize { requested: cfg.payload_bytes });
        }
        let mut sent_at: Vec<Option<NtpTimestamp>> = Vec::new();
        let mut i: u32 = 0;
        while i < cfg.count
            invariant
                i <= cfg.count,
                sent_at@.len() == i,
                forall|k: int| 0 <= k < sent_at@.len() ==> #[trigger] sent_at@[k] is None,
            decreases cfg.count - i,
        {
            sent_at.push(None);
            i = i + 1;
        }
        Ok(
            TwampProbing {
                cfg,
                start: now,
                seq: 0,
                sent_at,
                samples: Vec::new(),
                arrival_index: 0,
                late_ticks: 0,
                peer_claims_sync: false,
            },
        )
    }

    /// Whether there are packets left to send.
    pub fn has_more(&self) -> (r: bool)
        ensures
            r == (self.seq < self.cfg.count),
    {
        self.seq < self.cfg.count
    }

    /// Lay out the packet to send next in `buf`, on a tick at `now`. Its send
    /// time is still to be stamped, as late as possible.
    pub fn prepare(&mut self, now: u64, buf: &mut [u8])
        requires
            old(self).wf(),
            old(self).seq < old(self).cfg.count,
            old(buf)@.len() == old(self).cfg.payload_bytes,
        ensures
            final(self).wf(),
            final(self).late_ticks == (if crate::probe::sender::comes_late(
                old(self).start,
                old(self).cfg.interval,
                old(self).seq,
                now,
            ) && old(self).late_ticks < u32::MAX {
                (old(self).late_ticks + 1) as u32
            } else {
                old(self).late_ticks
            }),
            *final(self) == (TwampProbing { late_ticks: final(self).late_ticks, ..*old(self) }),
            final(buf)@.len() == old(buf)@.len(),
            twamp::sender_lays_out(final(buf)@, request_packet(old(self).seq)),
            forall|i: int|
                SENDER_MIN_LEN <= i < old(buf)@.len() ==> #[trigger] final(buf)@[i] == old(buf)@[i],
    {
        if is_late(self.start, self.cfg.interval, self.seq, now) {
            self.late_ticks = self.late_ticks.saturating_add(1);
        }
        let packet = SenderPacket {
            sequence: self.seq,
            timestamp: NtpTimestamp::zero(),
            error_estimate: ErrorEstimate::unsynchronized(),
        };
        let _ = packet.encode(buf);
    }

    /// Record what became of the packet that was sent at `t1`.
    pub fn sent(&mut self, t1: Option<NtpTimestamp>)
        requires
            old(self).wf(),
            old(self).seq < old(self).cfg.count,
        ensures
            final(self).wf(),
            final(self).sent_at@ == old(self).sent_at@.update(old(self).seq as int, t1),
            final(self).seq == old(self).seq + 1,
            final(self).cfg == old(self).cfg,
            final(self).start == old(self).start,
            final(self).samples@ == old(self).samples@,
            final(self).arrival_index == old(self).arrival_index,
            final(self).late_ticks == old(self).late_ticks,
            final(self).peer_claims_sync == old(self).peer_claims_sync,
    {
        let i: usize = self.seq as usize;
        self.sent_at.set(i, t1);
        self.seq = self.seq + 1;
        proof {
            assert forall|k: int| 0 <= k < self.samples@.len() implies sound_sample(
                #[trigger] self.samples@[k],
                self.cfg,
                self.sent_at@,
            ) by {
                assert(sound_sample(old(self).samples@[k], old(self).cfg, old(self).sent_at@));
            }
        }
    }

    /// Take in a datagram that arrived from `peer` at `t4`. Says whether it
    /// counted. Replies that no index is left for do not.
    pub fn receive(&mut self, buf: &[u8], peer: SocketAddr, t4: NtpTimestamp) -> (r: bool)
        requires
            old(self).wf(),
        ensures
            final(self).wf(),
            match sample_of(
                buf@,
                peer.ip,
                t4,
                old(self).cfg,
                old(self).sent_at@,
                old(self).arrival_index,
            ) {
                Some(s) if old(self).arrival_index < u32::MAX => {
                    &&& r
                    &&& final(self).samples@ == old(self).samples@.push(s)
                    &&& final(self).arrival_index == old(self).arrival_index + 1
                },
                _ => {
                    &&& !r
                    &&& final(self).samples@ == old(self).samples@
                    &&& final(self).arrival_index == old(self).arrival_index
                },
            },
            final(self).peer_claims_sync == (old(self).peer_claims_sync || claims_sync(
                buf@,
                peer.ip,
                old(self).cfg,
            )),
            final(self).cfg == old(self).cfg,
            final(self).start == old(self).start,
            final(self).seq == old(self).seq,
            final(self).sent_at == old(self).sent_at,
            final(self).late_ticks == old(self).late_ticks,
    {
        let mut claims = self.peer_claims_sync;
        let found = accept(
            buf,
            peer,
            t4,
            &self.cfg,
            &self.sent_at,
            self.arrival_index,
            &mut claims,
        );
        self.peer_claims_sync = claims;
        match found {
            Some(s) => {
                if self.arrival_index == u32::MAX {
                    return false;
                }
                self.samples.push(s);
                self.arrival_index = self.arrival_index + 1;
                true
            },
            None => false,
        }
    }

    /// What the run came to.
    pub fn finish(self) -> (r: TwampRun)
        requires
            self.wf(),
        ensures
            r.sent == crate::probe::sender::sent_count(self.sent_at@),
            r.sent <= self.cfg.count,
            r.samples@ == self.samples@,
            r.samples@.len() <= u32::MAX,
            crate::probe::sender::in_arrival_order(r.samples@),
            r.late_ticks == self.late_ticks,
            r.peer_claims_sync == self.peer_claims_sync,
    {
        let n: usize = count_sent(&self.sent_at);
        TwampRun {
            sent: n as u32,
            samples: self.samples,
            late_ticks: self.late_ticks,
            peer_claims_sync: self.peer_claims_sync,
        }
    }
}

/// Samples of a TWAMP run never claim a direction or a class that the protocol
/// cannot know.
pub proof fn law_samples_claim_no_direction(
    datagram: Seq<u8>,
    from: IpAddr,
    t4: NtpTimestamp,
    cfg: TwampConfig,
    sent_at: Seq<Option<NtpTimestamp>>,
    arrival_index: u32,
)
    ensures
        sample_of(datagram, from, t4, cfg, sent_at, arrival_index) matches Some(s) ==> sound_sample(
            s,
            cfg,
            sent_at,
        ),
{
}

/// Our own reflector never claims a synchronised clock.
pub proof fn law_replies_claim_no_synchronised_clock(
    request: SenderPacket,
    sequence: u32,
    t2: NtpTimestamp,
    meta: RecvMeta,
    wire: Seq<u8>,
)
    requires
        twamp::reflector_lays_out(wire, reply_for(request, sequence, t2, meta)),
        wire.len() <= MAX_PACKET_LEN,
    ensures
        twamp::reflector_decoded(wire) matches Ok(p) ==> !p.error_estimate.synchronized,
{
}

/// There is no amplification: a reply is never longer than a request that has
/// room for one, and as long as it up to the longest packet.
pub proof fn law_replies_are_no_longer_than_requests(n: nat)
    requires
        REFLECTOR_MIN_LEN <= n,
    ensures
        reply_len(n) <= n,
        n <= MAX_PACKET_LEN ==> reply_len(n) == n,
{
}

/// A packet that reaches our reflector, and whose reply comes back, is
/// measured: the reply makes a sample of the packet's own sequence number whose
/// round trip excludes the reflector's turnaround.
pub proof fn law_a_reflected_packet_is_measured(
    packet: Seq<u8>,
    wire: Seq<u8>,
    cfg: TwampConfig,
    seq: u32,
    counter: u32,
    meta: RecvMeta,
    t1: NtpTimestamp,
    t2: NtpTimestamp,
    t3: NtpTimestamp,
    t4: NtpTimestamp,
    sent_at: Seq<Option<NtpTimestamp>>,
    arrival_index: u32,
)
    requires
        twamp::sender_lays_out(packet, request_packet(seq)),
        packet.len() <= MAX_PACKET_LEN,
        twamp::reflector_lays_out(
            wire,
            reply_for(SenderPacket { timestamp: t1, ..request_packet(seq) }, counter, t2, meta),
        ),
        wire.len() <= MAX_PACKET_LEN,
        seq < sent_at.len(),
        sent_at[seq as int] == Some(t1),
        twamp::rtt_nanos(t1, t2, t3, t4) is Some,
        twamp::rtt_nanos(t1, t2, t3, t4)->0 <= cfg.timeout.nanos,
    ensures
        twamp::sender_decoded(twamp::ts_patched(packet, 4, t1)) == Ok::<
            SenderPacket,
            twamp::TwampError,
        >(SenderPacket { timestamp: t1, ..request_packet(seq) }),
        sample_of(
            twamp::ts_patched(wire, 4, t3),
            cfg.peer.ip,
            t4,
            cfg,
            sent_at,
            arrival_index,
        ) == Some(
            Sample {
                seq,
                reflector_seq: None,
                rtt_ns: crate::probe::held(twamp::rtt_nanos(t1, t2, t3, t4)->0 as u128),
                tx_dscp: crate::probe::reflector::observed(cfg.dscp),
                rx_dscp: None,
                arrival_index,
            },
        ),
{
    let asked = SenderPacket { timestamp: t1, ..request_packet(seq) };
    let reply = reply_for(asked, counter, t2, meta);
    twamp::law_sender_packet_round_trips(packet, request_packet(seq));
    twamp::law_stamping_t1_keeps_the_rest(packet, request_packet(seq), t1);
    twamp::law_reflector_packet_round_trips(wire, reply);
    twamp::law_stamping_t3_keeps_the_rest(wire, reply, t3);
}

} // verus!
