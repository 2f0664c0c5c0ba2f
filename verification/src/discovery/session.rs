//! What to ask a router next: surveys and captures, step by step.
//!
//! Each is a sequence of REST calls whose answers decide how it goes on. A
//! survey goes on without whatever a device does not have, and a capture falls
//! back to the traffic it *can* see. Nothing here talks to the router: a step
//! says what to do, and what came back is handed in.

use vstd::prelude::*;
use vstd::string::StrSliceExecFns;
use vstd::string::StringExecFns;

use crate::discovery::capture::{
    clamp, first_wireless_interface, packet_capture, sniff_request, sniffer_settings,
    wireless_capture, wireless_settings, Capture, PacketRun, NO_RADIO,
};
use crate::discovery::collect::{assemble, Replies, RATE_SAMPLE_SECS};
use crate::discovery::findings::Snapshot;
use crate::duration::Duration;
use crate::json::Json;
use crate::json::JsonView;
use crate::routeros::RouterOsError;

verus! {

/// What to do next.
#[derive(Debug)]
pub enum Step {
    Get { path: &'static str },
    Post { path: &'static str, body: Json },
    /// Let some time pass, in seconds.
    Wait { secs: u64 },
    /// Nothing: it is over.
    Finish,
}

/// A step with its text as values.
pub enum StepView {
    Get { path: Seq<char> },
    Post { path: Seq<char>, body: JsonView },
    Wait { secs: nat },
    Finish,
}

impl View for Step {
    type V = StepView;

    open spec fn view(&self) -> StepView {
        match *self {
            Step::Get { path } => StepView::Get { path: path@ },
            Step::Post { path, body } => StepView::Post { path: path@, body: body@ },
            Step::Wait { secs } => StepView::Wait { secs: secs as nat },
            Step::Finish => StepView::Finish,
        }
    }
}

// ---------------------------------------------------------------------------
// Surveys
// ---------------------------------------------------------------------------

/// How far a survey is: what it asks for next.
#[derive(Debug, Clone, Copy, PartialEq, Eq, Structural)]
pub enum SurveyStage {
    Arp,
    Leases,
    WifiClients,
    WifiRadios,
    LegacyClients,
    LegacyRadios,
    Interfaces,
    Between,
    InterfacesAgain,
    Pools,
    Over,
}

/// A survey under way: what the router has answered so far.
pub struct Survey {
    pub stage: SurveyStage,
    pub replies: Replies,
}

pub open spec fn survey_step(s: SurveyStage) -> StepView {
    match s {
        SurveyStage::Arp => StepView::Get { path: "/ip/arp"@ },
        SurveyStage::Leases => StepView::Get { path: "/ip/dhcp-server/lease"@ },
        SurveyStage::WifiClients => StepView::Get { path: "/interface/wifi/registration-table"@ },
        SurveyStage::WifiRadios => StepView::Get { path: "/interface/wifi"@ },
        SurveyStage::LegacyClients => StepView::Get {
            path: "/interface/wireless/registration-table"@,
        },
        SurveyStage::LegacyRadios => StepView::Get { path: "/interface/wireless"@ },
        SurveyStage::Interfaces => StepView::Get { path: "/interface"@ },
        SurveyStage::Between => StepView::Wait { secs: RATE_SAMPLE_SECS as nat },
        SurveyStage::InterfacesAgain => StepView::Get { path: "/interface"@ },
        SurveyStage::Pools => StepView::Get { path: "/ip/pool"@ },
        SurveyStage::Over => StepView::Finish,
    }
}

/// What follows a stage, by whether its request was answered. The modern
/// wireless stack is tried first, and the legacy one only where the device does
/// not have it. Without a first sample of the interfaces there is no second.
pub open spec fn survey_next(s: SurveyStage, answered: bool) -> SurveyStage {
    match s {
        SurveyStage::Arp => SurveyStage::Leases,
        SurveyStage::Leases => SurveyStage::WifiClients,
        SurveyStage::WifiClients => if answered {
            SurveyStage::WifiRadios
        } else {
            SurveyStage::LegacyClients
        },
        SurveyStage::WifiRadios => SurveyStage::Interfaces,
        SurveyStage::LegacyClients => if answered {
            SurveyStage::LegacyRadios
        } else {
            SurveyStage::Interfaces
        },
        SurveyStage::LegacyRadios => SurveyStage::Interfaces,
        SurveyStage::Interfaces => if answered {
            SurveyStage::Between
        } else {
            SurveyStage::Pools
        },
        SurveyStage::Between => SurveyStage::InterfacesAgain,
        SurveyStage::InterfacesAgain => SurveyStage::Pools,
        SurveyStage::Pools => SurveyStage::Over,
        SurveyStage::Over => SurveyStage::Over,
    }
}

/// `r` with the answer to a stage's request in its place.
pub open spec fn filed(r: Replies, s: SurveyStage, v: Option<Json>) -> Replies {
    match s {
        SurveyStage::Arp => Replies { arp: v, ..r },
        SurveyStage::Leases => Replies { leases: v, ..r },
        SurveyStage::WifiClients => Replies { wifi_clients: v, ..r },
        SurveyStage::WifiRadios => Replies { wifi_radios: v, ..r },
        SurveyStage::LegacyClients => Replies { legacy_clients: v, ..r },
        SurveyStage::LegacyRadios => Replies { legacy_radios: v, ..r },
        SurveyStage::Interfaces => Replies { interfaces_before: v, ..r },
        SurveyStage::InterfacesAgain => Replies { interfaces_after: v, ..r },
        SurveyStage::Pools => Replies { pools: v, ..r },
        SurveyStage::Between => r,
        SurveyStage::Over => r,
    }
}

/// What a request came to, where it came to anything.
pub open spec fn answer_of(reply: Result<Json, RouterOsError>) -> Option<Json> {
    match reply {
        Ok(v) => Some(v),
        Err(_) => None,
    }
}

fn keep_answer(reply: Result<Json, RouterOsError>) -> (r: Option<Json>)
    ensures
        r == answer_of(reply),
{
    match reply {
        Ok(v) => Some(v),
        Err(_) => None,
    }
}

impl Survey {
    pub fn begin() -> (r: Survey)
        ensures
            r.stage == SurveyStage::Arp,
            r.replies == (Replies {
                arp: None,
                leases: None,
                wifi_clients: None,
                wifi_radios: None,
                legacy_clients: None,
                legacy_radios: None,
                interfaces_before: None,
                interfaces_after: None,
                pools: None,
            }),
    {
        Survey {
            stage: SurveyStage::Arp,
            replies: Replies {
                arp: None,
                leases: None,
                wifi_clients: None,
                wifi_radios: None,
                legacy_clients: None,
                legacy_radios: None,
                interfaces_before: None,
                interfaces_after: None,
                pools: None,
            },
        }
    }

    pub fn step(&self) -> (r: Step)
        ensures
            r@ == survey_step(self.stage),
    {
        match self.stage {
            SurveyStage::Arp => Step::Get { path: "/ip/arp" },
            SurveyStage::Leases => Step::Get { path: "/ip/dhcp-server/lease" },
            SurveyStage::WifiClients => Step::Get { path: "/interface/wifi/registration-table" },
            SurveyStage::WifiRadios => Step::Get { path: "/interface/wifi" },
            SurveyStage::LegacyClients => Step::Get {
                path: "/interface/wireless/registration-table",
            },
            SurveyStage::LegacyRadios => Step::Get { path: "/interface/wireless" },
            SurveyStage::Interfaces => Step::Get { path: "/interface" },
            SurveyStage::Between => Step::Wait { secs: RATE_SAMPLE_SECS },
            SurveyStage::InterfacesAgain => Step::Get { path: "/interface" },
            SurveyStage::Pools => Step::Get { path: "/ip/pool" },
            SurveyStage::Over => Step::Finish,
        }
    }

    /// The request of this stage came to `reply`.
    pub fn answered(&mut self, reply: Result<Json, RouterOsError>)
        ensures
            final(self).stage == survey_next(old(self).stage, reply is Ok),
            final(self).replies == filed(old(self).replies, old(self).stage, answer_of(reply)),
    {
        let v = keep_answer(reply);
        let ok: bool = v.is_some();
        match self.stage {
            SurveyStage::Arp => {
                self.replies.arp = v;
                self.stage = SurveyStage::Leases;
            },
            SurveyStage::Leases => {
                self.replies.leases = v;
                self.stage = SurveyStage::WifiClients;
            },
            SurveyStage::WifiClients => {
                self.replies.wifi_clients = v;
                self.stage = if ok {
                    SurveyStage::WifiRadios
                } else {
                    SurveyStage::LegacyClients
                };
            },
            SurveyStage::WifiRadios => {
                self.replies.wifi_radios = v;
                self.stage = SurveyStage::Interfaces;
            },
            SurveyStage::LegacyClients => {
                self.replies.legacy_clients = v;
                self.stage = if ok {
                    SurveyStage::LegacyRadios
                } else {
                    SurveyStage::Interfaces
                };
            },
            SurveyStage::LegacyRadios => {
                self.replies.legacy_radios = v;
                self.stage = SurveyStage::Interfaces;
            },
            SurveyStage::Interfaces => {
                self.replies.interfaces_before = v;
                self.stage = if ok {
                    SurveyStage::Between
                } else {
                    SurveyStage::Pools
                };
            },
            SurveyStage::Between => {
                self.stage = SurveyStage::InterfacesAgain;
            },
            SurveyStage::InterfacesAgain => {
                self.replies.interfaces_after = v;
                self.stage = SurveyStage::Pools;
            },
            SurveyStage::Pools => {
                self.replies.pools = v;
                self.stage = SurveyStage::Over;
            },
            SurveyStage::Over => {},
        }
    }

    /// The time of this stage has passed.
    pub fn waited(&mut self)
        ensures
            final(self).stage == (if old(self).stage == SurveyStage::Between {
                SurveyStage::InterfacesAgain
            } else {
                old(self).stage
            }),
            final(self).replies == old(self).replies,
    {
        if self.stage == SurveyStage::Between {
            self.stage = SurveyStage::InterfacesAgain;
        }
    }

    /// What the survey found.
    pub fn finish(self) -> (r: Snapshot)
        ensures
            crate::discovery::collect::is_snapshot(r, self.replies),
    {
        assemble(&self.replies)
    }
}

/// How many stages are left at most.
pub open spec fn survey_left(s: SurveyStage) -> nat {
    match s {
        SurveyStage::Arp => 9,
        SurveyStage::Leases => 8,
        SurveyStage::WifiClients => 7,
        SurveyStage::LegacyClients => 6,
        SurveyStage::WifiRadios => 5,
        SurveyStage::LegacyRadios => 5,
        SurveyStage::Interfaces => 4,
        SurveyStage::Between => 3,
        SurveyStage::InterfacesAgain => 2,
        SurveyStage::Pools => 1,
        SurveyStage::Over => 0,
    }
}

/// A survey comes to its end whatever the router answers: every answer brings
/// it at least one stage further, and only the last one is over.
pub proof fn law_a_survey_always_ends(s: SurveyStage, answered: bool)
    ensures
        s != SurveyStage::Over ==> survey_left(survey_next(s, answered)) < survey_left(s),
        survey_left(s) == 0 <==> s == SurveyStage::Over,
{
}

/// The legacy wireless stack is asked only where the modern one did not answer.
pub proof fn law_one_wireless_stack_is_read(s: SurveyStage, answered: bool)
    ensures
        survey_next(s, answered) == SurveyStage::LegacyClients ==> s == SurveyStage::WifiClients
            && !answered,
        survey_next(s, answered) == SurveyStage::LegacyRadios ==> s == SurveyStage::LegacyClients
            && answered,
        survey_next(s, answered) == SurveyStage::WifiRadios ==> s == SurveyStage::WifiClients
            && answered,
{
}

// ---------------------------------------------------------------------------
// Captures
// ---------------------------------------------------------------------------

/// How far a capture is: what it does next.
#[derive(Debug, Clone, Copy, PartialEq, Eq, Structural)]
pub enum CaptureStage {
    /// Whether the device has a wireless sniffer at all.
    Sniffer,
    /// Which radio to sniff with.
    Radios,
    RadioSettings,
    Sniff,
    Frames,
    Settings,
    Start,
    Running,
    Stop,
    Hosts,
    Protocols,
    Over,
    /// It cannot go on.
    Failed,
}

/// A capture under way.
pub struct Capturing {
    pub interface: String,
    pub asked: Duration,
    pub hop_channels: bool,
    pub stage: CaptureStage,
    /// The radio that sniffs, once it is known.
    pub radio: String,
    pub radio_settings_applied: bool,
    pub frames: Option<Json>,
    pub packets: PacketRun,
    /// What it failed with.
    pub error: Option<RouterOsError>,
    /// Frames are captured, not packets.
    pub by_radio: bool,
}

pub open spec fn capture_step(c: Capturing) -> StepView {
    match c.stage {
        CaptureStage::Sniffer => StepView::Get { path: "/interface/wireless/sniffer"@ },
        CaptureStage::Radios => StepView::Get { path: "/interface/wireless"@ },
        CaptureStage::RadioSettings => StepView::Post {
            path: "/interface/wireless/sniffer/set"@,
            body: crate::discovery::capture::wireless_body(c.hop_channels),
        },
        CaptureStage::Sniff => StepView::Post {
            path: "/interface/wireless/sniffer/sniff"@,
            body: crate::discovery::capture::sniff_body(
                c.radio@,
                crate::discovery::capture::capture_secs(c.asked),
            ),
        },
        CaptureStage::Frames => StepView::Get { path: "/interface/wireless/sniffer/packet"@ },
        CaptureStage::Settings => StepView::Post {
            path: "/tool/sniffer/set"@,
            body: crate::discovery::capture::sniffer_body(c.interface@),
        },
        CaptureStage::Start => StepView::Post {
            path: "/tool/sniffer/start"@,
            body: JsonView::Object(Seq::empty()),
        },
        CaptureStage::Running => StepView::Wait {
            secs: crate::discovery::capture::capture_secs(c.asked),
        },
        CaptureStage::Stop => StepView::Post {
            path: "/tool/sniffer/stop"@,
            body: JsonView::Object(Seq::empty()),
        },
        CaptureStage::Hosts => StepView::Get { path: "/tool/sniffer/host"@ },
        CaptureStage::Protocols => StepView::Get { path: "/tool/sniffer/protocol"@ },
        CaptureStage::Over => StepView::Finish,
        CaptureStage::Failed => StepView::Finish,
    }
}

/// The radio that a list of wireless interfaces offers; empty where it offers
/// none.
pub open spec fn radio_in(v: Option<Json>) -> Seq<char> {
    match v {
        Some(j) => crate::discovery::capture::radio_to_use(j@.rows()),
        None => Seq::empty(),
    }
}

/// What follows a stage whose request came to `reply`.
///
/// A device without a wireless sniffer captures packets instead: returning the
/// traffic it *can* see, with an explanation, beats returning nothing. `sniff`
/// requires a radio and will not pick one itself. Settings that are not taken
/// and tables that cannot be read stop nothing. A sniffer that was started is
/// stopped before anything is read, whatever else fails.
pub open spec fn capture_next(c: Capturing, reply: Result<Json, RouterOsError>) -> CaptureStage {
    match c.stage {
        CaptureStage::Sniffer => if reply is Err {
            CaptureStage::Settings
        } else if c.interface@.len() == 0 {
            CaptureStage::Radios
        } else {
            CaptureStage::RadioSettings
        },
        CaptureStage::Radios => if radio_in(answer_of(reply)).len() > 0 {
            CaptureStage::RadioSettings
        } else {
            CaptureStage::Failed
        },
        CaptureStage::RadioSettings => CaptureStage::Sniff,
        CaptureStage::Sniff => if reply is Ok {
            CaptureStage::Frames
        } else {
            CaptureStage::Failed
        },
        CaptureStage::Frames => CaptureStage::Over,
        CaptureStage::Settings => CaptureStage::Start,
        CaptureStage::Start => if reply is Ok {
            CaptureStage::Running
        } else {
            CaptureStage::Failed
        },
        CaptureStage::Running => CaptureStage::Stop,
        CaptureStage::Stop => CaptureStage::Hosts,
        CaptureStage::Hosts => CaptureStage::Protocols,
        CaptureStage::Protocols => CaptureStage::Over,
        CaptureStage::Over => CaptureStage::Over,
        CaptureStage::Failed => CaptureStage::Failed,
    }
}

/// How the packet capture has gone once `reply` came.
pub open spec fn packets_noted(c: Capturing, reply: Result<Json, RouterOsError>) -> PacketRun {
    match c.stage {
        CaptureStage::Sniffer => PacketRun { instead_of_wireless: reply is Err, ..c.packets },
        CaptureStage::Settings => PacketRun { settings_applied: reply is Ok, ..c.packets },
        CaptureStage::Stop => PacketRun { stopped: reply is Ok, ..c.packets },
        CaptureStage::Hosts => PacketRun { hosts: answer_of(reply), ..c.packets },
        CaptureStage::Protocols => PacketRun { protocols: answer_of(reply), ..c.packets },
        _ => c.packets,
    }
}

/// `after` is the capture `c` once `reply` came.
pub open spec fn capture_goes_on(
    c: Capturing,
    reply: Result<Json, RouterOsError>,
    after: Capturing,
) -> bool {
    &&& after.stage == capture_next(c, reply)
    &&& after.interface == c.interface
    &&& after.asked == c.asked
    &&& after.hop_channels == c.hop_channels
    &&& after.packets == packets_noted(c, reply)
    &&& after.radio@ == (match c.stage {
        CaptureStage::Sniffer => if reply is Ok && c.interface@.len() > 0 {
            c.interface@
        } else {
            c.radio@
        },
        CaptureStage::Radios => if radio_in(answer_of(reply)).len() > 0 {
            radio_in(answer_of(reply))
        } else {
            c.radio@
        },
        _ => c.radio@,
    })
    &&& after.by_radio == (if c.stage == CaptureStage::Sniffer {
        reply is Ok
    } else {
        c.by_radio
    })
    &&& after.radio_settings_applied == (if c.stage == CaptureStage::RadioSettings {
        reply is Ok
    } else {
        c.radio_settings_applied
    })
    &&& after.frames == (if c.stage == CaptureStage::Frames {
        answer_of(reply)
    } else {
        c.frames
    })
    &&& match c.stage {
        CaptureStage::Radios => if radio_in(answer_of(reply)).len() > 0 {
            after.error == c.error
        } else {
            after.error matches Some(RouterOsError::Decode(why)) && why@ == NO_RADIO@
        },
        CaptureStage::Sniff => after.error == (match reply {
            Ok(_) => c.error,
            Err(e) => Some(e),
        }),
        CaptureStage::Start => after.error == (match reply {
            Ok(_) => c.error,
            Err(e) => Some(e),
        }),
        _ => after.error == c.error,
    }
}

impl Capturing {
    /// One that failed says what with.
    pub open spec fn wf(&self) -> bool {
        self.stage == CaptureStage::Failed <==> self.error is Some
    }

    /// Begin a capture on `interface`: of 802.11 frames where `frames` are
    /// asked for, else of IP traffic.
    pub fn begin(interface: &str, asked: Duration, frames: bool, hop_channels: bool) -> (r: Capturing)
        ensures
            r.wf(),
            r.stage == (if frames {
                CaptureStage::Sniffer
            } else {
                CaptureStage::Settings
            }),
            r.interface@ == interface@,
            r.asked == asked,
            r.hop_channels == hop_channels,
            r.radio@.len() == 0,
            !r.by_radio,
            !r.radio_settings_applied,
            r.frames is None,
            r.packets == (PacketRun {
                settings_applied: false,
                stopped: false,
                hosts: None,
                protocols: None,
                instead_of_wireless: false,
            }),
    {
        Capturing {
            interface: interface.to_owned(),
            asked,
            hop_channels,
            stage: if frames {
                CaptureStage::Sniffer
            } else {
                CaptureStage::Settings
            },
            radio: String::new(),
            radio_settings_applied: false,
            frames: None,
            packets: PacketRun {
                settings_applied: false,
                stopped: false,
                hosts: None,
                protocols: None,
                instead_of_wireless: false,
            },
            error: None,
            by_radio: false,
        }
    }

    pub fn step(&self) -> (r: Step)
        ensures
            r@ == capture_step(*self),
    {
        let (secs, _) = clamp(self.asked);
        match self.stage {
            CaptureStage::Sniffer => Step::Get { path: "/interface/wireless/sniffer" },
            CaptureStage::Radios => Step::Get { path: "/interface/wireless" },
            CaptureStage::RadioSettings => Step::Post {
                path: "/interface/wireless/sniffer/set",
                body: wireless_settings(self.hop_channels),
            },
            CaptureStage::Sniff => Step::Post {
                path: "/interface/wireless/sniffer/sniff",
                body: sniff_request(self.radio.as_str(), secs),
            },
            CaptureStage::Frames => Step::Get { path: "/interface/wireless/sniffer/packet" },
            CaptureStage::Settings => Step::Post {
                path: "/tool/sniffer/set",
                body: sniffer_settings(self.interface.as_str()),
            },
            CaptureStage::Start => Step::Post {
                path: "/tool/sniffer/start",
                body: Json::object(),
            },
            CaptureStage::Running => Step::Wait { secs },
            CaptureStage::Stop => Step::Post { path: "/tool/sniffer/stop", body: Json::object() },
            CaptureStage::Hosts => Step::Get { path: "/tool/sniffer/host" },
            CaptureStage::Protocols => Step::Get { path: "/tool/sniffer/protocol" },
            CaptureStage::Over => Step::Finish,
            CaptureStage::Failed => Step::Finish,
        }
    }

    /// The request of this stage came to `reply`.
    pub fn answered(&mut self, reply: Result<Json, RouterOsError>)
        requires
            old(self).wf(),
        ensures
            final(self).wf(),
            capture_goes_on(*old(self), reply, *final(self)),
    {
        let ok: bool = reply.is_ok();
        match self.stage {
            CaptureStage::Sniffer => {
                self.packets.instead_of_wireless = !ok;
                self.by_radio = ok;
                if !ok {
                    self.stage = CaptureStage::Settings;
                } else if self.interface.as_str().is_empty() {
                    self.stage = CaptureStage::Radios;
                } else {
                    self.radio = self.interface.clone();
                    self.stage = CaptureStage::RadioSettings;
                }
            },
            CaptureStage::Radios => {
                let found = match keep_answer(reply) {
                    Some(v) => first_wireless_interface(&v),
                    None => None,
                };
                match found {
                    Some(name) => {
                        self.radio = name;
                        self.stage = CaptureStage::RadioSettings;
                    },
                    None => {
                        self.error = Some(RouterOsError::Decode(NO_RADIO.to_owned()));
                        self.stage = CaptureStage::Failed;
                    },
                }
            },
            CaptureStage::RadioSettings => {
                self.radio_settings_applied = ok;
                self.stage = CaptureStage::Sniff;
            },
            CaptureStage::Sniff => match reply {
                Ok(_) => {
                    self.stage = CaptureStage::Frames;
                },
                Err(e) => {
                    self.error = Some(e);
                    self.stage = CaptureStage::Failed;
                },
            },
            CaptureStage::Frames => {
                self.frames = keep_answer(reply);
                self.stage = CaptureStage::Over;
            },
            CaptureStage::Settings => {
                self.packets.settings_applied = ok;
                self.stage = CaptureStage::Start;
            },
            CaptureStage::Start => match reply {
                Ok(_) => {
                    self.stage = CaptureStage::Running;
                },
                Err(e) => {
                    self.error = Some(e);
                    self.stage = CaptureStage::Failed;
                },
            },
            CaptureStage::Running => {
                self.stage = CaptureStage::Stop;
            },
            CaptureStage::Stop => {
                self.packets.stopped = ok;
                self.stage = CaptureStage::Hosts;
            },
            CaptureStage::Hosts => {
                self.packets.hosts = keep_answer(reply);
                self.stage = CaptureStage::Protocols;
            },
            CaptureStage::Protocols => {
                self.packets.protocols = keep_answer(reply);
                self.stage = CaptureStage::Over;
            },
            CaptureStage::Over => {},
            CaptureStage::Failed => {},
        }
    }

    /// The time of this stage has passed.
    pub fn waited(&mut self)
        requires
            old(self).wf(),
        ensures
            final(self).wf(),
            *final(self) == (Capturing {
                stage: if old(self).stage == CaptureStage::Running {
                    CaptureStage::Stop
                } else {
                    old(self).stage
                },
                ..*old(self)
            }),
    {
        if self.stage == CaptureStage::Running {
            self.stage = CaptureStage::Stop;
        }
    }

    /// What was captured, or what stood in the way.
    pub fn finish(self) -> (r: Result<Capture, RouterOsError>)
        ensures
            match self.error {
                Some(e) => r == Err::<Capture, RouterOsError>(e),
                None => r matches Ok(c) && (if self.by_radio {
                    crate::discovery::capture::is_wireless_capture(
                        c,
                        self.radio@,
                        self.asked,
                        self.hop_channels,
                        self.radio_settings_applied,
                        self.frames,
                    )
                } else {
                    crate::discovery::capture::is_packet_capture(
                        c,
                        self.interface@,
                        self.asked,
                        self.packets,
                    )
                }),
            },
    {
        match self.error {
            Some(e) => Err(e),
            None => if self.by_radio {
                Ok(
                    wireless_capture(
                        self.radio.as_str(),
                        self.asked,
                        self.hop_channels,
                        self.radio_settings_applied,
                        &self.frames,
                    ),
                )
            } else {
                Ok(packet_capture(self.interface.as_str(), self.asked, &self.packets))
            },
        }
    }
}

/// How many stages are left at most.
pub open spec fn capture_left(s: CaptureStage) -> nat {
    match s {
        CaptureStage::Sniffer => 7,
        CaptureStage::Radios => 4,
        CaptureStage::RadioSettings => 3,
        CaptureStage::Sniff => 2,
        CaptureStage::Frames => 1,
        CaptureStage::Settings => 6,
        CaptureStage::Start => 5,
        CaptureStage::Running => 4,
        CaptureStage::Stop => 3,
        CaptureStage::Hosts => 2,
        CaptureStage::Protocols => 1,
        CaptureStage::Over => 0,
        CaptureStage::Failed => 0,
    }
}

/// A capture comes to its end whatever the router answers.
pub proof fn law_a_capture_always_ends(c: Capturing, reply: Result<Json, RouterOsError>)
    ensures
        capture_left(c.stage) > 0 ==> capture_left(capture_next(c, reply)) < capture_left(c.stage),
        capture_left(c.stage) == 0 <==> (c.stage == CaptureStage::Over || c.stage
            == CaptureStage::Failed),
{
}

/// A sniffer that was started is told to stop, whatever else fails: no capture
/// leaves its running stage but to stop, and none reads what was sniffed before
/// that.
pub proof fn law_a_started_sniffer_is_stopped(c: Capturing, reply: Result<Json, RouterOsError>)
    ensures
        c.stage == CaptureStage::Running ==> capture_next(c, reply) == CaptureStage::Stop,
        capture_next(c, reply) == CaptureStage::Hosts ==> c.stage == CaptureStage::Stop,
        c.stage == CaptureStage::Stop || c.stage == CaptureStage::Hosts || c.stage
            == CaptureStage::Protocols ==> capture_next(c, reply) != CaptureStage::Failed,
{
}

/// A device without a wireless sniffer still captures: it is asked for packets,
/// and the result says why.
pub proof fn law_without_a_radio_sniffer_packets_are_captured(
    c: Capturing,
    e: RouterOsError,
    after: Capturing,
)
    requires
        c.stage == CaptureStage::Sniffer,
        capture_goes_on(c, Err(e), after),
    ensures
        after.stage == CaptureStage::Settings,
        !after.by_radio,
        after.packets.instead_of_wireless,
{
}

} // verus!
