//! What a survey or a capture asks a router for, and where the answers go.

use vstd::prelude::*;

use crate::discovery::capture::{Capture, PacketRun};
use crate::discovery::collect::Replies;
use crate::discovery::findings::Snapshot;
use crate::discovery::session::{CaptureStage, Capturing, StepView, SurveyStage};
use crate::discovery::tools::ScanHost;
use crate::duration::Duration;
use crate::json::Json;
use crate::json::JsonView;
use crate::routeros::RouterOsError;

verus! {

proof fn lemma_paths()
    ensures
        "/ip/arp"@.len() == 7,
        "/ip/dhcp-server/lease"@.len() == 21,
        "/interface/wifi/registration-table"@.len() == 34,
        "/interface/wifi"@.len() == 15,
        "/interface/wireless/registration-table"@.len() == 38,
        "/interface/wireless"@.len() == 19,
        "/interface"@.len() == 10,
        "/ip/pool"@.len() == 8,
{
    reveal_strlit("/ip/arp");
    reveal_strlit("/ip/dhcp-server/lease");
    reveal_strlit("/interface/wifi/registration-table");
    reveal_strlit("/interface/wifi");
    reveal_strlit("/interface/wireless/registration-table");
    reveal_strlit("/interface/wireless");
    reveal_strlit("/interface");
    reveal_strlit("/ip/pool");
}

/// The stage asks for `path`.
pub open spec fn asks_for(s: SurveyStage, path: Seq<char>) -> bool {
    crate::discovery::session::survey_step(s) == StepView::Get { path }
}

/// An answer is filed by what was asked for, and leaves the others as they were.
/// The interfaces are asked for twice: the first answer is what was before, the
/// second what came after.
pub proof fn law_answers_are_filed_by_what_was_asked(r: Replies, s: SurveyStage, v: Option<Json>)
    ensures
        ({
            let f = crate::discovery::session::filed(r, s, v);
            &&& f.arp == if asks_for(s, "/ip/arp"@) {
                v
            } else {
                r.arp
            }
            &&& f.leases == if asks_for(s, "/ip/dhcp-server/lease"@) {
                v
            } else {
                r.leases
            }
            &&& f.wifi_clients == if asks_for(s, "/interface/wifi/registration-table"@) {
                v
            } else {
                r.wifi_clients
            }
            &&& f.wifi_radios == if asks_for(s, "/interface/wifi"@) {
                v
            } else {
                r.wifi_radios
            }
            &&& f.legacy_clients == if asks_for(s, "/interface/wireless/registration-table"@) {
                v
            } else {
                r.legacy_clients
            }
            &&& f.legacy_radios == if asks_for(s, "/interface/wireless"@) {
                v
            } else {
                r.legacy_radios
            }
            &&& f.pools == if asks_for(s, "/ip/pool"@) {
                v
            } else {
                r.pools
            }
            &&& f.interfaces_before == if asks_for(s, "/interface"@) && s
                == SurveyStage::Interfaces {
                v
            } else {
                r.interfaces_before
            }
            &&& f.interfaces_after == if asks_for(s, "/interface"@) && s
                == SurveyStage::InterfacesAgain {
                v
            } else {
                r.interfaces_after
            }
        }),
{
    lemma_paths();
}

/// The stage that is reached after answers, each there or not.
pub open spec fn reached(s: SurveyStage, answers: Seq<bool>) -> SurveyStage
    decreases answers.len(),
{
    if answers.len() == 0 {
        s
    } else {
        crate::discovery::session::survey_next(reached(s, answers.drop_last()), answers.last())
    }
}

/// A survey begins with the ARP table and asks for everything in turn: the
/// leases, the clients and radios of one wireless stack, the interfaces twice
/// with two seconds between, and the pools. Whether a request is answered
/// changes nothing else in this than which wireless stack is asked.
pub proof fn law_a_survey_asks_for_everything(a: bool, b: bool, c: bool, d: bool, e: bool, f: bool)
    ensures
        asks_for(SurveyStage::Arp, "/ip/arp"@),
        asks_for(
            crate::discovery::session::survey_next(SurveyStage::Arp, a),
            "/ip/dhcp-server/lease"@,
        ),
        asks_for(
            crate::discovery::session::survey_next(SurveyStage::Leases, b),
            "/interface/wifi/registration-table"@,
        ),
        asks_for(
            crate::discovery::session::survey_next(SurveyStage::WifiClients, true),
            "/interface/wifi"@,
        ),
        asks_for(
            crate::discovery::session::survey_next(SurveyStage::WifiClients, false),
            "/interface/wireless/registration-table"@,
        ),
        asks_for(
            crate::discovery::session::survey_next(SurveyStage::LegacyClients, true),
            "/interface/wireless"@,
        ),
        asks_for(
            crate::discovery::session::survey_next(SurveyStage::LegacyClients, false),
            "/interface"@,
        ),
        asks_for(
            crate::discovery::session::survey_next(SurveyStage::WifiRadios, c),
            "/interface"@,
        ),
        asks_for(
            crate::discovery::session::survey_next(SurveyStage::LegacyRadios, c),
            "/interface"@,
        ),
        crate::discovery::session::survey_step(
            crate::discovery::session::survey_next(SurveyStage::Interfaces, true),
        ) == (StepView::Wait { secs: 2 }),
        asks_for(
            crate::discovery::session::survey_next(SurveyStage::Interfaces, false),
            "/ip/pool"@,
        ),
        asks_for(crate::discovery::session::survey_next(SurveyStage::Between, d), "/interface"@),
        asks_for(
            crate::discovery::session::survey_next(SurveyStage::InterfacesAgain, e),
            "/ip/pool"@,
        ),
        crate::discovery::session::survey_step(
            crate::discovery::session::survey_next(SurveyStage::Pools, f),
        ) == StepView::Finish,
        reached(SurveyStage::Arp, seq![a, b, true, c, true, d, e, f]) == SurveyStage::Over,
        reached(SurveyStage::Arp, seq![a, b, false, true, c, true, d, e, f]) == SurveyStage::Over,
        reached(SurveyStage::Arp, seq![a, b, false, false, true, d, e, f]) == SurveyStage::Over,
{
    reveal_with_fuel(reached, 10);
    let x = seq![a, b, true, c, true, d, e, f];
    let y = seq![a, b, false, true, c, true, d, e, f];
    let z = seq![a, b, false, false, true, d, e, f];
    lemma_reached(
        x,
        seq![
            SurveyStage::Arp,
            SurveyStage::Leases,
            SurveyStage::WifiClients,
            SurveyStage::WifiRadios,
            SurveyStage::Interfaces,
            SurveyStage::Between,
            SurveyStage::InterfacesAgain,
            SurveyStage::Pools,
            SurveyStage::Over,
        ],
        8,
    );
    lemma_reached(
        y,
        seq![
            SurveyStage::Arp,
            SurveyStage::Leases,
            SurveyStage::WifiClients,
            SurveyStage::LegacyClients,
            SurveyStage::LegacyRadios,
            SurveyStage::Interfaces,
            SurveyStage::Between,
            SurveyStage::InterfacesAgain,
            SurveyStage::Pools,
            SurveyStage::Over,
        ],
        9,
    );
    lemma_reached(
        z,
        seq![
            SurveyStage::Arp,
            SurveyStage::Leases,
            SurveyStage::WifiClients,
            SurveyStage::LegacyClients,
            SurveyStage::Interfaces,
            SurveyStage::Between,
            SurveyStage::InterfacesAgain,
            SurveyStage::Pools,
            SurveyStage::Over,
        ],
        8,
    );
    assert(x.take(8) =~= x);
    assert(y.take(9) =~= y);
    assert(z.take(8) =~= z);
}

proof fn lemma_reached(answers: Seq<bool>, stages: Seq<SurveyStage>, n: int)
    requires
        0 <= n <= answers.len(),
        stages.len() == answers.len() + 1,
        stages[0] == SurveyStage::Arp,
        forall|i: int|
            0 <= i < answers.len() ==> crate::discovery::session::survey_next(
                stages[i],
                #[trigger] answers[i],
            ) == stages[i + 1],
    ensures
        reached(SurveyStage::Arp, answers.take(n)) == stages[n],
    decreases n,
{
    if n > 0 {
        lemma_reached(answers, stages, n - 1);
        assert(answers.take(n).drop_last() =~= answers.take(n - 1));
        assert(answers.take(n).last() == answers[n - 1]);
    }
}

/// Under `key` the settings have the text `s`.
pub open spec fn sets(j: JsonView, key: Seq<char>, s: Seq<char>) -> bool {
    j.get(key) == Some(JsonView::Text(s))
}

/// The sniffer writes no file and keeps ten megabytes at most; it is held to the
/// interface that is named, and to none where none is.
pub proof fn law_how_a_packet_sniffer_is_set(interface: Seq<char>)
    ensures
        ({
            let j = crate::discovery::capture::sniffer_body(interface);
            &&& sets(j, "file-name"@, Seq::empty())
            &&& sets(j, "memory-limit"@, "10"@)
            &&& interface.len() > 0 ==> sets(j, "filter-interface"@, interface)
            &&& interface.len() == 0 ==> j.get("filter-interface"@) is None
        }),
{
    reveal_strlit("");
    reveal_strlit("file-name");
    reveal_strlit("memory-limit");
    reveal_strlit("filter-interface");
    assert(""@ =~= Seq::<char>::empty());
    assert("file-name"@.len() == 9 && "memory-limit"@.len() == 12);
    assert("filter-interface"@.len() == 16);
    let j0 = JsonView::Object(Seq::empty());
    let j1 = j0.put("file-name"@, JsonView::Text(""@));
    let j2 = j1.put("memory-limit"@, JsonView::Text("10"@));
    crate::json::lemma_put(j0, "file-name"@, JsonView::Text(""@));
    crate::json::lemma_put(j1, "memory-limit"@, JsonView::Text("10"@));
    crate::json::lemma_put(j2, "filter-interface"@, JsonView::Text(interface));
    assert(j0.get("file-name"@) is None);
    assert(j1.get("memory-limit"@) is None);
    assert(j2.get("filter-interface"@) is None);
    assert(j2.get("file-name"@) == j1.get("file-name"@));
    let j = crate::discovery::capture::sniffer_body(interface);
    assert(j.get("file-name"@) == j1.get("file-name"@));
    assert(j.get("memory-limit"@) == j2.get("memory-limit"@));
}

/// The wireless sniffer keeps headers alone and hops channels exactly when that
/// is asked for; it sniffs on the radio named for the seconds given.
pub proof fn law_how_a_radio_sniffer_is_set(hop: bool, radio: Seq<char>, secs: nat)
    ensures
        ({
            let j = crate::discovery::capture::wireless_body(hop);
            &&& sets(j, "file-name"@, Seq::empty())
            &&& sets(j, "memory-limit"@, "10"@)
            &&& sets(
                j,
                "multiple-channels"@,
                if hop {
                    "yes"@
                } else {
                    "no"@
                },
            )
            &&& sets(j, "only-headers"@, "yes"@)
        }),
        ({
            let j = crate::discovery::capture::sniff_body(radio, secs);
            &&& sets(j, "interface"@, radio)
            &&& sets(j, "duration"@, crate::text::decimal(secs))
        }),
{
    reveal_strlit("");
    reveal_strlit("file-name");
    reveal_strlit("memory-limit");
    reveal_strlit("multiple-channels");
    reveal_strlit("only-headers");
    reveal_strlit("interface");
    reveal_strlit("duration");
    assert(""@ =~= Seq::<char>::empty());
    assert("file-name"@.len() == 9 && "memory-limit"@.len() == 12);
    assert("multiple-channels"@.len() == 17 && "only-headers"@.len() == 12);
    assert("memory-limit"@[0] == 'm' && "only-headers"@[0] == 'o');
    assert("interface"@.len() == 9 && "duration"@.len() == 8);
    let f = crate::discovery::capture::wireless_body(hop)->Object_0;
    assert(f.len() == 4);
    crate::json::lemma_field_at(f, 0);
    crate::json::lemma_field_at(f, 1);
    crate::json::lemma_field_at(f, 2);
    crate::json::lemma_field_at(f, 3);
    let g = crate::discovery::capture::sniff_body(radio, secs)->Object_0;
    crate::json::lemma_field_at(g, 0);
    crate::json::lemma_field_at(g, 1);
}

/// What a capture keeps of each answer: the radio sniffer's absence is noted and
/// stood in for, the tables of hosts and protocols are kept as they came, and so
/// is whether the settings were taken and the sniffer stopped.
pub proof fn law_what_a_capture_keeps(
    c: Capturing,
    reply: Result<Json, RouterOsError>,
    after: Capturing,
)
    requires
        crate::discovery::session::capture_goes_on(c, reply, after),
    ensures
        after.interface == c.interface,
        after.asked == c.asked,
        after.hop_channels == c.hop_channels,
        c.stage == CaptureStage::Sniffer ==> after.packets.instead_of_wireless == (reply is Err)
            && after.by_radio == (reply is Ok),
        c.stage == CaptureStage::Settings ==> after.packets.settings_applied == (reply is Ok),
        c.stage == CaptureStage::Stop ==> after.packets.stopped == (reply is Ok),
        c.stage == CaptureStage::Hosts && reply is Ok ==> after.packets.hosts == Some(reply->Ok_0),
        c.stage == CaptureStage::Protocols && reply is Ok ==> after.packets.protocols == Some(
            reply->Ok_0,
        ),
        c.stage == CaptureStage::Start && reply is Ok ==> after.stage == CaptureStage::Running,
        c.stage == CaptureStage::Running ==> after.stage == CaptureStage::Stop,
        c.stage == CaptureStage::Sniffer && reply is Ok && c.interface@.len() > 0 ==> after.radio@
            == c.interface@,
{
}

/// The row has something under `key`.
pub open spec fn fills(row: JsonView, key: Seq<char>) -> bool {
    crate::discovery::collect::cell(row, key).len() > 0
}

/// A snapshot is made of what was answered: an ARP entry for each row with an
/// address, a lease for each with a hardware address, in their order; of what
/// was not answered there is nothing. Neighbours are not part of it.
pub proof fn law_what_a_snapshot_holds(s: Snapshot, from: Replies)
    requires
        crate::discovery::collect::is_snapshot(s, from),
    ensures
        from.arp is None ==> s.arp@.len() == 0,
        from.arp matches Some(v) ==> {
            let rows = v@.rows().filter(|x: JsonView| fills(x, "address"@));
            &&& s.arp@.len() == rows.len()
            &&& forall|i: int|
                0 <= i < rows.len() ==> (#[trigger] s.arp@[i]).address@
                    == crate::discovery::collect::cell(rows[i], "address"@)
        },
        from.leases is None ==> s.leases@.len() == 0,
        from.leases matches Some(v) ==> s.leases@.len() == v@.rows().filter(
            |x: JsonView| fills(x, "active-mac-address"@) || fills(x, "mac-address"@),
        ).len(),
        from.interfaces_before is None || from.interfaces_after is None ==> s.interfaces@.len()
            == 0,
        from.pools is None ==> s.dhcp_pool_size is None,
        s.neighbour_aps@.len() == 0,
{
    let none = Seq::<JsonView>::empty();
    let a = |x: JsonView| crate::discovery::collect::has_address(x);
    let b = |x: JsonView| crate::discovery::collect::has_lease_mac(x);
    assert(none.filter(a).len() == 0 && none.filter(b).len() == 0) by {
        reveal(Seq::filter);
    }
    if from.arp is Some {
        crate::discovery::laws::lemma_same_filter(
            from.arp->0@.rows(),
            a,
            |x: JsonView| fills(x, "address"@),
        );
    }
    if from.leases is Some {
        crate::discovery::laws::lemma_same_filter(
            from.leases->0@.rows(),
            b,
            |x: JsonView| fills(x, "active-mac-address"@) || fills(x, "mac-address"@),
        );
    }
}

/// Wireless clients are those of the modern stack where it answers, and of the
/// legacy stack where it does not: one for each row with a hardware address.
/// Radios are those of the same stack.
pub proof fn law_which_wireless_stack_counts(s: Snapshot, from: Replies)
    requires
        crate::discovery::collect::is_snapshot(s, from),
    ensures
        from.wifi_clients matches Some(v) ==> s.clients@.len() == v@.rows().filter(
            |x: JsonView| fills(x, "mac-address"@),
        ).len(),
        from.wifi_clients is Some && from.wifi_radios is None ==> s.radios@.len() == 0,
        from.wifi_clients is Some && from.wifi_radios is Some ==> s.radios@.len()
            == from.wifi_radios->0@.rows().filter(|x: JsonView| fills(x, "name"@)).len(),
        from.wifi_clients is None && from.legacy_clients is Some ==> s.clients@.len()
            == from.legacy_clients->0@.rows().filter(|x: JsonView| fills(x, "mac-address"@)).len(),
        from.wifi_clients is None && from.legacy_clients is None ==> s.clients@.len() == 0
            && s.radios@.len() == 0,
        from.wifi_clients is None && from.legacy_clients is Some && from.legacy_radios is Some
            ==> s.radios@.len() == from.legacy_radios->0@.rows().filter(
            |x: JsonView| fills(x, "name"@),
        ).len(),
{
    let none = Seq::<JsonView>::empty();
    let a = |x: JsonView| crate::discovery::collect::has_mac(x);
    let b = |x: JsonView| crate::discovery::collect::has_name(x);
    let a1 = |x: JsonView| fills(x, "mac-address"@);
    let b1 = |x: JsonView| fills(x, "name"@);
    assert(none.filter(a).len() == 0 && none.filter(b).len() == 0) by {
        reveal(Seq::filter);
    }
    if from.wifi_clients is Some {
        crate::discovery::laws::lemma_same_filter(from.wifi_clients->0@.rows(), a, a1);
    }
    if from.wifi_radios is Some {
        crate::discovery::laws::lemma_same_filter(from.wifi_radios->0@.rows(), b, b1);
    }
    if from.legacy_clients is Some {
        crate::discovery::laws::lemma_same_filter(from.legacy_clients->0@.rows(), a, a1);
    }
    if from.legacy_radios is Some {
        crate::discovery::laws::lemma_same_filter(from.legacy_radios->0@.rows(), b, b1);
    }
}

/// Rates are given for each interface of the second sample that has a name and
/// was in the first.
pub proof fn law_which_interfaces_have_rates(s: Snapshot, from: Replies, i: int)
    requires
        crate::discovery::collect::is_snapshot(s, from),
        from.interfaces_before is Some,
        from.interfaces_after is Some,
        0 <= i < s.interfaces@.len(),
    ensures
        s.interfaces@.len() <= from.interfaces_after->0@.rows().len(),
        exists|a: int, b: int|
            0 <= a < from.interfaces_before->0@.rows().len() && 0 <= b
                < from.interfaces_after->0@.rows().len() && s.interfaces@[i].name@
                == crate::discovery::collect::cell(
                #[trigger] from.interfaces_before->0@.rows()[a],
                "name"@,
            ) && s.interfaces@[i].name@ == crate::discovery::collect::cell(
                #[trigger] from.interfaces_after->0@.rows()[b],
                "name"@,
            ),
{
    let first = from.interfaces_before->0@.rows();
    let second = from.interfaces_after->0@.rows();
    let p = |x: JsonView| crate::discovery::collect::sampled_twice(first, x);
    let kept = second.filter(p);
    let name = crate::discovery::collect::cell(kept[i], "name"@);
    second.lemma_filter_len(p);
    crate::discovery::laws::lemma_picked(second, p);
    assert(p(kept[i]) && second.contains(kept[i]));
    let b = choose|b: int| 0 <= b < second.len() && second[b] == kept[i];
    crate::discovery::reading_laws::law_interfaces_are_matched_by_name(first, name, 0);
    let row = crate::discovery::collect::named(first, name, 0)->0;
    let a = choose|a: int|
        0 <= a < first.len() && #[trigger] first[a] == row && crate::discovery::collect::cell(
            row,
            "name"@,
        ) == name && forall|k: int|
            0 <= k < a ==> crate::discovery::collect::cell(#[trigger] first[k], "name"@) != name;
    assert(crate::discovery::collect::is_rate(s.interfaces@[i], row, kept[i]));
    assert(s.interfaces@[i].name@ == crate::discovery::collect::cell(first[a], "name"@));
    assert(s.interfaces@[i].name@ == crate::discovery::collect::cell(second[b], "name"@));
}

/// A packet capture says where and how long, and notes what went wrong: exactly
/// where the settings were not taken, the sniffer was not stopped, or it stands
/// in for the radio.
pub proof fn law_what_a_packet_capture_notes(
    r: Capture,
    interface: Seq<char>,
    asked: Duration,
    run: PacketRun,
)
    requires
        crate::discovery::capture::is_packet_capture(r, interface, asked, run),
        asked.nanos < 61_000_000_000,
    ensures
        r.interface@ == interface,
        r.frames@.len() == 0 && !r.used_wireless_sniffer,
        run.hosts is None ==> r.hosts@.len() == 0,
        run.protocols is None ==> r.protocols@.len() == 0,
        r.notes@.len() == (if run.settings_applied {
            0int
        } else {
            1
        }) + (if run.stopped {
            0int
        } else {
            1
        }) + (if run.instead_of_wireless {
            1int
        } else {
            0
        }),
        !run.settings_applied ==> r.notes@[0]@ == crate::discovery::capture::SETTINGS_NOTE@,
        run.settings_applied && !run.stopped ==> r.notes@[0]@
            == crate::discovery::capture::RUNNING_NOTE@,
        run.instead_of_wireless ==> r.notes@[r.notes@.len() - 1]@
            == crate::discovery::capture::NO_SNIFFER_NOTE@,
{
    let v = crate::text::views(r.notes@);
    assert(v.len() == r.notes@.len());
    assert(forall|i: int| 0 <= i < v.len() ==> v[i] == (#[trigger] r.notes@[i])@);
    assert(crate::discovery::capture::capture_notes(asked).len() == 0);
    let none = Seq::<JsonView>::empty();
    reveal_with_fuel(crate::order::arranged, 1);
    if run.hosts is None {
        assert(crate::discovery::capture::hosts_by_load(none).len() == 0);
        assert(crate::discovery::capture::host_views(r.hosts@).len() == r.hosts@.len());
    }
    if run.protocols is None {
        assert(crate::discovery::capture::protocols_by_bytes(none).len() == 0);
        assert(crate::discovery::capture::protocol_views(r.protocols@).len()
            == r.protocols@.len());
    }
}

/// A radio capture holds a frame for each row that names a station, and says that
/// the radio was taken from its clients; that it hopped and that its settings
/// were not taken are noted where they hold.
pub proof fn law_what_a_radio_capture_notes(
    r: Capture,
    interface: Seq<char>,
    asked: Duration,
    hop: bool,
    applied: bool,
    reply: Option<Json>,
)
    requires
        crate::discovery::capture::is_wireless_capture(r, interface, asked, hop, applied, reply),
        asked.nanos < 61_000_000_000,
    ensures
        r.interface@ == interface,
        r.used_wireless_sniffer && r.hosts@.len() == 0 && r.protocols@.len() == 0,
        r.wireless_frames == r.frames@.len(),
        reply is Some ==> r.frames@.len() == reply->0@.rows().filter(
            |x: JsonView|
                crate::discovery::capture::cell(x, "src"@).len() > 0
                    || crate::discovery::capture::cell(x, "dst"@).len() > 0,
        ).len(),
        reply is None ==> r.frames@.len() == 0,
        r.notes@.len() == 1 + (if hop {
            1int
        } else {
            0
        }) + (if applied {
            0int
        } else {
            1
        }),
        r.notes@[0]@ == "radio "@ + interface + crate::discovery::capture::MONITOR_TAIL@,
        hop ==> r.notes@[1]@ == crate::discovery::capture::HOP_NOTE@,
        !applied ==> r.notes@[r.notes@.len() - 1]@
            == crate::discovery::capture::WIRELESS_SETTINGS_NOTE@,
{
    let v = crate::text::views(r.notes@);
    let p = |x: JsonView| crate::discovery::capture::has_station(x);
    let q = |x: JsonView|
        crate::discovery::capture::cell(x, "src"@).len() > 0 || crate::discovery::capture::cell(
            x,
            "dst"@,
        ).len() > 0;
    assert(v.len() == r.notes@.len());
    assert(forall|i: int| 0 <= i < v.len() ==> v[i] == (#[trigger] r.notes@[i])@);
    assert(crate::discovery::capture::capture_notes(asked).len() == 0);
    assert(Seq::<JsonView>::empty().filter(p).len() == 0) by {
        reveal(Seq::filter);
    }
    if reply is Some {
        crate::discovery::laws::lemma_same_filter(reply->0@.rows(), p, q);
    }
}

/// What each stage of a capture does: the sniffer is set to the interface that
/// was asked for, runs for the time that was asked for, and its tables of hosts
/// and protocols are read; the radio's sniffer is run on its radio, and its
/// frames are read.
pub proof fn law_what_a_capture_asks(c: Capturing)
    ensures
        ({
            let s = crate::discovery::session::capture_step(c);
            let secs = crate::discovery::capture::capture_secs(c.asked);
            &&& c.stage == CaptureStage::Settings ==> s == (StepView::Post {
                path: "/tool/sniffer/set"@,
                body: crate::discovery::capture::sniffer_body(c.interface@),
            })
            &&& c.stage == CaptureStage::Start ==> s is Post && s->Post_path
                == "/tool/sniffer/start"@
            &&& c.stage == CaptureStage::Running ==> s == (StepView::Wait { secs })
            &&& c.stage == CaptureStage::Stop ==> s is Post && s->Post_path == "/tool/sniffer/stop"@
            &&& c.stage == CaptureStage::Hosts ==> s == (StepView::Get {
                path: "/tool/sniffer/host"@,
            })
            &&& c.stage == CaptureStage::Protocols ==> s == (StepView::Get {
                path: "/tool/sniffer/protocol"@,
            })
            &&& c.stage == CaptureStage::RadioSettings ==> s == (StepView::Post {
                path: "/interface/wireless/sniffer/set"@,
                body: crate::discovery::capture::wireless_body(c.hop_channels),
            })
            &&& c.stage == CaptureStage::Sniff ==> s == (StepView::Post {
                path: "/interface/wireless/sniffer/sniff"@,
                body: crate::discovery::capture::sniff_body(c.radio@, secs),
            })
            &&& c.stage == CaptureStage::Frames ==> s == (StepView::Get {
                path: "/interface/wireless/sniffer/packet"@,
            })
        }),
{
}

/// A host that answered a scan is read as its row gives it, its DNS name without
/// the point at its end; a lone dash gives nothing.
pub proof fn law_scanned_hosts_are_read(h: ScanHost, row: JsonView, s: Seq<char>)
    requires
        crate::discovery::tools::is_host(h, row),
        s != "-"@,
        s.len() > 0 && s.last() != '.',
    ensures
        row.get("address"@) == Some(JsonView::Text(s)) ==> h.address@ == s,
        row.get("mac-address"@) == Some(JsonView::Text(s)) ==> h.mac@ == s,
        row.get("netbios"@) == Some(JsonView::Text(s)) ==> h.netbios@ == s,
        row.get("dns"@) == Some(JsonView::Text(s)) ==> h.dns@ == s,
        row.get("dns"@) == Some(JsonView::Text(s + seq!['.'])) ==> h.dns@ == s,
{
    reveal_strlit("-");
    let f = |x: char| x == '.';
    let dotted = s + seq!['.'];
    assert(dotted.last() == '.' && dotted.drop_last() =~= s);
    assert(crate::text::without_back(s, f) == s);
    assert(crate::text::without_back(dotted, f) == s);
    assert("-"@.len() == 1);
    assert(dotted.len() > 1);
}

} // verus!
