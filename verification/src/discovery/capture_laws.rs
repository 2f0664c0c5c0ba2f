//! What the findings on a capture say of the frames and hosts captured.

use vstd::prelude::*;

use crate::discovery::capture::{Capture, HostTraffic, Tally, TalliedView, WirelessFrame};
use crate::discovery::findings::{FindingView, Severity};

verus! {

/// The frame was sent by the station `name`.
pub open spec fn is_from(f: WirelessFrame, name: Seq<char>) -> bool {
    f.src@ == name
}

/// The frames that the station `name` sent.
pub open spec fn sent_by(frames: Seq<WirelessFrame>, name: Seq<char>) -> Seq<WirelessFrame> {
    frames.filter(|f: WirelessFrame| is_from(f, name))
}

/// The frame carries data.
pub open spec fn carries_data(f: WirelessFrame) -> bool {
    crate::text::lowered(f.frame_type@) == "data"@
}

/// It does, at 12 Mbit/s or below.
pub open spec fn carries_data_slowly(f: WirelessFrame) -> bool {
    carries_data(f) && 0 < f.rate_kbps <= 12_000
}

/// It does, to every station.
pub open spec fn carries_data_to_all(f: WirelessFrame) -> bool {
    carries_data(f) && crate::text::lowered(f.dst@) == "ff:ff:ff:ff:ff:ff"@
}

proof fn lemma_lowered()
    ensures
        crate::text::lowered("data"@) == "data"@,
        crate::text::lowered("FF:FF:FF:FF:FF:FF"@) == "ff:ff:ff:ff:ff:ff"@,
{
    reveal_strlit("data");
    reveal_strlit("FF:FF:FF:FF:FF:FF");
    reveal_strlit("ff:ff:ff:ff:ff:ff");
    assert(crate::text::lowered("data"@) =~= "data"@);
    assert(crate::text::lowered("FF:FF:FF:FF:FF:FF"@) =~= "ff:ff:ff:ff:ff:ff"@);
}

/// Each entry of a ranking is a name that some frame bears, with its count; each
/// such name is in it; the first has the highest count; and there are two
/// entries exactly when there are two names.
proof fn lemma_ranking(frames: Seq<WirelessFrame>, what: Tally)
    ensures
        ({
            let r = crate::discovery::capture::ranking(frames, what);
            &&& forall|i: int|
                #![trigger r[i]]
                0 <= i < r.len() ==> r[i].count == crate::discovery::capture::tally_count(
                    frames,
                    what,
                    r[i].name,
                ) && r[i].count <= r[0].count
            &&& r.len() > 1 <==> exists|i: int, k: int|
                0 <= i < frames.len() && 0 <= k < frames.len()
                    && crate::discovery::capture::tallied(what, #[trigger] frames[i])
                    && crate::discovery::capture::tallied(what, #[trigger] frames[k])
                    && crate::discovery::capture::label(what, frames[i])
                    != crate::discovery::capture::label(what, frames[k])
        }),
{
    let p = |f: WirelessFrame| crate::discovery::capture::tallied(what, f);
    let name = |f: WirelessFrame| crate::discovery::capture::label(what, f);
    let names = crate::discovery::capture::tally_names(frames, what);
    let flat = Seq::new(
        names.len(),
        |i: int|
            TalliedView {
                name: names[i],
                count: crate::discovery::capture::tally_count(frames, what, names[i]) as int,
            },
    );
    let rank = |t: TalliedView| -t.count;
    let r = crate::discovery::capture::ranking(frames, what);
    crate::order::lemma_arranged(flat, rank);
    crate::discovery::group::lemma_names(frames, p, name);
    assert forall|i: int| #![trigger r[i]] 0 <= i < r.len() implies r[i].count
        == crate::discovery::capture::tally_count(frames, what, r[i].name) && r[i].count
        <= r[0].count by {
        assert(r.contains(r[i]));
        crate::order::lemma_arranged_contains(flat, rank, r[i]);
        let k = choose|k: int| 0 <= k < flat.len() && flat[k] == r[i];
        assert(rank(r[0]) <= rank(r[i]));
    }
    if r.len() > 1 {
        assert(names.contains(names[0]) && names.contains(names[1]));
        crate::discovery::laws::lemma_named(frames, p, name, names[0]);
        crate::discovery::laws::lemma_named(frames, p, name, names[1]);
        crate::text::lemma_precedes(names[0], names[1]);
        let i = choose|i: int|
            0 <= i < frames.len() && p(#[trigger] frames[i]) && name(frames[i]) == names[0];
        let k = choose|k: int|
            0 <= k < frames.len() && p(#[trigger] frames[k]) && name(frames[k]) == names[1];
        assert(crate::discovery::capture::tallied(what, frames[i]));
        assert(crate::discovery::capture::tallied(what, frames[k]));
    }
    if exists|i: int, k: int|
        0 <= i < frames.len() && 0 <= k < frames.len() && crate::discovery::capture::tallied(
            what,
            #[trigger] frames[i],
        ) && crate::discovery::capture::tallied(what, #[trigger] frames[k])
            && crate::discovery::capture::label(what, frames[i])
            != crate::discovery::capture::label(what, frames[k]) {
        let (i, k) = choose|i: int, k: int|
            0 <= i < frames.len() && 0 <= k < frames.len() && crate::discovery::capture::tallied(
                what,
                #[trigger] frames[i],
            ) && crate::discovery::capture::tallied(what, #[trigger] frames[k])
                && crate::discovery::capture::label(what, frames[i])
                != crate::discovery::capture::label(what, frames[k]);
        assert(p(frames[i]) && p(frames[k]));
        assert(names.contains(name(frames[i])) && names.contains(name(frames[k])));
        let a = choose|a: int| 0 <= a < names.len() && names[a] == name(frames[i]);
        let b = choose|b: int| 0 <= b < names.len() && names[b] == name(frames[k]);
        assert(a != b);
    }
}

/// A name that some frame bears is in the ranking.
proof fn lemma_ranked(frames: Seq<WirelessFrame>, what: Tally, k: int) -> (i: int)
    requires
        0 <= k < frames.len(),
        crate::discovery::capture::tallied(what, frames[k]),
    ensures
        0 <= i < crate::discovery::capture::ranking(frames, what).len(),
        crate::discovery::capture::ranking(frames, what)[i].name
            == crate::discovery::capture::label(what, frames[k]),
{
    let p = |f: WirelessFrame| crate::discovery::capture::tallied(what, f);
    let name = |f: WirelessFrame| crate::discovery::capture::label(what, f);
    let names = crate::discovery::capture::tally_names(frames, what);
    let flat = Seq::new(
        names.len(),
        |i: int|
            TalliedView {
                name: names[i],
                count: crate::discovery::capture::tally_count(frames, what, names[i]) as int,
            },
    );
    let rank = |t: TalliedView| -t.count;
    let r = crate::discovery::capture::ranking(frames, what);
    crate::discovery::group::lemma_names(frames, p, name);
    assert(p(frames[k]));
    assert(names.contains(name(frames[k])));
    let a = choose|a: int| 0 <= a < names.len() && names[a] == name(frames[k]);
    assert(flat.contains(flat[a]));
    crate::order::lemma_arranged_contains(flat, rank, flat[a]);
    let i = choose|i: int| 0 <= i < r.len() && r[i] == flat[a];
    i
}

/// Some frame bears each name of a ranking.
proof fn lemma_ranked_from(frames: Seq<WirelessFrame>, what: Tally, i: int) -> (k: int)
    requires
        0 <= i < crate::discovery::capture::ranking(frames, what).len(),
    ensures
        0 <= k < frames.len(),
        crate::discovery::capture::tallied(what, frames[k]),
        crate::discovery::capture::label(what, frames[k]) == crate::discovery::capture::ranking(
            frames,
            what,
        )[i].name,
{
    let p = |f: WirelessFrame| crate::discovery::capture::tallied(what, f);
    let name = |f: WirelessFrame| crate::discovery::capture::label(what, f);
    let names = crate::discovery::capture::tally_names(frames, what);
    let flat = Seq::new(
        names.len(),
        |i: int|
            TalliedView {
                name: names[i],
                count: crate::discovery::capture::tally_count(frames, what, names[i]) as int,
            },
    );
    let rank = |t: TalliedView| -t.count;
    let r = crate::discovery::capture::ranking(frames, what);
    assert(r.contains(r[i]));
    crate::order::lemma_arranged_contains(flat, rank, r[i]);
    let a = choose|a: int| 0 <= a < flat.len() && flat[a] == r[i];
    assert(names.contains(names[a]));
    crate::discovery::laws::lemma_named(frames, p, name, names[a]);
    let k = choose|k: int|
        0 <= k < frames.len() && p(#[trigger] frames[k]) && name(frames[k]) == names[a];
    k
}

proof fn lemma_source_count(frames: Seq<WirelessFrame>, name: Seq<char>)
    requires
        name.len() > 0,
    ensures
        crate::discovery::capture::tally_count(frames, Tally::Source, name) == sent_by(
            frames,
            name,
        ).len(),
{
    let what = Tally::Source;
    let p = |f: WirelessFrame|
        crate::discovery::capture::tallied(what, f) && crate::discovery::capture::label(what, f)
            == name;
    let q = |f: WirelessFrame| is_from(f, name);
    crate::discovery::laws::lemma_lines(frames, p, |f: WirelessFrame| f.src@);
    crate::discovery::laws::lemma_same_filter(frames, p, q);
}

/// The finding names the station `name`: it is a sender, no station sent more
/// frames, it sent half of all frames or more, the share given is that of its
/// own frames among all, and it heads the list.
pub open spec fn tells_of_talker(
    f: FindingView,
    frames: Seq<WirelessFrame>,
    name: Seq<char>,
    share: nat,
) -> bool {
    &&& f.code == "capture.wifi_dominant_transmitter"@
    &&& f.severity == Severity::Info
    &&& name.len() > 0
    &&& 2 * sent_by(frames, name).len() >= frames.len()
    &&& forall|k: int|
        0 <= k < frames.len() && (#[trigger] frames[k]).src@.len() > 0 ==> sent_by(
            frames,
            frames[k].src@,
        ).len() <= sent_by(frames, name).len()
    &&& crate::discovery::laws::is_percentage(share, sent_by(frames, name).len(), frames.len())
    &&& f.summary == name + " sent "@ + crate::text::decimal(share)
        + "% of the frames on this channel"@
    &&& f.evidence.len() > 0
    &&& f.evidence[0] == name + ": "@ + crate::text::decimal(sent_by(frames, name).len())
        + " frames"@
}

/// Two stations sent something.
pub open spec fn has_two_senders(frames: Seq<WirelessFrame>) -> bool {
    exists|i: int, k: int|
        0 <= i < frames.len() && 0 <= k < frames.len() && (#[trigger] frames[i]).src@.len() > 0 && (
        #[trigger] frames[k]).src@.len() > 0 && frames[i].src@ != frames[k].src@
}

/// Some station sent half of all frames or more.
pub open spec fn has_heavy_sender(frames: Seq<WirelessFrame>) -> bool {
    exists|k: int|
        0 <= k < frames.len() && (#[trigger] frames[k]).src@.len() > 0 && 2 * sent_by(
            frames,
            frames[k].src@,
        ).len() >= frames.len()
}

proof fn lemma_talker(frames: Seq<WirelessFrame>)
    ensures
        ({
            let v = crate::discovery::capture::talker_of(frames);
            &&& v.len() <= 1
            &&& v.len() == 1 <==> has_two_senders(frames) && has_heavy_sender(frames)
            &&& v.len() == 1 ==> exists|name: Seq<char>, share: nat| #[trigger]
                tells_of_talker(v[0], frames, name, share)
        }),
{
    let what = Tally::Source;
    let r = crate::discovery::capture::ranking(frames, what);
    let v = crate::discovery::capture::talker_of(frames);
    lemma_ranking(frames, what);
    assert(r.len() > 1 <==> has_two_senders(frames)) by {
        if r.len() > 1 {
            let (i, k) = choose|i: int, k: int|
                0 <= i < frames.len() && 0 <= k < frames.len()
                    && crate::discovery::capture::tallied(what, #[trigger] frames[i])
                    && crate::discovery::capture::tallied(what, #[trigger] frames[k])
                    && crate::discovery::capture::label(what, frames[i])
                    != crate::discovery::capture::label(what, frames[k]);
            assert(frames[i].src@ != frames[k].src@);
        }
        if has_two_senders(frames) {
            let (i, k) = choose|i: int, k: int|
                0 <= i < frames.len() && 0 <= k < frames.len() && (
                #[trigger] frames[i]).src@.len() > 0 && (#[trigger] frames[k]).src@.len() > 0
                    && frames[i].src@ != frames[k].src@;
            assert(crate::discovery::capture::tallied(what, frames[i]));
            assert(crate::discovery::capture::tallied(what, frames[k]));
            assert(crate::discovery::capture::label(what, frames[i])
                != crate::discovery::capture::label(what, frames[k]));
        }
    }
    if r.len() > 1 {
        let top = r[0].name;
        let k0 = lemma_ranked_from(frames, what, 0);
        assert(frames[k0].src@ == top && top.len() > 0);
        lemma_source_count(frames, top);
        let n = sent_by(frames, top).len();
        assert(r[0].count == n);
        assert forall|k: int| 0 <= k < frames.len() && (#[trigger] frames[k]).src@.len() > 0 implies sent_by(
        frames, frames[k].src@).len() <= n by {
            let i = lemma_ranked(frames, what, k);
            lemma_source_count(frames, frames[k].src@);
            assert(r[i].count <= r[0].count);
        }
        if has_heavy_sender(frames) {
            let k = choose|k: int|
                0 <= k < frames.len() && (#[trigger] frames[k]).src@.len() > 0 && 2 * sent_by(
                    frames,
                    frames[k].src@,
                ).len() >= frames.len();
            assert(sent_by(frames, frames[k].src@).len() <= n);
        }
        if 2 * n >= frames.len() {
            assert(has_heavy_sender(frames));
            let share = crate::round::rounded_quotient(n * 100, frames.len());
            crate::discovery::laws::lemma_rounded(n * 100, frames.len());
            let words = crate::discovery::capture::words_of(
                r,
                crate::discovery::capture::Wording::Talker,
                5,
            );
            assert(words[0] == top + ": "@ + crate::text::decimal(n) + " frames"@);
            assert(tells_of_talker(v[0], frames, top, share));
        }
    }
}

proof fn lemma_wireless_codes()
    ensures
        "capture.wifi_crc_errors"@.len() == 23,
        "capture.wifi_low_rate_frames"@.len() == 28,
        "capture.wifi_dominant_transmitter"@.len() == 33,
        "capture.wifi_frame_mix"@.len() == 22,
        "capture.wifi_broadcast_heavy"@.len() == 28,
        "capture.wireless_silent"@.len() == 23,
        "capture.wifi_low_rate_frames"@ != "capture.wifi_broadcast_heavy"@,
        "capture.wireless_silent"@ != "capture.wifi_crc_errors"@,
{
    reveal_strlit("capture.wifi_crc_errors");
    reveal_strlit("capture.wifi_low_rate_frames");
    reveal_strlit("capture.wifi_dominant_transmitter");
    reveal_strlit("capture.wifi_frame_mix");
    reveal_strlit("capture.wifi_broadcast_heavy");
    reveal_strlit("capture.wireless_silent");
    assert("capture.wifi_low_rate_frames"@[13] == 'l');
    assert("capture.wifi_broadcast_heavy"@[13] == 'b');
    assert("capture.wireless_silent"@[10] == 'r');
    assert("capture.wifi_crc_errors"@[10] == 'f');
}

/// The findings of a capture that has frames are those of each rule, and each
/// rule has a code of its own.
proof fn lemma_wireless_parts(cap: Capture, j: int)
    requires
        cap.frames@.len() > 0,
        0 <= j < crate::discovery::capture::wireless_findings(cap).len(),
    ensures
        ({
            let f = crate::discovery::capture::wireless_findings(cap)[j];
            let frames = cap.frames@;
            &&& f.code == "capture.wifi_crc_errors"@ ==> crate::discovery::capture::crc_of(
                frames,
            ).len() == 1 && f == crate::discovery::capture::crc_of(frames)[0]
            &&& f.code == "capture.wifi_low_rate_frames"@
                ==> crate::discovery::capture::low_rate_of(frames).len() == 1 && f
                == crate::discovery::capture::low_rate_of(frames)[0]
            &&& f.code == "capture.wifi_dominant_transmitter"@
                ==> crate::discovery::capture::talker_of(frames).len() == 1 && f
                == crate::discovery::capture::talker_of(frames)[0]
            &&& f.code == "capture.wifi_frame_mix"@ ==> crate::discovery::capture::mix_of(
                frames,
                cap.interface@,
            ).len() == 1 && f == crate::discovery::capture::mix_of(frames, cap.interface@)[0]
            &&& f.code == "capture.wifi_broadcast_heavy"@
                ==> crate::discovery::capture::broadcast_of(frames).len() == 1 && f
                == crate::discovery::capture::broadcast_of(frames)[0]
        }),
{
    lemma_wireless_codes();
    let frames = cap.frames@;
    let a = crate::discovery::capture::crc_of(frames);
    let b = crate::discovery::capture::low_rate_of(frames);
    let c = crate::discovery::capture::talker_of(frames);
    let d = crate::discovery::capture::mix_of(frames, cap.interface@);
    let e = crate::discovery::capture::broadcast_of(frames);
    let all = crate::discovery::capture::wireless_findings(cap);
    assert(all == a + b + c + d + e);
    if j < a.len() {
        assert(all[j] == a[j]);
    } else if j < a.len() + b.len() {
        assert(all[j] == b[j - a.len()]);
    } else if j < a.len() + b.len() + c.len() {
        assert(all[j] == c[j - a.len() - b.len()]);
    } else if j < a.len() + b.len() + c.len() + d.len() {
        assert(all[j] == d[j - a.len() - b.len() - c.len()]);
    } else {
        assert(all[j] == e[j - a.len() - b.len() - c.len() - d.len()]);
    }
}

/// What a rule says is in the findings.
proof fn lemma_wireless_has(cap: Capture)
    requires
        cap.frames@.len() > 0,
    ensures
        ({
            let out = crate::discovery::capture::wireless_findings(cap);
            let frames = cap.frames@;
            &&& crate::discovery::capture::crc_of(frames).len() == 1 ==> exists|j: int|
                0 <= j < out.len() && (#[trigger] out[j]).code == "capture.wifi_crc_errors"@
            &&& crate::discovery::capture::low_rate_of(frames).len() == 1 ==> exists|j: int|
                0 <= j < out.len() && (#[trigger] out[j]).code == "capture.wifi_low_rate_frames"@
            &&& crate::discovery::capture::talker_of(frames).len() == 1 ==> exists|j: int|
                0 <= j < out.len() && (#[trigger] out[j]).code
                    == "capture.wifi_dominant_transmitter"@
            &&& crate::discovery::capture::mix_of(frames, cap.interface@).len() == 1
                ==> exists|j: int|
                0 <= j < out.len() && (#[trigger] out[j]).code == "capture.wifi_frame_mix"@
            &&& crate::discovery::capture::broadcast_of(frames).len() == 1 ==> exists|j: int|
                0 <= j < out.len() && (#[trigger] out[j]).code == "capture.wifi_broadcast_heavy"@
        }),
{
    let frames = cap.frames@;
    let a = crate::discovery::capture::crc_of(frames);
    let b = crate::discovery::capture::low_rate_of(frames);
    let c = crate::discovery::capture::talker_of(frames);
    let d = crate::discovery::capture::mix_of(frames, cap.interface@);
    let e = crate::discovery::capture::broadcast_of(frames);
    let all = crate::discovery::capture::wireless_findings(cap);
    if a.len() == 1 {
        assert(all[0] == a[0]);
    }
    if b.len() == 1 {
        assert(all[a.len() as int] == b[0]);
    }
    if c.len() == 1 {
        assert(all[(a.len() + b.len()) as int] == c[0]);
    }
    if d.len() == 1 {
        assert(all[(a.len() + b.len() + c.len()) as int] == d[0]);
    }
    if e.len() == 1 {
        assert(all[(a.len() + b.len() + c.len() + d.len()) as int] == e[0]);
    }
}

/// The station that is named as dominant sent at least half of the captured
/// frames, and the share given is the count of the frames from that very
/// station over all frames. One is named exactly when one of several stations
/// sent so many.
pub proof fn law_the_dominant_transmitter_is_the_one_that_sent_most(cap: Capture)
    requires
        cap.frames@.len() > 0,
    ensures
        ({
            let out = crate::discovery::capture::wireless_findings(cap);
            &&& forall|j: int|
                0 <= j < out.len() && (#[trigger] out[j]).code
                    == "capture.wifi_dominant_transmitter"@ ==> exists|
                    name: Seq<char>,
                    share: nat,
                | #[trigger]
                    tells_of_talker(out[j], cap.frames@, name, share)
            &&& (exists|j: int|
                0 <= j < out.len() && (#[trigger] out[j]).code
                    == "capture.wifi_dominant_transmitter"@) <==> has_two_senders(cap.frames@)
                && has_heavy_sender(cap.frames@)
        }),
{
    let out = crate::discovery::capture::wireless_findings(cap);
    let v = crate::discovery::capture::talker_of(cap.frames@);
    lemma_talker(cap.frames@);
    lemma_wireless_has(cap);
    assert forall|j: int|
        0 <= j < out.len() && (#[trigger] out[j]).code
            == "capture.wifi_dominant_transmitter"@ implies v.len() == 1 && out[j] == v[0] by {
        lemma_wireless_parts(cap, j);
    }
}

/// Frames that failed their checksum are reported from 15 in 100 on, critically
/// from 30 in 100, with their count, the count of all frames and the share.
pub proof fn law_checksum_failures_are_counted(cap: Capture)
    requires
        cap.frames@.len() > 0,
    ensures
        ({
            let out = crate::discovery::capture::wireless_findings(cap);
            let n = cap.frames@.len();
            let bad = cap.frames@.filter(|f: WirelessFrame| f.crc_error).len();
            &&& (exists|j: int|
                0 <= j < out.len() && (#[trigger] out[j]).code == "capture.wifi_crc_errors"@)
                <==> bad * 100 >= 15 * n
            &&& forall|j: int|
                0 <= j < out.len() && (#[trigger] out[j]).code == "capture.wifi_crc_errors"@ ==> {
                    &&& out[j].severity == if bad * 100 >= 30 * n {
                        Severity::Critical
                    } else {
                        Severity::Warning
                    }
                    &&& exists|share: nat| #[trigger]
                        crate::discovery::laws::is_percentage(share, bad, n)
                            && crate::discovery::laws::opens_with(
                            out[j].summary,
                            crate::text::decimal(share) + "% of captured frames failed CRC ("@
                                + crate::text::decimal(bad) + " of "@ + crate::text::decimal(n),
                        )
                }
        }),
{
    let p = |f: WirelessFrame| f.crc_error;
    let n = cap.frames@.len();
    let bad = cap.frames@.filter(p).len();
    let out = crate::discovery::capture::wireless_findings(cap);
    let v = crate::discovery::capture::crc_of(cap.frames@);
    crate::discovery::laws::lemma_lines(cap.frames@, p, |f: WirelessFrame| f.src@);
    lemma_wireless_has(cap);
    assert forall|j: int|
        0 <= j < out.len() && (#[trigger] out[j]).code
            == "capture.wifi_crc_errors"@ implies v.len() == 1 && out[j] == v[0] by {
        lemma_wireless_parts(cap, j);
    }
    let share = crate::round::rounded_quotient(bad * 100, n);
    crate::discovery::laws::lemma_rounded(bad * 100, n);
    assert(crate::discovery::laws::is_percentage(share, bad, n));
    crate::discovery::laws::lemma_opens(
        crate::text::decimal(share) + "% of captured frames failed CRC ("@ + crate::text::decimal(
            bad,
        ) + " of "@ + crate::text::decimal(n),
        crate::discovery::capture::CRC_TAIL@,
    );
}

/// Of at least twenty data frames, those at 12 Mbit/s or below are reported
/// from 40 in 100 on, with their count, the count of the data frames and the
/// share.
pub proof fn law_slow_data_frames_are_counted(cap: Capture)
    requires
        cap.frames@.len() > 0,
    ensures
        ({
            let out = crate::discovery::capture::wireless_findings(cap);
            let data = cap.frames@.filter(|f: WirelessFrame| carries_data(f)).len();
            let slow = cap.frames@.filter(|f: WirelessFrame| carries_data_slowly(f)).len();
            &&& (exists|j: int|
                0 <= j < out.len() && (#[trigger] out[j]).code == "capture.wifi_low_rate_frames"@)
                <==> data >= 20 && slow * 100 >= 40 * data
            &&& forall|j: int|
                0 <= j < out.len() && (#[trigger] out[j]).code
                    == "capture.wifi_low_rate_frames"@ ==> {
                    &&& out[j].severity == Severity::Warning
                    &&& exists|share: nat| #[trigger]
                        crate::discovery::laws::is_percentage(share, slow, data)
                            && crate::discovery::laws::opens_with(
                            out[j].summary,
                            crate::text::decimal(share) + "% of data frames ("@
                                + crate::text::decimal(slow) + " of "@ + crate::text::decimal(data),
                        )
                }
        }),
{
    let p = |f: WirelessFrame| crate::discovery::capture::is_data(f);
    let p1 = |f: WirelessFrame| carries_data(f);
    let q = |f: WirelessFrame| crate::discovery::capture::is_slow(f);
    let q1 = |f: WirelessFrame| carries_data_slowly(f);
    lemma_lowered();
    crate::discovery::laws::lemma_lines(cap.frames@, p, |f: WirelessFrame| f.src@);
    crate::discovery::laws::lemma_lines(cap.frames@, q, |f: WirelessFrame| f.src@);
    crate::discovery::laws::lemma_same_filter(cap.frames@, p, p1);
    crate::discovery::laws::lemma_same_filter(cap.frames@, q, q1);
    let data = cap.frames@.filter(p1).len();
    let slow = cap.frames@.filter(q1).len();
    let out = crate::discovery::capture::wireless_findings(cap);
    let v = crate::discovery::capture::low_rate_of(cap.frames@);
    lemma_wireless_has(cap);
    assert forall|j: int|
        0 <= j < out.len() && (#[trigger] out[j]).code
            == "capture.wifi_low_rate_frames"@ implies v.len() == 1 && out[j] == v[0] by {
        lemma_wireless_parts(cap, j);
    }
    if v.len() == 1 {
        let share = crate::round::rounded_quotient(slow * 100, data);
        crate::discovery::laws::lemma_rounded(slow * 100, data);
        assert(crate::discovery::laws::is_percentage(share, slow, data));
        crate::discovery::laws::lemma_opens(
            crate::text::decimal(share) + "% of data frames ("@ + crate::text::decimal(slow)
                + " of "@ + crate::text::decimal(data),
            crate::discovery::capture::LOW_RATE_TAIL@,
        );
    }
}

/// Of at least twenty data frames, those to every station are reported from 30
/// in 100 on, with their count, the count of the data frames and the share.
pub proof fn law_broadcast_data_frames_are_counted(cap: Capture)
    requires
        cap.frames@.len() > 0,
    ensures
        ({
            let out = crate::discovery::capture::wireless_findings(cap);
            let data = cap.frames@.filter(|f: WirelessFrame| carries_data(f)).len();
            let all = cap.frames@.filter(|f: WirelessFrame| carries_data_to_all(f)).len();
            &&& (exists|j: int|
                0 <= j < out.len() && (#[trigger] out[j]).code == "capture.wifi_broadcast_heavy"@)
                <==> data >= 20 && all * 100 >= 30 * data
            &&& forall|j: int|
                0 <= j < out.len() && (#[trigger] out[j]).code
                    == "capture.wifi_broadcast_heavy"@ ==> {
                    &&& out[j].severity == Severity::Warning
                    &&& exists|share: nat| #[trigger]
                        crate::discovery::laws::is_percentage(share, all, data)
                            && crate::discovery::laws::opens_with(
                            out[j].summary,
                            crate::text::decimal(share) + "% of data frames ("@
                                + crate::text::decimal(all) + " of "@ + crate::text::decimal(data),
                        )
                }
        }),
{
    let p = |f: WirelessFrame| crate::discovery::capture::is_data(f);
    let p1 = |f: WirelessFrame| carries_data(f);
    let q = |f: WirelessFrame|
        crate::discovery::capture::is_data(f) && crate::discovery::capture::to_everyone(f);
    let q1 = |f: WirelessFrame| carries_data_to_all(f);
    lemma_lowered();
    crate::discovery::laws::lemma_lines(cap.frames@, p, |f: WirelessFrame| f.src@);
    crate::discovery::laws::lemma_lines(cap.frames@, q, |f: WirelessFrame| f.src@);
    crate::discovery::laws::lemma_same_filter(cap.frames@, p, p1);
    crate::discovery::laws::lemma_same_filter(cap.frames@, q, q1);
    let data = cap.frames@.filter(p1).len();
    let all = cap.frames@.filter(q1).len();
    let out = crate::discovery::capture::wireless_findings(cap);
    let v = crate::discovery::capture::broadcast_of(cap.frames@);
    lemma_wireless_has(cap);
    assert forall|j: int|
        0 <= j < out.len() && (#[trigger] out[j]).code
            == "capture.wifi_broadcast_heavy"@ implies v.len() == 1 && out[j] == v[0] by {
        lemma_wireless_parts(cap, j);
    }
    if v.len() == 1 {
        let share = crate::round::rounded_quotient(all * 100, data);
        crate::discovery::laws::lemma_rounded(all * 100, data);
        assert(crate::discovery::laws::is_percentage(share, all, data));
        crate::discovery::laws::lemma_opens(
            crate::text::decimal(share) + "% of data frames ("@ + crate::text::decimal(all)
                + " of "@ + crate::text::decimal(data),
            crate::discovery::capture::BROADCAST_TAIL@,
        );
    }
}

/// The higher of the two rates of a host.
pub open spec fn throughput(h: HostTraffic) -> int {
    if h.tx_rate_bps >= h.rx_rate_bps {
        h.tx_rate_bps as int
    } else {
        h.rx_rate_bps as int
    }
}

/// What all hosts together move.
pub open spec fn moved_by(hosts: Seq<HostTraffic>) -> int {
    hosts.fold_left(0, |a: int, h: HostTraffic| a + throughput(h))
}

proof fn lemma_moved(hosts: Seq<HostTraffic>)
    ensures
        crate::discovery::capture::load(hosts) == moved_by(hosts),
    decreases hosts.len(),
{
    reveal(Seq::fold_left);
    if hosts.len() > 0 {
        lemma_moved(hosts.drop_last());
    }
}

proof fn lemma_flood_moved(hosts: Seq<HostTraffic>)
    ensures
        crate::discovery::capture::flood_load(hosts) == moved_by(
            hosts.filter(|h: HostTraffic| crate::discovery::capture::floods(h.address@)),
        ),
    decreases hosts.len(),
{
    reveal(Seq::fold_left);
    reveal(Seq::filter);
    let p = |h: HostTraffic| crate::discovery::capture::floods(h.address@);
    if hosts.len() > 0 {
        let rest = hosts.drop_last();
        lemma_flood_moved(rest);
        if p(hosts.last()) {
            assert(rest.filter(p).push(hosts.last()).drop_last() =~= rest.filter(p));
        }
    }
}

/// Of several hosts, listed busiest first, the first is named as dominant
/// exactly when it moved half of what all moved, with its share of it; four
/// fifths make it a warning. Traffic to addresses that reach everyone is
/// reported as critical exactly when it is three tenths of what all moved, with
/// its share of it. Nothing is said where nothing moved.
pub proof fn law_dominant_hosts_and_floods(hosts: Seq<HostTraffic>)
    ensures
        ({
            let out = crate::discovery::capture::host_findings(hosts);
            let all = moved_by(hosts);
            let flood = moved_by(
                hosts.filter(|h: HostTraffic| crate::discovery::capture::floods(h.address@)),
            );
            &&& (exists|j: int|
                0 <= j < out.len() && (#[trigger] out[j]).code == "capture.dominant_host"@)
                <==> hosts.len() > 1 && all > 0 && 2 * throughput(hosts[0]) >= all
            &&& forall|j: int|
                0 <= j < out.len() && (#[trigger] out[j]).code == "capture.dominant_host"@ ==> {
                    &&& out[j].severity == if 10 * throughput(hosts[0]) >= 8 * all {
                        Severity::Warning
                    } else {
                        Severity::Info
                    }
                    &&& exists|share: nat| #[trigger]
                        crate::discovery::laws::is_percentage(
                            share,
                            throughput(hosts[0]) as nat,
                            all as nat,
                        ) && crate::discovery::laws::opens_with(
                            out[j].summary,
                            hosts[0].address@ + " accounted for "@ + crate::text::decimal(share),
                        )
                }
            &&& (exists|j: int|
                0 <= j < out.len() && (#[trigger] out[j]).code == "capture.broadcast_storm_source"@)
                <==> hosts.len() > 0 && all > 0 && flood > 0 && 10 * flood >= 3 * all
            &&& forall|j: int|
                0 <= j < out.len() && (#[trigger] out[j]).code
                    == "capture.broadcast_storm_source"@ ==> {
                    &&& out[j].severity == Severity::Critical
                    &&& exists|share: nat| #[trigger]
                        crate::discovery::laws::is_percentage(share, flood as nat, all as nat)
                            && crate::discovery::laws::opens_with(
                            out[j].summary,
                            crate::text::decimal(share) + "% of captured traffic"@,
                        )
                }
        }),
{
    reveal_strlit("capture.dominant_host");
    reveal_strlit("capture.broadcast_storm_source");
    assert("capture.dominant_host"@.len() != "capture.broadcast_storm_source"@.len());
    lemma_moved(hosts);
    lemma_flood_moved(hosts);
    let a = crate::discovery::capture::dominant_of(hosts);
    let b = crate::discovery::capture::flood_of(hosts);
    let out = crate::discovery::capture::host_findings(hosts);
    let all = crate::discovery::capture::load(hosts);
    let flood = crate::discovery::capture::flood_load(hosts);
    if hosts.len() > 0 && all > 0 {
        assert(out == a + b);
        let top = crate::discovery::capture::busy(hosts[0]@) as nat;
        let share = crate::round::rounded_quotient(top * 100, all);
        crate::discovery::laws::lemma_rounded(top * 100, all);
        assert(crate::discovery::laws::is_percentage(share, top, all));
        crate::discovery::laws::lemma_opens(
            hosts[0].address@ + " accounted for "@ + crate::text::decimal(share),
            crate::discovery::capture::DOMINANT_TAIL@,
        );
        let part = crate::round::rounded_quotient(flood * 100, all);
        crate::discovery::laws::lemma_rounded(flood * 100, all);
        assert(crate::discovery::laws::is_percentage(part, flood, all));
        reveal_strlit("% of captured traffic");
        reveal_strlit(
            "% of captured traffic went to broadcast or multicast addresses; on wifi these are sent at the lowest basic rate and cost far more airtime than their bit rate suggests",
        );
        let front = crate::text::decimal(part) + "% of captured traffic"@;
        let whole = crate::text::decimal(part) + crate::discovery::capture::STORM_TAIL@;
        assert(whole.take(front.len() as int) =~= front);
        if a.len() == 1 {
            assert(out[0] == a[0]);
        }
        if b.len() == 1 {
            assert(out[a.len() as int] == b[0]);
        }
        assert forall|j: int|
            0 <= j < out.len() && (#[trigger] out[j]).code
                == "capture.dominant_host"@ implies a.len() == 1 && out[j] == a[0] by {
            if j >= a.len() {
                assert(out[j] == b[j - a.len()]);
            }
        }
        assert forall|j: int|
            0 <= j < out.len() && (#[trigger] out[j]).code
                == "capture.broadcast_storm_source"@ implies b.len() == 1 && out[j] == b[0] by {
            if j >= a.len() {
                assert(out[j] == b[j - a.len()]);
            } else {
                assert(out[j] == a[j]);
            }
        }
        assert(throughput(hosts[0]) == top);
        if b.len() == 1 {
            assert(b[0].summary == whole);
            assert(crate::discovery::laws::opens_with(b[0].summary, front));
        }
    } else {
        assert(out.len() == 0);
    }
    let whole = moved_by(hosts);
    assert forall|j: int|
        0 <= j < out.len() && (#[trigger] out[j]).code
            == "capture.dominant_host"@ implies exists|share: nat| #[trigger]
        crate::discovery::laws::is_percentage(
            share,
            throughput(hosts[0]) as nat,
            whole as nat,
        ) && crate::discovery::laws::opens_with(
            out[j].summary,
            hosts[0].address@ + " accounted for "@ + crate::text::decimal(share),
        ) by {
        let top = throughput(hosts[0]) as nat;
        let share = crate::round::rounded_quotient(top * 100, all);
        assert(crate::discovery::laws::is_percentage(share, top, whole as nat));
        assert(out[j].summary == (hosts[0].address@ + " accounted for "@ + crate::text::decimal(
            share,
        )) + crate::discovery::capture::DOMINANT_TAIL@);
    }
    assert forall|j: int|
        0 <= j < out.len() && (#[trigger] out[j]).code
            == "capture.broadcast_storm_source"@ implies exists|share: nat| #[trigger]
        crate::discovery::laws::is_percentage(share, flood, whole as nat)
            && crate::discovery::laws::opens_with(
            out[j].summary,
            crate::text::decimal(share) + "% of captured traffic"@,
        ) by {
        let share = crate::round::rounded_quotient(flood * 100, all);
        assert(crate::discovery::laws::is_percentage(share, flood, whole as nat));
    }
}

/// An address reaches everyone when it is the IPv4 address of all ones or all
/// zeros, one of the sixteenth of all IPv4 addresses that is multicast, or an
/// IPv6 address whose first byte is all ones.
pub proof fn law_which_addresses_reach_everyone(addr: Seq<char>)
    ensures
        crate::net::dotted(addr) matches Some(v) ==> (crate::discovery::capture::floods(addr)
            <==> v == 0 || v + 1 == 0x1_0000_0000 || v / 0x1000_0000 == 14),
        crate::net::dotted(addr) is None && crate::net::colons(addr) is Some ==> (
        crate::discovery::capture::floods(addr) <==> crate::net::colons(addr)->0
            / 0x100_0000_0000_0000_0000_0000_0000_0000 >= 255),
        crate::net::dotted(addr) is None && crate::net::colons(addr) is None
            ==> !crate::discovery::capture::floods(addr),
{
}

/// The frame says that it is of the type `name`.
pub open spec fn is_of(f: WirelessFrame, name: Seq<char>) -> bool {
    f.frame_type@ == name
}

/// The frame is a slow data frame that the station `name` sent.
pub open spec fn is_slow_from(f: WirelessFrame, name: Seq<char>) -> bool {
    carries_data_slowly(f) && f.src@ == name
}

/// How many there are of these.
pub open spec fn slow_from(frames: Seq<WirelessFrame>, name: Seq<char>) -> nat {
    frames.filter(|f: WirelessFrame| is_slow_from(f, name)).len()
}

proof fn lemma_kind_count(frames: Seq<WirelessFrame>, name: Seq<char>)
    requires
        name.len() > 0,
    ensures
        crate::discovery::capture::tally_count(frames, Tally::Kind, name) == frames.filter(
            |f: WirelessFrame| is_of(f, name),
        ).len(),
{
    let what = Tally::Kind;
    let p = |f: WirelessFrame|
        crate::discovery::capture::tallied(what, f) && crate::discovery::capture::label(what, f)
            == name;
    let q = |f: WirelessFrame| is_of(f, name);
    crate::discovery::laws::lemma_lines(frames, p, |f: WirelessFrame| f.src@);
    crate::discovery::laws::lemma_same_filter(frames, p, q);
}

proof fn lemma_slow_count(frames: Seq<WirelessFrame>, name: Seq<char>)
    ensures
        crate::discovery::capture::tally_count(frames, Tally::LowRateSource, name) == frames.filter(
            |f: WirelessFrame| is_slow_from(f, name),
        ).len(),
{
    let what = Tally::LowRateSource;
    let p = |f: WirelessFrame|
        crate::discovery::capture::tallied(what, f) && crate::discovery::capture::label(what, f)
            == name;
    let q = |f: WirelessFrame| is_slow_from(f, name);
    lemma_lowered();
    crate::discovery::laws::lemma_lines(frames, p, |f: WirelessFrame| f.src@);
    crate::discovery::laws::lemma_same_filter(frames, p, q);
}

/// A line says how many frames of the type `name` there are.
pub open spec fn counts_a_type(line: Seq<char>, frames: Seq<WirelessFrame>, name: Seq<char>) -> bool {
    name.len() > 0 && line == name + ": "@ + crate::text::decimal(
        frames.filter(|f: WirelessFrame| is_of(f, name)).len(),
    )
}

/// A line says how many frames of some type there are, whichever it is.
pub open spec fn counts_some_type(line: Seq<char>, frames: Seq<WirelessFrame>) -> bool {
    exists|name: Seq<char>| #[trigger] counts_a_type(line, frames, name)
}

/// The finding says how many frames there are and where, counts the frames of
/// the type `name`, and has no line that does not count some type's.
pub open spec fn tells_of_mix(
    f: FindingView,
    frames: Seq<WirelessFrame>,
    interface: Seq<char>,
    name: Seq<char>,
) -> bool {
    &&& f.severity == Severity::Info
    &&& crate::discovery::laws::opens_with(
        f.summary,
        crate::text::decimal(frames.len()) + " frames on "@ + interface + ": "@,
    )
    &&& (exists|i: int|
        0 <= i < f.evidence.len() && counts_a_type(#[trigger] f.evidence[i], frames, name))
    &&& forall|i: int|
        0 <= i < f.evidence.len() ==> counts_some_type(#[trigger] f.evidence[i], frames)
}

/// The mix of frames is reported whenever some frame says its type, with how
/// many frames there are and where; it counts the frames of every type.
pub proof fn law_the_mix_counts_every_type(cap: Capture, k: int)
    requires
        0 <= k < cap.frames@.len(),
        cap.frames@[k].frame_type@.len() > 0,
    ensures
        ({
            let out = crate::discovery::capture::wireless_findings(cap);
            &&& (exists|j: int|
                0 <= j < out.len() && (#[trigger] out[j]).code == "capture.wifi_frame_mix"@)
            &&& forall|j: int|
                0 <= j < out.len() && (#[trigger] out[j]).code == "capture.wifi_frame_mix"@
                    ==> tells_of_mix(
                    out[j],
                    cap.frames@,
                    cap.interface@,
                    cap.frames@[k].frame_type@,
                )
        }),
{
    let out = crate::discovery::capture::wireless_findings(cap);
    let v = crate::discovery::capture::mix_of(cap.frames@, cap.interface@);
    lemma_mix(cap.frames@, cap.interface@, k);
    lemma_wireless_has(cap);
    assert forall|j: int|
        0 <= j < out.len() && (#[trigger] out[j]).code == "capture.wifi_frame_mix"@ implies out[j]
        == v[0] by {
        lemma_wireless_parts(cap, j);
    }
}

proof fn lemma_mix(frames: Seq<WirelessFrame>, interface: Seq<char>, k: int)
    requires
        0 <= k < frames.len(),
        frames[k].frame_type@.len() > 0,
    ensures
        crate::discovery::capture::mix_of(frames, interface).len() == 1,
        tells_of_mix(
            crate::discovery::capture::mix_of(frames, interface)[0],
            frames,
            interface,
            frames[k].frame_type@,
        ),
{
    let what = Tally::Kind;
    let r = crate::discovery::capture::ranking(frames, what);
    let v = crate::discovery::capture::mix_of(frames, interface);
    lemma_ranking(frames, what);
    let at = lemma_ranked(frames, what, k);
    assert(v.len() == 1);
    let f = v[0];
    assert(f.evidence.len() == r.len());
    assert forall|i: int| #![trigger f.evidence[i]] 0 <= i < f.evidence.len() implies counts_a_type(
        f.evidence[i],
        frames,
        r[i].name,
    ) by {
        let m = lemma_ranked_from(frames, what, i);
        assert(frames[m].frame_type@ == r[i].name);
        lemma_kind_count(frames, r[i].name);
        assert(f.evidence[i] == crate::discovery::capture::kind_line(r[i]));
        assert(r[i].count == crate::discovery::capture::tally_count(frames, what, r[i].name));
    }
    assert(counts_a_type(f.evidence[at], frames, frames[k].frame_type@));
    let front = crate::text::decimal(frames.len()) + " frames on "@ + interface + ": "@;
    let rest = crate::text::joined(
        crate::discovery::capture::words_of(r, crate::discovery::capture::Wording::Mix, 4),
        ", "@,
    );
    crate::discovery::laws::lemma_opens(front, rest);
    assert(f.summary == front + rest);
    assert(crate::discovery::laws::opens_with(f.summary, front));
    assert forall|i: int| 0 <= i < f.evidence.len() implies counts_some_type(
        #[trigger] f.evidence[i],
        frames,
    ) by {
        assert(counts_a_type(f.evidence[i], frames, r[i].name));
    }
}

/// The station that heads the list of slow senders is the one that sent most of
/// the slow data frames, with how many those are.
pub proof fn law_the_slowest_sender_heads_the_list(cap: Capture, j: int, k: int)
    requires
        cap.frames@.len() > 0,
        0 <= j < crate::discovery::capture::wireless_findings(cap).len(),
        crate::discovery::capture::wireless_findings(cap)[j].code
            == "capture.wifi_low_rate_frames"@,
        0 <= k < cap.frames@.len(),
        carries_data_slowly(cap.frames@[k]),
    ensures
        ({
            let f = crate::discovery::capture::wireless_findings(cap)[j];
            let frames = cap.frames@;
            &&& f.evidence.len() > 0
            &&& exists|name: Seq<char>|
                f.evidence[0] == name + " sent "@ + crate::text::decimal(
                    #[trigger] slow_from(frames, name),
                ) + " low-rate frames"@ && slow_from(frames, name) >= slow_from(
                    frames,
                    frames[k].src@,
                )
        }),
{
    let what = Tally::LowRateSource;
    let frames = cap.frames@;
    let r = crate::discovery::capture::ranking(frames, what);
    let v = crate::discovery::capture::low_rate_of(frames);
    lemma_lowered();
    lemma_wireless_parts(cap, j);
    lemma_ranking(frames, what);
    assert(crate::discovery::capture::tallied(what, frames[k]));
    let at = lemma_ranked(frames, what, k);
    let name = r[0].name;
    lemma_slow_count(frames, name);
    lemma_slow_count(frames, frames[k].src@);
    assert(r[at].count <= r[0].count);
    assert(v[0].evidence[0] == crate::discovery::capture::slow_line(r[0]));
    assert(slow_from(frames, name) == r[0].count);
}

/// A radio that heard nothing says so, with where and how long it listened.
pub proof fn law_silence_is_reported(cap: Capture)
    requires
        cap.frames@.len() == 0,
    ensures
        ({
            let out = crate::discovery::capture::wireless_findings(cap);
            &&& out.len() == 1
            &&& out[0].code == "capture.wireless_silent"@
            &&& out[0].severity == Severity::Info
            &&& out[0].summary == "no 802.11 frames were captured on "@ + cap.interface@ + " in "@
                + crate::text::decimal(cap.duration_s as nat) + "s"@
        }),
{
}

/// Frames are read as their rows give them.
pub proof fn law_frames_are_read(f: WirelessFrame, row: crate::json::JsonView, s: Seq<char>)
    requires
        crate::discovery::capture::is_frame(f, row),
    ensures
        row.get("src"@) == Some(crate::json::JsonView::Text(s)) ==> f.src@ == s,
        row.get("dst"@) == Some(crate::json::JsonView::Text(s)) ==> f.dst@ == s,
        row.get("channel"@) == Some(crate::json::JsonView::Text(s)) ==> f.channel@ == s,
        row.get("type"@) == Some(crate::json::JsonView::Text(s)) ==> f.frame_type@ == s,
        row.get("crc-error"@) == Some(crate::json::JsonView::Text("true"@)) ==> f.crc_error,
        row.get("crc-error"@) is None ==> !f.crc_error,
        row.get("signal-at-rate"@) == Some(crate::json::JsonView::Text(s)) ==> f.signal_dbm
            == crate::discovery::capture::signal_at_rate(s).0 && f.rate_kbps
            == crate::discovery::capture::signal_at_rate(s).1,
{
    reveal_strlit("true");
    assert("true"@.len() == 4);
}

} // verus!
