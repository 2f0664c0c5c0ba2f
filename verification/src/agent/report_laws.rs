//! What a submitted result says: each figure under its own name.

use vstd::prelude::*;

use crate::collector::stats::{DscpStats, JitterStats, LossStats, ProbeMetrics, ReorderStats, RttStats};
use crate::json::JsonView;
use crate::tasks::plan::Task;

verus! {

/// Under `key` the object has the whole number `n`.
pub open spec fn says_number(j: JsonView, key: Seq<char>, n: nat) -> bool {
    j.get(key) == Some(JsonView::Number(crate::text::decimal(n)))
}

/// Under `key` the object has a number that reads as so many hundredths.
pub open spec fn says_hundredths(j: JsonView, key: Seq<char>, h: nat) -> bool {
    j.get(key) matches Some(JsonView::Number(s)) && crate::text::milli(s) == Some((h * 10) as int)
}

/// A number of hundredths that was written reads back.
pub proof fn law_hundredths_read_back(h: nat)
    requires
        h * 10 <= i64::MAX,
    ensures
        crate::text::milli(crate::agent::report::two_places(h)) == Some((h * 10) as int),
{
    reveal_strlit(".");
    assert("."@ =~= seq!['.']);
    let v = (h * 10) as int;
    let size = (h * 10) as nat;
    crate::text_laws::law_thousandths_read_back(v);
    reveal_strlit("");
    let s = crate::agent::report::two_places(h);
    let rest = h % 100;
    assert(size / 1000 == h / 100);
    assert(size % 1000 == rest * 10);
    assert(size % 1000 / 100 == rest / 10);
    assert(size % 1000 / 10 % 10 == rest % 10);
    assert(size % 1000 % 10 == 0);
    assert((size % 1000 % 100 == 0) == (rest % 10 == 0));
    assert(crate::text::thousandths(v) =~= s);
}

/// The round-trip figures of a result are those of the run; without any there
/// is a null.
pub proof fn law_round_trips_are_reported(r: RttStats)
    ensures
        ({
            let j = crate::agent::report::rtt_value(Some(r));
            &&& says_number(j, "min_us"@, r.min_us as nat)
            &&& says_number(j, "avg_us"@, r.avg_us as nat)
            &&& says_number(j, "max_us"@, r.max_us as nat)
            &&& says_number(j, "stddev_us"@, r.stddev_us as nat)
            &&& says_number(j, "p50_us"@, r.p50_us as nat)
            &&& says_number(j, "p95_us"@, r.p95_us as nat)
            &&& says_number(j, "p99_us"@, r.p99_us as nat)
        }),
        crate::agent::report::rtt_value(None) == JsonView::Null,
{
    reveal_strlit("min_us");
    reveal_strlit("avg_us");
    reveal_strlit("max_us");
    reveal_strlit("stddev_us");
    reveal_strlit("p50_us");
    reveal_strlit("p95_us");
    reveal_strlit("p99_us");
    assert("min_us"@[1] == 'i' && "avg_us"@[0] == 'a' && "max_us"@[1] == 'a');
    assert("min_us"@[0] == 'm' && "max_us"@[0] == 'm' && "stddev_us"@.len() == 9);
    assert("p50_us"@[0] == 'p' && "p95_us"@[0] == 'p' && "p99_us"@[0] == 'p');
    assert("p50_us"@[1] == '5' && "p95_us"@[1] == '9' && "p99_us"@[1] == '9');
    assert("p95_us"@[2] == '5' && "p99_us"@[2] == '9');
    assert("min_us"@.len() == 6 && "avg_us"@.len() == 6 && "max_us"@.len() == 6);
    assert("p50_us"@.len() == 6 && "p95_us"@.len() == 6 && "p99_us"@.len() == 6);
    let f = crate::agent::report::rtt_value(Some(r))->Object_0;
    assert(f.len() == 7);
    crate::json::lemma_field_at(f, 0);
    crate::json::lemma_field_at(f, 1);
    crate::json::lemma_field_at(f, 2);
    crate::json::lemma_field_at(f, 3);
    crate::json::lemma_field_at(f, 4);
    crate::json::lemma_field_at(f, 5);
    crate::json::lemma_field_at(f, 6);
}

/// The jitter figures, the reordering and the classes of a result are those of
/// the run.
pub proof fn law_jitter_order_and_classes_are_reported(
    j: JitterStats,
    r: ReorderStats,
    d: DscpStats,
)
    requires
        d.conformant_pct.hundredths <= 10_000,
    ensures
        ({
            let v = crate::agent::report::jitter_value(Some(j));
            &&& says_number(v, "ipdv_avg_us"@, j.ipdv_avg_us as nat)
            &&& says_number(v, "pdv_p95_us"@, j.pdv_p95_us as nat)
        }),
        crate::agent::report::jitter_value(None) == JsonView::Null,
        ({
            let v = crate::agent::report::reorder_value(r);
            &&& says_number(v, "reordered"@, r.reordered as nat)
            &&& says_number(v, "max_displacement"@, r.max_displacement as nat)
            &&& says_number(v, "duplicated"@, r.duplicated as nat)
        }),
        ({
            let v = crate::agent::report::dscp_value(Some(d));
            &&& says_number(v, "requested"@, d.requested as nat)
            &&& says_number(v, "observed_mode"@, d.observed_mode as nat)
            &&& says_hundredths(v, "conformant_pct"@, d.conformant_pct.hundredths as nat)
        }),
        crate::agent::report::dscp_value(None) == JsonView::Null,
{
    reveal_strlit("ipdv_avg_us");
    reveal_strlit("pdv_p95_us");
    reveal_strlit("reordered");
    reveal_strlit("max_displacement");
    reveal_strlit("duplicated");
    reveal_strlit("requested");
    reveal_strlit("observed_mode");
    reveal_strlit("conformant_pct");
    assert("ipdv_avg_us"@.len() == 11 && "pdv_p95_us"@.len() == 10);
    assert("reordered"@.len() == 9 && "max_displacement"@.len() == 16);
    assert("duplicated"@.len() == 10 && "requested"@.len() == 9);
    assert("observed_mode"@.len() == 13 && "conformant_pct"@.len() == 14);
    let a = crate::agent::report::jitter_value(Some(j))->Object_0;
    crate::json::lemma_field_at(a, 0);
    crate::json::lemma_field_at(a, 1);
    let b = crate::agent::report::reorder_value(r)->Object_0;
    crate::json::lemma_field_at(b, 0);
    crate::json::lemma_field_at(b, 1);
    crate::json::lemma_field_at(b, 2);
    let c = crate::agent::report::dscp_value(Some(d))->Object_0;
    crate::json::lemma_field_at(c, 0);
    crate::json::lemma_field_at(c, 1);
    crate::json::lemma_field_at(c, 2);
    law_hundredths_read_back(d.conformant_pct.hundredths as nat);
}

/// The loss figures of a result are those of the run.
pub proof fn law_losses_are_reported(l: LossStats)
    requires
        l.loss_pct.hundredths <= 10_000,
    ensures
        ({
            let j = crate::agent::report::loss_value(l);
            &&& says_number(j, "sent"@, l.sent as nat)
            &&& says_number(j, "received"@, l.received as nat)
            &&& says_number(j, "forward_lost"@, l.forward_lost as nat)
            &&& says_number(j, "reverse_lost"@, l.reverse_lost as nat)
            &&& says_number(j, "unknown_direction"@, l.unknown_direction as nat)
            &&& says_hundredths(j, "loss_pct"@, l.loss_pct.hundredths as nat)
        }),
{
    reveal_strlit("sent");
    reveal_strlit("received");
    reveal_strlit("forward_lost");
    reveal_strlit("reverse_lost");
    reveal_strlit("unknown_direction");
    reveal_strlit("loss_pct");
    assert("sent"@.len() == 4 && "received"@.len() == 8 && "forward_lost"@.len() == 12);
    assert("reverse_lost"@.len() == 12 && "unknown_direction"@.len() == 17);
    assert("loss_pct"@.len() == 8 && "loss_pct"@[0] == 'l' && "received"@[0] == 'r');
    assert("forward_lost"@[0] == 'f' && "reverse_lost"@[0] == 'r');
    let f = crate::agent::report::loss_value(l)->Object_0;
    assert(f.len() == 6);
    crate::json::lemma_field_at(f, 0);
    crate::json::lemma_field_at(f, 1);
    crate::json::lemma_field_at(f, 2);
    crate::json::lemma_field_at(f, 3);
    crate::json::lemma_field_at(f, 4);
    crate::json::lemma_field_at(f, 5);
    law_hundredths_read_back(l.loss_pct.hundredths as nat);
}

proof fn lemma_head_names()
    ensures
        "task_id"@.len() == 7,
        "session_id"@.len() == 10,
        "started_at"@.len() == 10,
        "ended_at"@.len() == 8,
        "status"@.len() == 6,
        "rtt"@.len() == 3,
        "jitter"@.len() == 6,
        "loss"@.len() == 4,
        "reorder"@.len() == 7,
        "dscp"@.len() == 4,
        "mos"@.len() == 3,
        "error"@.len() == 5,
        "session_id"@ != "started_at"@,
        "status"@ != "jitter"@,
        "task_id"@ != "reorder"@,
        "loss"@ != "dscp"@,
        "rtt"@ != "mos"@,
{
    reveal_strlit("task_id");
    reveal_strlit("session_id");
    reveal_strlit("started_at");
    reveal_strlit("ended_at");
    reveal_strlit("status");
    reveal_strlit("rtt");
    reveal_strlit("jitter");
    reveal_strlit("loss");
    reveal_strlit("reorder");
    reveal_strlit("dscp");
    reveal_strlit("mos");
    reveal_strlit("error");
    assert("session_id"@[1] == 'e' && "started_at"@[1] == 't');
    assert("status"@[0] == 's' && "jitter"@[0] == 'j');
    assert("task_id"@[0] == 't' && "reorder"@[0] == 'r');
    assert("loss"@[0] == 'l' && "dscp"@[0] == 'd');
    assert("rtt"@[0] == 'r' && "mos"@[0] == 'm');
}

/// The result of a run names its task and when it ran, gives every group of
/// figures, and is partial exactly when nothing came back.
pub proof fn law_a_run_is_reported(
    t: Task,
    started: i128,
    ended: i128,
    m: ProbeMetrics,
    mos: JsonView,
)
    ensures
        ({
            let j = crate::agent::report::success_value(t, started, ended, m, mos);
            &&& j.get("task_id"@) == Some(JsonView::Text(t.task_id@))
            &&& j.get("session_id"@) == Some(
                JsonView::Text(crate::text::decimal(t.session_id as nat)),
            )
            &&& j.get("started_at"@) == Some(
                JsonView::Text(crate::agent::report::moment(started)),
            )
            &&& j.get("ended_at"@) == Some(JsonView::Text(crate::agent::report::moment(ended)))
            &&& j.get("status"@) == Some(
                JsonView::Text(
                    if m.loss.received == 0 {
                        "partial"@
                    } else {
                        "ok"@
                    },
                ),
            )
            &&& j.get("rtt"@) == Some(crate::agent::report::rtt_value(m.rtt))
            &&& j.get("jitter"@) == Some(crate::agent::report::jitter_value(m.jitter))
            &&& j.get("loss"@) == Some(crate::agent::report::loss_value(m.loss))
            &&& j.get("reorder"@) == Some(crate::agent::report::reorder_value(m.reorder))
            &&& j.get("dscp"@) == Some(crate::agent::report::dscp_value(m.dscp))
            &&& j.get("mos"@) == Some(mos)
        }),
{
    lemma_head_names();
    let f = crate::agent::report::success_value(t, started, ended, m, mos)->Object_0;
    assert(f.len() == 11);
    assert(f[0].0 == "task_id"@ && f[1].0 == "session_id"@ && f[2].0 == "started_at"@);
    assert(f[3].0 == "ended_at"@ && f[4].0 == "status"@ && f[5].0 == "rtt"@);
    assert(f[6].0 == "jitter"@ && f[7].0 == "loss"@ && f[8].0 == "reorder"@);
    assert(f[9].0 == "dscp"@ && f[10].0 == "mos"@);
    crate::json::lemma_field_at(f, 0);
    crate::json::lemma_field_at(f, 1);
    crate::json::lemma_field_at(f, 2);
    crate::json::lemma_field_at(f, 3);
    crate::json::lemma_field_at(f, 4);
    crate::json::lemma_field_at(f, 5);
    crate::json::lemma_field_at(f, 6);
    crate::json::lemma_field_at(f, 7);
    crate::json::lemma_field_at(f, 8);
    crate::json::lemma_field_at(f, 9);
    crate::json::lemma_field_at(f, 10);
}

/// The result of a task that came to no measurement names the task, how it
/// ended, and why.
pub proof fn law_a_failure_is_reported(
    t: Task,
    started: i128,
    ended: i128,
    status: Seq<char>,
    error: Seq<char>,
)
    ensures
        ({
            let j = crate::agent::report::error_value(t, started, ended, status, error);
            &&& j.get("task_id"@) == Some(JsonView::Text(t.task_id@))
            &&& j.get("session_id"@) == Some(
                JsonView::Text(crate::text::decimal(t.session_id as nat)),
            )
            &&& j.get("started_at"@) == Some(
                JsonView::Text(crate::agent::report::moment(started)),
            )
            &&& j.get("ended_at"@) == Some(JsonView::Text(crate::agent::report::moment(ended)))
            &&& j.get("status"@) == Some(JsonView::Text(status))
            &&& j.get("error"@) == Some(JsonView::Text(error))
        }),
{
    lemma_head_names();
    let f = crate::agent::report::error_value(t, started, ended, status, error)->Object_0;
    assert(f.len() == 6);
    crate::json::lemma_field_at(f, 0);
    crate::json::lemma_field_at(f, 1);
    crate::json::lemma_field_at(f, 2);
    crate::json::lemma_field_at(f, 3);
    crate::json::lemma_field_at(f, 4);
    crate::json::lemma_field_at(f, 5);
}

/// The figures of a run as one value give every group of them.
pub proof fn law_figures_are_reported(m: ProbeMetrics)
    ensures
        ({
            let j = crate::agent::report::metrics_value(m);
            &&& j.get("rtt"@) == Some(crate::agent::report::rtt_value(m.rtt))
            &&& j.get("jitter"@) == Some(crate::agent::report::jitter_value(m.jitter))
            &&& j.get("loss"@) == Some(crate::agent::report::loss_value(m.loss))
            &&& j.get("reorder"@) == Some(crate::agent::report::reorder_value(m.reorder))
            &&& j.get("dscp"@) == Some(crate::agent::report::dscp_value(m.dscp))
        }),
{
    lemma_head_names();
    let f = crate::agent::report::metrics_value(m)->Object_0;
    assert(f.len() == 5);
    crate::json::lemma_field_at(f, 0);
    crate::json::lemma_field_at(f, 1);
    crate::json::lemma_field_at(f, 2);
    crate::json::lemma_field_at(f, 3);
    crate::json::lemma_field_at(f, 4);
}

} // verus!
