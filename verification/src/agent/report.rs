//! The results that are submitted to the controller.

use vstd::prelude::*;
use vstd::string::StringExecFns;

use crate::collector::stats::{
    DscpStats, JitterStats, LossStats, Percent, ProbeMetrics, ReorderStats, RttStats,
};
use crate::json::Json;
use crate::json::JsonView;
use crate::tasks::plan::Task;
use crate::text::{push_decimal, to_decimal};

verus! {

/// What `time::OffsetDateTime` writes in the `Rfc3339` format for the moment so
/// many nanoseconds after the Unix epoch, in UTC. There is none for a moment
/// outside the years that the type or the format can hold.
pub uninterp spec fn rfc3339_text(unix_nanos: i128) -> Option<Seq<char>>;

/// `time::OffsetDateTime::format` with the well-known `Rfc3339` description, of
/// the moment `unix_nanos` nanoseconds after the Unix epoch. The contract names
/// the text; how it is put together is not stated.
#[verifier::external_body]
fn format_rfc3339(unix_nanos: i128) -> (r: Option<String>)
    ensures
        match r {
            Some(s) => rfc3339_text(unix_nanos) == Some(s@),
            None => rfc3339_text(unix_nanos) is None,
        },
{
    let moment = time::OffsetDateTime::from_unix_timestamp_nanos(unix_nanos).ok()?;
    moment.format(&time::format_description::well_known::Rfc3339).ok()
}

/// The text of a moment; empty where it has none.
pub open spec fn moment(unix_nanos: i128) -> Seq<char> {
    match rfc3339_text(unix_nanos) {
        Some(s) => s,
        None => Seq::empty(),
    }
}

pub fn rfc3339(unix_nanos: i128) -> (r: String)
    ensures
        r@ == moment(unix_nanos),
{
    match format_rfc3339(unix_nanos) {
        Some(s) => s,
        None => String::new(),
    }
}

/// A number of hundredths as a decimal number, with one or two decimals.
pub open spec fn two_places(hundredths: nat) -> Seq<char> {
    let rest = hundredths % 100;
    crate::text::decimal(hundredths / 100) + "."@ + (if rest % 10 == 0 {
        crate::text::decimal(rest / 10)
    } else {
        crate::text::decimal(rest / 10) + crate::text::decimal(rest % 10)
    })
}

fn percent(p: Percent) -> (r: Json)
    ensures
        r@ == JsonView::Number(two_places(p.hundredths as nat)),
{
    let rest: u64 = p.hundredths % 100;
    let mut t = to_decimal((p.hundredths / 100) as u128);
    t.append(".");
    let mut d = to_decimal((rest / 10) as u128);
    if rest % 10 != 0 {
        push_decimal(&mut d, (rest % 10) as u128);
    }
    t.append(d.as_str());
    Json::Number(t)
}

/// A whole number.
pub open spec fn whole(n: nat) -> JsonView {
    JsonView::Number(crate::text::decimal(n))
}

pub open spec fn empty_object() -> JsonView {
    JsonView::Object(Seq::empty())
}

pub open spec fn rtt_value(v: Option<RttStats>) -> JsonView {
    match v {
        Some(r) => empty_object().put("min_us"@, whole(r.min_us as nat)).put(
            "avg_us"@,
            whole(r.avg_us as nat),
        ).put("max_us"@, whole(r.max_us as nat)).put("stddev_us"@, whole(r.stddev_us as nat)).put(
            "p50_us"@,
            whole(r.p50_us as nat),
        ).put("p95_us"@, whole(r.p95_us as nat)).put("p99_us"@, whole(r.p99_us as nat)),
        None => JsonView::Null,
    }
}

pub open spec fn jitter_value(v: Option<JitterStats>) -> JsonView {
    match v {
        Some(j) => empty_object().put("ipdv_avg_us"@, whole(j.ipdv_avg_us as nat)).put(
            "pdv_p95_us"@,
            whole(j.pdv_p95_us as nat),
        ),
        None => JsonView::Null,
    }
}

pub open spec fn loss_value(l: LossStats) -> JsonView {
    empty_object().put("sent"@, whole(l.sent as nat)).put(
        "received"@,
        whole(l.received as nat),
    ).put("forward_lost"@, whole(l.forward_lost as nat)).put(
        "reverse_lost"@,
        whole(l.reverse_lost as nat),
    ).put("unknown_direction"@, whole(l.unknown_direction as nat)).put(
        "loss_pct"@,
        JsonView::Number(two_places(l.loss_pct.hundredths as nat)),
    )
}

pub open spec fn reorder_value(r: ReorderStats) -> JsonView {
    empty_object().put("reordered"@, whole(r.reordered as nat)).put(
        "max_displacement"@,
        whole(r.max_displacement as nat),
    ).put("duplicated"@, whole(r.duplicated as nat))
}

pub open spec fn dscp_value(v: Option<DscpStats>) -> JsonView {
    match v {
        Some(d) => empty_object().put("requested"@, whole(d.requested as nat)).put(
            "observed_mode"@,
            whole(d.observed_mode as nat),
        ).put("conformant_pct"@, JsonView::Number(two_places(d.conformant_pct.hundredths as nat))),
        None => JsonView::Null,
    }
}

pub fn rtt_json(v: &Option<RttStats>) -> (r: Json)
    ensures
        r@ == rtt_value(*v),
{
    match v {
        Some(r) => Json::object().with("min_us", Json::number(r.min_us)).with(
            "avg_us",
            Json::number(r.avg_us),
        ).with("max_us", Json::number(r.max_us)).with("stddev_us", Json::number(r.stddev_us)).with(
            "p50_us",
            Json::number(r.p50_us),
        ).with("p95_us", Json::number(r.p95_us)).with("p99_us", Json::number(r.p99_us)),
        None => Json::Null,
    }
}

pub fn jitter_json(v: &Option<JitterStats>) -> (r: Json)
    ensures
        r@ == jitter_value(*v),
{
    match v {
        Some(j) => Json::object().with("ipdv_avg_us", Json::number(j.ipdv_avg_us)).with(
            "pdv_p95_us",
            Json::number(j.pdv_p95_us),
        ),
        None => Json::Null,
    }
}

pub fn loss_json(l: &LossStats) -> (r: Json)
    ensures
        r@ == loss_value(*l),
{
    Json::object().with("sent", Json::number(l.sent as u64)).with(
        "received",
        Json::number(l.received as u64),
    ).with("forward_lost", Json::number(l.forward_lost as u64)).with(
        "reverse_lost",
        Json::number(l.reverse_lost as u64),
    ).with("unknown_direction", Json::number(l.unknown_direction as u64)).with(
        "loss_pct",
        percent(l.loss_pct),
    )
}

pub fn reorder_json(r: &ReorderStats) -> (j: Json)
    ensures
        j@ == reorder_value(*r),
{
    Json::object().with("reordered", Json::number(r.reordered as u64)).with(
        "max_displacement",
        Json::number(r.max_displacement as u64),
    ).with("duplicated", Json::number(r.duplicated as u64))
}

pub fn dscp_json(v: &Option<DscpStats>) -> (r: Json)
    ensures
        r@ == dscp_value(*v),
{
    match v {
        Some(d) => Json::object().with("requested", Json::number(d.requested as u64)).with(
            "observed_mode",
            Json::number(d.observed_mode as u64),
        ).with("conformant_pct", percent(d.conformant_pct)),
        None => Json::Null,
    }
}

/// The figures of a run as one value.
pub open spec fn metrics_value(m: ProbeMetrics) -> JsonView {
    empty_object().put("rtt"@, rtt_value(m.rtt)).put("jitter"@, jitter_value(m.jitter)).put(
        "loss"@,
        loss_value(m.loss),
    ).put("reorder"@, reorder_value(m.reorder)).put("dscp"@, dscp_value(m.dscp))
}

pub fn metrics_json(m: &ProbeMetrics) -> (r: Json)
    ensures
        r@ == metrics_value(*m),
{
    Json::object().with("rtt", rtt_json(&m.rtt)).with("jitter", jitter_json(&m.jitter)).with(
        "loss",
        loss_json(&m.loss),
    ).with("reorder", reorder_json(&m.reorder)).with("dscp", dscp_json(&m.dscp))
}

/// What every result starts with: the task, its session in decimal, when it ran
/// and how it ended. A session is never written as a JSON number, which most
/// clients would round above 2^53, nor as bare hex, which reads as decimal.
pub open spec fn result_head(t: Task, started: i128, ended: i128, status: Seq<char>) -> JsonView {
    empty_object().put("task_id"@, JsonView::Text(t.task_id@)).put(
        "session_id"@,
        JsonView::Text(crate::text::decimal(t.session_id as nat)),
    ).put("started_at"@, JsonView::Text(moment(started))).put(
        "ended_at"@,
        JsonView::Text(moment(ended)),
    ).put("status"@, JsonView::Text(status))
}

fn head(t: &Task, started: i128, ended: i128, status: &str) -> (r: Json)
    ensures
        r@ == result_head(*t, started, ended, status@),
{
    let from = rfc3339(started);
    let until = rfc3339(ended);
    let session = to_decimal(t.session_id as u128);
    Json::object().with("task_id", Json::text(t.task_id.as_str())).with(
        "session_id",
        Json::text(session.as_str()),
    ).with("started_at", Json::text(from.as_str())).with(
        "ended_at",
        Json::text(until.as_str()),
    ).with("status", Json::text(status))
}

/// A run where nothing came back is a valid measurement of a broken path, not a
/// failed task.
pub open spec fn run_status(m: ProbeMetrics) -> Seq<char> {
    if m.loss.received == 0 {
        "partial"@
    } else {
        "ok"@
    }
}

/// The result of a probe that ran.
pub open spec fn success_value(
    t: Task,
    started: i128,
    ended: i128,
    m: ProbeMetrics,
    mos: JsonView,
) -> JsonView {
    result_head(t, started, ended, run_status(m)).put("rtt"@, rtt_value(m.rtt)).put(
        "jitter"@,
        jitter_value(m.jitter),
    ).put("loss"@, loss_value(m.loss)).put("reorder"@, reorder_value(m.reorder)).put(
        "dscp"@,
        dscp_value(m.dscp),
    ).put("mos"@, mos)
}

/// `mos` is the voice score of the run, or null where there is none.
pub fn success_body(t: &Task, started: i128, ended: i128, m: &ProbeMetrics, mos: Json) -> (r: Json)
    ensures
        r@ == success_value(*t, started, ended, *m, mos@),
{
    let status = if m.loss.received == 0 {
        "partial"
    } else {
        "ok"
    };
    head(t, started, ended, status).with("rtt", rtt_json(&m.rtt)).with(
        "jitter",
        jitter_json(&m.jitter),
    ).with("loss", loss_json(&m.loss)).with("reorder", reorder_json(&m.reorder)).with(
        "dscp",
        dscp_json(&m.dscp),
    ).with("mos", mos)
}

/// The result of a task that did not come to a measurement.
pub open spec fn error_value(
    t: Task,
    started: i128,
    ended: i128,
    status: Seq<char>,
    error: Seq<char>,
) -> JsonView {
    result_head(t, started, ended, status).put("error"@, JsonView::Text(error))
}

pub fn failure_body(t: &Task, started: i128, ended: i128, error: &str) -> (r: Json)
    ensures
        r@ == error_value(*t, started, ended, "failed"@, error@),
{
    head(t, started, ended, "failed").with("error", Json::text(error))
}

pub fn skipped_body(t: &Task, now: i128, reason: &str) -> (r: Json)
    ensures
        r@ == error_value(*t, now, now, "skipped"@, reason@),
{
    head(t, now, now, "skipped").with("error", Json::text(reason))
}

/// The controller reads back the session that a result names: the text is what
/// a leased task would carry for it.
pub proof fn law_results_name_their_session(
    t: Task,
    started: i128,
    ended: i128,
    status: Seq<char>,
)
    ensures
        ({
            let head = result_head(t, started, ended, status);
            &&& head.get("session_id"@) matches Some(JsonView::Text(s))
            &&& crate::controller::client::session_named(s) == Some(t.session_id as nat)
        }),
{
    crate::controller::client::law_decimal_sessions_read_back(t.session_id);
    reveal_strlit("task_id");
    reveal_strlit("session_id");
    reveal_strlit("started_at");
    reveal_strlit("ended_at");
    reveal_strlit("status");
    assert("task_id"@.len() != "session_id"@.len());
    reveal_with_fuel(crate::json::field_of, 6);
    let fields = result_head(t, started, ended, status)->Object_0;
    assert(fields.len() == 5);
    assert(fields[0].0 == "task_id"@);
    assert(fields[1].0 == "session_id"@);
    assert(fields.skip(1)[0] == fields[1]);
}

} // verus!
