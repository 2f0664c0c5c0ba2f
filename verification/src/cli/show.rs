//! What the sub-commands report, as lines of text and as JSON.

use vstd::prelude::*;
use vstd::string::StringExecFns;

use crate::discovery::findings::{Finding, Radio, Severity, Snapshot, WifiClient};
use crate::discovery::tools::{Hop, ScanHost};
use crate::json::Json;
use crate::json::JsonView;
use crate::text::{
    push_decimal, push_decimal_int, push_fixed, push_left, push_right, same, to_decimal,
    to_thousandths,
};

verus! {

broadcast use vstd::string::group_string_axioms;

pub open spec fn empty_object() -> JsonView {
    JsonView::Object(Seq::empty())
}

pub open spec fn whole(n: nat) -> JsonView {
    JsonView::Number(crate::text::decimal(n))
}

/// `a` and then a line for each of `s`.
pub open spec fn followed<A>(a: Seq<Seq<char>>, s: Seq<A>, f: spec_fn(A) -> Seq<char>) -> Seq<
    Seq<char>,
> {
    a + Seq::new(s.len(), |i: int| f(s[i]))
}

pub proof fn lemma_followed_step<A>(a: Seq<Seq<char>>, s: Seq<A>, f: spec_fn(A) -> Seq<char>, i: int)
    requires
        0 <= i < s.len(),
    ensures
        followed(a, s.take(i + 1), f) == followed(a, s.take(i), f).push(f(s[i])),
{
    assert(followed(a, s.take(i + 1), f) =~= followed(a, s.take(i), f).push(f(s[i])));
}

pub proof fn lemma_followed_ends<A>(a: Seq<Seq<char>>, s: Seq<A>, f: spec_fn(A) -> Seq<char>)
    ensures
        followed(a, s.take(0), f) == a,
        followed(a, s.take(s.len() as int), f) == followed(a, s, f),
{
    assert(followed(a, s.take(0), f) =~= a);
    assert(s.take(s.len() as int) =~= s);
}

// ---------------------------------------------------------------------------
// Findings
// ---------------------------------------------------------------------------

pub open spec fn tag(s: Severity) -> Seq<char> {
    match s {
        Severity::Critical => "CRITICAL"@,
        Severity::Warning => "WARNING "@,
        Severity::Info => "INFO    "@,
    }
}

pub open spec fn severity_word(s: Severity) -> Seq<char> {
    match s {
        Severity::Critical => "critical"@,
        Severity::Warning => "warning"@,
        Severity::Info => "info"@,
    }
}

pub open spec fn evidence_line(e: String) -> Seq<char> {
    "    · "@ + e@
}

/// The lines that one finding takes.
pub open spec fn with_finding(a: Seq<Seq<char>>, f: Finding) -> Seq<Seq<char>> {
    followed(
        a.push(""@).push("  ["@ + tag(f.severity) + "] "@ + f.code@).push("  "@ + f.summary@),
        f.evidence@,
        |e: String| evidence_line(e),
    )
}

pub open spec fn with_findings(a: Seq<Seq<char>>, found: Seq<Finding>) -> Seq<Seq<char>>
    decreases found.len(),
{
    if found.len() == 0 {
        a
    } else {
        with_finding(with_findings(a, found.drop_last()), found.last())
    }
}

pub open spec fn findings_lines(found: Seq<Finding>) -> Seq<Seq<char>> {
    if found.len() == 0 {
        seq![""@, "No problems found."@]
    } else {
        with_findings(
            seq![""@, "Findings ("@ + crate::text::decimal(found.len()) + ")"@],
            found,
        )
    }
}

/// What is wrong, or that nothing is.
pub fn findings_report(found: &Vec<Finding>) -> (r: Vec<String>)
    ensures
        crate::text::views(r@) == findings_lines(found@),
{
    broadcast use crate::text::lemma_views_push;

    let mut out: Vec<String> = Vec::new();
    out.push("".to_owned());
    if found.len() == 0 {
        out.push("No problems found.".to_owned());
        proof {
            assert(crate::text::views(out@) =~= findings_lines(found@));
        }
        return out;
    }
    let mut t = "Findings (".to_owned();
    push_decimal(&mut t, found.len() as u128);
    t.append(")");
    out.push(t);
    let ghost start = seq![""@, "Findings ("@ + crate::text::decimal(found@.len()) + ")"@];
    let mut i: usize = 0;
    proof {
        crate::discovery::group::lemma_take_ends(found@);
        assert(crate::text::views(out@) =~= start);
    }
    while i < found.len()
        invariant
            i <= found@.len(),
            crate::text::views(out@) == with_findings(start, found@.take(i as int)),
        decreases found@.len() - i,
    {
        broadcast use crate::text::lemma_views_push;

        proof {
            crate::discovery::group::lemma_take_step(found@, i as int);
        }
        let f = &found[i];
        out.push("".to_owned());
        let mut head = "  [".to_owned();
        head.append(
            match f.severity {
                Severity::Critical => "CRITICAL",
                Severity::Warning => "WARNING ",
                Severity::Info => "INFO    ",
            },
        );
        head.append("] ");
        head.append(f.code);
        out.push(head);
        let mut summary = "  ".to_owned();
        summary.append(f.summary.as_str());
        out.push(summary);
        let ghost a = crate::text::views(out@);
        let ghost line = |e: String| evidence_line(e);
        let mut k: usize = 0;
        proof {
            lemma_followed_ends(a, f.evidence@, line);
        }
        while k < f.evidence.len()
            invariant
                k <= f.evidence@.len(),
                line == (|e: String| evidence_line(e)),
                crate::text::views(out@) == followed(a, f.evidence@.take(k as int), line),
            decreases f.evidence@.len() - k,
        {
            broadcast use crate::text::lemma_views_push;

            let mut t = "    · ".to_owned();
            t.append(f.evidence[k].as_str());
            proof {
                lemma_followed_step(a, f.evidence@, line, k as int);
            }
            out.push(t);
            k = k + 1;
        }
        i = i + 1;
    }
    out
}

pub open spec fn finding_value(f: Finding) -> JsonView {
    empty_object().put("code"@, JsonView::Text(f.code@)).put(
        "severity"@,
        JsonView::Text(severity_word(f.severity)),
    ).put("summary"@, JsonView::Text(f.summary@)).put(
        "evidence"@,
        JsonView::List(
            Seq::new(
                f.evidence@.len(),
                |i: int| JsonView::Text(crate::text::views(f.evidence@)[i]),
            ),
        ),
    )
}

pub open spec fn findings_value(found: Seq<Finding>) -> JsonView {
    JsonView::List(Seq::new(found.len(), |i: int| finding_value(found[i])))
}

pub fn findings_json(found: &Vec<Finding>) -> (r: Json)
    ensures
        r@ == findings_value(found@),
{
    let mut out: Vec<Json> = Vec::new();
    let mut i: usize = 0;
    while i < found.len()
        invariant
            i <= found@.len(),
            out@.len() == i,
            forall|k: int| 0 <= k < i ==> (#[trigger] out@[k])@ == finding_value(found@[k]),
        decreases found@.len() - i,
    {
        let f = &found[i];
        let word = match f.severity {
            Severity::Critical => "critical",
            Severity::Warning => "warning",
            Severity::Info => "info",
        };
        let v = Json::object().with("code", Json::text(f.code)).with(
            "severity",
            Json::text(word),
        ).with("summary", Json::text(f.summary.as_str())).with(
            "evidence",
            Json::texts(&f.evidence),
        );
        out.push(v);
        i = i + 1;
    }
    proof {
        assert(crate::json::views(out@) =~= Seq::new(found@.len(), |i: int| finding_value(found@[i])));
    }
    Json::list(out)
}

// ---------------------------------------------------------------------------
// Discover
// ---------------------------------------------------------------------------

pub open spec fn radio_line(r: Radio) -> Seq<char> {
    "  radio "@ + crate::text::left_of(r.name@, 8) + " "@ + r.band@ + " "@ + r.width@ + " "@ + (
    match r.frequency_mhz {
        Some(f) => crate::text::decimal(f as nat) + " MHz"@,
        None => ""@,
    })
}

fn show_radio(r: &Radio) -> (t: String)
    ensures
        t@ == radio_line(*r),
{
    let mut t = "  radio ".to_owned();
    push_left(&mut t, r.name.as_str(), 8);
    t.append(" ");
    t.append(r.band.as_str());
    t.append(" ");
    t.append(r.width.as_str());
    t.append(" ");
    let mut f = "".to_owned();
    if let Some(mhz) = r.frequency_mhz {
        f = to_decimal(mhz as u128);
        f.append(" MHz");
    }
    t.append(f.as_str());
    t
}

pub open spec fn client_line(c: WifiClient) -> Seq<char> {
    "  client "@ + c.mac@ + " "@ + crate::text::right_of(
        crate::text::decimal_int(c.signal_dbm as int),
        5,
    ) + " dBm  tx "@ + crate::text::right_of(
        crate::text::decimal(c.tx_rate_bps as nat / 1_000_000),
        4,
    ) + " Mbit/s  rx "@ + crate::text::right_of(
        crate::text::decimal(c.rx_rate_bps as nat / 1_000_000),
        4,
    ) + " Mbit/s  "@ + c.ssid@
}

fn show_client(c: &WifiClient) -> (t: String)
    ensures
        t@ == client_line(*c),
{
    let mut t = "  client ".to_owned();
    t.append(c.mac.as_str());
    t.append(" ");
    let mut signal = String::new();
    push_decimal_int(&mut signal, c.signal_dbm as i64);
    proof {
        assert(signal@ =~= crate::text::decimal_int(c.signal_dbm as int));
    }
    push_right(&mut t, signal.as_str(), 5);
    t.append(" dBm  tx ");
    let tx = to_decimal((c.tx_rate_bps / 1_000_000) as u128);
    push_right(&mut t, tx.as_str(), 4);
    t.append(" Mbit/s  rx ");
    let rx = to_decimal((c.rx_rate_bps / 1_000_000) as u128);
    push_right(&mut t, rx.as_str(), 4);
    t.append(" Mbit/s  ");
    t.append(c.ssid.as_str());
    t
}

/// How full the pool is, where its size is known.
pub open spec fn pool_words(size: Option<usize>) -> Seq<char> {
    match size {
        Some(p) => " of "@ + crate::text::decimal(p as nat) + " pool addresses"@,
        None => ""@,
    }
}

pub open spec fn inventory_lines(s: Snapshot) -> Seq<Seq<char>> {
    let head = seq![
        ""@,
        "Inventory"@,
        "  wifi clients   "@ + crate::text::decimal(s.clients@.len()),
        "  radios         "@ + crate::text::decimal(s.radios@.len()),
        "  ARP entries    "@ + crate::text::decimal(s.arp@.len()),
        "  DHCP leases    "@ + crate::text::decimal(s.leases@.len()) + pool_words(s.dhcp_pool_size),
        "  interfaces     "@ + crate::text::decimal(s.interfaces@.len()),
    ];
    followed(
        followed(head, s.radios@, |r: Radio| radio_line(r)),
        s.clients@,
        |c: WifiClient| client_line(c),
    )
}

fn counted_line(label: &str, n: usize) -> (t: String)
    ensures
        t@ == label@ + crate::text::decimal(n as nat),
{
    let mut t = label.to_owned();
    push_decimal(&mut t, n as u128);
    t
}

/// What a survey found on the network.
pub fn inventory(s: &Snapshot) -> (r: Vec<String>)
    ensures
        crate::text::views(r@) == inventory_lines(*s),
{
    broadcast use crate::text::lemma_views_push;

    let mut out: Vec<String> = Vec::new();
    out.push("".to_owned());
    out.push("Inventory".to_owned());
    out.push(counted_line("  wifi clients   ", s.clients.len()));
    out.push(counted_line("  radios         ", s.radios.len()));
    out.push(counted_line("  ARP entries    ", s.arp.len()));
    let mut leases = counted_line("  DHCP leases    ", s.leases.len());
    let mut pool = "".to_owned();
    if let Some(p) = s.dhcp_pool_size {
        pool = counted_line(" of ", p);
        pool.append(" pool addresses");
    }
    leases.append(pool.as_str());
    out.push(leases);
    out.push(counted_line("  interfaces     ", s.interfaces.len()));
    let ghost head = seq![
        ""@,
        "Inventory"@,
        "  wifi clients   "@ + crate::text::decimal(s.clients@.len()),
        "  radios         "@ + crate::text::decimal(s.radios@.len()),
        "  ARP entries    "@ + crate::text::decimal(s.arp@.len()),
        "  DHCP leases    "@ + crate::text::decimal(s.leases@.len()) + pool_words(s.dhcp_pool_size),
        "  interfaces     "@ + crate::text::decimal(s.interfaces@.len()),
    ];
    let ghost radio = |r: Radio| radio_line(r);
    let ghost client = |c: WifiClient| client_line(c);
    proof {
        assert(crate::text::views(out@) =~= head);
        lemma_followed_ends(head, s.radios@, radio);
    }
    let mut i: usize = 0;
    while i < s.radios.len()
        invariant
            i <= s.radios@.len(),
            radio == (|r: Radio| radio_line(r)),
            crate::text::views(out@) == followed(head, s.radios@.take(i as int), radio),
        decreases s.radios@.len() - i,
    {
        broadcast use crate::text::lemma_views_push;

        proof {
            lemma_followed_step(head, s.radios@, radio, i as int);
        }
        out.push(show_radio(&s.radios[i]));
        i = i + 1;
    }
    let ghost a = crate::text::views(out@);
    proof {
        lemma_followed_ends(a, s.clients@, client);
    }
    let mut k: usize = 0;
    while k < s.clients.len()
        invariant
            k <= s.clients@.len(),
            client == (|c: WifiClient| client_line(c)),
            crate::text::views(out@) == followed(a, s.clients@.take(k as int), client),
        decreases s.clients@.len() - k,
    {
        broadcast use crate::text::lemma_views_push;

        proof {
            lemma_followed_step(a, s.clients@, client, k as int);
        }
        out.push(show_client(&s.clients[k]));
        k = k + 1;
    }
    out
}

pub open spec fn discover_value(
    router: Seq<char>,
    host: Seq<char>,
    s: Snapshot,
    found: Seq<Finding>,
) -> JsonView {
    empty_object().put("router"@, JsonView::Text(router)).put("host"@, JsonView::Text(host)).put(
        "inventory"@,
        empty_object().put("wifi_clients"@, whole(s.clients@.len())).put(
            "radios"@,
            whole(s.radios@.len()),
        ).put("arp_entries"@, whole(s.arp@.len())).put("dhcp_leases"@, whole(s.leases@.len())).put(
            "interfaces"@,
            whole(s.interfaces@.len()),
        ).put(
            "dhcp_pool_size"@,
            match s.dhcp_pool_size {
                Some(p) => whole(p as nat),
                None => JsonView::Null,
            },
        ),
    ).put("findings"@, findings_value(found))
}

pub fn discover_json(router: &str, host: &str, s: &Snapshot, found: &Vec<Finding>) -> (r: Json)
    ensures
        r@ == discover_value(router@, host@, *s, found@),
{
    let pool = match s.dhcp_pool_size {
        Some(p) => Json::number(p as u64),
        None => Json::Null,
    };
    let inventory = Json::object().with("wifi_clients", Json::number(s.clients.len() as u64)).with(
        "radios",
        Json::number(s.radios.len() as u64),
    ).with("arp_entries", Json::number(s.arp.len() as u64)).with(
        "dhcp_leases",
        Json::number(s.leases.len() as u64),
    ).with("interfaces", Json::number(s.interfaces.len() as u64)).with("dhcp_pool_size", pool);
    Json::object().with("router", Json::text(router)).with("host", Json::text(host)).with(
        "inventory",
        inventory,
    ).with("findings", findings_json(found))
}

// ---------------------------------------------------------------------------
// Trace
// ---------------------------------------------------------------------------

/// A hop of a path: its times in milliseconds, its loss in percent.
pub open spec fn hop_line(h: Hop) -> Seq<char> {
    let ttl = crate::text::right_of(crate::text::decimal(h.ttl as nat), 2);
    if crate::discovery::tools::answered(h) {
        "  "@ + ttl + "  "@ + crate::text::left_of(h.address@, 16) + " "@ + crate::text::right_of(
            crate::text::fixed(h.avg as int, 1),
            7,
        ) + " ms  (best "@ + crate::text::fixed(h.best as int, 1) + ", worst "@ + crate::text::fixed(
            h.worst as int,
            1,
        ) + ")  "@ + crate::text::fixed(h.loss as int, 0) + "% loss"@
    } else {
        "  "@ + ttl + "  "@ + crate::text::left_of("*"@, 16) + " no response"@
    }
}

fn show_hop(h: &Hop) -> (t: String)
    ensures
        t@ == hop_line(*h),
{
    let mut t = "  ".to_owned();
    let ttl = to_decimal(h.ttl as u128);
    push_right(&mut t, ttl.as_str(), 2);
    t.append("  ");
    if h.responded() {
        push_left(&mut t, h.address.as_str(), 16);
        t.append(" ");
        let mut avg = String::new();
        push_fixed(&mut avg, h.avg, true);
        proof {
            assert(avg@ =~= crate::text::fixed(h.avg as int, 1));
        }
        push_right(&mut t, avg.as_str(), 7);
        t.append(" ms  (best ");
        push_fixed(&mut t, h.best, true);
        t.append(", worst ");
        push_fixed(&mut t, h.worst, true);
        t.append(")  ");
        push_fixed(&mut t, h.loss, false);
        t.append("% loss");
    } else {
        push_left(&mut t, "*", 16);
        t.append(" no response");
    }
    t
}

/// The path, hop by hop.
pub fn path_report(hops: &Vec<Hop>) -> (r: Vec<String>)
    ensures
        crate::text::views(r@) == followed(seq![""@], hops@, |h: Hop| hop_line(h)),
{
    broadcast use crate::text::lemma_views_push;

    let mut out: Vec<String> = Vec::new();
    out.push("".to_owned());
    let ghost line = |h: Hop| hop_line(h);
    let mut i: usize = 0;
    proof {
        assert(crate::text::views(out@) =~= seq![""@]);
        lemma_followed_ends(seq![""@], hops@, line);
    }
    while i < hops.len()
        invariant
            i <= hops@.len(),
            line == (|h: Hop| hop_line(h)),
            crate::text::views(out@) == followed(seq![""@], hops@.take(i as int), line),
        decreases hops@.len() - i,
    {
        broadcast use crate::text::lemma_views_push;

        proof {
            lemma_followed_step(seq![""@], hops@, line, i as int);
        }
        out.push(show_hop(&hops[i]));
        i = i + 1;
    }
    out
}

pub open spec fn hop_value(h: Hop) -> JsonView {
    empty_object().put("ttl"@, whole(h.ttl as nat)).put("address"@, JsonView::Text(h.address@)).put(
        "sent"@,
        whole(h.sent as nat),
    ).put("loss_pct"@, JsonView::Number(crate::text::thousandths(h.loss as int))).put(
        "avg_ms"@,
        JsonView::Number(crate::text::thousandths(h.avg as int)),
    ).put("best_ms"@, JsonView::Number(crate::text::thousandths(h.best as int))).put(
        "worst_ms"@,
        JsonView::Number(crate::text::thousandths(h.worst as int)),
    )
}

pub open spec fn trace_value(
    router: Seq<char>,
    target: Seq<char>,
    hops: Seq<Hop>,
    found: Seq<Finding>,
) -> JsonView {
    empty_object().put("router"@, JsonView::Text(router)).put("target"@, JsonView::Text(target)).put(
        "hops"@,
        JsonView::List(Seq::new(hops.len(), |i: int| hop_value(hops[i]))),
    ).put("findings"@, findings_value(found))
}

pub fn trace_json(router: &str, target: &str, hops: &Vec<Hop>, found: &Vec<Finding>) -> (r: Json)
    ensures
        r@ == trace_value(router@, target@, hops@, found@),
{
    let mut out: Vec<Json> = Vec::new();
    let mut i: usize = 0;
    while i < hops.len()
        invariant
            i <= hops@.len(),
            out@.len() == i,
            forall|k: int| 0 <= k < i ==> (#[trigger] out@[k])@ == hop_value(hops@[k]),
        decreases hops@.len() - i,
    {
        let h = &hops[i];
        let v = Json::object().with("ttl", Json::number(h.ttl as u64)).with(
            "address",
            Json::text(h.address.as_str()),
        ).with("sent", Json::number(h.sent as u64)).with(
            "loss_pct",
            Json::Number(to_thousandths(h.loss as i128)),
        ).with("avg_ms", Json::Number(to_thousandths(h.avg as i128))).with(
            "best_ms",
            Json::Number(to_thousandths(h.best as i128)),
        ).with("worst_ms", Json::Number(to_thousandths(h.worst as i128)));
        out.push(v);
        i = i + 1;
    }
    proof {
        assert(crate::json::views(out@) =~= Seq::new(hops@.len(), |i: int| hop_value(hops@[i])));
    }
    Json::object().with("router", Json::text(router)).with("target", Json::text(target)).with(
        "hops",
        Json::list(out),
    ).with("findings", findings_json(found))
}

// ---------------------------------------------------------------------------
// Scan
// ---------------------------------------------------------------------------

/// What a host goes by: its DNS name, else its NetBIOS name, else nothing.
pub open spec fn host_label(h: ScanHost) -> Seq<char> {
    if h.dns@.len() > 0 {
        h.dns@
    } else {
        h.netbios@
    }
}

pub open spec fn scan_line(h: ScanHost) -> Seq<char> {
    "  "@ + crate::text::left_of(h.address@, 16) + " "@ + crate::text::left_of(
        if h.mac@.len() == 0 {
            "-"@
        } else {
            h.mac@
        },
        18,
    ) + " "@ + host_label(h)
}

fn show_host(h: &ScanHost) -> (t: String)
    ensures
        t@ == scan_line(*h),
{
    let mut t = "  ".to_owned();
    push_left(&mut t, h.address.as_str(), 16);
    t.append(" ");
    if same(h.mac.as_str(), "") {
        push_left(&mut t, "-", 18);
    } else {
        push_left(&mut t, h.mac.as_str(), 18);
    }
    t.append(" ");
    if same(h.dns.as_str(), "") {
        t.append(h.netbios.as_str());
    } else {
        t.append(h.dns.as_str());
    }
    proof {
        reveal_strlit("");
        if h.mac@.len() == 0 {
            assert(h.mac@ =~= ""@);
        }
        if h.dns@.len() == 0 {
            assert(h.dns@ =~= ""@);
        }
    }
    t
}

pub open spec fn scan_head(n: nat) -> Seq<Seq<char>> {
    seq![""@, crate::text::decimal(n) + " host(s) responding"@]
}

/// Who answered a scan.
pub fn scan_report(hosts: &Vec<ScanHost>) -> (r: Vec<String>)
    ensures
        crate::text::views(r@) == followed(
            scan_head(hosts@.len()),
            hosts@,
            |h: ScanHost| scan_line(h),
        ),
{
    broadcast use crate::text::lemma_views_push;

    let mut out: Vec<String> = Vec::new();
    out.push("".to_owned());
    let mut head = to_decimal(hosts.len() as u128);
    head.append(" host(s) responding");
    out.push(head);
    let ghost a = scan_head(hosts@.len());
    let ghost line = |h: ScanHost| scan_line(h);
    let mut i: usize = 0;
    proof {
        assert(crate::text::views(out@) =~= a);
        lemma_followed_ends(a, hosts@, line);
    }
    while i < hosts.len()
        invariant
            i <= hosts@.len(),
            line == (|h: ScanHost| scan_line(h)),
            crate::text::views(out@) == followed(a, hosts@.take(i as int), line),
        decreases hosts@.len() - i,
    {
        broadcast use crate::text::lemma_views_push;

        proof {
            lemma_followed_step(a, hosts@, line, i as int);
        }
        out.push(show_host(&hosts[i]));
        i = i + 1;
    }
    out
}

pub open spec fn host_value(h: ScanHost) -> JsonView {
    empty_object().put("address"@, JsonView::Text(h.address@)).put(
        "mac"@,
        JsonView::Text(h.mac@),
    ).put("dns"@, JsonView::Text(h.dns@)).put("netbios"@, JsonView::Text(h.netbios@))
}

pub open spec fn scan_value(
    router: Seq<char>,
    range: Seq<char>,
    hosts: Seq<ScanHost>,
    found: Seq<Finding>,
) -> JsonView {
    empty_object().put("router"@, JsonView::Text(router)).put("range"@, JsonView::Text(range)).put(
        "hosts"@,
        JsonView::List(Seq::new(hosts.len(), |i: int| host_value(hosts[i]))),
    ).put("findings"@, findings_value(found))
}

pub fn scan_json(router: &str, range: &str, hosts: &Vec<ScanHost>, found: &Vec<Finding>) -> (r: Json)
    ensures
        r@ == scan_value(router@, range@, hosts@, found@),
{
    let mut out: Vec<Json> = Vec::new();
    let mut i: usize = 0;
    while i < hosts.len()
        invariant
            i <= hosts@.len(),
            out@.len() == i,
            forall|k: int| 0 <= k < i ==> (#[trigger] out@[k])@ == host_value(hosts@[k]),
        decreases hosts@.len() - i,
    {
        let h = &hosts[i];
        let v = Json::object().with("address", Json::text(h.address.as_str())).with(
            "mac",
            Json::text(h.mac.as_str()),
        ).with("dns", Json::text(h.dns.as_str())).with("netbios", Json::text(h.netbios.as_str()));
        out.push(v);
        i = i + 1;
    }
    proof {
        assert(crate::json::views(out@) =~= Seq::new(hosts@.len(), |i: int| host_value(hosts@[i])));
    }
    Json::object().with("router", Json::text(router)).with("range", Json::text(range)).with(
        "hosts",
        Json::list(out),
    ).with("findings", findings_json(found))
}

} // verus!
