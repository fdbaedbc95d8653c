//! The private admin endpoint: which report a request asks for, and the answer.
use vstd::prelude::*;

use crate::candidates::{histogram, ledger, report_json};
use crate::dispatch::{name_of, Dispatch, DispatchMode, Gauges};
use crate::fairness::{IdentityFairnessLimiter, GlobalInFlightSnapshot, LongLivedSnapshot};
use crate::hop::{cap_in_force, mode_in_force};
use crate::json::fields_text;
use crate::os_path::{lossy, lossy_text};
use crate::telemetry::{EdgeTelemetry, RequestCounts, Vitals};
use crate::text::{
    byte_len, chars_of, decimal, find_char, first, is_white, lemma_first_at, numbers_are_read_back,
    owned, push_decimal, same, trim_end, trim_start, white, whole,
};

verus! {

/// One measure: its name, whether it only ever grows, and its value.
pub ghost struct Measure {
    pub name: Seq<char>,
    pub counter: bool,
    pub value: u64,
}

/// Two lines on a measure: its kind, and its value.
pub open spec fn measure_text(m: Measure) -> Seq<char> {
    "# TYPE "@ + m.name + (if m.counter { " counter\n"@ } else { " gauge\n"@ }) + m.name + " "@
        + decimal(m.value as nat) + "\n"@
}

/// The lines on all measures.
pub open spec fn measures_text(ms: Seq<Measure>) -> Seq<char>
    decreases ms.len(),
{
    if ms.len() == 0 {
        Seq::empty()
    } else {
        measures_text(ms.drop_last()) + measure_text(ms.last())
    }
}

/// Measures while they are written down.
pub struct Measures {
    text: String,
    all: Ghost<Seq<Measure>>,
}

impl Measures {
    pub closed spec fn view(&self) -> Seq<Measure> {
        self.all@
    }

    pub closed spec fn wf(&self) -> bool {
        self.text@ == measures_text(self.all@)
    }

    pub fn new() -> (m: Measures)
        ensures
            m.wf(),
            m@ == Seq::<Measure>::empty(),
    {
        let text: String = String::new();
        assert(text@ =~= measures_text(Seq::empty()));
        Measures { text, all: Ghost(Seq::empty()) }
    }

    fn put(&mut self, name: &str, counter: bool, value: u64)
        requires
            old(self).wf(),
        ensures
            final(self).wf(),
            final(self)@ == old(self)@.push(Measure { name: name@, counter, value }),
    {
        let ghost m = Measure { name: name@, counter, value };
        let ghost before = self.text@;
        self.text.append("# TYPE ");
        self.text.append(name);
        self.text.append(
            if counter {
                " counter\n"
            } else {
                " gauge\n"
            },
        );
        self.text.append(name);
        self.text.append(" ");
        push_decimal(&mut self.text, value);
        self.text.append("\n");
        proof {
            assert(self.text@ =~= before + measure_text(m));
            assert(self.all@.push(m).drop_last() =~= self.all@);
            self.all@ = self.all@.push(m);
        }
    }

    /// Adds a value that goes up and down.
    pub fn gauge(&mut self, name: &str, value: u64)
        requires
            old(self).wf(),
        ensures
            final(self).wf(),
            final(self)@ == old(self)@.push(Measure { name: name@, counter: false, value }),
    {
        self.put(name, false, value);
    }

    /// Adds a value that only grows.
    pub fn counter(&mut self, name: &str, value: u64)
        requires
            old(self).wf(),
        ensures
            final(self).wf(),
            final(self)@ == old(self)@.push(Measure { name: name@, counter: true, value }),
    {
        self.put(name, true, value);
    }

    pub fn into_text(self) -> (r: String)
        requires
            self.wf(),
        ensures
            r@ == measures_text(self@),
    {
        self.text
    }
}

/// A value that goes up and down.
pub open spec fn gauge(name: Seq<char>, value: u64) -> Measure {
    Measure { name, counter: false, value }
}

/// A value that only grows.
pub open spec fn counter(name: Seq<char>, value: u64) -> Measure {
    Measure { name, counter: true, value }
}

/// One for true, zero for false.
pub open spec fn bit(b: bool) -> u64 {
    if b { 1 } else { 0 }
}

fn bit_of(b: bool) -> (r: u64)
    ensures
        r == bit(b),
{
    if b {
        1
    } else {
        0
    }
}

/// The measures of requests.
pub open spec fn request_measures(
    c: RequestCounts,
    draining: bool,
    g: GlobalInFlightSnapshot,
) -> Seq<Measure> {
    seq![
        gauge("oxo_edge_in_flight"@, c.in_flight),
        gauge("oxo_edge_draining"@, bit(draining)),
        counter("oxo_edge_requests_total"@, c.requests_total),
        counter("oxo_edge_responses_total"@, c.responses_total),
        counter("oxo_edge_rejections_total"@, c.rejections_total),
        counter("oxo_edge_rate_limited_total"@, c.rate_limited_total),
        counter("oxo_edge_overload_total"@, g.overload_total),
        gauge("oxo_edge_global_in_flight_active"@, g.active),
        gauge("oxo_edge_global_in_flight_max_active_observed"@, g.max_active_observed),
        counter("oxo_edge_global_in_flight_admitted_total"@, g.admitted_total),
        counter("oxo_edge_status_2xx_total"@, c.status_2xx_total),
        counter("oxo_edge_status_4xx_total"@, c.status_4xx_total),
        counter("oxo_edge_status_5xx_total"@, c.status_5xx_total),
        counter("oxo_edge_status_other_total"@, c.status_other_total),
    ]
}

/// The measures of fairness.
pub open spec fn fairness_measures(l: IdentityFairnessLimiter) -> Seq<Measure> {
    seq![
        gauge("oxo_edge_fairness_enabled"@, bit(l.max() is Some)),
        gauge("oxo_edge_fairness_in_flight"@, l.in_flight() as u64),
        gauge("oxo_edge_fairness_tracked_identities"@, l.identities() as u64),
        counter("oxo_edge_fairness_admitted_total"@, l.admitted()),
        counter("oxo_edge_fairness_saturation_total"@, l.saturated()),
    ]
}

/// The measures of streams that stay open.
pub open spec fn stream_measures(s: LongLivedSnapshot) -> Seq<Measure> {
    seq![
        gauge("oxo_edge_long_lived_active"@, s.active),
        gauge("oxo_edge_long_lived_max_active_observed"@, s.max_active_observed),
        counter("oxo_edge_long_lived_accepted_total"@, s.accepted_total),
        counter("oxo_edge_long_lived_completed_total"@, s.completed_total),
        counter("oxo_edge_long_lived_drained_total"@, s.drained_total),
        counter("oxo_edge_long_lived_cancelled_total"@, s.cancelled_total),
        counter("oxo_edge_long_lived_rejected_total"@, s.rejected_total),
        counter("oxo_edge_long_lived_downstream_timeout_total"@, s.downstream_timeout_total),
        counter("oxo_edge_long_lived_bytes_streamed_total"@, s.bytes_streamed_total),
    ]
}

/// `s` with the prefix of the static file server's counters, wherever it stands, put
/// into the edge's own words.
pub open spec fn renamed(s: Seq<char>) -> Seq<char>
    decreases s.len(),
{
    if s.len() < 7 {
        s
    } else if s.take(7) == "crenel_"@ {
        "oxo_edge_static_"@ + renamed(s.skip(7))
    } else {
        seq![s[0]] + renamed(s.skip(1))
    }
}

fn rename(name: &str) -> (r: String)
    ensures
        r@ == renamed(name@),
{
    let n: usize = name.unicode_len();
    let cs = chars_of(name);
    let mut out: String = String::new();
    let mut i: usize = 0;
    assert(name@.skip(0) =~= name@);
    assert(out@ + renamed(name@) =~= renamed(name@));
    while n - i >= 7
        invariant
            i <= n,
            n == name@.len(),
            cs@ == name@,
            out@ + renamed(name@.skip(i as int)) == renamed(name@),
        decreases n - i,
    {
        let ghost rest = name@.skip(i as int);
        let ghost done = out@;
        assert(rest.take(7) =~= name@.subrange(i as int, i + 7));
        if same(name.substring_char(i, i + 7), "crenel_") {
            out.append("oxo_edge_static_");
            assert(rest.skip(7) =~= name@.skip(i + 7));
            assert(out@ + renamed(rest.skip(7)) =~= done + ("oxo_edge_static_"@ + renamed(
                rest.skip(7),
            )));
            i += 7;
        } else {
            out.push(cs[i]);
            assert(rest.skip(1) =~= name@.skip(i + 1));
            assert(out@ + renamed(rest.skip(1)) =~= done + (seq![rest[0]] + renamed(rest.skip(1))));
            i += 1;
        }
    }
    let tail = name.substring_char(i, n);
    assert(tail@ =~= name@.skip(i as int));
    out.append(tail);
    out
}

/// A counter of the static file server.
pub struct StaticCounter {
    pub name: String,
    pub value: u64,
}

/// The measures of static files.
pub open spec fn static_measures(cs: Seq<StaticCounter>) -> Seq<Measure> {
    cs.map_values(|c: StaticCounter| counter(renamed(c.name@), c.value))
}

/// The lines on static files.
pub fn static_metrics_text(counters: &Vec<StaticCounter>) -> (r: String)
    ensures
        r@ == measures_text(static_measures(counters@)),
{
    let ghost all = static_measures(counters@);
    let mut m = Measures::new();
    let mut i: usize = 0;
    while i < counters.len()
        invariant
            i <= counters@.len(),
            all == static_measures(counters@),
            m.wf(),
            m@ =~= all.take(i as int),
        decreases counters@.len() - i,
    {
        let name = rename(counters[i].name.as_str());
        m.counter(name.as_str(), counters[i].value);
        assert(all[i as int] == counter(renamed(counters@[i as int].name@), counters@[i as int].value));
        i += 1;
    }
    assert(all.take(i as int) =~= all);
    m.into_text()
}

/// The metrics report.
pub open spec fn metrics(t: EdgeTelemetry, v: Vitals, statics: Seq<StaticCounter>) -> Seq<char> {
    measures_text(request_measures(t.counts, v.drain@, v.global_in_flight@)) + measures_text(
        fairness_measures(*v.fairness),
    ) + measures_text(stream_measures(v.long_lived@)) + measures_text(static_measures(statics))
}

fn request_metrics(c: &RequestCounts, draining: bool, g: &GlobalInFlightSnapshot) -> (r: String)
    ensures
        r@ == measures_text(request_measures(*c, draining, *g)),
{
    let mut m = Measures::new();
    m.gauge("oxo_edge_in_flight", c.in_flight);
    m.gauge("oxo_edge_draining", bit_of(draining));
    m.counter("oxo_edge_requests_total", c.requests_total);
    m.counter("oxo_edge_responses_total", c.responses_total);
    m.counter("oxo_edge_rejections_total", c.rejections_total);
    m.counter("oxo_edge_rate_limited_total", c.rate_limited_total);
    m.counter("oxo_edge_overload_total", g.overload_total);
    m.gauge("oxo_edge_global_in_flight_active", g.active);
    m.gauge("oxo_edge_global_in_flight_max_active_observed", g.max_active_observed);
    m.counter("oxo_edge_global_in_flight_admitted_total", g.admitted_total);
    m.counter("oxo_edge_status_2xx_total", c.status_2xx_total);
    m.counter("oxo_edge_status_4xx_total", c.status_4xx_total);
    m.counter("oxo_edge_status_5xx_total", c.status_5xx_total);
    m.counter("oxo_edge_status_other_total", c.status_other_total);
    assert(m@ =~= request_measures(*c, draining, *g));
    m.into_text()
}

fn fairness_metrics(l: &IdentityFairnessLimiter) -> (r: String)
    requires
        l.in_flight() <= u64::MAX,
    ensures
        r@ == measures_text(fairness_measures(*l)),
{
    let s = l.snapshot();
    let mut m = Measures::new();
    m.gauge("oxo_edge_fairness_enabled", bit_of(s.enabled));
    m.gauge("oxo_edge_fairness_in_flight", s.active_in_flight);
    m.gauge("oxo_edge_fairness_tracked_identities", s.tracked_identities as u64);
    m.counter("oxo_edge_fairness_admitted_total", s.admitted_total);
    m.counter("oxo_edge_fairness_saturation_total", s.saturation_total);
    assert(m@ =~= fairness_measures(*l));
    m.into_text()
}

fn stream_metrics(s: &LongLivedSnapshot) -> (r: String)
    ensures
        r@ == measures_text(stream_measures(*s)),
{
    let mut m = Measures::new();
    m.gauge("oxo_edge_long_lived_active", s.active);
    m.gauge("oxo_edge_long_lived_max_active_observed", s.max_active_observed);
    m.counter("oxo_edge_long_lived_accepted_total", s.accepted_total);
    m.counter("oxo_edge_long_lived_completed_total", s.completed_total);
    m.counter("oxo_edge_long_lived_drained_total", s.drained_total);
    m.counter("oxo_edge_long_lived_cancelled_total", s.cancelled_total);
    m.counter("oxo_edge_long_lived_rejected_total", s.rejected_total);
    m.counter("oxo_edge_long_lived_downstream_timeout_total", s.downstream_timeout_total);
    m.counter("oxo_edge_long_lived_bytes_streamed_total", s.bytes_streamed_total);
    assert(m@ =~= stream_measures(*s));
    m.into_text()
}

/// The metrics report.
pub fn metrics_text(t: &EdgeTelemetry, v: &Vitals, statics: &Vec<StaticCounter>) -> (r: String)
    requires
        v.fairness.in_flight() <= u64::MAX,
    ensures
        r@ == metrics(*t, *v, statics@),
{
    let mut out: String = request_metrics(
        &t.counts,
        v.drain.is_draining(),
        &v.global_in_flight.snapshot(),
    );
    out.append(fairness_metrics(v.fairness).as_str());
    out.append(stream_metrics(&v.long_lived.snapshot()).as_str());
    out.append(static_metrics_text(statics).as_str());
    out
}

/// The first word of `s`, which starts at its front.
pub open spec fn word(s: Seq<char>) -> Seq<char>
    decreases s.len(),
{
    if s.len() == 0 || is_white(s[0]) {
        Seq::empty()
    } else {
        seq![s[0]] + word(s.drop_first())
    }
}

/// The second word of a line.
pub open spec fn second_word(line: Seq<char>) -> Seq<char> {
    let head = trim_start(line);
    word(trim_start(head.skip(word(head).len() as int)))
}

/// The path that a request asks for, as it stands in the first line of `text`.
pub open spec fn path_in(text: Seq<char>) -> Seq<char> {
    let w = second_word(text.take(first(text, '\n')));
    if w.len() == 0 { "/"@ } else { w }
}

proof fn lemma_word_at(s: Seq<char>, n: int)
    requires
        0 <= n <= s.len(),
        forall|j: int| 0 <= j < n ==> !is_white(s[j]),
        n < s.len() ==> is_white(s[n]),
    ensures
        word(s) == s.take(n),
    decreases s.len(),
{
    if n > 0 {
        let t = s.drop_first();
        assert forall|j: int| 0 <= j < n - 1 implies !is_white(t[j]) by {
            assert(t[j] == s[j + 1]);
        }
        lemma_word_at(t, n - 1);
        assert(seq![s[0]] + t.take(n - 1) =~= s.take(n));
    } else {
        assert(s.take(0) =~= Seq::<char>::empty());
    }
}

proof fn lemma_trim_start_skips(s: Seq<char>, a: int)
    requires
        0 <= a <= s.len(),
        forall|j: int| 0 <= j < a ==> is_white(s[j]),
        a < s.len() ==> !is_white(s[a]),
    ensures
        trim_start(s) == s.skip(a),
    decreases s.len(),
{
    if a > 0 {
        let t = s.drop_first();
        assert forall|j: int| 0 <= j < a - 1 implies is_white(t[j]) by {
            assert(t[j] == s[j + 1]);
        }
        lemma_trim_start_skips(t, a - 1);
        assert(t.skip(a - 1) =~= s.skip(a));
    } else {
        assert(s.skip(0) =~= s);
    }
}

fn skip_while(cs: &Vec<char>, from: usize, end: usize, spaces: bool) -> (r: usize)
    requires
        from <= end <= cs@.len(),
    ensures
        from <= r <= end,
        forall|j: int| from <= j < r ==> is_white(cs@[j]) == spaces,
        r < end ==> is_white(cs@[r as int]) != spaces,
{
    let mut i: usize = from;
    while i < end && white(cs[i]) == spaces
        invariant
            from <= i <= end <= cs@.len(),
            forall|j: int| from <= j < i ==> is_white(cs@[j]) == spaces,
        decreases end - i,
    {
        i += 1;
    }
    i
}

/// The path that a request asks for.
pub fn admin_path(text: &str) -> (r: String)
    ensures
        r@ == path_in(text@),
{
    let cs = chars_of(text);
    let end: usize = find_char(text, '\n');
    let a: usize = skip_while(&cs, 0, end, true);
    let b: usize = skip_while(&cs, a, end, false);
    let c: usize = skip_while(&cs, b, end, true);
    let d: usize = skip_while(&cs, c, end, false);
    proof {
        let line = text@.take(end as int);
        lemma_trim_start_skips(line, a as int);
        let head = line.skip(a as int);
        assert forall|j: int| 0 <= j < b - a implies !is_white(head[j]) by {
            assert(head[j] == cs@[j + a]);
        }
        lemma_word_at(head, b - a);
        let rest = head.skip(b - a);
        assert forall|j: int| 0 <= j < c - b implies is_white(rest[j]) by {
            assert(rest[j] == cs@[j + b]);
        }
        lemma_trim_start_skips(rest, c - b);
        let tail = rest.skip(c - b);
        assert forall|j: int| 0 <= j < d - c implies !is_white(tail[j]) by {
            assert(tail[j] == cs@[j + c]);
        }
        lemma_word_at(tail, d - c);
        assert(tail.take(d - c) =~= text@.subrange(c as int, d as int));
    }
    if c == d {
        return owned("/");
    }
    owned(text.substring_char(c, d))
}

/// The reports of the admin endpoint.
#[derive(Clone, Copy, Debug, PartialEq, Eq, Structural)]
pub enum AdminRoute {
    Live,
    Ready,
    PoolHealth,
    Metrics,
    AllocCount,
    HopTiming,
    NotFound,
}

/// The report behind a path; two of them are only there when they are built in.
pub open spec fn route_of(path: Seq<char>, alloc_count: bool, hop_timing: bool) -> AdminRoute {
    if path == "/live"@ {
        AdminRoute::Live
    } else if path == "/ready"@ {
        AdminRoute::Ready
    } else if path == "/pool-health"@ {
        AdminRoute::PoolHealth
    } else if path == "/metrics"@ {
        AdminRoute::Metrics
    } else if alloc_count && path == "/alloc-count"@ {
        AdminRoute::AllocCount
    } else if hop_timing && path == "/hop-timing"@ {
        AdminRoute::HopTiming
    } else {
        AdminRoute::NotFound
    }
}

pub fn admin_route(path: &str, alloc_count: bool, hop_timing: bool) -> (r: AdminRoute)
    ensures
        r == route_of(path@, alloc_count, hop_timing),
{
    if same(path, "/live") {
        AdminRoute::Live
    } else if same(path, "/ready") {
        AdminRoute::Ready
    } else if same(path, "/pool-health") {
        AdminRoute::PoolHealth
    } else if same(path, "/metrics") {
        AdminRoute::Metrics
    } else if alloc_count && same(path, "/alloc-count") {
        AdminRoute::AllocCount
    } else if hop_timing && same(path, "/hop-timing") {
        AdminRoute::HopTiming
    } else {
        AdminRoute::NotFound
    }
}

/// An answer of the admin endpoint, after which the connection closes.
pub open spec fn answer(status: Seq<char>, content_type: Seq<char>, body: Seq<char>) -> Seq<char> {
    "HTTP/1.1 "@ + status + "\r\nContent-Type: "@ + content_type + "\r\nContent-Length: "@
        + decimal(byte_len(body)) + "\r\nConnection: close\r\n\r\n"@ + body
}

fn write_answer(status: &str, content_type: &str, body: &str) -> (r: String)
    ensures
        r@ == answer(status@, content_type@, body@),
{
    let mut out: String = owned("HTTP/1.1 ");
    out.append(status);
    out.append("\r\nContent-Type: ");
    out.append(content_type);
    out.append("\r\nContent-Length: ");
    push_decimal(&mut out, body.as_bytes().len() as u64);
    out.append("\r\nConnection: close\r\n\r\n");
    out.append(body);
    out
}

/// `s` without one closing brace at its end.
pub open spec fn unclosed(s: Seq<char>) -> Seq<char> {
    if s.len() > 0 && s.last() == '}' { s.drop_last() } else { s }
}

/// The timing report with the dispatch ledger put in as its last field.
pub open spec fn spliced(seams: Seq<char>, dispatch: Seq<char>) -> Seq<char> {
    unclosed(trim_end(seams)) + ",\"dispatch\":"@ + dispatch + "}\n"@
}

/// How many `{` more than `}` there are in `s`.
pub open spec fn depth(s: Seq<char>) -> int
    decreases s.len(),
{
    if s.len() == 0 {
        0
    } else {
        depth(s.drop_last()) + (if s.last() == '{' {
            1int
        } else if s.last() == '}' {
            -1int
        } else {
            0int
        })
    }
}

proof fn lemma_depth_adds(a: Seq<char>, b: Seq<char>)
    ensures
        depth(a + b) == depth(a) + depth(b),
    decreases b.len(),
{
    if b.len() == 0 {
        assert(a + b =~= a);
    } else {
        lemma_depth_adds(a, b.drop_last());
        assert((a + b).drop_last() =~= a + b.drop_last());
    }
}

proof fn lemma_depth_trimmed(s: Seq<char>)
    ensures
        depth(trim_end(s)) == depth(s),
    decreases s.len(),
{
    if s.len() > 0 && is_white(s.last()) {
        lemma_depth_trimmed(s.drop_last());
    }
}

/// Splicing a balanced ledger into a balanced report that closes its root object gives
/// a balanced report that closes its root object.
pub proof fn splicing_keeps_the_balance(seams: Seq<char>, dispatch: Seq<char>)
    requires
        depth(seams) == 0,
        depth(dispatch) == 0,
        trim_end(seams).len() > 0,
        trim_end(seams).last() == '}',
    ensures
        depth(spliced(seams, dispatch)) == 0,
        trim_end(spliced(seams, dispatch)).len() > 0,
        trim_end(spliced(seams, dispatch)).last() == '}',
{
    let base = unclosed(trim_end(seams));
    let key = ",\"dispatch\":"@;
    let end = "}\n"@;
    reveal_strlit(",\"dispatch\":");
    reveal_strlit("}\n");
    lemma_depth_trimmed(seams);
    lemma_depth_adds(base, key);
    lemma_depth_adds(base + key, dispatch);
    lemma_depth_adds(base + key + dispatch, end);
    lemma_no_braces(key);
    let all = spliced(seams, dispatch);
    assert(end =~= seq!['}', '\n']);
    assert(end.drop_last() =~= seq!['}']);
    assert(end.drop_last().drop_last() =~= Seq::<char>::empty());
    assert(depth(end.drop_last().drop_last()) == 0);
    assert(depth(end.drop_last()) == -1);
    assert(depth(end) == -1);
    assert(all.last() == '\n');
    assert(all.drop_last().last() == '}');
    assert(trim_end(all) == trim_end(all.drop_last()));
    assert(trim_end(all.drop_last()) == all.drop_last());
}

proof fn lemma_no_braces(s: Seq<char>)
    requires
        forall|i: int| 0 <= i < s.len() ==> s[i] != '{' && s[i] != '}',
    ensures
        depth(s) == 0,
    decreases s.len(),
{
    if s.len() > 0 {
        lemma_no_braces(s.drop_last());
    }
}

proof fn lemma_decimal_depth(n: nat)
    ensures
        depth(decimal(n)) == 0,
    decreases n,
{
    if n >= 10 {
        lemma_decimal_depth(n / 10);
        assert(decimal(n).drop_last() =~= decimal(n / 10));
    } else {
        assert(decimal(n).drop_last() =~= Seq::<char>::empty());
        assert(depth(decimal(n).drop_last()) == 0);
    }
}

proof fn lemma_histogram_depth(hist: Seq<u64>)
    ensures
        depth(histogram(hist)) == 0,
    decreases hist.len(),
{
    if hist.len() > 0 {
        let head = histogram(hist.drop_last());
        let comma = if hist.len() == 1 { Seq::empty() } else { ","@ };
        let n = decimal((hist.len() - 1) as nat);
        reveal_strlit(",");
        reveal_strlit("\"");
        reveal_strlit("\":");
        lemma_histogram_depth(hist.drop_last());
        lemma_no_braces(comma);
        lemma_no_braces("\""@);
        lemma_no_braces("\":"@);
        lemma_decimal_depth((hist.len() - 1) as nat);
        lemma_decimal_depth(hist.last() as nat);
        lemma_depth_adds(head, comma);
        lemma_depth_adds(head + comma, "\""@);
        lemma_depth_adds(head + comma + "\""@, n);
        lemma_depth_adds(head + comma + "\""@ + n, "\":"@);
        lemma_depth_adds(head + comma + "\""@ + n + "\":"@, decimal(hist.last() as nat));
    }
}

proof fn lemma_one_brace(s: Seq<char>, at: int)
    requires
        0 <= at < s.len(),
        s[at] == '{',
        forall|i: int| 0 <= i < s.len() && i != at ==> s[i] != '{' && s[i] != '}',
    ensures
        depth(s) == 1,
    decreases s.len(),
{
    if at == s.len() - 1 {
        lemma_no_braces(s.drop_last());
    } else {
        lemma_one_brace(s.drop_last(), at);
    }
}

/// The dispatch ledger is a balanced object, whatever it counts.
pub proof fn the_ledger_is_balanced(m: DispatchMode, g: Gauges)
    ensures
        depth(ledger(m, g)) == 0,
{
    let a = "{\"mode\":\""@;
    let b = "\",\"dispatch_total\":"@;
    let c = ",\"chosen_busy\":"@;
    let d = ",\"bad_dispatch\":"@;
    let e = ",\"depth_hist\":{"@;
    let z = "}}"@;
    reveal_strlit("{\"mode\":\"");
    reveal_strlit("\",\"dispatch_total\":");
    reveal_strlit(",\"chosen_busy\":");
    reveal_strlit(",\"bad_dispatch\":");
    reveal_strlit(",\"depth_hist\":{");
    reveal_strlit("}}");
    reveal_strlit("rr");
    reveal_strlit("least-outstanding");
    reveal_strlit("free-first");
    reveal_strlit("sticky");
    let name = name_of(m);
    let n1 = decimal(g.dispatch_total as nat);
    let n2 = decimal(g.chosen_busy as nat);
    let n3 = decimal(g.bad_dispatch as nat);
    let h = histogram(g.depth_hist@);
    lemma_one_brace(a, 0);
    lemma_no_braces(name);
    lemma_no_braces(b);
    lemma_no_braces(c);
    lemma_no_braces(d);
    lemma_one_brace(e, e.len() - 1);
    lemma_decimal_depth(g.dispatch_total as nat);
    lemma_decimal_depth(g.chosen_busy as nat);
    lemma_decimal_depth(g.bad_dispatch as nat);
    lemma_histogram_depth(g.depth_hist@);
    assert(z =~= seq!['}', '}']);
    assert(z.drop_last() =~= seq!['}']);
    assert(z.drop_last().drop_last() =~= Seq::<char>::empty());
    assert(depth(z.drop_last().drop_last()) == 0);
    assert(depth(z.drop_last()) == -1);
    assert(depth(z) == -2);
    lemma_depth_adds(a, name);
    lemma_depth_adds(a + name, b);
    lemma_depth_adds(a + name + b, n1);
    lemma_depth_adds(a + name + b + n1, c);
    lemma_depth_adds(a + name + b + n1 + c, n2);
    lemma_depth_adds(a + name + b + n1 + c + n2, d);
    lemma_depth_adds(a + name + b + n1 + c + n2 + d, n3);
    lemma_depth_adds(a + name + b + n1 + c + n2 + d + n3, e);
    lemma_depth_adds(a + name + b + n1 + c + n2 + d + n3 + e, h);
    lemma_depth_adds(a + name + b + n1 + c + n2 + d + n3 + e + h, z);
}

/// `s` without the white space at its end.
fn trim_tail(s: &str) -> (r: &str)
    ensures
        r@ == trim_end(s@),
{
    let cs = chars_of(s);
    let mut n: usize = cs.len();
    assert(s@.take(n as int) =~= s@);
    while n > 0 && white(cs[n - 1])
        invariant
            n <= cs@.len(),
            cs@ == s@,
            trim_end(s@.take(n as int)) == trim_end(s@),
        decreases n,
    {
        assert(s@.take(n as int).drop_last() =~= s@.take(n - 1));
        n -= 1;
    }
    assert(s@.subrange(0, n as int) =~= s@.take(n as int));
    s.substring_char(0, n)
}

/// The timing report; `seams` is what was timed, as a JSON object.
pub fn hop_timing_admin_json(seams: &str, d: &mut Dispatch, env_mode: Option<&str>) -> (r: String)
    ensures
        r@ == spliced(seams@, ledger(mode_in_force(*old(d), env_mode), old(d).gauges)),
        *final(d) == (Dispatch { mode: Some(mode_in_force(*old(d), env_mode)), ..*old(d) }),
{
    let t = trim_tail(seams);
    let n: usize = t.unicode_len();
    let mut out: String = if n > 0 && t.get_char(n - 1) == '}' {
        assert(t@.subrange(0, n - 1) =~= t@.drop_last());
        owned(t.substring_char(0, n - 1))
    } else {
        owned(t)
    };
    out.append(",\"dispatch\":");
    out.append(report_json(d, env_mode).as_str());
    out.append("}\n");
    out
}

/// What the reports are drawn from, beside the telemetry and the dispatch state. The
/// last two are there when they are built in.
pub struct AdminSources<'a> {
    pub vitals: Vitals<'a>,
    pub env_mode: Option<&'a str>,
    pub env_cap: Option<&'a str>,
    pub pool_health: &'a str,
    pub static_counters: &'a Vec<StaticCounter>,
    pub alloc_events: Option<u64>,
    pub hop_seams: Option<&'a str>,
}

/// The body, its type and the status of the answer to `path`.
pub open spec fn answer_to(path: Seq<char>, t: EdgeTelemetry, s: AdminSources, d: Dispatch) -> Seq<
    char,
> {
    let json = "application/json"@;
    match route_of(path, s.alloc_events is Some, s.hop_seams is Some) {
        AdminRoute::Live => answer("200 OK"@, json, "{\"live\":true}\n"@),
        AdminRoute::Ready => answer(
            "200 OK"@,
            json,
            "{"@ + fields_text(
                t.ready_fields(
                    s.vitals,
                    d,
                    name_of(mode_in_force(d, s.env_mode)),
                    cap_in_force(d, s.env_cap),
                ),
            ) + (match t.certificate_admin_json {
                Some(extra) => extra@,
                None => ""@,
            }) + "}"@,
        ),
        AdminRoute::PoolHealth => answer("200 OK"@, json, s.pool_health@),
        AdminRoute::Metrics => answer(
            "200 OK"@,
            "text/plain; version=0.0.4"@,
            metrics(t, s.vitals, s.static_counters@),
        ),
        AdminRoute::AllocCount => answer(
            "200 OK"@,
            json,
            "{\"alloc_events_total\":"@ + decimal(s.alloc_events->0 as nat) + "}\n"@,
        ),
        AdminRoute::HopTiming => answer(
            "200 OK"@,
            json,
            spliced(s.hop_seams->0@, ledger(mode_in_force(d, s.env_mode), d.gauges)),
        ),
        AdminRoute::NotFound => answer(
            "404 Not Found"@,
            json,
            "{\"error\":\"not_found\"}\n"@,
        ),
    }
}

/// Answers a request to the admin endpoint; `request` is what was read of it, and what
/// is not Unicode in it is read as well as it can be.
pub fn handle_admin_request(
    request: &[u8],
    t: &EdgeTelemetry,
    s: &AdminSources,
    d: &mut Dispatch,
) -> (r: String)
    requires
        s.vitals.fairness.in_flight() <= u64::MAX,
        old(d).wf(),
    ensures
        r@ == answer_to(path_in(lossy(request@)), *t, *s, *old(d)),
        *final(d) == (match route_of(
            path_in(lossy(request@)),
            s.alloc_events is Some,
            s.hop_seams is Some,
        ) {
            AdminRoute::Ready => Dispatch {
                mode: Some(mode_in_force(*old(d), s.env_mode)),
                cap: Some(cap_in_force(*old(d), s.env_cap)),
                capped: old(d).capped || (old(d).cap is None && cap_in_force(
                    *old(d),
                    s.env_cap,
                ) is Some),
                ..*old(d)
            },
            AdminRoute::HopTiming => Dispatch {
                mode: Some(mode_in_force(*old(d), s.env_mode)),
                ..*old(d)
            },
            _ => *old(d),
        }),
{
    let text = lossy_text(request);
    let path = admin_path(text.as_str());
    let route = admin_route(path.as_str(), s.alloc_events.is_some(), s.hop_seams.is_some());
    let json: &str = "application/json";
    match route {
        AdminRoute::Live => write_answer("200 OK", json, "{\"live\":true}\n"),
        AdminRoute::Ready => {
            let body = t.ready_json(&s.vitals, d, s.env_mode, s.env_cap);
            write_answer("200 OK", json, body.as_str())
        },
        AdminRoute::PoolHealth => write_answer("200 OK", json, s.pool_health),
        AdminRoute::Metrics => {
            let body = metrics_text(t, &s.vitals, s.static_counters);
            write_answer("200 OK", "text/plain; version=0.0.4", body.as_str())
        },
        AdminRoute::AllocCount => {
            let n: u64 = match s.alloc_events {
                Some(n) => n,
                None => 0,
            };
            let mut body: String = owned("{\"alloc_events_total\":");
            push_decimal(&mut body, n);
            body.append("}\n");
            write_answer("200 OK", json, body.as_str())
        },
        AdminRoute::HopTiming => {
            let seams: &str = match s.hop_seams {
                Some(seams) => seams,
                None => "",
            };
            let body = hop_timing_admin_json(seams, d, s.env_mode);
            write_answer("200 OK", json, body.as_str())
        },
        AdminRoute::NotFound => write_answer("404 Not Found", json, "{\"error\":\"not_found\"}\n"),
    }
}

/// The path is the second word of the first line, whatever the method and whatever comes
/// after it; a line without a second word asks for the root.
pub proof fn the_path_is_the_second_word(
    method: Seq<char>,
    path: Seq<char>,
    more: Seq<char>,
    rest: Seq<char>,
)
    requires
        method.len() > 0,
        forall|i: int| 0 <= i < method.len() ==> !is_white(#[trigger] method[i]),
        path.len() > 0,
        forall|i: int| 0 <= i < path.len() ==> !is_white(#[trigger] path[i]),
        !more.contains('\n'),
        more.len() > 0 ==> is_white(more[0]),
    ensures
        path_in(method + seq![' '] + path + more + seq!['\n'] + rest) == path,
        path_in(method + seq![' '] + path + more) == path,
        path_in(method) == "/"@,
        path_in(Seq::empty()) == "/"@,
{
    let line = method + seq![' '] + path + more;
    let text = line + seq!['\n'] + rest;
    assert(text =~= method + seq![' '] + path + more + seq!['\n'] + rest);
    assert forall|j: int| 0 <= j < line.len() implies line[j] != '\n' by {
        if j < method.len() {
            assert(line[j] == method[j]);
        } else if j > method.len() && j < method.len() + 1 + path.len() {
            assert(line[j] == path[j - method.len() - 1]);
        } else if j >= method.len() + 1 + path.len() {
            assert(more.contains(more[j - method.len() - 1 - path.len()]));
        }
    }
    lemma_first_at(text, '\n', line.len() as int);
    assert(text.take(line.len() as int) =~= line);
    lemma_first_at(line, '\n', line.len() as int);
    assert(line.take(line.len() as int) =~= line);
    lemma_trim_start_skips(line, 0);
    assert(line.skip(0) =~= line);
    lemma_word_at(line, method.len() as int);
    assert(line.take(method.len() as int) =~= method);
    let tail = line.skip(method.len() as int);
    assert(tail =~= seq![' '] + path + more);
    lemma_trim_start_skips(tail, 1);
    let last = tail.skip(1);
    assert(last =~= path + more);
    assert forall|j: int| 0 <= j < path.len() implies !is_white(last[j]) by {
        assert(last[j] == path[j]);
    }
    lemma_word_at(last, path.len() as int);
    assert(last.take(path.len() as int) =~= path);
    // One word alone.
    assert forall|j: int| 0 <= j < method.len() implies method[j] != '\n' by {}
    lemma_first_at(method, '\n', method.len() as int);
    assert(method.take(method.len() as int) =~= method);
    lemma_trim_start_skips(method, 0);
    assert(method.skip(0) =~= method);
    lemma_word_at(method, method.len() as int);
    assert(method.skip(method.len() as int) =~= Seq::<char>::empty());
    assert(word(trim_start(Seq::<char>::empty())) =~= Seq::<char>::empty());
    let none = Seq::<char>::empty();
    assert(none.take(first(none, '\n')) =~= none);
    assert(none.skip(word(none).len() as int) =~= none);
}

/// Each report has a path of its own, and a path that has none is not found; two reports
/// are found only where they are built in.
pub proof fn reports_have_paths_of_their_own(path: Seq<char>, alloc_count: bool, hop_timing: bool)
    ensures
        ({
            let r = route_of(path, alloc_count, hop_timing);
            &&& r is Live <==> path == "/live"@
            &&& r is Ready <==> path == "/ready"@
            &&& r is PoolHealth <==> path == "/pool-health"@
            &&& r is Metrics <==> path == "/metrics"@
            &&& r is AllocCount <==> alloc_count && path == "/alloc-count"@
            &&& r is HopTiming <==> hop_timing && path == "/hop-timing"@
        }),
{
    reveal_strlit("/live");
    reveal_strlit("/ready");
    reveal_strlit("/pool-health");
    reveal_strlit("/metrics");
    reveal_strlit("/alloc-count");
    reveal_strlit("/hop-timing");
    assert("/live"@.len() == 5 && "/ready"@.len() == 6 && "/pool-health"@.len() == 12
        && "/metrics"@.len() == 8 && "/alloc-count"@.len() == 12 && "/hop-timing"@.len() == 11);
    assert("/pool-health"@[1] == 'p' && "/alloc-count"@[1] == 'a');
}

/// The lines on measures are those of one list and then those of the other.
pub proof fn measures_are_written_in_a_row(a: Seq<Measure>, b: Seq<Measure>)
    ensures
        measures_text(a + b) == measures_text(a) + measures_text(b),
        a.len() == 1 ==> measures_text(a) == measure_text(a[0]),
    decreases b.len(),
{
    if a.len() == 1 {
        assert(a.drop_last() =~= Seq::<Measure>::empty());
        assert(measures_text(a.drop_last()) =~= Seq::<char>::empty());
        assert(measures_text(a) =~= measure_text(a[0]));
    }
    if b.len() == 0 {
        assert(a + b =~= a);
        assert(measures_text(a) + measures_text(b) =~= measures_text(a));
    } else {
        assert((a + b).drop_last() =~= a + b.drop_last());
        measures_are_written_in_a_row(a, b.drop_last());
        assert(measures_text(a + b) =~= measures_text(a) + measures_text(b));
    }
}

/// Whether a name ends as those of counters do.
pub open spec fn is_total(name: Seq<char>) -> bool {
    name.len() >= 6 && name.skip(name.len() - 6) == "_total"@
}

/// Whether the measure called `name` is among `ms`, once, with this value, and is a counter
/// exactly if its name says so.
pub open spec fn measured(ms: Seq<Measure>, name: Seq<char>, value: u64) -> bool {
    exists|i: int|
        0 <= i < ms.len() && #[trigger] ms[i] == (Measure { name, counter: is_total(name), value })
            && forall|j: int| 0 <= j < ms.len() && j != i ==> (#[trigger] ms[j]).name != name
}

/// Every count on streams is told under its own name.
pub proof fn streams_are_told_by_name(s: LongLivedSnapshot)
    ensures
        measured(stream_measures(s), "oxo_edge_long_lived_active"@, s.active),
        measured(
            stream_measures(s),
            "oxo_edge_long_lived_max_active_observed"@,
            s.max_active_observed,
        ),
        measured(stream_measures(s), "oxo_edge_long_lived_accepted_total"@, s.accepted_total),
        measured(stream_measures(s), "oxo_edge_long_lived_completed_total"@, s.completed_total),
        measured(stream_measures(s), "oxo_edge_long_lived_drained_total"@, s.drained_total),
        measured(stream_measures(s), "oxo_edge_long_lived_cancelled_total"@, s.cancelled_total),
        measured(stream_measures(s), "oxo_edge_long_lived_rejected_total"@, s.rejected_total),
        measured(
            stream_measures(s),
            "oxo_edge_long_lived_downstream_timeout_total"@,
            s.downstream_timeout_total,
        ),
        measured(
            stream_measures(s),
            "oxo_edge_long_lived_bytes_streamed_total"@,
            s.bytes_streamed_total,
        ),
{
    reveal_strlit("_total");
    reveal_strlit("oxo_edge_long_lived_active");
    reveal_strlit("oxo_edge_long_lived_max_active_observed");
    reveal_strlit("oxo_edge_long_lived_accepted_total");
    reveal_strlit("oxo_edge_long_lived_completed_total");
    reveal_strlit("oxo_edge_long_lived_drained_total");
    reveal_strlit("oxo_edge_long_lived_cancelled_total");
    reveal_strlit("oxo_edge_long_lived_rejected_total");
    reveal_strlit("oxo_edge_long_lived_downstream_timeout_total");
    reveal_strlit("oxo_edge_long_lived_bytes_streamed_total");
    let ms = stream_measures(s);
    let n0 = "oxo_edge_long_lived_active"@;
    let n1 = "oxo_edge_long_lived_max_active_observed"@;
    let n2 = "oxo_edge_long_lived_accepted_total"@;
    let n3 = "oxo_edge_long_lived_completed_total"@;
    let n4 = "oxo_edge_long_lived_drained_total"@;
    let n5 = "oxo_edge_long_lived_cancelled_total"@;
    let n6 = "oxo_edge_long_lived_rejected_total"@;
    let n7 = "oxo_edge_long_lived_downstream_timeout_total"@;
    let n8 = "oxo_edge_long_lived_bytes_streamed_total"@;
    assert(n0[20] == 'a' && n0.len() == 26 && n1[20] == 'm' && n2[20] == 'a' && n2.len() == 34
        && n3[20] == 'c' && n3[21] == 'o' && n4[20] == 'd' && n4[21] == 'r' && n5[20] == 'c'
        && n5[21] == 'a' && n6[20] == 'r' && n7[20] == 'd' && n7[21] == 'o' && n8[20] == 'b');
    let total = "_total"@;
    assert(n0.skip(20)[0] == 'a' && n1.skip(n1.len() - 6)[5] == 'd' && total[5] == 'l' && total[0]
        == '_');
    assert(n2.skip(n2.len() - 6) =~= total);
    assert(n3.skip(n3.len() - 6) =~= total);
    assert(n4.skip(n4.len() - 6) =~= total);
    assert(n5.skip(n5.len() - 6) =~= total);
    assert(n6.skip(n6.len() - 6) =~= total);
    assert(n7.skip(n7.len() - 6) =~= total);
    assert(n8.skip(n8.len() - 6) =~= total);
    assert(ms[0] == (Measure { name: n0, counter: false, value: s.active }));
    assert(ms[1] == (Measure { name: n1, counter: false, value: s.max_active_observed }));
    assert(ms[2] == (Measure { name: n2, counter: true, value: s.accepted_total }));
    assert(ms[3] == (Measure { name: n3, counter: true, value: s.completed_total }));
    assert(ms[4] == (Measure { name: n4, counter: true, value: s.drained_total }));
    assert(ms[5] == (Measure { name: n5, counter: true, value: s.cancelled_total }));
    assert(ms[6] == (Measure { name: n6, counter: true, value: s.rejected_total }));
    assert(ms[7] == (Measure { name: n7, counter: true, value: s.downstream_timeout_total }));
    assert(ms[8] == (Measure { name: n8, counter: true, value: s.bytes_streamed_total }));
}

/// The prefix of the static file server's counters is put into the edge's own words where
/// it stands, and a text that does not hold it is left as it is.
pub proof fn only_the_prefix_is_renamed(s: Seq<char>)
    ensures
        renamed("crenel_"@ + s) == "oxo_edge_static_"@ + renamed(s),
        (forall|i: int| 0 <= i && i + 7 <= s.len() ==> #[trigger] s.subrange(i, i + 7)
            != "crenel_"@) ==> renamed(s) == s,
    decreases s.len(),
{
    reveal_strlit("crenel_");
    let p = "crenel_"@ + s;
    assert(p.take(7) =~= "crenel_"@);
    assert(p.skip(7) =~= s);
    if forall|i: int| 0 <= i && i + 7 <= s.len() ==> #[trigger] s.subrange(i, i + 7) != "crenel_"@ {
        if s.len() >= 7 {
            assert(s.subrange(0, 7) =~= s.take(7));
            let t = s.skip(1);
            assert forall|i: int| 0 <= i && i + 7 <= t.len() implies #[trigger] t.subrange(i, i + 7)
                != "crenel_"@ by {
                let k = i + 1;
                assert(s.subrange(k, k + 7) != "crenel_"@);
                assert(t.subrange(i, i + 7) =~= s.subrange(k, k + 7));
            }
            only_the_prefix_is_renamed(t);
            assert(seq![s[0]] + t =~= s);
        }
    }
}

/// An answer is a status line, three headers, an empty line and the body; the length that
/// it announces is that of the body in bytes.
pub proof fn answers_announce_their_length(
    status: Seq<char>,
    content_type: Seq<char>,
    body: Seq<char>,
)
    ensures
        ({
            let a = answer(status, content_type, body);
            let length = decimal(vstd::utf8::encode_utf8(body).len());
            &&& a == "HTTP/1.1 "@ + status + "\r\n"@ + "Content-Type: "@ + content_type + "\r\n"@
                + "Content-Length: "@ + length + "\r\n"@ + "Connection: close"@ + "\r\n\r\n"@ + body
            &&& whole(length, vstd::utf8::encode_utf8(body).len()) == Some(
                vstd::utf8::encode_utf8(body).len(),
            )
        }),
{
    let length = decimal(vstd::utf8::encode_utf8(body).len());
    numbers_are_read_back(
        vstd::utf8::encode_utf8(body).len(),
        vstd::utf8::encode_utf8(body).len(),
    );
    reveal_strlit("\r\n");
    reveal_strlit("Content-Type: ");
    reveal_strlit("\r\nContent-Type: ");
    reveal_strlit("Content-Length: ");
    reveal_strlit("\r\nContent-Length: ");
    reveal_strlit("Connection: close");
    reveal_strlit("\r\n\r\n");
    reveal_strlit("\r\nConnection: close\r\n\r\n");
    assert("\r\nContent-Type: "@ =~= "\r\n"@ + "Content-Type: "@);
    assert("\r\nContent-Length: "@ =~= "\r\n"@ + "Content-Length: "@);
    assert("\r\nConnection: close\r\n\r\n"@ =~= "\r\n"@ + "Connection: close"@ + "\r\n\r\n"@);
    let h = "HTTP/1.1 "@ + status;
    assert(answer(status, content_type, body) =~= h + "\r\n"@ + "Content-Type: "@ + content_type
        + "\r\n"@ + "Content-Length: "@ + length + "\r\n"@ + "Connection: close"@ + "\r\n\r\n"@
        + body);
}

/// Whether one of `ms` gives `value` under `name`, as a counter or as a gauge.
pub open spec fn tells(ms: Seq<Measure>, name: Seq<char>, counter: bool, value: u64) -> bool {
    exists|i: int|
        0 <= i < ms.len() && (#[trigger] ms[i]).name == name && ms[i].counter == counter
            && ms[i].value == value
}

/// Every count of requests is told under its own name, what only grows as a counter and the
/// rest as a gauge; a drain is told as one.
pub proof fn requests_are_told_by_name(
    c: RequestCounts,
    draining: bool,
    g: GlobalInFlightSnapshot,
)
    ensures
        ({
            let ms = request_measures(c, draining, g);
            &&& tells(ms, "oxo_edge_in_flight"@, false, c.in_flight)
            &&& tells(ms, "oxo_edge_requests_total"@, true, c.requests_total)
            &&& tells(ms, "oxo_edge_responses_total"@, true, c.responses_total)
            &&& tells(ms, "oxo_edge_rejections_total"@, true, c.rejections_total)
            &&& tells(ms, "oxo_edge_rate_limited_total"@, true, c.rate_limited_total)
            &&& tells(ms, "oxo_edge_overload_total"@, true, g.overload_total)
            &&& tells(ms, "oxo_edge_global_in_flight_active"@, false, g.active)
            &&& tells(ms, "oxo_edge_global_in_flight_max_active_observed"@, false, g.max_active_observed)
            &&& tells(ms, "oxo_edge_global_in_flight_admitted_total"@, true, g.admitted_total)
            &&& tells(ms, "oxo_edge_status_2xx_total"@, true, c.status_2xx_total)
            &&& tells(ms, "oxo_edge_status_4xx_total"@, true, c.status_4xx_total)
            &&& tells(ms, "oxo_edge_status_5xx_total"@, true, c.status_5xx_total)
            &&& tells(ms, "oxo_edge_status_other_total"@, true, c.status_other_total)
            &&& draining ==> tells(ms, "oxo_edge_draining"@, false, 1)
            &&& !draining ==> tells(ms, "oxo_edge_draining"@, false, 0)
            &&& ms.len() == 14
        }),
{
    let ms = request_measures(c, draining, g);
    assert(ms[0].name == "oxo_edge_in_flight"@);
    assert(ms[2].name == "oxo_edge_requests_total"@);
    assert(ms[3].name == "oxo_edge_responses_total"@);
    assert(ms[4].name == "oxo_edge_rejections_total"@);
    assert(ms[5].name == "oxo_edge_rate_limited_total"@);
    assert(ms[6].name == "oxo_edge_overload_total"@);
    assert(ms[7].name == "oxo_edge_global_in_flight_active"@);
    assert(ms[8].name == "oxo_edge_global_in_flight_max_active_observed"@);
    assert(ms[9].name == "oxo_edge_global_in_flight_admitted_total"@);
    assert(ms[10].name == "oxo_edge_status_2xx_total"@);
    assert(ms[11].name == "oxo_edge_status_4xx_total"@);
    assert(ms[12].name == "oxo_edge_status_5xx_total"@);
    assert(ms[13].name == "oxo_edge_status_other_total"@);
    assert(ms[1].name == "oxo_edge_draining"@);
}

/// So is every count of fairness.
pub proof fn fairness_is_told_by_name(l: IdentityFairnessLimiter)
    ensures
        ({
            let ms = fairness_measures(l);
            &&& l.max() is Some ==> tells(ms, "oxo_edge_fairness_enabled"@, false, 1)
            &&& l.max() is None ==> tells(ms, "oxo_edge_fairness_enabled"@, false, 0)
            &&& tells(ms, "oxo_edge_fairness_in_flight"@, false, l.in_flight() as u64)
            &&& tells(ms, "oxo_edge_fairness_tracked_identities"@, false, l.identities() as u64)
            &&& tells(ms, "oxo_edge_fairness_admitted_total"@, true, l.admitted())
            &&& tells(ms, "oxo_edge_fairness_saturation_total"@, true, l.saturated())
            &&& ms.len() == 5
        }),
{
    let ms = fairness_measures(l);
    assert(ms[0].name == "oxo_edge_fairness_enabled"@);
    assert(ms[1].name == "oxo_edge_fairness_in_flight"@);
    assert(ms[2].name == "oxo_edge_fairness_tracked_identities"@);
    assert(ms[3].name == "oxo_edge_fairness_admitted_total"@);
    assert(ms[4].name == "oxo_edge_fairness_saturation_total"@);
}

/// One report tells of requests, of fairness, of streams and of static files, and of each
/// static file counter under its new name.
pub proof fn reports_tell_of_everything(
    t: EdgeTelemetry,
    v: Vitals,
    statics: Seq<StaticCounter>,
    i: int,
)
    requires
        0 <= i < statics.len(),
    ensures
        metrics(t, v, statics) == measures_text(
            request_measures(t.counts, v.drain@, v.global_in_flight@) + fairness_measures(
                *v.fairness,
            ) + stream_measures(v.long_lived@) + static_measures(statics),
        ),
        static_measures(statics).len() == statics.len(),
        static_measures(statics)[i].value == statics[i].value,
        static_measures(statics)[i].counter,
        static_measures(statics)[i].name == renamed(statics[i].name@),
{
    let a = request_measures(t.counts, v.drain@, v.global_in_flight@);
    let b = fairness_measures(*v.fairness);
    let c = stream_measures(v.long_lived@);
    let d = static_measures(statics);
    measures_are_written_in_a_row(a, b);
    measures_are_written_in_a_row(a + b, c);
    measures_are_written_in_a_row(a + b + c, d);
}

/// Whether `all` ends in `part`.
pub open spec fn ends_in(all: Seq<char>, part: Seq<char>) -> bool {
    all.len() >= part.len() && all.skip(all.len() - part.len()) == part
}

proof fn lemma_answer_ends(status: Seq<char>, content_type: Seq<char>, body: Seq<char>)
    ensures
        ends_in(answer(status, content_type, body), body),
        answer(status, content_type, body).take(9 + status.len() as int) == "HTTP/1.1 "@ + status,
{
    reveal_strlit("HTTP/1.1 ");
    let a = answer(status, content_type, body);
    assert("HTTP/1.1 "@.len() == 9);
    assert(a.skip(a.len() - body.len()) =~= body);
    assert(a.take(9 + status.len() as int) =~= "HTTP/1.1 "@ + status);
}

/// What is asked for is what is sent: each path gets the report that it is for, as it is,
/// and every path without a report gets a 404.
pub proof fn paths_are_answered_by_their_reports(
    path: Seq<char>,
    t: EdgeTelemetry,
    s: AdminSources,
    d: Dispatch,
)
    ensures
        ({
            let a = answer_to(path, t, s, d);
            let known = path == "/live"@ || path == "/ready"@ || path == "/pool-health"@ || path
                == "/metrics"@ || (path == "/alloc-count"@ && s.alloc_events is Some) || (path
                == "/hop-timing"@ && s.hop_seams is Some);
            &&& known ==> a.take(15) == "HTTP/1.1 "@ + "200 OK"@
            &&& !known ==> a.take(22) == "HTTP/1.1 "@ + "404 Not Found"@ && ends_in(
                a,
                "{\"error\":\"not_found\"}\n"@,
            )
            &&& path == "/live"@ ==> ends_in(a, "{\"live\":true}\n"@)
            &&& path == "/pool-health"@ ==> ends_in(a, s.pool_health@)
            &&& path == "/metrics"@ ==> ends_in(a, metrics(t, s.vitals, s.static_counters@))
            &&& path == "/alloc-count"@ && s.alloc_events is Some ==> ends_in(
                a,
                "{\"alloc_events_total\":"@ + decimal(s.alloc_events->0 as nat) + "}\n"@,
            )
            &&& path == "/hop-timing"@ && s.hop_seams is Some ==> ends_in(
                a,
                spliced(s.hop_seams->0@, ledger(mode_in_force(d, s.env_mode), d.gauges)),
            )
            &&& path == "/ready"@ && t.certificate_admin_json is None ==> ends_in(
                a,
                "{"@ + fields_text(
                    t.ready_fields(
                        s.vitals,
                        d,
                        name_of(mode_in_force(d, s.env_mode)),
                        cap_in_force(d, s.env_cap),
                    ),
                ) + "}"@,
            )
        }),
{
    reports_have_paths_of_their_own(path, s.alloc_events is Some, s.hop_seams is Some);
    let json = "application/json"@;
    reveal_strlit("200 OK");
    reveal_strlit("404 Not Found");
    reveal_strlit("");
    assert("200 OK"@.len() == 6 && "404 Not Found"@.len() == 13);
    let fields = "{"@ + fields_text(
        t.ready_fields(
            s.vitals,
            d,
            name_of(mode_in_force(d, s.env_mode)),
            cap_in_force(d, s.env_cap),
        ),
    );
    assert(fields + ""@ =~= fields);
    lemma_answer_ends("200 OK"@, json, "{\"live\":true}\n"@);
    lemma_answer_ends("200 OK"@, json, s.pool_health@);
    lemma_answer_ends(
        "200 OK"@,
        "text/plain; version=0.0.4"@,
        metrics(t, s.vitals, s.static_counters@),
    );
    lemma_answer_ends(
        "200 OK"@,
        json,
        "{\"alloc_events_total\":"@ + decimal(s.alloc_events->0 as nat) + "}\n"@,
    );
    lemma_answer_ends(
        "200 OK"@,
        json,
        spliced(s.hop_seams->0@, ledger(mode_in_force(d, s.env_mode), d.gauges)),
    );
    lemma_answer_ends("404 Not Found"@, json, "{\"error\":\"not_found\"}\n"@);
    lemma_answer_ends(
        "200 OK"@,
        json,
        fields + (match t.certificate_admin_json {
            Some(extra) => extra@,
            None => ""@,
        }) + "}"@,
    );
}

} // verus!
