//! Flattening of decoded OTLP documents into relational rows.
//!
//! One walk over the nested resource → scope → record structure
//! produces per-trace aggregates, span rows, and attribute rows (or
//! log rows and log-attribute rows). Any malformed identifier fails
//! the whole batch: there is no partial output.

use vstd::prelude::*;

use crate::codec::hex_of;
use crate::coerce::opt_value_text;
use crate::model::{
    AnyValue, DbSpanKind, ErrorKind, InstrumentationScope, KeyValue, LogRecord, LogsRequest,
    Resource, ResourceLogs, ResourceSpans, ScopeLogs, ScopeSpans, Span, TracesRequest,
};

verus! {

/// One trace aggregate row, ready to upsert.
#[derive(Debug)]
pub struct WriteableTrace {
    pub trace_id: String,
    pub start_time: u64,
    pub end_time: u64,
    pub duration_ns: Option<i64>,
    pub span_count: usize,
}

/// One span row, ready to insert.
#[derive(Debug)]
pub struct WriteableSpan {
    pub span_id: String,
    pub trace_id: String,
    pub parent_span_id: Option<String>,
    pub operation_name: String,
    pub start_time: u64,
    pub end_time: u64,
    pub duration_ns: i64,
    pub status_code: i32,
    pub status_message: Option<String>,
    pub span_kind: DbSpanKind,
    pub instrumentation_library: Option<String>,
    pub service_name: Option<String>,
}

/// One span attribute row, ready to upsert.
#[derive(Debug)]
pub struct WriteableSpanAttribute {
    pub span_id: String,
    pub key: String,
    pub value: String,
}

/// A span together with the resource and scope it was emitted under.
pub type SpanEntry = (Option<Resource>, Option<InstrumentationScope>, Span);

/// The entries of one scope, each carrying the given resource and the
/// scope itself.
pub open spec fn span_triples(res: Option<Resource>, ss: ScopeSpans) -> Seq<SpanEntry> {
    ss.spans@.map_values(|sp: Span| (res, ss.scope, sp))
}

/// The per-scope entry function of one resource, in a form that names
/// a single closure.
pub open spec fn triples_fn(res: Option<Resource>) -> spec_fn(ScopeSpans) -> Seq<SpanEntry> {
    |ss: ScopeSpans| span_triples(res, ss)
}

/// The entries of one resource, in document order.
pub open spec fn scope_entries(rs: ResourceSpans) -> Seq<SpanEntry> {
    rs.scope_spans@.flat_map(triples_fn(rs.resource))
}

/// The per-resource entry function, in a form that names a single
/// closure.
pub open spec fn scope_entries_fn() -> spec_fn(ResourceSpans) -> Seq<SpanEntry> {
    |rs: ResourceSpans| scope_entries(rs)
}

/// Every span of the document with its resource and scope, in
/// document order.
pub open spec fn span_entries(req: TracesRequest) -> Seq<SpanEntry> {
    req.resource_spans@.flat_map(scope_entries_fn())
}

/// Whether every span of the document carries well-formed raw ids:
/// exactly 16 trace-id bytes and 8 span-id bytes.
pub open spec fn ids_well_formed(req: TracesRequest) -> bool {
    forall|k: int|
        0 <= k < span_entries(req).len() ==> (#[trigger] span_entries(req)[k]).2.trace_id@.len()
            == 16 && span_entries(req)[k].2.span_id@.len() == 8
}

/// The service name a resource declares: the string value of its
/// first attribute keyed `service.name`; nothing when the key is
/// absent or its first occurrence is not a string.
pub open spec fn service_name_in(attrs: Seq<KeyValue>) -> Option<Seq<char>>
    decreases attrs.len(),
{
    if attrs.len() == 0 {
        None
    } else if attrs[0].key@ == "service.name"@ {
        match attrs[0].value {
            Some(AnyValue::StringValue(s)) => Some(s@),
            _ => None,
        }
    } else {
        service_name_in(attrs.drop_first())
    }
}

/// The service name of an optional resource.
pub open spec fn service_name_of(res: Option<Resource>) -> Option<Seq<char>> {
    match res {
        Some(r) => service_name_in(r.attributes@),
        None => None,
    }
}

/// The instrumentation library of an optional scope: its declared
/// name.
pub open spec fn instrumentation_library_of(scope: Option<InstrumentationScope>) -> Option<
    Seq<char>,
> {
    match scope {
        Some(sc) => match sc.name {
            Some(n) => Some(n@),
            None => None,
        },
        None => None,
    }
}

/// Resolves the service name of a resource by scanning its attribute
/// list for the key `service.name`.
#[verifier::loop_isolation(false)]
pub fn extract_service_name(resource: &Option<Resource>) -> (r: Option<String>)
    ensures
        match r {
            Some(s) => service_name_of(*resource) == Some(s@),
            None => service_name_of(*resource) is None,
        },
{
    match resource {
        None => None,
        Some(res) => {
            let needle = String::from_str("service.name");
            proof {
                assert(res.attributes@.skip(0) =~= res.attributes@);
            }
            let mut i: usize = 0;
            while i < res.attributes.len()
                invariant
                    i <= res.attributes@.len(),
                    needle@ == "service.name"@,
                    service_name_in(res.attributes@) == service_name_in(
                        res.attributes@.skip(i as int),
                    ),
                decreases res.attributes@.len() - i,
            {
                proof {
                    assert(res.attributes@.skip(i as int).drop_first() =~= res.attributes@.skip(
                        i + 1,
                    ));
                    assert(res.attributes@.skip(i as int)[0] == res.attributes@[i as int]);
                }
                if res.attributes[i].key == needle {
                    proof {
                        assert(res.attributes@[i as int].key@ == "service.name"@);
                        assert(service_name_in(res.attributes@) == match res.attributes@[
                            i as int
                        ].value {
                            Some(AnyValue::StringValue(s0)) => Some(s0@),
                            _ => None::<Seq<char>>,
                        });
                    }
                    match &res.attributes[i].value {
                        Some(AnyValue::StringValue(s)) => {
                            return Some(s.clone());
                        },
                        _ => {
                            return None;
                        },
                    }
                }
                i = i + 1;
            }
            proof {
                assert(res.attributes@.skip(res.attributes@.len() as int).len() == 0);
            }
            None
        },
    }
}

/// One span attribute row in abstract form: span id, key, and value
/// text.
pub type AttrRow = (Seq<char>, Seq<char>, Seq<char>);

/// The attribute rows one span contributes, keyed by its hex span id,
/// one per source attribute, duplicates preserved in order.
pub open spec fn attr_rows_of(sp: Span) -> Seq<AttrRow> {
    sp.attributes@.map_values(
        |kv: KeyValue| (hex_of(sp.span_id@), kv.key@, opt_value_text(kv.value)),
    )
}

/// The per-entry attribute function, in a form that names a single
/// closure.
pub open spec fn attr_of_entry_fn() -> spec_fn(SpanEntry) -> Seq<AttrRow> {
    |e: SpanEntry| attr_rows_of(e.2)
}

/// Every attribute row of the document, in document order.
pub open spec fn span_attr_rows(req: TracesRequest) -> Seq<AttrRow> {
    span_entries(req).flat_map(attr_of_entry_fn())
}

/// The abstract form of a built attribute row, in a form that names a
/// single closure.
pub open spec fn attr_view_fn() -> spec_fn(WriteableSpanAttribute) -> AttrRow {
    |a: WriteableSpanAttribute| (a.span_id@, a.key@, a.value@)
}

/// The view of an optional string.
pub open spec fn opt_view(o: Option<String>) -> Option<Seq<char>> {
    match o {
        Some(s) => Some(s@),
        None => None,
    }
}

/// The hex parent id a span row carries: nothing for an empty raw
/// parent id, the hex encoding otherwise.
pub open spec fn parent_hex_of(sp: Span) -> Option<Seq<char>> {
    if sp.parent_span_id@.len() == 0 {
        None
    } else {
        Some(hex_of(sp.parent_span_id@))
    }
}

/// The stored numeric status code of a span.
pub open spec fn status_code_of(sp: Span) -> int {
    match sp.status {
        Some(st) => match st.code {
            Some(c) => crate::model::status_code_num(c),
            None => 0,
        },
        None => 0,
    }
}

/// The stored status message of a span: absent or empty messages read
/// as nothing.
pub open spec fn status_message_of(sp: Span) -> Option<Seq<char>> {
    match sp.status {
        Some(st) => match st.message {
            Some(m) => if m@.len() > 0 {
                Some(m@)
            } else {
                None
            },
            None => None,
        },
        None => None,
    }
}

/// Whether one span row is exactly the flattening of one document
/// entry: hex ids of the checked lengths, the carried instants, the
/// derived duration, status, kind, and the resolved resource and
/// scope names.
pub open spec fn span_row_matches(row: WriteableSpan, e: SpanEntry) -> bool {
    &&& e.2.trace_id@.len() == 16
    &&& e.2.span_id@.len() == 8
    &&& row.trace_id@ == hex_of(e.2.trace_id@)
    &&& row.span_id@ == hex_of(e.2.span_id@)
    &&& opt_view(row.parent_span_id) == parent_hex_of(e.2)
    &&& row.operation_name@ == e.2.name@
    &&& row.start_time == e.2.start_time_unix_nano
    &&& row.end_time == e.2.end_time_unix_nano
    &&& row.duration_ns as int == crate::model::wrap_diff_i64(
        e.2.end_time_unix_nano,
        e.2.start_time_unix_nano,
    )
    &&& row.status_code as int == status_code_of(e.2)
    &&& opt_view(row.status_message) == status_message_of(e.2)
    &&& row.span_kind == crate::model::span_kind_db_of(e.2.kind as int)
    &&& opt_view(row.instrumentation_library) == instrumentation_library_of(e.1)
    &&& opt_view(row.service_name) == service_name_of(e.0)
}

/// Whether the built span and attribute rows are exactly the
/// flattening of the processed entries.
pub open spec fn outputs_match(
    spans: Seq<WriteableSpan>,
    attrs: Seq<WriteableSpanAttribute>,
    done: Seq<SpanEntry>,
) -> bool {
    &&& spans.len() == done.len()
    &&& forall|k: int| 0 <= k < done.len() ==> span_row_matches(#[trigger] spans[k], done[k])
    &&& attrs.map_values(attr_view_fn()) == done.flat_map(attr_of_entry_fn())
}

/// The entries of the first `ri` resources.
pub open spec fn entries_upto(req: TracesRequest, ri: int) -> Seq<SpanEntry> {
    req.resource_spans@.take(ri).flat_map(scope_entries_fn())
}

/// The entries of the first `si` scopes of one resource.
pub open spec fn scope_upto(rs: ResourceSpans, si: int) -> Seq<SpanEntry> {
    rs.scope_spans@.take(si).flat_map(triples_fn(rs.resource))
}

/// A flat map splits at any position into the flat maps of the two
/// parts.
proof fn lemma_flat_map_split<A, B>(s: Seq<A>, f: spec_fn(A) -> Seq<B>, i: int)
    requires
        0 <= i <= s.len(),
    ensures
        s.flat_map(f) == s.take(i).flat_map(f) + s.skip(i).flat_map(f),
{
    assert(s.map_values(f) =~= s.take(i).map_values(f) + s.skip(i).map_values(f));
    vstd::seq_lib::lemma_flatten_concat(s.take(i).map_values(f), s.skip(i).map_values(f));
}

/// The flat map of a suffix starts with the image of its first
/// element.
proof fn lemma_flat_map_first<A, B>(s: Seq<A>, f: spec_fn(A) -> Seq<B>, i: int)
    requires
        0 <= i < s.len(),
    ensures
        s.skip(i).flat_map(f) == f(s[i]) + s.skip(i + 1).flat_map(f),
{
    let t = s.skip(i);
    assert(t.map_values(f) =~= seq![f(s[i])] + s.skip(i + 1).map_values(f));
    vstd::seq_lib::lemma_flatten_concat(seq![f(s[i])], s.skip(i + 1).map_values(f));
    seq![f(s[i])].lemma_flatten_one_element();
}

/// Where the span at nested position (ri, si, ki) stands in the flat
/// entry sequence: right after the entries of the earlier resources,
/// the earlier scopes of its resource, and the earlier spans of its
/// scope.
proof fn lemma_entry_position(req: TracesRequest, ri: int, si: int, ki: int)
    requires
        0 <= ri < req.resource_spans@.len(),
        0 <= si < req.resource_spans@[ri].scope_spans@.len(),
        0 <= ki < req.resource_spans@[ri].scope_spans@[si].spans@.len(),
    ensures
        span_entries(req).len() >= entries_upto(req, ri).len() + scope_upto(
            req.resource_spans@[ri],
            si,
        ).len() + ki + 1,
        span_entries(req)[entries_upto(req, ri).len() + scope_upto(req.resource_spans@[ri], si).len()
            + ki] == (
        req.resource_spans@[ri].resource,
        req.resource_spans@[ri].scope_spans@[si].scope,
        req.resource_spans@[ri].scope_spans@[si].spans@[ki],
        ),
        span_entries(req).take(
            entries_upto(req, ri).len() + scope_upto(req.resource_spans@[ri], si).len() + ki,
        ) == entries_upto(req, ri) + scope_upto(req.resource_spans@[ri], si) + span_triples(
            req.resource_spans@[ri].resource,
            req.resource_spans@[ri].scope_spans@[si],
        ).take(ki),
{
    let s = req.resource_spans@;
    let rs = s[ri];
    let scs = rs.scope_spans@;
    let ss = scs[si];
    let a = entries_upto(req, ri);
    let b = scope_upto(rs, si);
    let t = span_triples(rs.resource, ss);
    lemma_flat_map_split(s, scope_entries_fn(), ri);
    lemma_flat_map_first(s, scope_entries_fn(), ri);
    lemma_flat_map_split(scs, triples_fn(rs.resource), si);
    lemma_flat_map_first(scs, triples_fn(rs.resource), si);
    let r1 = s.skip(ri + 1).flat_map(scope_entries_fn());
    let r2 = scs.skip(si + 1).flat_map(triples_fn(rs.resource));
    assert(span_entries(req) == a + (scope_entries(rs) + r1));
    assert(scope_entries(rs) == b + (t + r2));
    assert(t[ki] == (rs.resource, ss.scope, ss.spans@[ki]));
    let n = a.len() + b.len() + ki;
    assert(span_entries(req).len() == a.len() + b.len() + t.len() + r2.len() + r1.len());
    assert(span_entries(req)[n] == t[ki]);
    assert(span_entries(req).take(n) =~= a + b + t.take(ki));
}

/// The predicate selecting span rows of one trace, in a form that
/// names a single closure.
pub open spec fn tid_pred(tid: Seq<char>) -> spec_fn(WriteableSpan) -> bool {
    |r: WriteableSpan| r.trace_id@ == tid
}

/// How many of the given span rows belong to the given trace.
pub open spec fn count_for(rows: Seq<WriteableSpan>, tid: Seq<char>) -> nat {
    rows.filter(tid_pred(tid)).len()
}

/// Whether one trace row is the correct aggregate of the given span
/// rows for its trace id: the count of rows with that id, their
/// earliest start, their latest end, and the derived duration.
#[verifier::opaque]
pub open spec fn trace_agg_ok(rows: Seq<WriteableSpan>, t: WriteableTrace) -> bool {
    &&& t.span_count as nat == count_for(rows, t.trace_id@)
    &&& t.span_count > 0
    &&& exists|k: int|
        0 <= k < rows.len() && (#[trigger] rows[k]).trace_id@ == t.trace_id@ && rows[k].start_time
            == t.start_time
    &&& forall|k: int|
        0 <= k < rows.len() && (#[trigger] rows[k]).trace_id@ == t.trace_id@ ==> rows[k].start_time
            >= t.start_time
    &&& exists|k: int|
        0 <= k < rows.len() && (#[trigger] rows[k]).trace_id@ == t.trace_id@ && rows[k].end_time
            == t.end_time
    &&& forall|k: int|
        0 <= k < rows.len() && (#[trigger] rows[k]).trace_id@ == t.trace_id@ ==> rows[k].end_time
            <= t.end_time
    &&& match t.duration_ns {
        Some(d) => d as int == t.end_time - t.start_time,
        None => t.end_time - t.start_time > i64::MAX || t.end_time - t.start_time < i64::MIN,
    }
}

/// Whether a trace row set is the correct aggregate of a span row
/// set: one row per distinct trace id, each aggregating its spans.
pub open spec fn traces_ok(rows: Seq<WriteableSpan>, traces: Seq<WriteableTrace>) -> bool {
    &&& forall|i: int| 0 <= i < traces.len() ==> trace_agg_ok(rows, #[trigger] traces[i])
    &&& forall|i: int, j: int|
        0 <= i < j < traces.len() ==> (#[trigger] traces[i]).trace_id@ != (
        #[trigger] traces[j]).trace_id@
    &&& forall|k: int|
        0 <= k < rows.len() ==> exists|i: int|
            0 <= i < traces.len() && (#[trigger] traces[i]).trace_id@ == (
            #[trigger] rows[k]).trace_id@
}

/// The derived duration of a widened trace: `end - start` where it
/// fits a signed 64-bit count, nothing where it does not.
pub fn trace_duration_opt(start: u64, end: u64) -> (r: Option<i64>)
    ensures
        match r {
            Some(d) => d as int == end - start,
            None => end - start > i64::MAX || end - start < i64::MIN,
        },
{
    let d: i128 = end as i128 - start as i128;
    if d > i64::MAX as i128 || d < i64::MIN as i128 {
        None
    } else {
        Some(d as i64)
    }
}

/// Derives the per-trace aggregates from a set of span rows in one
/// linear pass: for each distinct trace id, the earliest start, the
/// latest end, the span count, and the duration those bounds give.
#[verifier::loop_isolation(false)]
#[verifier::spinoff_prover]
#[verifier::rlimit(30)]
pub fn aggregate_traces(spans: &Vec<WriteableSpan>) -> (traces: Vec<WriteableTrace>)
    ensures
        traces_ok(spans@, traces@),
{
    let mut traces: Vec<WriteableTrace> = Vec::new();
    proof {
        assert(spans@.take(0) =~= Seq::<WriteableSpan>::empty());
    }
    let mut k: usize = 0;
    while k < spans.len()
        invariant
            k <= spans@.len(),
            traces_ok(spans@.take(k as int), traces@),
        decreases spans@.len() - k,
    {
        let ghost prefix = spans@.take(k as int);
        let ghost x = spans@[k as int];
        proof {
            assert(spans@.take(k + 1) =~= prefix.push(x));
        }
        let mut j: usize = 0;
        let mut found: bool = false;
        while j < traces.len() && !found
            invariant
                j <= traces@.len(),
                !found ==> forall|j2: int|
                    0 <= j2 < j ==> (#[trigger] traces@[j2]).trace_id@ != x.trace_id@,
                found ==> j < traces@.len() && traces@[j as int].trace_id@ == x.trace_id@,
            decreases traces@.len() - j + (if found {
                0int
            } else {
                1int
            }),
        {
            if traces[j].trace_id == spans[k].trace_id {
                found = true;
            } else {
                j = j + 1;
            }
        }
        if found {
            let new_start = if spans[k].start_time < traces[j].start_time {
                spans[k].start_time
            } else {
                traces[j].start_time
            };
            let new_end = if spans[k].end_time > traces[j].end_time {
                spans[k].end_time
            } else {
                traces[j].end_time
            };
            let new_duration = trace_duration_opt(new_start, new_end);
            proof {
                lemma_count_bound(prefix, traces@[j as int]);
            }
            let new_count = traces[j].span_count + 1;
            let tid = traces[j].trace_id.clone();
            let updated = WriteableTrace {
                trace_id: tid,
                start_time: new_start,
                end_time: new_end,
                duration_ns: new_duration,
                span_count: new_count,
            };
            let ghost old_traces = traces@;
            traces[j] = updated;
            proof {
                lemma_agg_update_all(prefix, x, old_traces, traces@, j as int);
            }
        } else {
            let row = WriteableTrace {
                trace_id: spans[k].trace_id.clone(),
                start_time: spans[k].start_time,
                end_time: spans[k].end_time,
                duration_ns: trace_duration_opt(spans[k].start_time, spans[k].end_time),
                span_count: 1,
            };
            let ghost old_traces = traces@;
            traces.push(row);
            proof {
                lemma_agg_fresh_all(prefix, x, old_traces, traces@);
            }
        }
        k = k + 1;
    }
    proof {
        assert(spans@.take(spans@.len() as int) =~= spans@);
    }
    traces
}

/// A trace id matching no span row counts zero rows.
proof fn lemma_count_zero(rows: Seq<WriteableSpan>, tid: Seq<char>)
    requires
        forall|k: int| 0 <= k < rows.len() ==> (#[trigger] rows[k]).trace_id@ != tid,
    ensures
        count_for(rows, tid) == 0,
    decreases rows.len(),
{
    if rows.len() > 0 {
        lemma_count_zero(rows.drop_last(), tid);
        rows.drop_last().lemma_filter_len_push(tid_pred(tid), rows.last());
        assert(rows.drop_last().push(rows.last()) =~= rows);
    }
}

/// Updating the matching trace row after one more span row keeps the
/// whole trace set a correct aggregate.
#[verifier::spinoff_prover]
proof fn lemma_agg_update_all(
    prefix: Seq<WriteableSpan>,
    x: WriteableSpan,
    old_traces: Seq<WriteableTrace>,
    new_traces: Seq<WriteableTrace>,
    j: int,
)
    requires
        traces_ok(prefix, old_traces),
        0 <= j < old_traces.len(),
        old_traces[j].trace_id@ == x.trace_id@,
        new_traces == old_traces.update(j, new_traces[j]),
        new_traces[j].trace_id@ == x.trace_id@,
        new_traces[j].span_count == old_traces[j].span_count + 1,
        new_traces[j].start_time == if x.start_time < old_traces[j].start_time {
            x.start_time
        } else {
            old_traces[j].start_time
        },
        new_traces[j].end_time == if x.end_time > old_traces[j].end_time {
            x.end_time
        } else {
            old_traces[j].end_time
        },
        match new_traces[j].duration_ns {
            Some(d) => d as int == new_traces[j].end_time - new_traces[j].start_time,
            None => new_traces[j].end_time - new_traces[j].start_time > i64::MAX
                || new_traces[j].end_time - new_traces[j].start_time < i64::MIN,
        },
    ensures
        traces_ok(prefix.push(x), new_traces),
{
    let rows = prefix.push(x);
    assert forall|i: int| 0 <= i < new_traces.len() implies trace_agg_ok(
        rows,
        #[trigger] new_traces[i],
    ) by {
        if i == j {
            lemma_agg_absorb(prefix, x, old_traces[i], new_traces[i]);
        } else {
            assert(new_traces[i] == old_traces[i]);
            assert(old_traces[i].trace_id@ != old_traces[j].trace_id@);
            lemma_agg_unchanged(prefix, x, old_traces[i]);
        }
    }
    assert forall|k2: int| 0 <= k2 < rows.len() implies exists|i: int|
        0 <= i < new_traces.len() && (#[trigger] new_traces[i]).trace_id@ == (
        #[trigger] rows[k2]).trace_id@ by {
        if k2 < prefix.len() {
            let i0 = choose|i: int|
                0 <= i < old_traces.len() && (#[trigger] old_traces[i]).trace_id@
                    == prefix[k2].trace_id@;
            assert(new_traces[i0].trace_id@ == rows[k2].trace_id@);
        } else {
            assert(new_traces[j].trace_id@ == rows[k2].trace_id@);
        }
    }
    assert(forall|i1: int, i2: int|
        0 <= i1 < i2 < new_traces.len() ==> (#[trigger] new_traces[i1]).trace_id@ != (
        #[trigger] new_traces[i2]).trace_id@);
}

/// Appending a fresh trace row for a span row of an unseen trace id
/// keeps the whole trace set a correct aggregate.
#[verifier::spinoff_prover]
proof fn lemma_agg_fresh_all(
    prefix: Seq<WriteableSpan>,
    x: WriteableSpan,
    old_traces: Seq<WriteableTrace>,
    new_traces: Seq<WriteableTrace>,
)
    requires
        traces_ok(prefix, old_traces),
        forall|i: int| 0 <= i < old_traces.len() ==> (#[trigger] old_traces[i]).trace_id@
            != x.trace_id@,
        new_traces == old_traces.push(new_traces.last()),
        new_traces.len() == old_traces.len() + 1,
        new_traces.last().trace_id@ == x.trace_id@,
        new_traces.last().span_count == 1,
        new_traces.last().start_time == x.start_time,
        new_traces.last().end_time == x.end_time,
        match new_traces.last().duration_ns {
            Some(d) => d as int == x.end_time - x.start_time,
            None => x.end_time - x.start_time > i64::MAX || x.end_time - x.start_time < i64::MIN,
        },
    ensures
        traces_ok(prefix.push(x), new_traces),
{
    let rows = prefix.push(x);
    assert forall|k2: int| 0 <= k2 < prefix.len() implies (#[trigger] prefix[k2]).trace_id@
        != x.trace_id@ by {
        let i0 = choose|i: int|
            0 <= i < old_traces.len() && (#[trigger] old_traces[i]).trace_id@
                == prefix[k2].trace_id@;
        assert(old_traces[i0].trace_id@ != x.trace_id@);
    }
    assert forall|i: int| 0 <= i < new_traces.len() implies trace_agg_ok(
        rows,
        #[trigger] new_traces[i],
    ) by {
        if i == old_traces.len() {
            lemma_agg_start(prefix, x, new_traces[i]);
        } else {
            assert(new_traces[i] == old_traces[i]);
            lemma_agg_unchanged(prefix, x, old_traces[i]);
        }
    }
    assert forall|k2: int| 0 <= k2 < rows.len() implies exists|i: int|
        0 <= i < new_traces.len() && (#[trigger] new_traces[i]).trace_id@ == (
        #[trigger] rows[k2]).trace_id@ by {
        if k2 < prefix.len() {
            let i0 = choose|i: int|
                0 <= i < old_traces.len() && (#[trigger] old_traces[i]).trace_id@
                    == prefix[k2].trace_id@;
            assert(new_traces[i0].trace_id@ == rows[k2].trace_id@);
        } else {
            assert(new_traces[new_traces.len() - 1].trace_id@ == rows[k2].trace_id@);
        }
    }
    assert(forall|i1: int, i2: int|
        0 <= i1 < i2 < new_traces.len() ==> (#[trigger] new_traces[i1]).trace_id@ != (
        #[trigger] new_traces[i2]).trace_id@);
}

/// Removing one row lowers a trace's row count by one when that row
/// belongs to the trace, and leaves it alone otherwise.
proof fn lemma_count_remove(rows: Seq<WriteableSpan>, tid: Seq<char>, j: int)
    requires
        0 <= j < rows.len(),
    ensures
        count_for(rows, tid) == count_for(rows.remove(j), tid) + (if rows[j].trace_id@ == tid {
            1int
        } else {
            0int
        }),
{
    let p = tid_pred(tid);
    let a = rows.take(j);
    let b = rows.skip(j + 1);
    let x = rows[j];
    assert(rows =~= a + (seq![x] + b));
    assert(rows.remove(j) =~= a + b);
    Seq::filter_distributes_over_add(a, seq![x] + b, p);
    Seq::filter_distributes_over_add(seq![x], b, p);
    Seq::filter_distributes_over_add(a, b, p);
    assert(seq![x] =~= Seq::<WriteableSpan>::empty().push(x));
    Seq::<WriteableSpan>::empty().lemma_filter_len_push(p, x);
    Seq::<WriteableSpan>::empty().lemma_filter_len(p);
}

/// The number of rows a trace id selects is the same in any two row
/// sequences holding the same rows, whatever their order.
proof fn lemma_count_for_permutation(
    rows1: Seq<WriteableSpan>,
    rows2: Seq<WriteableSpan>,
    tid: Seq<char>,
)
    requires
        rows1.to_multiset() == rows2.to_multiset(),
    ensures
        count_for(rows1, tid) == count_for(rows2, tid),
    decreases rows1.len(),
{
    broadcast use vstd::seq_lib::group_to_multiset_ensures;

    if rows1.len() == 0 {
        assert(rows1.to_multiset().len() == 0);
        assert(rows2.to_multiset().len() == rows2.len());
        assert(rows2.len() == 0);
    } else {
        let x = rows1.last();
        assert(rows1[rows1.len() - 1] == x);
        assert(rows1.to_multiset().count(x) > 0);
        assert(rows2.contains(x));
        let j = choose|j: int| 0 <= j < rows2.len() && rows2[j] == x;
        assert(rows1.drop_last() =~= rows1.remove(rows1.len() - 1));
        assert(rows1.drop_last().to_multiset() =~= rows1.to_multiset().remove(x));
        assert(rows2.remove(j).to_multiset() =~= rows2.to_multiset().remove(x));
        lemma_count_for_permutation(rows1.drop_last(), rows2.remove(j), tid);
        lemma_count_remove(rows1, tid, rows1.len() - 1);
        lemma_count_remove(rows2, tid, j);
    }
}

#[verifier::spinoff_prover]
proof fn lemma_agg_transfer(rows1: Seq<WriteableSpan>, rows2: Seq<WriteableSpan>, t: WriteableTrace)
    requires
        rows1.to_multiset() == rows2.to_multiset(),
        trace_agg_ok(rows1, t),
    ensures
        trace_agg_ok(rows2, t),
{
    reveal(trace_agg_ok);
    broadcast use vstd::seq_lib::group_to_multiset_ensures;

    lemma_count_for_permutation(rows1, rows2, t.trace_id@);
    let w = choose|k: int|
        0 <= k < rows1.len() && (#[trigger] rows1[k]).trace_id@ == t.trace_id@
            && rows1[k].start_time == t.start_time;
    assert(rows1.to_multiset().count(rows1[w]) > 0);
    assert(rows2.contains(rows1[w]));
    let w2 = choose|k: int|
        0 <= k < rows1.len() && (#[trigger] rows1[k]).trace_id@ == t.trace_id@
            && rows1[k].end_time == t.end_time;
    assert(rows1.to_multiset().count(rows1[w2]) > 0);
    assert(rows2.contains(rows1[w2]));
    assert forall|k: int|
        0 <= k < rows2.len() && (#[trigger] rows2[k]).trace_id@
            == t.trace_id@ implies rows2[k].start_time >= t.start_time && rows2[k].end_time
        <= t.end_time by {
        assert(rows2.to_multiset().count(rows2[k]) > 0);
        assert(rows1.contains(rows2[k]));
    }
}

/// Flattening order does not matter to the trace aggregates: any two
/// span row sequences holding the same rows — whatever order they
/// were emitted in — validate exactly the same per-trace aggregate
/// rows. Re-deriving the aggregate from the emitted spans therefore
/// gives the result of the one-pass reduction.
pub proof fn lemma_trace_agg_order_independent(
    rows1: Seq<WriteableSpan>,
    rows2: Seq<WriteableSpan>,
    t: WriteableTrace,
)
    requires
        rows1.to_multiset() == rows2.to_multiset(),
    ensures
        trace_agg_ok(rows1, t) == trace_agg_ok(rows2, t),
{
    if trace_agg_ok(rows1, t) {
        lemma_agg_transfer(rows1, rows2, t);
    }
    if trace_agg_ok(rows2, t) {
        lemma_agg_transfer(rows2, rows1, t);
    }
}

#[verifier::spinoff_prover]
proof fn lemma_traces_ok_transfer(
    rows1: Seq<WriteableSpan>,
    rows2: Seq<WriteableSpan>,
    traces: Seq<WriteableTrace>,
)
    requires
        rows1.to_multiset() == rows2.to_multiset(),
        traces_ok(rows1, traces),
    ensures
        traces_ok(rows2, traces),
{
    broadcast use vstd::seq_lib::group_to_multiset_ensures;

    assert forall|i: int| 0 <= i < traces.len() implies trace_agg_ok(
        rows2,
        #[trigger] traces[i],
    ) by {
        lemma_agg_transfer(rows1, rows2, traces[i]);
    }
    assert forall|k: int| 0 <= k < rows2.len() implies exists|i: int|
        0 <= i < traces.len() && (#[trigger] traces[i]).trace_id@ == (
        #[trigger] rows2[k]).trace_id@ by {
        assert(rows2.to_multiset().count(rows2[k]) > 0);
        assert(rows1.contains(rows2[k]));
        let k1 = choose|k1: int| 0 <= k1 < rows1.len() && rows1[k1] == rows2[k];
        let i0 = choose|i: int|
            0 <= i < traces.len() && (#[trigger] traces[i]).trace_id@ == rows1[k1].trace_id@;
        assert(traces[i0].trace_id@ == rows2[k].trace_id@);
    }
}

/// The whole trace-aggregate set is insensitive to span order: two
/// span row sequences holding the same rows validate the same trace
/// row sets.
pub proof fn lemma_traces_ok_order_independent(
    rows1: Seq<WriteableSpan>,
    rows2: Seq<WriteableSpan>,
    traces: Seq<WriteableTrace>,
)
    requires
        rows1.to_multiset() == rows2.to_multiset(),
    ensures
        traces_ok(rows1, traces) == traces_ok(rows2, traces),
{
    if traces_ok(rows1, traces) {
        lemma_traces_ok_transfer(rows1, rows2, traces);
    }
    if traces_ok(rows2, traces) {
        lemma_traces_ok_transfer(rows2, rows1, traces);
    }
}

/// A trace row's span count never exceeds the number of span rows it
/// aggregates over.
proof fn lemma_count_bound(prefix: Seq<WriteableSpan>, t: WriteableTrace)
    requires
        trace_agg_ok(prefix, t),
    ensures
        t.span_count <= prefix.len(),
{
    reveal(trace_agg_ok);
    prefix.lemma_filter_len(tid_pred(t.trace_id@));
}

/// A span row of another trace leaves a trace row's aggregate
/// characterization intact.
#[verifier::spinoff_prover]
#[verifier::rlimit(30)]
proof fn lemma_agg_unchanged(prefix: Seq<WriteableSpan>, x: WriteableSpan, t: WriteableTrace)
    requires
        trace_agg_ok(prefix, t),
        t.trace_id@ != x.trace_id@,
    ensures
        trace_agg_ok(prefix.push(x), t),
{
    reveal(trace_agg_ok);
    let rows = prefix.push(x);
    prefix.lemma_filter_len_push(tid_pred(t.trace_id@), x);
    assert(!tid_pred(t.trace_id@)(x));
    let w = choose|k: int|
        0 <= k < prefix.len() && (#[trigger] prefix[k]).trace_id@ == t.trace_id@
            && prefix[k].start_time == t.start_time;
    assert(rows[w].trace_id@ == t.trace_id@ && rows[w].start_time == t.start_time);
    let w2 = choose|k: int|
        0 <= k < prefix.len() && (#[trigger] prefix[k]).trace_id@ == t.trace_id@
            && prefix[k].end_time == t.end_time;
    assert(rows[w2].trace_id@ == t.trace_id@ && rows[w2].end_time == t.end_time);
    assert(forall|k: int| 0 <= k < prefix.len() ==> rows[k] == prefix[k]);
}

/// One more span row of a trace widens that trace row's bounds and
/// count into a correct aggregate again.
#[verifier::spinoff_prover]
#[verifier::rlimit(30)]
proof fn lemma_agg_absorb(
    prefix: Seq<WriteableSpan>,
    x: WriteableSpan,
    ot: WriteableTrace,
    t: WriteableTrace,
)
    requires
        trace_agg_ok(prefix, ot),
        ot.trace_id@ == x.trace_id@,
        t.trace_id@ == x.trace_id@,
        t.span_count == ot.span_count + 1,
        t.start_time == if x.start_time < ot.start_time {
            x.start_time
        } else {
            ot.start_time
        },
        t.end_time == if x.end_time > ot.end_time {
            x.end_time
        } else {
            ot.end_time
        },
        match t.duration_ns {
            Some(d) => d as int == t.end_time - t.start_time,
            None => t.end_time - t.start_time > i64::MAX || t.end_time - t.start_time < i64::MIN,
        },
    ensures
        trace_agg_ok(prefix.push(x), t),
{
    reveal(trace_agg_ok);
    let rows = prefix.push(x);
    prefix.lemma_filter_len_push(tid_pred(t.trace_id@), x);
    assert(tid_pred(t.trace_id@)(x));
    assert(forall|k: int| 0 <= k < prefix.len() ==> rows[k] == prefix[k]);
    if x.start_time < ot.start_time {
        assert(rows[rows.len() - 1].trace_id@ == t.trace_id@ && rows[rows.len() - 1].start_time
            == t.start_time);
    } else {
        let w = choose|k: int|
            0 <= k < prefix.len() && (#[trigger] prefix[k]).trace_id@ == ot.trace_id@
                && prefix[k].start_time == ot.start_time;
        assert(rows[w].trace_id@ == t.trace_id@ && rows[w].start_time == t.start_time);
    }
    if x.end_time > ot.end_time {
        assert(rows[rows.len() - 1].trace_id@ == t.trace_id@ && rows[rows.len() - 1].end_time
            == t.end_time);
    } else {
        let w2 = choose|k: int|
            0 <= k < prefix.len() && (#[trigger] prefix[k]).trace_id@ == ot.trace_id@
                && prefix[k].end_time == ot.end_time;
        assert(rows[w2].trace_id@ == t.trace_id@ && rows[w2].end_time == t.end_time);
    }
}

/// The first span row of a fresh trace id makes a correct aggregate
/// row out of that span's own bounds.
#[verifier::spinoff_prover]
#[verifier::rlimit(30)]
proof fn lemma_agg_start(prefix: Seq<WriteableSpan>, x: WriteableSpan, t: WriteableTrace)
    requires
        forall|k: int| 0 <= k < prefix.len() ==> (#[trigger] prefix[k]).trace_id@ != x.trace_id@,
        t.trace_id@ == x.trace_id@,
        t.span_count == 1,
        t.start_time == x.start_time,
        t.end_time == x.end_time,
        match t.duration_ns {
            Some(d) => d as int == t.end_time - t.start_time,
            None => t.end_time - t.start_time > i64::MAX || t.end_time - t.start_time < i64::MIN,
        },
    ensures
        trace_agg_ok(prefix.push(x), t),
{
    reveal(trace_agg_ok);
    let rows = prefix.push(x);
    lemma_count_zero(prefix, t.trace_id@);
    prefix.lemma_filter_len_push(tid_pred(t.trace_id@), x);
    assert(tid_pred(t.trace_id@)(x));
    assert(forall|k: int| 0 <= k < prefix.len() ==> rows[k] == prefix[k]);
    assert(rows[rows.len() - 1].trace_id@ == t.trace_id@);
}

fn clone_opt_string(o: &Option<String>) -> (r: Option<String>)
    ensures
        r == *o,
{
    match o {
        Some(s) => Some(s.clone()),
        None => None,
    }
}

/// Flattens a decoded trace-export document into trace aggregates,
/// span rows, and span attribute rows, in one walk and in document
/// order. A raw trace or span id of the wrong length rejects the
/// whole document: nothing is produced.
#[verifier::loop_isolation(false)]
#[verifier::rlimit(100)]
#[verifier::spinoff_prover]
pub fn flatten_spans_and_attrs(payload: &TracesRequest) -> (r: Result<
    (Vec<WriteableTrace>, Vec<WriteableSpan>, Vec<WriteableSpanAttribute>),
    ErrorKind,
>)
    ensures
        match r {
            Ok(out) => {
                &&& ids_well_formed(*payload)
                &&& outputs_match(out.1@, out.2@, span_entries(*payload))
                &&& traces_ok(out.1@, out.0@)
            },
            Err(e) => e == ErrorKind::InvalidIdentifier && !ids_well_formed(*payload),
        },
{
    let mut spans: Vec<WriteableSpan> = Vec::new();
    let mut attrs: Vec<WriteableSpanAttribute> = Vec::new();
    let ghost mut done: Seq<SpanEntry> = Seq::empty();
    proof {
        assert(payload.resource_spans@.take(0) =~= Seq::<ResourceSpans>::empty());
        assert(Seq::<ResourceSpans>::empty().map_values(scope_entries_fn())
            =~= Seq::<Seq<SpanEntry>>::empty());
        assert(entries_upto(*payload, 0) =~= Seq::<SpanEntry>::empty());
        assert(done.map_values(attr_of_entry_fn()) =~= Seq::<Seq<AttrRow>>::empty());
        assert(done.flat_map(attr_of_entry_fn()) =~= Seq::<AttrRow>::empty());
        assert(attrs@.map_values(attr_view_fn()) =~= Seq::<AttrRow>::empty());
    }
    let mut ri: usize = 0;
    while ri < payload.resource_spans.len()
        invariant
            ri <= payload.resource_spans@.len(),
            done == entries_upto(*payload, ri as int),
            outputs_match(spans@, attrs@, done),
        decreases payload.resource_spans@.len() - ri,
    {
        let rs = &payload.resource_spans[ri];
        let service_name = extract_service_name(&rs.resource);
        proof {
            assert(rs.scope_spans@.take(0) =~= Seq::<ScopeSpans>::empty());
            assert(rs.scope_spans@.take(0).map_values(triples_fn(rs.resource))
                =~= Seq::<Seq<SpanEntry>>::empty());
            assert(scope_upto(*rs, 0) =~= Seq::<SpanEntry>::empty());
            assert(done =~= entries_upto(*payload, ri as int) + scope_upto(*rs, 0));
        }
        let mut si: usize = 0;
        while si < rs.scope_spans.len()
            invariant
                si <= rs.scope_spans@.len(),
                done == entries_upto(*payload, ri as int) + scope_upto(*rs, si as int),
                outputs_match(spans@, attrs@, done),
            decreases rs.scope_spans@.len() - si,
        {
            let ss = &rs.scope_spans[si];
            let instr = extract_instrumentation_library(ss);
            proof {
                assert(span_triples(rs.resource, *ss).take(0) =~= Seq::<SpanEntry>::empty());
                assert(done =~= entries_upto(*payload, ri as int) + scope_upto(*rs, si as int)
                    + span_triples(rs.resource, *ss).take(0));
            }
            let mut ki: usize = 0;
            while ki < ss.spans.len()
                invariant
                    ki <= ss.spans@.len(),
                    done == entries_upto(*payload, ri as int) + scope_upto(*rs, si as int)
                        + span_triples(rs.resource, *ss).take(ki as int),
                    outputs_match(spans@, attrs@, done),
                decreases ss.spans@.len() - ki,
            {
                let sp = &ss.spans[ki];
                let ghost e: SpanEntry = (rs.resource, ss.scope, *sp);
                proof {
                    lemma_entry_position(*payload, ri as int, si as int, ki as int);
                    assert(span_triples(rs.resource, *ss)[ki as int] == e);
                    assert(span_entries(*payload)[done.len() as int] == e);
                }
                let trace_id = match sp.trace_id_hex() {
                    Ok(h) => h,
                    Err(_) => {
                        proof {
                            assert(!ids_well_formed(*payload));
                        }
                        return Err(ErrorKind::InvalidIdentifier);
                    },
                };
                let span_id = match sp.span_id_hex() {
                    Ok(h) => h,
                    Err(_) => {
                        proof {
                            assert(!ids_well_formed(*payload));
                        }
                        return Err(ErrorKind::InvalidIdentifier);
                    },
                };
                let row = WriteableSpan {
                    span_id: span_id.clone(),
                    trace_id,
                    parent_span_id: sp.parent_span_id_hex(),
                    operation_name: sp.name.clone(),
                    start_time: sp.start_time_unix_nano,
                    end_time: sp.end_time_unix_nano,
                    duration_ns: sp.duration_ns(),
                    status_code: sp.status_code(),
                    status_message: sp.status_message(),
                    span_kind: sp.span_kind_to_db(),
                    instrumentation_library: clone_opt_string(&instr),
                    service_name: clone_opt_string(&service_name),
                };
                let pairs = sp.attributes_map();
                let ghost attr_base = done.flat_map(attr_of_entry_fn());
                proof {
                    assert(attr_rows_of(*sp).take(0) =~= Seq::<AttrRow>::empty());
                    assert(attrs@.map_values(attr_view_fn()) =~= attr_base + attr_rows_of(
                        *sp,
                    ).take(0));
                }
                let mut ai: usize = 0;
                while ai < pairs.len()
                    invariant
                        ai <= pairs@.len(),
                        pairs@.len() == sp.attributes@.len(),
                        attrs@.map_values(attr_view_fn()) == attr_base + attr_rows_of(*sp).take(
                            ai as int,
                        ),
                    decreases pairs@.len() - ai,
                {
                    let arow = WriteableSpanAttribute {
                        span_id: span_id.clone(),
                        key: pairs[ai].0.clone(),
                        value: pairs[ai].1.clone(),
                    };
                    let ghost pre_attrs = attrs@;
                    attrs.push(arow);
                    proof {
                        assert(attrs@.map_values(attr_view_fn()) =~= pre_attrs.map_values(
                            attr_view_fn(),
                        ).push(attr_view_fn()(arow)));
                        assert(attr_rows_of(*sp)[ai as int] == (
                            hex_of(sp.span_id@),
                            sp.attributes@[ai as int].key@,
                            opt_value_text(sp.attributes@[ai as int].value),
                        ));
                        assert(attr_rows_of(*sp).take(ai + 1) =~= attr_rows_of(*sp).take(
                            ai as int,
                        ).push(attr_rows_of(*sp)[ai as int]));
                        assert(attrs@.map_values(attr_view_fn()) =~= attr_base + attr_rows_of(
                            *sp,
                        ).take(ai + 1));
                    }
                    ai = ai + 1;
                }
                let ghost pre_spans = spans@;
                spans.push(row);
                proof {
                    assert(attr_rows_of(*sp).take(pairs@.len() as int) =~= attr_rows_of(*sp));
                    done.lemma_flat_map_push(attr_of_entry_fn(), e);
                    assert(attr_of_entry_fn()(e) == attr_rows_of(*sp));
                    done = done.push(e);
                    assert(span_triples(rs.resource, *ss).take(ki + 1) =~= span_triples(
                        rs.resource,
                        *ss,
                    ).take(ki as int).push(e));
                    assert(done =~= entries_upto(*payload, ri as int) + scope_upto(*rs, si as int)
                        + span_triples(rs.resource, *ss).take(ki + 1));
                    assert(span_row_matches(row, e));
                    assert(outputs_match(spans@, attrs@, done));
                }
                ki = ki + 1;
            }
            proof {
                assert(span_triples(rs.resource, *ss).take(ss.spans@.len() as int)
                    =~= span_triples(rs.resource, *ss));
                rs.scope_spans@.lemma_flat_map_take_append(triples_fn(rs.resource), si as int);
                assert(triples_fn(rs.resource)(rs.scope_spans@[si as int]) == span_triples(
                    rs.resource,
                    *ss,
                ));
                assert(done =~= entries_upto(*payload, ri as int) + scope_upto(*rs, si + 1));
            }
            si = si + 1;
        }
        proof {
            assert(scope_upto(*rs, rs.scope_spans@.len() as int) == scope_entries(*rs)) by {
                assert(rs.scope_spans@.take(rs.scope_spans@.len() as int) =~= rs.scope_spans@);
            }
            payload.resource_spans@.lemma_flat_map_take_append(scope_entries_fn(), ri as int);
            assert(scope_entries_fn()(payload.resource_spans@[ri as int]) == scope_entries(*rs));
            assert(done =~= entries_upto(*payload, ri + 1));
        }
        ri = ri + 1;
    }
    proof {
        assert(payload.resource_spans@.take(payload.resource_spans@.len() as int)
            =~= payload.resource_spans@);
        assert(done == span_entries(*payload));
        assert forall|k: int| 0 <= k < span_entries(*payload).len() implies (
        #[trigger] span_entries(*payload)[k]).2.trace_id@.len() == 16 && span_entries(
            *payload,
        )[k].2.span_id@.len() == 8 by {
            assert(span_row_matches(spans@[k], done[k]));
        }
    }
    let traces = aggregate_traces(&spans);
    Ok((traces, spans, attrs))
}

/// Flattens a decoded trace-export document into trace aggregates
/// and span rows, discarding the attribute rows.
pub fn flatten_spans(payload: &TracesRequest) -> (r: Result<
    (Vec<WriteableTrace>, Vec<WriteableSpan>),
    ErrorKind,
>)
    ensures
        match r {
            Ok(out) => {
                &&& ids_well_formed(*payload)
                &&& out.1@.len() == span_entries(*payload).len()
                &&& forall|k: int|
                    0 <= k < out.1@.len() ==> span_row_matches(
                        #[trigger] out.1@[k],
                        span_entries(*payload)[k],
                    )
                &&& traces_ok(out.1@, out.0@)
            },
            Err(e) => e == ErrorKind::InvalidIdentifier && !ids_well_formed(*payload),
        },
{
    match flatten_spans_and_attrs(payload) {
        Ok((traces, spans, _attrs)) => Ok((traces, spans)),
        Err(e) => Err(e),
    }
}

/// Resolves the instrumentation library of a scope from its declared
/// name.
pub fn extract_instrumentation_library(scope_spans: &ScopeSpans) -> (r: Option<String>)
    ensures
        match r {
            Some(s) => instrumentation_library_of(scope_spans.scope) == Some(s@),
            None => instrumentation_library_of(scope_spans.scope) is None,
        },
{
    match &scope_spans.scope {
        Some(sc) => match &sc.name {
            Some(n) => Some(n.clone()),
            None => None,
        },
        None => None,
    }
}


/// One log row, ready to insert, under a freshly generated id.
#[derive(Debug)]
pub struct WriteableLog {
    pub log_id: String,
    pub trace_id: Option<String>,
    pub span_id: Option<String>,
    pub timestamp: u64,
    pub observed_timestamp: Option<u64>,
    pub severity_number: i32,
    pub severity_text: Option<String>,
    pub body: Option<String>,
    pub instrumentation_library: Option<String>,
    pub service_name: Option<String>,
}

/// One log attribute row, ready to upsert.
#[derive(Debug)]
pub struct WriteableLogAttribute {
    pub log_id: String,
    pub key: String,
    pub value: String,
}

/// Relies on uuid's `Uuid::new_v4` and its hyphenated rendering: a
/// fresh random identifier whose text form is always 36 characters.
/// Nothing else is assumed of the value: two calls may (and almost
/// surely do) differ.
#[verifier::external_body]
fn new_log_id() -> (r: String)
    ensures
        r@.len() == 36,
{
    uuid::Uuid::new_v4().to_string()
}

/// A log record together with the resource and scope it was emitted
/// under.
pub type LogEntry = (Option<Resource>, Option<InstrumentationScope>, LogRecord);

/// The log entries of one scope.
pub open spec fn log_triples(res: Option<Resource>, sl: ScopeLogs) -> Seq<LogEntry> {
    sl.log_records@.map_values(|lr: LogRecord| (res, sl.scope, lr))
}

/// The per-scope log entry function of one resource, in a form that
/// names a single closure.
pub open spec fn log_triples_fn(res: Option<Resource>) -> spec_fn(ScopeLogs) -> Seq<LogEntry> {
    |sl: ScopeLogs| log_triples(res, sl)
}

/// The log entries of one resource, in document order.
pub open spec fn scope_log_entries(rl: ResourceLogs) -> Seq<LogEntry> {
    rl.scope_logs@.flat_map(log_triples_fn(rl.resource))
}

/// The per-resource log entry function, in a form that names a single
/// closure.
pub open spec fn scope_log_entries_fn() -> spec_fn(ResourceLogs) -> Seq<LogEntry> {
    |rl: ResourceLogs| scope_log_entries(rl)
}

/// Every log record of the document with its resource and scope, in
/// document order.
pub open spec fn log_entries(req: LogsRequest) -> Seq<LogEntry> {
    req.resource_logs@.flat_map(scope_log_entries_fn())
}

/// Whether one log row is exactly the flattening of one document
/// entry, apart from its freshly generated id, which is only known to
/// be 36 characters of identifier text.
pub open spec fn log_row_matches(row: WriteableLog, e: LogEntry) -> bool {
    &&& row.log_id@.len() == 36
    &&& (match row.trace_id {
        Some(h) => e.2.trace_id@.len() == 16 && h@ == hex_of(e.2.trace_id@),
        None => e.2.trace_id@.len() != 16,
    })
    &&& (match row.span_id {
        Some(h) => e.2.span_id@.len() == 8 && h@ == hex_of(e.2.span_id@),
        None => e.2.span_id@.len() != 8,
    })
    &&& row.timestamp == e.2.time_unix_nano
    &&& (match row.observed_timestamp {
        Some(t) => e.2.observed_time_unix_nano != 0 && t == e.2.observed_time_unix_nano,
        None => e.2.observed_time_unix_nano == 0,
    })
    &&& row.severity_number == e.2.severity_number
    &&& (match row.severity_text {
        Some(t) => t@ == e.2.severity_text@ && t@.len() > 0,
        None => e.2.severity_text@.len() == 0,
    })
    &&& (match row.body {
        Some(b) => e.2.body is Some && b@ == crate::coerce::any_value_text(e.2.body->0),
        None => e.2.body is None,
    })
    &&& opt_view(row.instrumentation_library) == instrumentation_library_of(e.1)
    &&& opt_view(row.service_name) == service_name_of(e.0)
}

/// The abstract form of a built log attribute row, in a form that
/// names a single closure.
pub open spec fn lattr_view_fn() -> spec_fn(WriteableLogAttribute) -> AttrRow {
    |a: WriteableLogAttribute| (a.log_id@, a.key@, a.value@)
}

/// The attribute rows one log record contributes under a given row
/// id.
pub open spec fn log_attr_rows_of(id: Seq<char>, lr: LogRecord) -> Seq<AttrRow> {
    lr.attributes@.map_values(|kv: KeyValue| (id, kv.key@, opt_value_text(kv.value)))
}

/// The attribute rows all built log rows contribute, each under its
/// own row's id, in document order.
pub open spec fn log_attrs_expected(logs: Seq<WriteableLog>, done: Seq<LogEntry>) -> Seq<AttrRow> {
    Seq::new(done.len(), |k: int| log_attr_rows_of(logs[k].log_id@, done[k].2)).flatten()
}

/// Whether the built log and attribute rows are exactly the
/// flattening of the processed entries.
pub open spec fn log_outputs_match(
    logs: Seq<WriteableLog>,
    attrs: Seq<WriteableLogAttribute>,
    done: Seq<LogEntry>,
) -> bool {
    &&& logs.len() == done.len()
    &&& forall|k: int| 0 <= k < done.len() ==> log_row_matches(#[trigger] logs[k], done[k])
    &&& attrs.map_values(lattr_view_fn()) == log_attrs_expected(logs, done)
}

/// The log entries of the first `ri` resources.
pub open spec fn log_entries_upto(req: LogsRequest, ri: int) -> Seq<LogEntry> {
    req.resource_logs@.take(ri).flat_map(scope_log_entries_fn())
}

/// The log entries of the first `si` scopes of one resource.
pub open spec fn log_scope_upto(rl: ResourceLogs, si: int) -> Seq<LogEntry> {
    rl.scope_logs@.take(si).flat_map(log_triples_fn(rl.resource))
}

/// Flattens a decoded logs-export document into log rows and log
/// attribute rows, generating one fresh opaque id per record. This
/// never fails: log correlation ids of the wrong length read as
/// absent rather than rejecting the batch.
#[verifier::loop_isolation(false)]
#[verifier::rlimit(100)]
#[verifier::spinoff_prover]
pub fn flatten_logs_and_attrs(payload: &LogsRequest) -> (r: Result<
    (Vec<WriteableLog>, Vec<WriteableLogAttribute>),
    ErrorKind,
>)
    ensures
        r is Ok,
        log_outputs_match(r->Ok_0.0@, r->Ok_0.1@, log_entries(*payload)),
{
    let mut logs: Vec<WriteableLog> = Vec::new();
    let mut attrs: Vec<WriteableLogAttribute> = Vec::new();
    let ghost mut done: Seq<LogEntry> = Seq::empty();
    proof {
        assert(payload.resource_logs@.take(0) =~= Seq::<ResourceLogs>::empty());
        assert(Seq::<ResourceLogs>::empty().map_values(scope_log_entries_fn())
            =~= Seq::<Seq<LogEntry>>::empty());
        assert(log_entries_upto(*payload, 0) =~= Seq::<LogEntry>::empty());
        assert(Seq::new(0, |k: int| log_attr_rows_of(logs@[k].log_id@, done[k].2))
            =~= Seq::<Seq<AttrRow>>::empty());
        assert(log_attrs_expected(logs@, done) =~= Seq::<AttrRow>::empty());
        assert(attrs@.map_values(lattr_view_fn()) =~= Seq::<AttrRow>::empty());
    }
    let mut ri: usize = 0;
    while ri < payload.resource_logs.len()
        invariant
            ri <= payload.resource_logs@.len(),
            done == log_entries_upto(*payload, ri as int),
            log_outputs_match(logs@, attrs@, done),
        decreases payload.resource_logs@.len() - ri,
    {
        let rl = &payload.resource_logs[ri];
        let service_name = extract_service_name(&rl.resource);
        proof {
            assert(rl.scope_logs@.take(0) =~= Seq::<ScopeLogs>::empty());
            assert(rl.scope_logs@.take(0).map_values(log_triples_fn(rl.resource))
                =~= Seq::<Seq<LogEntry>>::empty());
            assert(log_scope_upto(*rl, 0) =~= Seq::<LogEntry>::empty());
            assert(done =~= log_entries_upto(*payload, ri as int) + log_scope_upto(*rl, 0));
        }
        let mut si: usize = 0;
        while si < rl.scope_logs.len()
            invariant
                si <= rl.scope_logs@.len(),
                done == log_entries_upto(*payload, ri as int) + log_scope_upto(*rl, si as int),
                log_outputs_match(logs@, attrs@, done),
            decreases rl.scope_logs@.len() - si,
        {
            let sl = &rl.scope_logs[si];
            let instr = match &sl.scope {
                Some(sc) => match &sc.name {
                    Some(n) => Some(n.clone()),
                    None => None,
                },
                None => None,
            };
            proof {
                assert(log_triples(rl.resource, *sl).take(0) =~= Seq::<LogEntry>::empty());
                assert(done =~= log_entries_upto(*payload, ri as int) + log_scope_upto(
                    *rl,
                    si as int,
                ) + log_triples(rl.resource, *sl).take(0));
            }
            let mut ki: usize = 0;
            while ki < sl.log_records.len()
                invariant
                    ki <= sl.log_records@.len(),
                    done == log_entries_upto(*payload, ri as int) + log_scope_upto(*rl, si as int)
                        + log_triples(rl.resource, *sl).take(ki as int),
                    log_outputs_match(logs@, attrs@, done),
                decreases sl.log_records@.len() - ki,
            {
                let lr = &sl.log_records[ki];
                let ghost e: LogEntry = (rl.resource, sl.scope, *lr);
                proof {
                    assert(log_triples(rl.resource, *sl)[ki as int] == e);
                }
                let log_id = new_log_id();
                let row = WriteableLog {
                    log_id: log_id.clone(),
                    trace_id: lr.trace_id_hex(),
                    span_id: lr.span_id_hex(),
                    timestamp: lr.time_unix_nano,
                    observed_timestamp: lr.observed_timestamp(),
                    severity_number: lr.severity_number,
                    severity_text: lr.severity_text_opt(),
                    body: lr.body_string(),
                    instrumentation_library: clone_opt_string(&instr),
                    service_name: clone_opt_string(&service_name),
                };
                let pairs = lr.attributes_map();
                let ghost attr_base = log_attrs_expected(logs@, done);
                proof {
                    assert(log_attr_rows_of(log_id@, *lr).take(0) =~= Seq::<AttrRow>::empty());
                    assert(attrs@.map_values(lattr_view_fn()) =~= attr_base + log_attr_rows_of(
                        log_id@,
                        *lr,
                    ).take(0));
                }
                let mut ai: usize = 0;
                while ai < pairs.len()
                    invariant
                        ai <= pairs@.len(),
                        pairs@.len() == lr.attributes@.len(),
                        attrs@.map_values(lattr_view_fn()) == attr_base + log_attr_rows_of(
                            log_id@,
                            *lr,
                        ).take(ai as int),
                    decreases pairs@.len() - ai,
                {
                    let arow = WriteableLogAttribute {
                        log_id: log_id.clone(),
                        key: pairs[ai].0.clone(),
                        value: pairs[ai].1.clone(),
                    };
                    let ghost pre_attrs = attrs@;
                    attrs.push(arow);
                    proof {
                        assert(attrs@.map_values(lattr_view_fn()) =~= pre_attrs.map_values(
                            lattr_view_fn(),
                        ).push(lattr_view_fn()(arow)));
                        assert(log_attr_rows_of(log_id@, *lr)[ai as int] == (
                            log_id@,
                            lr.attributes@[ai as int].key@,
                            opt_value_text(lr.attributes@[ai as int].value),
                        ));
                        assert(log_attr_rows_of(log_id@, *lr).take(ai + 1) =~= log_attr_rows_of(
                            log_id@,
                            *lr,
                        ).take(ai as int).push(log_attr_rows_of(log_id@, *lr)[ai as int]));
                        assert(attrs@.map_values(lattr_view_fn()) =~= attr_base + log_attr_rows_of(
                            log_id@,
                            *lr,
                        ).take(ai + 1));
                    }
                    ai = ai + 1;
                }
                let ghost pre_logs = logs@;
                logs.push(row);
                proof {
                    let new_done = done.push(e);
                    assert(log_attr_rows_of(log_id@, *lr).take(pairs@.len() as int)
                        =~= log_attr_rows_of(log_id@, *lr));
                    let old_mat = Seq::new(
                        done.len(),
                        |k: int| log_attr_rows_of(pre_logs[k].log_id@, done[k].2),
                    );
                    let new_mat = Seq::new(
                        new_done.len(),
                        |k: int| log_attr_rows_of(logs@[k].log_id@, new_done[k].2),
                    );
                    assert(new_mat =~= old_mat.push(log_attr_rows_of(log_id@, *lr)));
                    old_mat.lemma_flatten_push(log_attr_rows_of(log_id@, *lr));
                    done = new_done;
                    assert(log_triples(rl.resource, *sl).take(ki + 1) =~= log_triples(
                        rl.resource,
                        *sl,
                    ).take(ki as int).push(e));
                    assert(done =~= log_entries_upto(*payload, ri as int) + log_scope_upto(
                        *rl,
                        si as int,
                    ) + log_triples(rl.resource, *sl).take(ki + 1));
                    assert(log_row_matches(row, e));
                    assert(log_outputs_match(logs@, attrs@, done));
                }
                ki = ki + 1;
            }
            proof {
                assert(log_triples(rl.resource, *sl).take(sl.log_records@.len() as int)
                    =~= log_triples(rl.resource, *sl));
                rl.scope_logs@.lemma_flat_map_take_append(log_triples_fn(rl.resource), si as int);
                assert(log_triples_fn(rl.resource)(rl.scope_logs@[si as int]) == log_triples(
                    rl.resource,
                    *sl,
                ));
                assert(done =~= log_entries_upto(*payload, ri as int) + log_scope_upto(
                    *rl,
                    si + 1,
                ));
            }
            si = si + 1;
        }
        proof {
            assert(log_scope_upto(*rl, rl.scope_logs@.len() as int) == scope_log_entries(*rl)) by {
                assert(rl.scope_logs@.take(rl.scope_logs@.len() as int) =~= rl.scope_logs@);
            }
            payload.resource_logs@.lemma_flat_map_take_append(scope_log_entries_fn(), ri as int);
            assert(scope_log_entries_fn()(payload.resource_logs@[ri as int]) == scope_log_entries(
                *rl,
            ));
            assert(done =~= log_entries_upto(*payload, ri + 1));
        }
        ri = ri + 1;
    }
    proof {
        assert(payload.resource_logs@.take(payload.resource_logs@.len() as int)
            =~= payload.resource_logs@);
        assert(done == log_entries(*payload));
    }
    Ok((logs, attrs))
}

} // verus!
