//! Bulk statement builders for the write pipeline.
//!
//! Each builder turns a row set into one parameterized statement, or
//! into nothing for an empty row set — zero-row statements are
//! skipped, never sent as empty SQL. The conflict policy is fixed per
//! table: traces widen on conflict, spans are create-once, attributes
//! are last-write-wins, logs never collide.

use vstd::prelude::*;

use crate::flatten::{
    opt_view, WriteableLog, WriteableLogAttribute, WriteableSpan, WriteableSpanAttribute,
    WriteableTrace,
};
use crate::sqlgen::{groups_upto, push_values_sql, BindValue, Statement};

verus! {

/// The trace upsert text: insert, and on an id conflict widen the
/// bounds, re-derive the duration, and accumulate the span count.
pub open spec fn trace_insert_sql(n: nat) -> Seq<char> {
    "INSERT INTO trace (id, started_at, ended_at, duration_ns, span_count) VALUES "@ + groups_upto(
        n,
        5,
    )
        + " ON CONFLICT (id) DO UPDATE SET started_at = LEAST(trace.started_at, EXCLUDED.started_at), ended_at = GREATEST(trace.ended_at, EXCLUDED.ended_at), duration_ns = (EXTRACT(EPOCH FROM GREATEST(trace.ended_at, EXCLUDED.ended_at) - LEAST(trace.started_at, EXCLUDED.started_at)) * 1000000000)::BIGINT, span_count = trace.span_count + EXCLUDED.span_count"@
}

/// The span insert text: create-once, a conflicting id changes
/// nothing.
pub open spec fn span_insert_sql(n: nat) -> Seq<char> {
    "INSERT INTO span (id, trace_id, parent_span_id, operation_name, started_at, ended_at, duration_ns, status_code, status_message, kind, instrumentation_library, service_name) VALUES "@
        + groups_upto(n, 12) + " ON CONFLICT (id) DO NOTHING"@
}

/// The span attribute upsert text: last write wins on the composite
/// key.
pub open spec fn span_attribute_insert_sql(n: nat) -> Seq<char> {
    "INSERT INTO span_attribute (span_id, key, value) VALUES "@ + groups_upto(n, 3)
        + " ON CONFLICT (span_id, key) DO UPDATE SET value = EXCLUDED.value"@
}

/// The log insert text: ids are generated fresh per record and never
/// collide, so there is no conflict target.
pub open spec fn log_insert_sql(n: nat) -> Seq<char> {
    "INSERT INTO log (id, trace_id, span_id, timestamp, observed_timestamp, severity_number, severity_text, body, instrumentation_library, service_name) VALUES "@
        + groups_upto(n, 10)
}

/// The log attribute upsert text: last write wins on the composite
/// key.
pub open spec fn log_attribute_insert_sql(n: nat) -> Seq<char> {
    "INSERT INTO log_attribute (log_id, key, value) VALUES "@ + groups_upto(n, 3)
        + " ON CONFLICT (log_id, key) DO UPDATE SET value = EXCLUDED.value"@
}

/// Whether a bind list carries exactly the given trace rows, field by
/// field in placeholder order.
pub open spec fn trace_binds_ok(binds: Seq<BindValue>, traces: Seq<WriteableTrace>) -> bool {
    &&& binds.len() == 5 * traces.len()
    &&& forall|i: int|
        0 <= i < traces.len() ==> {
            &&& (#[trigger] binds[5 * i]) matches BindValue::Text(s) && s@ == traces[i].trace_id@
            &&& binds[5 * i + 1] == BindValue::TimestampNs(traces[i].start_time)
            &&& binds[5 * i + 2] == BindValue::TimestampNs(traces[i].end_time)
            &&& binds[5 * i + 3] == BindValue::OptBigInt(traces[i].duration_ns)
            &&& binds[5 * i + 4] == BindValue::Count(traces[i].span_count)
        }
}

/// Whether a bind list carries exactly the given span rows, field by
/// field in placeholder order.
pub open spec fn span_binds_ok(binds: Seq<BindValue>, spans: Seq<WriteableSpan>) -> bool {
    &&& binds.len() == 12 * spans.len()
    &&& forall|i: int|
        0 <= i < spans.len() ==> {
            &&& (#[trigger] binds[12 * i]) matches BindValue::Text(s) && s@ == spans[i].span_id@
            &&& binds[12 * i + 1] matches BindValue::Text(s) && s@ == spans[i].trace_id@
            &&& binds[12 * i + 2] matches BindValue::OptText(o) && opt_view(o) == opt_view(
                spans[i].parent_span_id,
            )
            &&& binds[12 * i + 3] matches BindValue::Text(s) && s@ == spans[i].operation_name@
            &&& binds[12 * i + 4] == BindValue::TimestampNs(spans[i].start_time)
            &&& binds[12 * i + 5] == BindValue::TimestampNs(spans[i].end_time)
            &&& binds[12 * i + 6] == BindValue::BigInt(spans[i].duration_ns)
            &&& binds[12 * i + 7] == BindValue::Int(spans[i].status_code)
            &&& binds[12 * i + 8] matches BindValue::OptText(o) && opt_view(o) == opt_view(
                spans[i].status_message,
            )
            &&& binds[12 * i + 9] == BindValue::Kind(spans[i].span_kind)
            &&& binds[12 * i + 10] matches BindValue::OptText(o) && opt_view(o) == opt_view(
                spans[i].instrumentation_library,
            )
            &&& binds[12 * i + 11] matches BindValue::OptText(o) && opt_view(o) == opt_view(
                spans[i].service_name,
            )
        }
}

/// Whether a bind list carries exactly the given span attribute rows.
pub open spec fn span_attr_binds_ok(
    binds: Seq<BindValue>,
    attrs: Seq<WriteableSpanAttribute>,
) -> bool {
    &&& binds.len() == 3 * attrs.len()
    &&& forall|i: int|
        0 <= i < attrs.len() ==> {
            &&& (#[trigger] binds[3 * i]) matches BindValue::Text(s) && s@ == attrs[i].span_id@
            &&& binds[3 * i + 1] matches BindValue::Text(s) && s@ == attrs[i].key@
            &&& binds[3 * i + 2] matches BindValue::Text(s) && s@ == attrs[i].value@
        }
}

/// Whether a bind list carries exactly the given log rows.
pub open spec fn log_binds_ok(binds: Seq<BindValue>, logs: Seq<WriteableLog>) -> bool {
    &&& binds.len() == 10 * logs.len()
    &&& forall|i: int|
        0 <= i < logs.len() ==> {
            &&& (#[trigger] binds[10 * i]) matches BindValue::Text(s) && s@ == logs[i].log_id@
            &&& binds[10 * i + 1] matches BindValue::OptText(o) && opt_view(o) == opt_view(
                logs[i].trace_id,
            )
            &&& binds[10 * i + 2] matches BindValue::OptText(o) && opt_view(o) == opt_view(
                logs[i].span_id,
            )
            &&& binds[10 * i + 3] == BindValue::TimestampNs(logs[i].timestamp)
            &&& binds[10 * i + 4] == BindValue::OptTimestampNs(logs[i].observed_timestamp)
            &&& binds[10 * i + 5] == BindValue::Int(logs[i].severity_number)
            &&& binds[10 * i + 6] matches BindValue::OptText(o) && opt_view(o) == opt_view(
                logs[i].severity_text,
            )
            &&& binds[10 * i + 7] matches BindValue::OptText(o) && opt_view(o) == opt_view(
                logs[i].body,
            )
            &&& binds[10 * i + 8] matches BindValue::OptText(o) && opt_view(o) == opt_view(
                logs[i].instrumentation_library,
            )
            &&& binds[10 * i + 9] matches BindValue::OptText(o) && opt_view(o) == opt_view(
                logs[i].service_name,
            )
        }
}

fn clone_opt(o: &Option<String>) -> (r: Option<String>)
    ensures
        r == *o,
{
    match o {
        Some(s) => Some(s.clone()),
        None => None,
    }
}

/// Builds the bulk trace upsert for the given aggregate rows, or
/// nothing for an empty set.
#[verifier::loop_isolation(false)]
pub fn insert_traces(traces: &Vec<WriteableTrace>) -> (r: Option<Statement>)
    requires
        traces@.len() * 5 + 1 <= u64::MAX,
    ensures
        match r {
            None => traces@.len() == 0,
            Some(st) => {
                &&& traces@.len() > 0
                &&& st.sql@ == trace_insert_sql(traces@.len() as nat)
                &&& trace_binds_ok(st.binds@, traces@)
            },
        },
{
    if traces.len() == 0 {
        return None;
    }
    let mut sql = String::from_str(
        "INSERT INTO trace (id, started_at, ended_at, duration_ns, span_count) VALUES ",
    );
    push_values_sql(&mut sql, traces.len(), 5);
    sql.append(
        " ON CONFLICT (id) DO UPDATE SET started_at = LEAST(trace.started_at, EXCLUDED.started_at), ended_at = GREATEST(trace.ended_at, EXCLUDED.ended_at), duration_ns = (EXTRACT(EPOCH FROM GREATEST(trace.ended_at, EXCLUDED.ended_at) - LEAST(trace.started_at, EXCLUDED.started_at)) * 1000000000)::BIGINT, span_count = trace.span_count + EXCLUDED.span_count",
    );
    let mut binds: Vec<BindValue> = Vec::new();
    let mut i: usize = 0;
    while i < traces.len()
        invariant
            i <= traces@.len(),
            binds@.len() == 5 * i,
            forall|j: int|
                0 <= j < i ==> {
                    &&& (#[trigger] binds@[5 * j]) matches BindValue::Text(s) && s@
                        == traces@[j].trace_id@
                    &&& binds@[5 * j + 1] == BindValue::TimestampNs(traces@[j].start_time)
                    &&& binds@[5 * j + 2] == BindValue::TimestampNs(traces@[j].end_time)
                    &&& binds@[5 * j + 3] == BindValue::OptBigInt(traces@[j].duration_ns)
                    &&& binds@[5 * j + 4] == BindValue::Count(traces@[j].span_count)
                },
        decreases traces@.len() - i,
    {
        binds.push(BindValue::Text(traces[i].trace_id.clone()));
        binds.push(BindValue::TimestampNs(traces[i].start_time));
        binds.push(BindValue::TimestampNs(traces[i].end_time));
        binds.push(BindValue::OptBigInt(traces[i].duration_ns));
        binds.push(BindValue::Count(traces[i].span_count));
        i = i + 1;
    }
    Some(Statement { sql, binds })
}

/// Builds the bulk span insert for the given rows, or nothing for an
/// empty set.
#[verifier::loop_isolation(false)]
pub fn insert_spans(spans: &Vec<WriteableSpan>) -> (r: Option<Statement>)
    requires
        spans@.len() * 12 + 1 <= u64::MAX,
    ensures
        match r {
            None => spans@.len() == 0,
            Some(st) => {
                &&& spans@.len() > 0
                &&& st.sql@ == span_insert_sql(spans@.len() as nat)
                &&& span_binds_ok(st.binds@, spans@)
            },
        },
{
    if spans.len() == 0 {
        return None;
    }
    let mut sql = String::from_str(
        "INSERT INTO span (id, trace_id, parent_span_id, operation_name, started_at, ended_at, duration_ns, status_code, status_message, kind, instrumentation_library, service_name) VALUES ",
    );
    push_values_sql(&mut sql, spans.len(), 12);
    sql.append(" ON CONFLICT (id) DO NOTHING");
    let mut binds: Vec<BindValue> = Vec::new();
    let mut i: usize = 0;
    while i < spans.len()
        invariant
            i <= spans@.len(),
            binds@.len() == 12 * i,
            forall|j: int|
                0 <= j < i ==> {
                    &&& (#[trigger] binds@[12 * j]) matches BindValue::Text(s) && s@
                        == spans@[j].span_id@
                    &&& binds@[12 * j + 1] matches BindValue::Text(s) && s@ == spans@[j].trace_id@
                    &&& binds@[12 * j + 2] matches BindValue::OptText(o) && opt_view(o) == opt_view(
                        spans@[j].parent_span_id,
                    )
                    &&& binds@[12 * j + 3] matches BindValue::Text(s) && s@
                        == spans@[j].operation_name@
                    &&& binds@[12 * j + 4] == BindValue::TimestampNs(spans@[j].start_time)
                    &&& binds@[12 * j + 5] == BindValue::TimestampNs(spans@[j].end_time)
                    &&& binds@[12 * j + 6] == BindValue::BigInt(spans@[j].duration_ns)
                    &&& binds@[12 * j + 7] == BindValue::Int(spans@[j].status_code)
                    &&& binds@[12 * j + 8] matches BindValue::OptText(o) && opt_view(o) == opt_view(
                        spans@[j].status_message,
                    )
                    &&& binds@[12 * j + 9] == BindValue::Kind(spans@[j].span_kind)
                    &&& binds@[12 * j + 10] matches BindValue::OptText(o) && opt_view(o)
                        == opt_view(spans@[j].instrumentation_library)
                    &&& binds@[12 * j + 11] matches BindValue::OptText(o) && opt_view(o)
                        == opt_view(spans@[j].service_name)
                },
        decreases spans@.len() - i,
    {
        binds.push(BindValue::Text(spans[i].span_id.clone()));
        binds.push(BindValue::Text(spans[i].trace_id.clone()));
        binds.push(BindValue::OptText(clone_opt(&spans[i].parent_span_id)));
        binds.push(BindValue::Text(spans[i].operation_name.clone()));
        binds.push(BindValue::TimestampNs(spans[i].start_time));
        binds.push(BindValue::TimestampNs(spans[i].end_time));
        binds.push(BindValue::BigInt(spans[i].duration_ns));
        binds.push(BindValue::Int(spans[i].status_code));
        binds.push(BindValue::OptText(clone_opt(&spans[i].status_message)));
        binds.push(BindValue::Kind(spans[i].span_kind));
        binds.push(BindValue::OptText(clone_opt(&spans[i].instrumentation_library)));
        binds.push(BindValue::OptText(clone_opt(&spans[i].service_name)));
        i = i + 1;
    }
    Some(Statement { sql, binds })
}

/// Builds the bulk span attribute upsert for the given rows, or
/// nothing for an empty set.
#[verifier::loop_isolation(false)]
pub fn insert_span_attributes(attrs: &Vec<WriteableSpanAttribute>) -> (r: Option<Statement>)
    requires
        attrs@.len() * 3 + 1 <= u64::MAX,
    ensures
        match r {
            None => attrs@.len() == 0,
            Some(st) => {
                &&& attrs@.len() > 0
                &&& st.sql@ == span_attribute_insert_sql(attrs@.len() as nat)
                &&& span_attr_binds_ok(st.binds@, attrs@)
            },
        },
{
    if attrs.len() == 0 {
        return None;
    }
    let mut sql = String::from_str("INSERT INTO span_attribute (span_id, key, value) VALUES ");
    push_values_sql(&mut sql, attrs.len(), 3);
    sql.append(" ON CONFLICT (span_id, key) DO UPDATE SET value = EXCLUDED.value");
    let mut binds: Vec<BindValue> = Vec::new();
    let mut i: usize = 0;
    while i < attrs.len()
        invariant
            i <= attrs@.len(),
            binds@.len() == 3 * i,
            forall|j: int|
                0 <= j < i ==> {
                    &&& (#[trigger] binds@[3 * j]) matches BindValue::Text(s) && s@
                        == attrs@[j].span_id@
                    &&& binds@[3 * j + 1] matches BindValue::Text(s) && s@ == attrs@[j].key@
                    &&& binds@[3 * j + 2] matches BindValue::Text(s) && s@ == attrs@[j].value@
                },
        decreases attrs@.len() - i,
    {
        binds.push(BindValue::Text(attrs[i].span_id.clone()));
        binds.push(BindValue::Text(attrs[i].key.clone()));
        binds.push(BindValue::Text(attrs[i].value.clone()));
        i = i + 1;
    }
    Some(Statement { sql, binds })
}

/// Builds the bulk log insert for the given rows, or nothing for an
/// empty set.
#[verifier::loop_isolation(false)]
pub fn insert_logs(logs: &Vec<WriteableLog>) -> (r: Option<Statement>)
    requires
        logs@.len() * 10 + 1 <= u64::MAX,
    ensures
        match r {
            None => logs@.len() == 0,
            Some(st) => {
                &&& logs@.len() > 0
                &&& st.sql@ == log_insert_sql(logs@.len() as nat)
                &&& log_binds_ok(st.binds@, logs@)
            },
        },
{
    if logs.len() == 0 {
        return None;
    }
    let mut sql = String::from_str(
        "INSERT INTO log (id, trace_id, span_id, timestamp, observed_timestamp, severity_number, severity_text, body, instrumentation_library, service_name) VALUES ",
    );
    push_values_sql(&mut sql, logs.len(), 10);
    let mut binds: Vec<BindValue> = Vec::new();
    let mut i: usize = 0;
    while i < logs.len()
        invariant
            i <= logs@.len(),
            binds@.len() == 10 * i,
            forall|j: int|
                0 <= j < i ==> {
                    &&& (#[trigger] binds@[10 * j]) matches BindValue::Text(s) && s@
                        == logs@[j].log_id@
                    &&& binds@[10 * j + 1] matches BindValue::OptText(o) && opt_view(o) == opt_view(
                        logs@[j].trace_id,
                    )
                    &&& binds@[10 * j + 2] matches BindValue::OptText(o) && opt_view(o) == opt_view(
                        logs@[j].span_id,
                    )
                    &&& binds@[10 * j + 3] == BindValue::TimestampNs(logs@[j].timestamp)
                    &&& binds@[10 * j + 4] == BindValue::OptTimestampNs(
                        logs@[j].observed_timestamp,
                    )
                    &&& binds@[10 * j + 5] == BindValue::Int(logs@[j].severity_number)
                    &&& binds@[10 * j + 6] matches BindValue::OptText(o) && opt_view(o) == opt_view(
                        logs@[j].severity_text,
                    )
                    &&& binds@[10 * j + 7] matches BindValue::OptText(o) && opt_view(o) == opt_view(
                        logs@[j].body,
                    )
                    &&& binds@[10 * j + 8] matches BindValue::OptText(o) && opt_view(o) == opt_view(
                        logs@[j].instrumentation_library,
                    )
                    &&& binds@[10 * j + 9] matches BindValue::OptText(o) && opt_view(o) == opt_view(
                        logs@[j].service_name,
                    )
                },
        decreases logs@.len() - i,
    {
        binds.push(BindValue::Text(logs[i].log_id.clone()));
        binds.push(BindValue::OptText(clone_opt(&logs[i].trace_id)));
        binds.push(BindValue::OptText(clone_opt(&logs[i].span_id)));
        binds.push(BindValue::TimestampNs(logs[i].timestamp));
        binds.push(BindValue::OptTimestampNs(logs[i].observed_timestamp));
        binds.push(BindValue::Int(logs[i].severity_number));
        binds.push(BindValue::OptText(clone_opt(&logs[i].severity_text)));
        binds.push(BindValue::OptText(clone_opt(&logs[i].body)));
        binds.push(BindValue::OptText(clone_opt(&logs[i].instrumentation_library)));
        binds.push(BindValue::OptText(clone_opt(&logs[i].service_name)));
        i = i + 1;
    }
    Some(Statement { sql, binds })
}

/// Builds the bulk log attribute upsert for the given rows, or
/// nothing for an empty set.
#[verifier::loop_isolation(false)]
pub fn insert_log_attributes(attrs: &Vec<WriteableLogAttribute>) -> (r: Option<Statement>)
    requires
        attrs@.len() * 3 + 1 <= u64::MAX,
    ensures
        match r {
            None => attrs@.len() == 0,
            Some(st) => {
                &&& attrs@.len() > 0
                &&& st.sql@ == log_attribute_insert_sql(attrs@.len() as nat)
                &&& log_attr_binds_ok(st.binds@, attrs@)
            },
        },
{
    if attrs.len() == 0 {
        return None;
    }
    let mut sql = String::from_str("INSERT INTO log_attribute (log_id, key, value) VALUES ");
    push_values_sql(&mut sql, attrs.len(), 3);
    sql.append(" ON CONFLICT (log_id, key) DO UPDATE SET value = EXCLUDED.value");
    let mut binds: Vec<BindValue> = Vec::new();
    let mut i: usize = 0;
    while i < attrs.len()
        invariant
            i <= attrs@.len(),
            binds@.len() == 3 * i,
            forall|j: int|
                0 <= j < i ==> {
                    &&& (#[trigger] binds@[3 * j]) matches BindValue::Text(s) && s@
                        == attrs@[j].log_id@
                    &&& binds@[3 * j + 1] matches BindValue::Text(s) && s@ == attrs@[j].key@
                    &&& binds@[3 * j + 2] matches BindValue::Text(s) && s@ == attrs@[j].value@
                },
        decreases attrs@.len() - i,
    {
        binds.push(BindValue::Text(attrs[i].log_id.clone()));
        binds.push(BindValue::Text(attrs[i].key.clone()));
        binds.push(BindValue::Text(attrs[i].value.clone()));
        i = i + 1;
    }
    Some(Statement { sql, binds })
}

/// Whether a bind list carries exactly the given log attribute rows.
pub open spec fn log_attr_binds_ok(
    binds: Seq<BindValue>,
    attrs: Seq<WriteableLogAttribute>,
) -> bool {
    &&& binds.len() == 3 * attrs.len()
    &&& forall|i: int|
        0 <= i < attrs.len() ==> {
            &&& (#[trigger] binds[3 * i]) matches BindValue::Text(s) && s@ == attrs[i].log_id@
            &&& binds[3 * i + 1] matches BindValue::Text(s) && s@ == attrs[i].key@
            &&& binds[3 * i + 2] matches BindValue::Text(s) && s@ == attrs[i].value@
        }
}

} // verus!
