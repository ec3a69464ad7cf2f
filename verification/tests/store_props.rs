use otelstore::flatten::{flatten_spans_and_attrs, WriteableSpan, WriteableSpanAttribute, WriteableTrace};
use otelstore::model::{DbSpanKind, ResourceSpans, ScopeSpans, Span, TracesRequest};
use otelstore::store::{apply_span_attribute_rows, apply_span_rows, apply_trace_rows};

fn trace_row(id: &str, start: u64, end: u64, count: usize) -> WriteableTrace {
    WriteableTrace {
        trace_id: String::from(id),
        start_time: start,
        end_time: end,
        duration_ns: Some((end - start) as i64),
        span_count: count,
    }
}

fn span_row(id: &str, op: &str) -> WriteableSpan {
    WriteableSpan {
        span_id: String::from(id),
        trace_id: String::from("t"),
        parent_span_id: None,
        operation_name: String::from(op),
        start_time: 1,
        end_time: 2,
        duration_ns: 1,
        status_code: 0,
        status_message: None,
        span_kind: DbSpanKind::Internal,
        instrumentation_library: None,
        service_name: None,
    }
}

fn attr_row(span_id: &str, key: &str, value: &str) -> WriteableSpanAttribute {
    WriteableSpanAttribute {
        span_id: String::from(span_id),
        key: String::from(key),
        value: String::from(value),
    }
}

fn find_trace<'a>(store: &'a [WriteableTrace], id: &str) -> &'a WriteableTrace {
    store.iter().find(|t| t.trace_id == id).unwrap()
}

#[test]
fn same_span_twice_keeps_first_core_fields_and_newest_attributes() {
    let mut spans: Vec<WriteableSpan> = Vec::new();
    let mut attrs: Vec<WriteableSpanAttribute> = Vec::new();

    let batch1 = vec![span_row("s1", "first-op")];
    let attrs1 = vec![attr_row("s1", "env", "staging"), attr_row("s1", "zone", "a")];
    apply_span_rows(&mut spans, &batch1);
    apply_span_attribute_rows(&mut attrs, &attrs1);

    // The second batch carries the same span id with different fields
    // and a corrected attribute value.
    let batch2 = vec![span_row("s1", "second-op")];
    let attrs2 = vec![attr_row("s1", "env", "prod")];
    apply_span_rows(&mut spans, &batch2);
    apply_span_attribute_rows(&mut attrs, &attrs2);

    assert_eq!(spans.len(), 1);
    assert_eq!(spans[0].operation_name, "first-op");

    assert_eq!(attrs.len(), 2);
    let env = attrs.iter().find(|a| a.key == "env").unwrap();
    assert_eq!(env.value, "prod");
    let zone = attrs.iter().find(|a| a.key == "zone").unwrap();
    assert_eq!(zone.value, "a");
}

#[test]
fn disjoint_batches_widen_one_trace_in_any_order() {
    let a = vec![trace_row("tt", 1000, 2000, 2), trace_row("only-a", 5, 6, 1)];
    let b = vec![trace_row("tt", 500, 1500, 3), trace_row("only-b", 7, 9, 1)];

    let mut s1: Vec<WriteableTrace> = Vec::new();
    apply_trace_rows(&mut s1, &a);
    apply_trace_rows(&mut s1, &b);

    let mut s2: Vec<WriteableTrace> = Vec::new();
    apply_trace_rows(&mut s2, &b);
    apply_trace_rows(&mut s2, &a);

    assert_eq!(s1.len(), 3);
    assert_eq!(s2.len(), 3);

    for id in ["tt", "only-a", "only-b"] {
        let r1 = find_trace(&s1, id);
        let r2 = find_trace(&s2, id);
        assert_eq!(r1.start_time, r2.start_time);
        assert_eq!(r1.end_time, r2.end_time);
        assert_eq!(r1.duration_ns, r2.duration_ns);
        assert_eq!(r1.span_count, r2.span_count);
    }

    let merged = find_trace(&s1, "tt");
    assert_eq!(merged.start_time, 500);
    assert_eq!(merged.end_time, 2000);
    assert_eq!(merged.duration_ns, Some(1500));
    assert_eq!(merged.span_count, 5);
}

#[test]
fn widening_never_narrows_bounds() {
    let mut store: Vec<WriteableTrace> = Vec::new();
    apply_trace_rows(&mut store, &vec![trace_row("t", 100, 900, 1)]);
    // A later batch strictly inside the stored bounds leaves them alone.
    apply_trace_rows(&mut store, &vec![trace_row("t", 400, 500, 1)]);
    assert_eq!(store.len(), 1);
    assert_eq!(store[0].start_time, 100);
    assert_eq!(store[0].end_time, 900);
    assert_eq!(store[0].duration_ns, Some(800));
    assert_eq!(store[0].span_count, 2);
}

#[test]
fn rejected_batch_writes_nothing() {
    let bad = Span {
        trace_id: vec![1u8; 15],
        span_id: vec![2u8; 8],
        parent_span_id: Vec::new(),
        name: String::from("op"),
        kind: 0,
        start_time_unix_nano: 1,
        end_time_unix_nano: 2,
        attributes: Vec::new(),
        status: None,
    };
    let req = TracesRequest {
        resource_spans: vec![ResourceSpans {
            resource: None,
            scope_spans: vec![ScopeSpans { scope: None, spans: vec![bad] }],
        }],
    };

    let mut traces: Vec<WriteableTrace> = Vec::new();
    let mut spans: Vec<WriteableSpan> = Vec::new();
    let mut attrs: Vec<WriteableSpanAttribute> = Vec::new();
    match flatten_spans_and_attrs(&req) {
        Ok((t, s, a)) => {
            apply_trace_rows(&mut traces, &t);
            apply_span_rows(&mut spans, &s);
            apply_span_attribute_rows(&mut attrs, &a);
        },
        Err(_) => {},
    }
    assert!(traces.is_empty());
    assert!(spans.is_empty());
    assert!(attrs.is_empty());
}
