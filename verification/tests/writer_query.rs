use otelstore::flatten::{
    WriteableLog, WriteableLogAttribute, WriteableSpan, WriteableSpanAttribute, WriteableTrace,
};
use otelstore::model::{DbSpanKind, ErrorKind};
use otelstore::query::{
    build_query, count_per_bucket, epoch_bucket_of, is_allowed_column, time_bin_to_sql, Aggregate,
    AggregateSource, AggregateType, Filter, QuerySpec, TimeBin, TimeBinQuery,
};
use otelstore::sqlgen::BindValue;
use otelstore::wire::{classify_content_type, WireFormat};
use otelstore::writer::{
    insert_log_attributes, insert_logs, insert_span_attributes, insert_spans, insert_traces,
};

fn trace_row(id: &str, start: u64, end: u64, count: usize) -> WriteableTrace {
    WriteableTrace {
        trace_id: String::from(id),
        start_time: start,
        end_time: end,
        duration_ns: Some((end - start) as i64),
        span_count: count,
    }
}

fn span_row(id: &str, tid: &str) -> WriteableSpan {
    WriteableSpan {
        span_id: String::from(id),
        trace_id: String::from(tid),
        parent_span_id: None,
        operation_name: String::from("op"),
        start_time: 1,
        end_time: 2,
        duration_ns: 1,
        status_code: 0,
        status_message: None,
        span_kind: DbSpanKind::Server,
        instrumentation_library: None,
        service_name: Some(String::from("svc")),
    }
}

#[test]
fn empty_row_sets_build_no_statement() {
    assert!(insert_traces(&Vec::new()).is_none());
    assert!(insert_spans(&Vec::new()).is_none());
    assert!(insert_span_attributes(&Vec::new()).is_none());
    assert!(insert_logs(&Vec::new()).is_none());
    assert!(insert_log_attributes(&Vec::new()).is_none());
}

#[test]
fn trace_upsert_statement_text_and_binds() {
    let rows = vec![trace_row("aa", 10, 20, 2), trace_row("bb", 5, 15, 1)];
    let st = insert_traces(&rows).unwrap();
    assert_eq!(
        st.sql,
        "INSERT INTO trace (id, started_at, ended_at, duration_ns, span_count) VALUES \
         ($1, $2, $3, $4, $5), ($6, $7, $8, $9, $10) \
         ON CONFLICT (id) DO UPDATE SET \
         started_at = LEAST(trace.started_at, EXCLUDED.started_at), \
         ended_at = GREATEST(trace.ended_at, EXCLUDED.ended_at), \
         duration_ns = (EXTRACT(EPOCH FROM GREATEST(trace.ended_at, EXCLUDED.ended_at) - \
         LEAST(trace.started_at, EXCLUDED.started_at)) * 1000000000)::BIGINT, \
         span_count = trace.span_count + EXCLUDED.span_count"
    );
    assert_eq!(st.binds.len(), 10);
    match &st.binds[0] {
        BindValue::Text(s) => assert_eq!(s, "aa"),
        other => panic!("unexpected bind: {:?}", bind_name(other)),
    }
    assert!(matches!(st.binds[1], BindValue::TimestampNs(10)));
    assert!(matches!(st.binds[2], BindValue::TimestampNs(20)));
    assert!(matches!(st.binds[3], BindValue::OptBigInt(Some(10))));
    assert!(matches!(st.binds[4], BindValue::Count(2)));
    match &st.binds[5] {
        BindValue::Text(s) => assert_eq!(s, "bb"),
        other => panic!("unexpected bind: {:?}", bind_name(other)),
    }
}

fn bind_name(b: &BindValue) -> &'static str {
    match b {
        BindValue::Text(_) => "Text",
        BindValue::OptText(_) => "OptText",
        BindValue::BigInt(_) => "BigInt",
        BindValue::OptBigInt(_) => "OptBigInt",
        BindValue::Int(_) => "Int",
        BindValue::TimestampNs(_) => "TimestampNs",
        BindValue::OptTimestampNs(_) => "OptTimestampNs",
        BindValue::Count(_) => "Count",
        BindValue::Kind(_) => "Kind",
    }
}

#[test]
fn span_insert_statement_text() {
    let rows = vec![span_row("s1", "t1")];
    let st = insert_spans(&rows).unwrap();
    assert_eq!(
        st.sql,
        "INSERT INTO span (id, trace_id, parent_span_id, operation_name, started_at, ended_at, \
         duration_ns, status_code, status_message, kind, instrumentation_library, service_name) \
         VALUES ($1, $2, $3, $4, $5, $6, $7, $8, $9, $10, $11, $12) ON CONFLICT (id) DO NOTHING"
    );
    assert_eq!(st.binds.len(), 12);
    assert!(matches!(st.binds[9], BindValue::Kind(DbSpanKind::Server)));
}

#[test]
fn attribute_upsert_statement_text() {
    let rows = vec![WriteableSpanAttribute {
        span_id: String::from("s1"),
        key: String::from("k"),
        value: String::from("v"),
    }];
    let st = insert_span_attributes(&rows).unwrap();
    assert_eq!(
        st.sql,
        "INSERT INTO span_attribute (span_id, key, value) VALUES ($1, $2, $3) \
         ON CONFLICT (span_id, key) DO UPDATE SET value = EXCLUDED.value"
    );
}

#[test]
fn log_statements_text() {
    let logs = vec![WriteableLog {
        log_id: String::from("id-1"),
        trace_id: None,
        span_id: None,
        timestamp: 9,
        observed_timestamp: Some(11),
        severity_number: 5,
        severity_text: None,
        body: Some(String::from("b")),
        instrumentation_library: None,
        service_name: None,
    }];
    let st = insert_logs(&logs).unwrap();
    assert_eq!(
        st.sql,
        "INSERT INTO log (id, trace_id, span_id, timestamp, observed_timestamp, severity_number, \
         severity_text, body, instrumentation_library, service_name) VALUES \
         ($1, $2, $3, $4, $5, $6, $7, $8, $9, $10)"
    );
    let attrs = vec![WriteableLogAttribute {
        log_id: String::from("id-1"),
        key: String::from("k"),
        value: String::from("v"),
    }];
    let st2 = insert_log_attributes(&attrs).unwrap();
    assert_eq!(
        st2.sql,
        "INSERT INTO log_attribute (log_id, key, value) VALUES ($1, $2, $3) \
         ON CONFLICT (log_id, key) DO UPDATE SET value = EXCLUDED.value"
    );
}

#[test]
fn whitelist_membership() {
    assert!(is_allowed_column(&String::from("duration_ns")));
    assert!(is_allowed_column(&String::from("service_name")));
    assert!(!is_allowed_column(&String::from("")));
    assert!(!is_allowed_column(&String::from("attributes")));
    assert!(!is_allowed_column(&String::from("\"; DROP TABLE span;--")));
}

#[test]
fn time_bin_fragment_text() {
    let frag = time_bin_to_sql(&TimeBinQuery { bin: TimeBin::Second, value: 30 });
    assert_eq!(
        frag,
        "DATE_BIN(INTERVAL '30 second', started_at, \
         '1970-01-01 00:00:00'::TIMESTAMPTZ) AS time_bin,"
    );
}

#[test]
fn count_query_with_default_bucket() {
    let spec = QuerySpec {
        aggregate: Aggregate {
            agg_type: AggregateType::Count,
            source: AggregateSource::SpanColumn,
        },
        filters: None,
        group: None,
        time_bin: None,
    };
    let st = build_query(&spec).unwrap();
    assert_eq!(
        st.sql,
        "SELECT DATE_BIN(INTERVAL '1 minute', started_at, \
         '1970-01-01 00:00:00'::TIMESTAMPTZ) AS time_bin,\n\
         COUNT(*)::DOUBLE PRECISION AS value\n\
         FROM span \n\
         GROUP BY time_bin\n\
         ORDER BY time_bin"
    );
    assert!(st.binds.is_empty());
}

#[test]
fn grouped_filtered_sum_query() {
    let spec = QuerySpec {
        aggregate: Aggregate {
            agg_type: AggregateType::Sum(String::from("duration_ns")),
            source: AggregateSource::SpanColumn,
        },
        filters: Some(vec![
            Filter { column: String::from("service_name"), value: String::from("checkout") },
            Filter { column: String::from("status_code"), value: String::from("2") },
        ]),
        group: Some(String::from("operation_name")),
        time_bin: Some(TimeBinQuery { bin: TimeBin::Hour, value: 2 }),
    };
    let st = build_query(&spec).unwrap();
    assert_eq!(
        st.sql,
        "SELECT DATE_BIN(INTERVAL '2 hour', started_at, \
         '1970-01-01 00:00:00'::TIMESTAMPTZ) AS time_bin,\n\
         operation_name AS group, \n\
         SUM(duration_ns)::DOUBLE PRECISION AS value\n\
         FROM span \n\
         WHERE service_name = $1 AND status_code = $2\n\
         GROUP BY time_bin, operation_name\n\
         ORDER BY time_bin, operation_name"
    );
    assert_eq!(st.binds.len(), 2);
    match (&st.binds[0], &st.binds[1]) {
        (BindValue::Text(a), BindValue::Text(b)) => {
            assert_eq!(a, "checkout");
            assert_eq!(b, "2");
        },
        _ => panic!("filter values must be bound as text"),
    }
}

#[test]
fn attribute_aggregate_binds_the_key() {
    let spec = QuerySpec {
        aggregate: Aggregate {
            agg_type: AggregateType::Avg(String::from("latency_ms")),
            source: AggregateSource::SpanAttribute,
        },
        filters: Some(vec![Filter {
            column: String::from("service_name"),
            value: String::from("api"),
        }]),
        group: None,
        time_bin: None,
    };
    let st = build_query(&spec).unwrap();
    assert_eq!(
        st.sql,
        "SELECT DATE_BIN(INTERVAL '1 minute', started_at, \
         '1970-01-01 00:00:00'::TIMESTAMPTZ) AS time_bin,\
         COALESCE(AVG((attributes ->> $1)::DOUBLE PRECISION), 0.0) AS value\n\
         FROM span \n\
         WHERE service_name = $2 AND attributes IS NOT NULL AND attributes ? $3 \
         AND jsonb_typeof(attributes -> $4) = 'number'\n\
         GROUP BY time_bin\n\
         ORDER BY time_bin"
    );
    assert_eq!(st.binds.len(), 4);
    match (&st.binds[0], &st.binds[1], &st.binds[2], &st.binds[3]) {
        (BindValue::Text(k1), BindValue::Text(v), BindValue::Text(k2), BindValue::Text(k3)) => {
            assert_eq!(k1, "latency_ms");
            assert_eq!(v, "api");
            assert_eq!(k2, "latency_ms");
            assert_eq!(k3, "latency_ms");
        },
        _ => panic!("attribute key and filter value must be bound as text"),
    }
}

#[test]
fn injection_attempts_are_rejected_before_any_sql() {
    let evil = String::from("\"; DROP TABLE span;--");
    let base = |agg: AggregateType, source: AggregateSource| QuerySpec {
        aggregate: Aggregate { agg_type: agg, source },
        filters: None,
        group: None,
        time_bin: None,
    };
    let mut by_group = base(AggregateType::Count, AggregateSource::SpanColumn);
    by_group.group = Some(evil.clone());
    assert_eq!(build_query(&by_group).unwrap_err(), ErrorKind::InvalidQuery);

    let mut by_filter = base(AggregateType::Count, AggregateSource::SpanColumn);
    by_filter.filters = Some(vec![Filter { column: evil.clone(), value: String::from("x") }]);
    assert_eq!(build_query(&by_filter).unwrap_err(), ErrorKind::InvalidQuery);

    let by_target = base(AggregateType::Sum(evil.clone()), AggregateSource::SpanColumn);
    assert_eq!(build_query(&by_target).unwrap_err(), ErrorKind::InvalidQuery);

    let empty_group = {
        let mut q = base(AggregateType::Count, AggregateSource::SpanColumn);
        q.group = Some(String::new());
        q
    };
    assert_eq!(build_query(&empty_group).unwrap_err(), ErrorKind::InvalidQuery);
}

#[test]
fn epoch_buckets_are_anchored_and_stable() {
    let minute = TimeBinQuery { bin: TimeBin::Minute, value: 1 };
    assert_eq!(epoch_bucket_of(0, &minute), 0);
    assert_eq!(epoch_bucket_of(59_999_999_999, &minute), 0);
    assert_eq!(epoch_bucket_of(60_000_000_000, &minute), 60_000_000_000);
    assert_eq!(epoch_bucket_of(119_999_999_999, &minute), 60_000_000_000);
    let two_days = TimeBinQuery { bin: TimeBin::Day, value: 2 };
    let two_days_ns: u64 = 2 * 86_400 * 1_000_000_000;
    assert_eq!(epoch_bucket_of(two_days_ns + 5, &two_days), two_days_ns);
}

#[test]
fn one_minute_count_of_same_minute_spans() {
    let minute = TimeBinQuery { bin: TimeBin::Minute, value: 1 };
    let starts = vec![60_000_000_001, 60_000_000_500, 119_999_999_999];
    let rows = count_per_bucket(&starts, &minute);
    assert_eq!(rows.len(), 1);
    assert_eq!(rows[0], (60_000_000_000, 3));
}

#[test]
fn bucket_counts_split_across_minutes() {
    let minute = TimeBinQuery { bin: TimeBin::Minute, value: 1 };
    let starts = vec![1, 2, 60_000_000_000, 3];
    let rows = count_per_bucket(&starts, &minute);
    assert_eq!(rows.len(), 2);
    assert!(rows.contains(&(0, 3)));
    assert!(rows.contains(&(60_000_000_000, 1)));
}

#[test]
fn content_type_classification() {
    assert_eq!(classify_content_type("application/x-protobuf"), WireFormat::Protobuf);
    assert_eq!(
        classify_content_type("application/protobuf; charset=utf-8"),
        WireFormat::Protobuf
    );
    assert_eq!(classify_content_type("application/json"), WireFormat::Json);
    assert_eq!(classify_content_type("text/plain"), WireFormat::Unsupported);
    assert_eq!(classify_content_type(""), WireFormat::Unsupported);
}
