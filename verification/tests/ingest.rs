use otelstore::codec::{hex_decode, hex_encode, i64_to_dec, parse_u64_dec, u64_to_dec};
use otelstore::coerce::any_value_to_string;
use otelstore::flatten::{
    aggregate_traces, extract_instrumentation_library, extract_service_name,
    flatten_logs_and_attrs, flatten_spans, flatten_spans_and_attrs,
};
use otelstore::model::{
    AnyValue, ArrayValue, ErrorKind, InstrumentationScope, KeyValue, KvListValue, LogRecord,
    LogsRequest, Resource, ResourceLogs, ResourceSpans, ScopeLogs, ScopeSpans, Span, Status,
    StatusCode, TracesRequest,
};

fn kv(key: &str, value: AnyValue) -> KeyValue {
    KeyValue {
        key: String::from(key),
        value: Some(value),
    }
}

fn span(trace_id: Vec<u8>, span_id: Vec<u8>, start: u64, end: u64) -> Span {
    Span {
        trace_id,
        span_id,
        parent_span_id: Vec::new(),
        name: String::from("op"),
        kind: 2,
        start_time_unix_nano: start,
        end_time_unix_nano: end,
        attributes: Vec::new(),
        status: None,
    }
}

fn request_of(spans: Vec<Span>, resource: Option<Resource>) -> TracesRequest {
    TracesRequest {
        resource_spans: vec![ResourceSpans {
            resource,
            scope_spans: vec![ScopeSpans {
                scope: Some(InstrumentationScope {
                    name: Some(String::from("lib")),
                    version: None,
                }),
                spans,
            }],
        }],
    }
}

#[test]
fn hex_encode_known_bytes() {
    let bytes = vec![0x00u8, 0x0f, 0xab, 0xcd, 0xff];
    assert_eq!(hex_encode(&bytes), "000fabcdff");
}

#[test]
fn hex_round_trip() {
    let bytes = vec![0xdeu8, 0xad, 0xbe, 0xef, 0x01, 0x23];
    let text = hex_encode(&bytes);
    assert_eq!(hex_decode(&text), Some(bytes));
}

#[test]
fn hex_decode_rejects_bad_input() {
    assert_eq!(hex_decode(&String::from("abc")), None);
    assert_eq!(hex_decode(&String::from("zz")), None);
    assert_eq!(hex_decode(&String::from("AB")), None);
}

#[test]
fn decimal_rendering() {
    assert_eq!(u64_to_dec(0), "0");
    assert_eq!(u64_to_dec(905), "905");
    assert_eq!(u64_to_dec(u64::MAX), "18446744073709551615");
    assert_eq!(i64_to_dec(-42), "-42");
    assert_eq!(i64_to_dec(i64::MIN), "-9223372036854775808");
}

#[test]
fn decimal_parsing() {
    assert_eq!(parse_u64_dec(&String::from("0")), Some(0));
    assert_eq!(parse_u64_dec(&String::from("1500")), Some(1500));
    assert_eq!(parse_u64_dec(&String::from("18446744073709551615")), Some(u64::MAX));
    assert_eq!(parse_u64_dec(&String::from("18446744073709551616")), None);
    assert_eq!(parse_u64_dec(&String::from("")), None);
    assert_eq!(parse_u64_dec(&String::from("12a")), None);
    assert_eq!(parse_u64_dec(&String::from("-5")), None);
}

#[test]
fn coercion_scalars() {
    assert_eq!(any_value_to_string(&Some(AnyValue::StringValue(String::from("hi")))), "hi");
    assert_eq!(any_value_to_string(&Some(AnyValue::BoolValue(true))), "true");
    assert_eq!(any_value_to_string(&Some(AnyValue::BoolValue(false))), "false");
    assert_eq!(any_value_to_string(&Some(AnyValue::IntValue(-7))), "-7");
    assert_eq!(any_value_to_string(&Some(AnyValue::DoubleValue(String::from("2.5")))), "2.5");
    assert_eq!(any_value_to_string(&Some(AnyValue::BytesValue(vec![0xab, 0x01]))), "ab01");
    assert_eq!(any_value_to_string(&None), "");
}

#[test]
fn coercion_containers() {
    let arr = AnyValue::ArrayValue(ArrayValue {
        values: vec![AnyValue::IntValue(1), AnyValue::StringValue(String::from("x"))],
    });
    assert_eq!(any_value_to_string(&Some(arr)), "[1, x]");
    let map = AnyValue::KvlistValue(KvListValue {
        values: vec![
            kv("a", AnyValue::IntValue(1)),
            kv("b", AnyValue::BoolValue(false)),
        ],
    });
    assert_eq!(any_value_to_string(&Some(map)), "{a:1, b:false}");
}

#[test]
fn span_id_helpers() {
    let s = span(vec![1u8; 16], vec![2u8; 8], 10, 5);
    assert_eq!(s.trace_id_hex().unwrap(), "01".repeat(16));
    assert_eq!(s.span_id_hex().unwrap(), "02".repeat(8));
    assert_eq!(s.parent_span_id_hex(), None);
    // Malformed input carries the negative duration through.
    assert_eq!(s.duration_ns(), -5);
    assert_eq!(s.status_code(), 0);
}

#[test]
fn span_status_fields() {
    let mut s = span(vec![1u8; 16], vec![2u8; 8], 0, 1);
    s.status = Some(Status {
        code: Some(StatusCode::Error),
        message: Some(String::from("boom")),
    });
    assert_eq!(s.status_code(), 2);
    assert_eq!(s.status_message().unwrap(), "boom");
    s.status = Some(Status {
        code: Some(StatusCode::Okay),
        message: Some(String::from("")),
    });
    assert_eq!(s.status_code(), 1);
    assert_eq!(s.status_message(), None);
}

#[test]
fn two_spans_one_trace_aggregate() {
    let tid: Vec<u8> = (0..16).map(|i| 0xab_u8.wrapping_add(i)).collect();
    let spans = vec![
        span(tid.clone(), vec![1u8; 8], 1000, 2000),
        span(tid.clone(), vec![2u8; 8], 1500, 3000),
    ];
    let req = request_of(spans, None);
    let (traces, spans_out, _attrs) = flatten_spans_and_attrs(&req).unwrap();
    assert_eq!(spans_out.len(), 2);
    assert_eq!(traces.len(), 1);
    assert_eq!(traces[0].trace_id, hex_encode(&tid));
    assert_eq!(traces[0].start_time, 1000);
    assert_eq!(traces[0].end_time, 3000);
    assert_eq!(traces[0].duration_ns, Some(2000));
    assert_eq!(traces[0].span_count, 2);
}

#[test]
fn wrong_id_length_rejects_whole_batch() {
    let spans = vec![
        span(vec![1u8; 16], vec![1u8; 8], 0, 1),
        span(vec![2u8; 15], vec![2u8; 8], 0, 1),
    ];
    let req = request_of(spans, None);
    assert_eq!(flatten_spans_and_attrs(&req).unwrap_err(), ErrorKind::InvalidIdentifier);
    assert_eq!(flatten_spans(&req).unwrap_err(), ErrorKind::InvalidIdentifier);

    let bad_span_id = vec![span(vec![1u8; 16], vec![1u8; 7], 0, 1)];
    let req2 = request_of(bad_span_id, None);
    assert_eq!(flatten_spans_and_attrs(&req2).unwrap_err(), ErrorKind::InvalidIdentifier);
}

#[test]
fn resource_and_scope_names_attach_to_rows() {
    let resource = Resource {
        attributes: vec![
            kv("other", AnyValue::StringValue(String::from("zzz"))),
            kv("service.name", AnyValue::StringValue(String::from("checkout"))),
        ],
    };
    let req = request_of(vec![span(vec![1u8; 16], vec![1u8; 8], 0, 1)], Some(resource));
    let (_traces, spans_out, _attrs) = flatten_spans_and_attrs(&req).unwrap();
    assert_eq!(spans_out[0].service_name.as_deref(), Some("checkout"));
    assert_eq!(spans_out[0].instrumentation_library.as_deref(), Some("lib"));
}

#[test]
fn first_service_name_key_decides() {
    // The first occurrence of the key decides, even when it is not a string.
    let resource = Some(Resource {
        attributes: vec![
            kv("service.name", AnyValue::IntValue(7)),
            kv("service.name", AnyValue::StringValue(String::from("late"))),
        ],
    });
    assert_eq!(extract_service_name(&resource), None);
    assert_eq!(extract_service_name(&None), None);
}

#[test]
fn scope_name_resolution() {
    let ss = ScopeSpans {
        scope: None,
        spans: Vec::new(),
    };
    assert_eq!(extract_instrumentation_library(&ss), None);
}

#[test]
fn duplicate_attribute_keys_each_become_a_row() {
    let mut s = span(vec![1u8; 16], vec![9u8; 8], 0, 1);
    s.attributes = vec![
        kv("k", AnyValue::IntValue(1)),
        kv("k", AnyValue::IntValue(2)),
    ];
    let req = request_of(vec![s], None);
    let (_traces, _spans, attrs) = flatten_spans_and_attrs(&req).unwrap();
    assert_eq!(attrs.len(), 2);
    assert_eq!(attrs[0].key, "k");
    assert_eq!(attrs[0].value, "1");
    assert_eq!(attrs[1].key, "k");
    assert_eq!(attrs[1].value, "2");
    assert_eq!(attrs[0].span_id, "09".repeat(8));
}

#[test]
fn aggregate_does_not_depend_on_span_order() {
    let tid_a: Vec<u8> = vec![1u8; 16];
    let tid_b: Vec<u8> = vec![2u8; 16];
    let req = request_of(
        vec![
            span(tid_a.clone(), vec![1u8; 8], 100, 200),
            span(tid_b.clone(), vec![2u8; 8], 50, 60),
            span(tid_a.clone(), vec![3u8; 8], 10, 400),
        ],
        None,
    );
    let (_t, rows, _a) = flatten_spans_and_attrs(&req).unwrap();
    let mut shuffled = Vec::new();
    shuffled.push(clone_row(&rows[2]));
    shuffled.push(clone_row(&rows[0]));
    shuffled.push(clone_row(&rows[1]));
    let t1 = aggregate_traces(&rows);
    let t2 = aggregate_traces(&shuffled);
    assert_eq!(t1.len(), 2);
    assert_eq!(t2.len(), 2);
    for t in &t1 {
        let other = t2.iter().find(|o| o.trace_id == t.trace_id).unwrap();
        assert_eq!(other.start_time, t.start_time);
        assert_eq!(other.end_time, t.end_time);
        assert_eq!(other.duration_ns, t.duration_ns);
        assert_eq!(other.span_count, t.span_count);
    }
}

fn clone_row(r: &otelstore::flatten::WriteableSpan) -> otelstore::flatten::WriteableSpan {
    otelstore::flatten::WriteableSpan {
        span_id: r.span_id.clone(),
        trace_id: r.trace_id.clone(),
        parent_span_id: r.parent_span_id.clone(),
        operation_name: r.operation_name.clone(),
        start_time: r.start_time,
        end_time: r.end_time,
        duration_ns: r.duration_ns,
        status_code: r.status_code,
        status_message: r.status_message.clone(),
        span_kind: r.span_kind,
        instrumentation_library: r.instrumentation_library.clone(),
        service_name: r.service_name.clone(),
    }
}

#[test]
fn logs_flatten_with_fresh_ids() {
    let record = LogRecord {
        time_unix_nano: 123,
        observed_time_unix_nano: 0,
        severity_number: 9,
        severity_text: String::from("INFO"),
        body: Some(AnyValue::StringValue(String::from("hello"))),
        attributes: vec![kv("env", AnyValue::StringValue(String::from("prod")))],
        trace_id: vec![7u8; 16],
        span_id: vec![3u8; 7],
    };
    let req = LogsRequest {
        resource_logs: vec![ResourceLogs {
            resource: None,
            scope_logs: vec![ScopeLogs {
                scope: Some(InstrumentationScope {
                    name: Some(String::from("logger")),
                    version: None,
                }),
                log_records: vec![record],
            }],
        }],
    };
    let (logs, attrs) = flatten_logs_and_attrs(&req).unwrap();
    assert_eq!(logs.len(), 1);
    assert_eq!(logs[0].log_id.len(), 36);
    assert_eq!(logs[0].trace_id.as_deref(), Some(&"07".repeat(16)[..]));
    assert_eq!(logs[0].span_id, None);
    assert_eq!(logs[0].timestamp, 123);
    assert_eq!(logs[0].observed_timestamp, None);
    assert_eq!(logs[0].severity_number, 9);
    assert_eq!(logs[0].severity_text.as_deref(), Some("INFO"));
    assert_eq!(logs[0].body.as_deref(), Some("hello"));
    assert_eq!(logs[0].instrumentation_library.as_deref(), Some("logger"));
    assert_eq!(attrs.len(), 1);
    assert_eq!(attrs[0].log_id, logs[0].log_id);
    assert_eq!(attrs[0].key, "env");
    assert_eq!(attrs[0].value, "prod");
}
