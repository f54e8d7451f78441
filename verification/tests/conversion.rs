use wasi_otel::error::Error;
use wasi_otel::exporter::WasiExporter;
use wasi_otel::logs::{to_wasi_log_record, OtelAnyValue, OtelLogRecord, OtelLogTraceContext};
use wasi_otel::metrics::{
    aggregation_to_wasi, sum_to_wasi, MetricData, MetricNumber, OtelAggregation,
    OtelMetricDataPoint, OtelNumber, OtelSum, OtelTemporality, Temporality,
};
use wasi_otel::propagation::{extract_trace_context, TraceContextPropagator, WasiPropagator};
use wasi_otel::severity::Severity;
use wasi_otel::anyvalue::AnyValue;
use wasi_otel::tracing::{
    span_context_from_wasi, span_context_round_trip, span_context_to_wasi, span_to_wasi, OtelEvent, OtelSpanContext,
    OtelSpanData, OtelSpanKind, OtelStatus, SpanKind, Status,
};
use wasi_otel::types::{
    attrs_to_wasi, value_to_wasi, Datetime, EpochOffset, OtelArray, OtelInstrumentationScope,
    OtelKeyValue, OtelResource, OtelValue, Value,
};

fn at(seconds: u64, nanoseconds: u32) -> EpochOffset {
    EpochOffset {
        before_epoch: false,
        seconds,
        nanoseconds,
    }
}

fn sample_context() -> OtelSpanContext {
    OtelSpanContext {
        trace_id: 0x0123456789abcdef0123456789abcdefu128,
        span_id: 0xf00ddeadbeef1234u64,
        sampled: true,
        is_remote: false,
        trace_state: String::from("vendor=value,other=more"),
    }
}

#[test]
fn timestamp_conversion_is_exact_and_rejects_pre_epoch() {
    let converted = Datetime::from_epoch_offset(at(1700000000, 123456789)).unwrap();
    assert_eq!(converted.seconds, 1700000000);
    assert_eq!(converted.nanoseconds, 123456789);
    // The nanosecond offset reconstructs exactly.
    assert_eq!(
        converted.seconds as u128 * 1_000_000_000 + converted.nanoseconds as u128,
        1700000000u128 * 1_000_000_000 + 123456789
    );

    let early = EpochOffset {
        before_epoch: true,
        seconds: 1,
        nanoseconds: 0,
    };
    assert_eq!(
        Datetime::from_epoch_offset(early).unwrap_err(),
        Error::TimeBeforeEpoch
    );
}

#[test]
fn severity_mapping_is_total_and_injective() {
    let mut seen = [false; 25];
    for n in 1u8..=24 {
        let level = Severity::from_number(n).expect("every number in range names a level");
        let back = level.number();
        assert_eq!(back, n);
        assert!(!seen[n as usize], "two levels shared number {}", n);
        seen[n as usize] = true;
    }
    assert!(Severity::from_number(0).is_none());
    assert!(Severity::from_number(25).is_none());
}

#[test]
fn span_context_round_trips() {
    let original = sample_context();
    let wasi = span_context_to_wasi(sample_context());
    assert_eq!(wasi.trace_id, "0123456789abcdef0123456789abcdef");
    assert_eq!(wasi.span_id, "f00ddeadbeef1234");
    assert_eq!(
        wasi.trace_state,
        vec![
            (String::from("vendor"), String::from("value")),
            (String::from("other"), String::from("more"))
        ]
    );
    let back = span_context_from_wasi(&wasi);
    assert_eq!(back.trace_id, original.trace_id);
    assert_eq!(back.span_id, original.span_id);
    assert_eq!(back.sampled, original.sampled);
    assert_eq!(back.is_remote, original.is_remote);
    assert_eq!(back.trace_state, original.trace_state);
}

#[test]
fn malformed_trace_state_segment_is_dropped() {
    let mut ctx = sample_context();
    ctx.trace_state = String::from("good=1,malformed,als=o");
    let wasi = span_context_to_wasi(ctx);
    assert_eq!(
        wasi.trace_state,
        vec![
            (String::from("good"), String::from("1")),
            (String::from("als"), String::from("o"))
        ]
    );
}

#[test]
fn unparseable_id_degrades_to_the_invalid_id() {
    let mut wasi = span_context_to_wasi(sample_context());
    wasi.trace_id = String::from("not-hex!");
    wasi.span_id = String::from("");
    let back = span_context_from_wasi(&wasi);
    assert_eq!(back.trace_id, 0);
    assert_eq!(back.span_id, 0);
}

#[test]
fn strict_extraction_reports_which_id_is_bad() {
    let good = span_context_to_wasi(sample_context());
    let extracted = extract_trace_context(&good).unwrap();
    assert_eq!(extracted.trace_id, sample_context().trace_id);
    assert_eq!(extracted.span_id, sample_context().span_id);
    assert!(extracted.sampled);

    let mut bad_trace = span_context_to_wasi(sample_context());
    bad_trace.trace_id = String::from("xyz");
    assert_eq!(
        extract_trace_context(&bad_trace).unwrap_err(),
        Error::InvalidTraceId
    );

    let mut bad_span = span_context_to_wasi(sample_context());
    bad_span.span_id = String::from("12345678901234567");
    assert_eq!(
        extract_trace_context(&bad_span).unwrap_err(),
        Error::InvalidSpanId
    );
}

#[test]
fn graceful_propagator_never_fails() {
    let propagator = TraceContextPropagator::new();
    let mut wasi = span_context_to_wasi(sample_context());
    wasi.trace_id = String::from("zz");
    let back = propagator.extract(&wasi);
    assert_eq!(back.trace_id, 0);
    assert_eq!(back.span_id, sample_context().span_id);
}

#[test]
fn unsupported_value_kind_is_rejected() {
    assert_eq!(
        value_to_wasi(OtelValue::Other).unwrap_err(),
        Error::UnsupportedValueKind
    );
    assert_eq!(
        value_to_wasi(OtelValue::Array(OtelArray::Other)).unwrap_err(),
        Error::UnsupportedValueKind
    );
    let attrs = vec![
        OtelKeyValue {
            key: String::from("ok"),
            value: OtelValue::Bool(true),
        },
        OtelKeyValue {
            key: String::from("bad"),
            value: OtelValue::Other,
        },
    ];
    assert_eq!(attrs_to_wasi(attrs).unwrap_err(), Error::UnsupportedValueKind);
}

fn sample_span() -> OtelSpanData {
    OtelSpanData {
        span_context: sample_context(),
        parent_span_id: 0x00000000000000abu64,
        span_kind: OtelSpanKind::Server,
        name: String::from("handle-request"),
        start_time: at(100, 5),
        end_time: at(101, 6),
        attributes: vec![OtelKeyValue {
            key: String::from("http.method"),
            value: OtelValue::String(String::from("GET")),
        }],
        events: vec![OtelEvent {
            name: String::from("first-byte"),
            time: at(100, 500),
            attributes: vec![],
        }],
        links: vec![],
        status: OtelStatus::Error(String::from("boom")),
        instrumentation_scope: OtelInstrumentationScope {
            name: String::from("test-lib"),
            version: Some(String::from("1.2.3")),
            schema_url: None,
            attributes: vec![],
        },
        dropped_attributes: 1,
        dropped_events: 2,
        dropped_links: 3,
    }
}

#[test]
fn span_conversion_renders_ids_and_keeps_fields() {
    let wasi = span_to_wasi(sample_span()).unwrap();
    assert_eq!(wasi.span_context.trace_id, "0123456789abcdef0123456789abcdef");
    assert_eq!(wasi.parent_span_id, "00000000000000ab");
    assert_eq!(wasi.span_kind, SpanKind::Server);
    assert_eq!(wasi.name, "handle-request");
    assert_eq!(wasi.start_time, Datetime { seconds: 100, nanoseconds: 5 });
    assert_eq!(wasi.end_time, Datetime { seconds: 101, nanoseconds: 6 });
    assert_eq!(wasi.attributes.len(), 1);
    assert_eq!(wasi.attributes[0].key, "http.method");
    match &wasi.attributes[0].value {
        Value::String(s) => assert_eq!(s, "GET"),
        other => panic!("wrong payload {:?}", other),
    }
    assert_eq!(wasi.events.len(), 1);
    assert_eq!(wasi.events[0].name, "first-byte");
    match wasi.status {
        Status::Error(d) => assert_eq!(d, "boom"),
        other => panic!("wrong status {:?}", other),
    }
    assert_eq!(wasi.instrumentation_scope.name, "test-lib");
    assert_eq!(wasi.dropped_attributes, 1);
    assert_eq!(wasi.dropped_events, 2);
    assert_eq!(wasi.dropped_links, 3);
}

#[test]
fn span_with_pre_epoch_event_is_rejected() {
    let mut span = sample_span();
    span.events[0].time.before_epoch = true;
    assert_eq!(span_to_wasi(span).unwrap_err(), Error::TimeBeforeEpoch);
    let mut span = sample_span();
    span.attributes[0].value = OtelValue::Other;
    assert_eq!(span_to_wasi(span).unwrap_err(), Error::UnsupportedValueKind);
}

#[test]
fn batch_export_stops_at_the_first_bad_span() {
    let exporter = WasiExporter::new();
    let good = sample_span();
    let mut bad = sample_span();
    bad.start_time.before_epoch = true;
    let out = exporter.export(vec![sample_span(), good]).unwrap();
    assert_eq!(out.len(), 2);
    assert_eq!(
        exporter.export(vec![sample_span(), bad]).unwrap_err(),
        Error::TimeBeforeEpoch
    );
}

#[test]
fn log_record_conversion_keeps_options_and_correlation() {
    let record = OtelLogRecord {
        event_name: Some(String::from("request.done")),
        timestamp: Some(at(7, 8)),
        observed_timestamp: None,
        severity: Some(Severity::Warn2),
        severity_text: Some(String::from("WARN2")),
        body: Some(OtelAnyValue::Known(AnyValue::Text(String::from("done")))),
        attributes: vec![(
            String::from("k"),
            OtelAnyValue::Known(AnyValue::Int(3)),
        )],
        trace_context: Some(OtelLogTraceContext {
            trace_id: 0xabcu128,
            span_id: 0x12u64,
            sampled: Some(true),
        }),
    };
    let scope = OtelInstrumentationScope {
        name: String::from("log-lib"),
        version: None,
        schema_url: None,
        attributes: vec![],
    };
    let resource = Some(OtelResource {
        attributes: vec![],
        schema_url: Some(String::from("https://example.test/schema")),
    });
    let wasi = to_wasi_log_record(record, scope, resource).unwrap();
    assert_eq!(wasi.event_name.as_deref(), Some("request.done"));
    assert_eq!(wasi.timestamp, Some(Datetime { seconds: 7, nanoseconds: 8 }));
    assert_eq!(wasi.observed_timestamp, None);
    assert_eq!(wasi.severity, Some(Severity::Warn2));
    assert_eq!(wasi.body.as_deref(), Some("\"done\""));
    assert_eq!(wasi.attributes.len(), 1);
    assert_eq!(wasi.attributes[0].key, "k");
    assert_eq!(wasi.attributes[0].value, "3");
    assert_eq!(
        wasi.trace_id.as_deref(),
        Some("00000000000000000000000000000abc")
    );
    assert_eq!(wasi.span_id.as_deref(), Some("0000000000000012"));
    assert!(wasi.trace_flags.unwrap().sampled);
    assert_eq!(
        wasi.resource.unwrap().schema_url.as_deref(),
        Some("https://example.test/schema")
    );
}

#[test]
fn log_record_without_context_has_no_correlation_fields() {
    let record = OtelLogRecord {
        event_name: None,
        timestamp: None,
        observed_timestamp: None,
        severity: None,
        severity_text: None,
        body: None,
        attributes: vec![],
        trace_context: None,
    };
    let scope = OtelInstrumentationScope {
        name: String::from("log-lib"),
        version: None,
        schema_url: None,
        attributes: vec![],
    };
    let wasi = to_wasi_log_record(record, scope, None).unwrap();
    assert!(wasi.trace_id.is_none());
    assert!(wasi.span_id.is_none());
    assert!(wasi.trace_flags.is_none());
    assert!(wasi.body.is_none());
    assert!(wasi.resource.is_none());
}

fn u64_sum() -> OtelSum {
    OtelSum {
        data_points: vec![
            OtelMetricDataPoint {
                attributes: vec![
                    OtelKeyValue {
                        key: String::from("host"),
                        value: OtelValue::String(String::from("a")),
                    },
                    OtelKeyValue {
                        key: String::from("port"),
                        value: OtelValue::I64(80),
                    },
                ],
                value: OtelNumber::U64(10),
                exemplars: vec![],
            },
            OtelMetricDataPoint {
                attributes: vec![],
                value: OtelNumber::U64(0),
                exemplars: vec![],
            },
        ],
        start_time: at(1, 0),
        time: at(2, 0),
        temporality: OtelTemporality::Delta,
        is_monotonic: true,
    }
}

#[test]
fn sum_conversion_keeps_width_monotonicity_and_order() {
    let wasi = sum_to_wasi(u64_sum()).unwrap();
    assert!(wasi.is_monotonic);
    assert_eq!(wasi.temporality, Temporality::Delta);
    assert_eq!(wasi.data_points.len(), 2);
    assert_eq!(wasi.data_points[0].value, MetricNumber::U64(10));
    assert_eq!(wasi.data_points[1].value, MetricNumber::U64(0));
    assert_eq!(wasi.data_points[0].attributes[0].key, "host");
    assert_eq!(wasi.data_points[0].attributes[1].key, "port");
}

#[test]
fn unknown_temporality_is_carried_as_cumulative() {
    let mut sum = u64_sum();
    sum.temporality = OtelTemporality::Other;
    let wasi = sum_to_wasi(sum).unwrap();
    assert_eq!(wasi.temporality, Temporality::Cumulative);
}

#[test]
fn unsupported_aggregation_is_rejected_loudly() {
    match aggregation_to_wasi(OtelAggregation::Unsupported) {
        Err(Error::UnsupportedAggregation) => {}
        other => panic!("expected UnsupportedAggregation, got {:?}", other),
    }
    // A supported shape never yields that error.
    match aggregation_to_wasi(OtelAggregation::Sum(u64_sum())).unwrap() {
        MetricData::Sum(s) => assert!(s.is_monotonic),
        other => panic!("wrong shape {:?}", other),
    }
}

#[test]
fn round_trip_helper_preserves_identity() {
    let back = span_context_round_trip(sample_context());
    assert_eq!(back.trace_id, sample_context().trace_id);
    assert_eq!(back.span_id, sample_context().span_id);
    assert!(back.sampled);
    assert!(!back.is_remote);
}
