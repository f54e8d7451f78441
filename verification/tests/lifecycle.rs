use wasi_otel::error::Error;
use wasi_otel::exporter::{reader_temporality, InstrumentKind, WasiMetricExporter,
    WasiMetricExporterBuilder};
use wasi_otel::logs::{OtelLogRecord};
use wasi_otel::metrics::Temporality;
use wasi_otel::processor::{WasiLogProcessor, WasiProcessor, WasiSpanProcessor};
use wasi_otel::provider::TracerProvider;
use wasi_otel::severity::Severity;
use wasi_otel::span::Span;
use wasi_otel::tracing::{OtelSpanContext, OtelSpanData, OtelSpanKind, OtelStatus};
use wasi_otel::types::{EpochOffset, OtelInstrumentationScope};

fn ctx() -> OtelSpanContext {
    OtelSpanContext {
        trace_id: 1,
        span_id: 2,
        sampled: false,
        is_remote: false,
        trace_state: String::new(),
    }
}

fn tiny_span() -> OtelSpanData {
    OtelSpanData {
        span_context: ctx(),
        parent_span_id: 0,
        span_kind: OtelSpanKind::Internal,
        name: String::from("op"),
        start_time: EpochOffset { before_epoch: false, seconds: 0, nanoseconds: 0 },
        end_time: EpochOffset { before_epoch: false, seconds: 1, nanoseconds: 0 },
        attributes: vec![],
        events: vec![],
        links: vec![],
        status: OtelStatus::Unset,
        instrumentation_scope: OtelInstrumentationScope {
            name: String::from("lib"),
            version: None,
            schema_url: None,
            attributes: vec![],
        },
        dropped_attributes: 0,
        dropped_events: 0,
        dropped_links: 0,
    }
}

fn empty_record() -> OtelLogRecord {
    OtelLogRecord {
        event_name: None,
        timestamp: None,
        observed_timestamp: None,
        severity: Some(Severity::Info),
        severity_text: None,
        body: None,
        attributes: vec![],
        trace_context: None,
    }
}

fn empty_scope() -> OtelInstrumentationScope {
    OtelInstrumentationScope {
        name: String::from("lib"),
        version: None,
        schema_url: None,
        attributes: vec![],
    }
}

#[test]
fn span_processor_shutdown_is_one_way() {
    let mut p = WasiSpanProcessor::new();
    // Active: events produce boundary values, a flush succeeds.
    assert!(p.on_start(ctx()).is_some());
    assert!(p.on_end(tiny_span()).is_some());
    assert!(p.force_flush().is_ok());
    // First shutdown succeeds; the second reports the checked error.
    assert!(p.shutdown().is_ok());
    assert_eq!(p.shutdown().unwrap_err(), Error::AlreadyShutdown);
    // After shutdown nothing reaches the boundary.
    assert!(p.on_start(ctx()).is_none());
    assert!(p.on_end(tiny_span()).is_none());
    assert_eq!(p.force_flush().unwrap_err(), Error::AlreadyShutdown);
}

#[test]
fn processor_shutdown_is_one_way() {
    let mut p = WasiProcessor::new();
    assert!(p.on_end(tiny_span()).is_some());
    assert!(p.shutdown().is_ok());
    assert_eq!(p.shutdown().unwrap_err(), Error::AlreadyShutdown);
    assert!(p.on_start(ctx()).is_none());
    assert!(p.on_end(tiny_span()).is_none());
}

#[test]
fn log_processor_shutdown_is_one_way() {
    let mut p = WasiLogProcessor::new();
    assert!(p.emit(empty_record(), empty_scope(), None).is_some());
    assert!(p.force_flush().is_ok());
    assert!(p.shutdown().is_ok());
    assert_eq!(p.shutdown().unwrap_err(), Error::AlreadyShutdown);
    assert!(p.emit(empty_record(), empty_scope(), None).is_none());
    assert_eq!(p.force_flush().unwrap_err(), Error::AlreadyShutdown);
}

#[test]
fn emitted_record_carries_the_severity() {
    let p = WasiLogProcessor::new();
    let emitted = p.emit(empty_record(), empty_scope(), None).unwrap().unwrap();
    assert_eq!(emitted.severity, Some(Severity::Info));
    assert_eq!(
        emitted.instrumentation_scope.as_ref().unwrap().name,
        "lib"
    );
}

#[test]
fn metric_exporter_builder_configures_the_drop_export() {
    let default_exporter = WasiMetricExporterBuilder::new().build();
    assert!(default_exporter.export_on_drop);
    let manual = WasiMetricExporter::builder()
        .with_manual_export_only()
        .build();
    assert!(!manual.export_on_drop);
}

#[test]
fn metric_exporter_shutdown_is_one_way() {
    let mut e = WasiMetricExporterBuilder::new().build();
    assert!(e.force_flush().is_ok());
    assert!(e.shutdown().is_ok());
    assert_eq!(e.shutdown().unwrap_err(), Error::AlreadyShutdown);
    assert_eq!(e.force_flush().unwrap_err(), Error::AlreadyShutdown);
    assert_eq!(
        e.temporality(InstrumentKind::Counter),
        Temporality::Cumulative
    );
}

#[test]
fn observable_instruments_are_a_capability_violation() {
    assert_eq!(
        reader_temporality(InstrumentKind::Counter).unwrap(),
        Temporality::Cumulative
    );
    assert_eq!(
        reader_temporality(InstrumentKind::Histogram).unwrap(),
        Temporality::Cumulative
    );
    assert_eq!(
        reader_temporality(InstrumentKind::ObservableCounter).unwrap_err(),
        Error::UnsupportedInstrumentKind
    );
    assert_eq!(
        reader_temporality(InstrumentKind::ObservableGauge).unwrap_err(),
        Error::UnsupportedInstrumentKind
    );
    assert_eq!(
        reader_temporality(InstrumentKind::ObservableUpDownCounter).unwrap_err(),
        Error::UnsupportedInstrumentKind
    );
}

#[test]
fn span_closes_exactly_once() {
    let provider = TracerProvider::builder().build();
    let tracer = provider.library_tracer(String::from("lib"));
    assert_eq!(tracer.new_trace_id(), 0);
    assert_eq!(tracer.new_span_id(), 0);
    let mut span: Span = tracer.build_with_context(String::from("op"), ctx());
    assert_eq!(span.context().trace_id, 1);
    assert!(span.end());
    assert!(!span.end());
}

#[test]
fn error_messages_name_the_failure() {
    assert_eq!(Error::AlreadyShutdown.message(), "already shutdown");
    assert_eq!(Error::TimeBeforeEpoch.message(), "timestamp predates the epoch");
    assert_eq!(Error::UnsupportedValueKind.message(), "unsupported value kind");
    assert_eq!(Error::UnsupportedAggregation.message(), "unsupported aggregation");
    assert_eq!(
        Error::UnsupportedInstrumentKind.message(),
        "unsupported instrument kind"
    );
    assert_eq!(Error::InvalidTraceId.message(), "invalid trace id");
    assert_eq!(Error::InvalidSpanId.message(), "invalid span id");
}
