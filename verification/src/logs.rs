use vstd::prelude::*;
use crate::anyvalue::{any_value_to_json, deep_any, json_of_any, AnyValue};
use crate::error::Error;
use crate::hex::hex_of;
use crate::severity::Severity;
use crate::tracing::{hex_string, TraceFlags};
use crate::types::{attrs_supported, wasi_attrs_of, resource_to_wasi, scope_to_wasi, Datetime,
    EpochOffset, InstrumentationScope, OtelInstrumentationScope, OtelResource, Resource};

verus! {

/// A structured body or attribute value as the SDK hands it over: either
/// a shape of the closed set, or something beyond it, which this layer
/// rejects loudly.
#[derive(Debug)]
pub enum OtelAnyValue {
    Known(AnyValue),
    Unsupported,
}

/// One log attribute as the boundary carries it: the value crosses as its
/// JSON text.
#[derive(Debug)]
pub struct LogRecordAttribute {
    pub key: String,
    pub value: String,
}

/// One log record as the boundary carries it. Optional fields stay
/// optional: nothing is defaulted. The body and attribute values cross as
/// the JSON encoding of the structured value.
#[derive(Debug)]
pub struct LogRecord {
    pub event_name: Option<String>,
    pub timestamp: Option<Datetime>,
    pub observed_timestamp: Option<Datetime>,
    pub severity: Option<Severity>,
    pub severity_text: Option<String>,
    pub body: Option<String>,
    pub attributes: Vec<LogRecordAttribute>,
    pub instrumentation_scope: Option<InstrumentationScope>,
    pub resource: Option<Resource>,
    pub trace_id: Option<String>,
    pub span_id: Option<String>,
    pub trace_flags: Option<TraceFlags>,
}

/// The trace correlation a record may carry.
#[derive(Debug, Clone, Copy, PartialEq, Eq, Structural)]
pub struct OtelLogTraceContext {
    pub trace_id: u128,
    pub span_id: u64,
    pub sampled: Option<bool>,
}

/// One log record as the SDK hands it over.
#[derive(Debug)]
pub struct OtelLogRecord {
    pub event_name: Option<String>,
    pub timestamp: Option<EpochOffset>,
    pub observed_timestamp: Option<EpochOffset>,
    pub severity: Option<Severity>,
    pub severity_text: Option<String>,
    pub body: Option<OtelAnyValue>,
    pub attributes: Vec<(String, OtelAnyValue)>,
    pub trace_context: Option<OtelLogTraceContext>,
}

pub open spec fn opt_dt(o: Option<EpochOffset>) -> Option<Datetime> {
    match o {
        Some(t) => Some(crate::tracing::dt_of(t)),
        None => None,
    }
}

/// Both optional timestamps are absent or at/after the epoch.
pub open spec fn log_times_ok(r: OtelLogRecord) -> bool {
    (match r.timestamp {
        Some(t) => !t.before_epoch,
        None => true,
    }) && (match r.observed_timestamp {
        Some(t) => !t.before_epoch,
        None => true,
    })
}

/// The body and every attribute value are in the closed supported set.
pub open spec fn log_values_ok(r: OtelLogRecord) -> bool {
    (match r.body {
        Some(b) => b is Known,
        None => true,
    }) && (forall|k: int| 0 <= k < r.attributes@.len() ==> (#[trigger] r.attributes@[k]).1 is Known)
}

/// Converts one log record together with its scope and optional
/// resource. Timestamps that predate the epoch are rejected first, an
/// unsupported body, attribute or scope/resource payload next; nothing
/// else fails. Optional fields map `Some` to `Some` and `None` to
/// `None`; the correlation ids render as lowercase hex; an absent trace
/// context yields `None` for all three correlation fields.
#[verifier::loop_isolation(false)]
#[verifier::rlimit(60)]
pub fn to_wasi_log_record(
    record: OtelLogRecord,
    scope: OtelInstrumentationScope,
    resource: Option<OtelResource>,
) -> (r: Result<LogRecord, Error>)
    ensures
        r is Ok <==> (log_times_ok(record) && log_values_ok(record) && attrs_supported(
            scope.attributes@,
        ) && (match resource {
            Some(res) => attrs_supported(res.attributes@),
            None => true,
        })),
        !log_times_ok(record) ==> r == Err::<LogRecord, Error>(Error::TimeBeforeEpoch),
        log_times_ok(record) && !(log_values_ok(record) && attrs_supported(scope.attributes@) && (
        match resource {
            Some(res) => attrs_supported(res.attributes@),
            None => true,
        })) ==> r == Err::<LogRecord, Error>(Error::UnsupportedValueKind),
        r is Ok ==> {
            let w = r->Ok_0;
            w.event_name == record.event_name && w.timestamp == opt_dt(record.timestamp)
                && w.observed_timestamp == opt_dt(record.observed_timestamp) && w.severity
                == record.severity && w.severity_text == record.severity_text && (match record.body {
                Some(b) => w.body is Some && (w.body->0)@ == json_of_any(deep_any(b->Known_0)),
                None => w.body is None,
            }) && w.attributes@.len() == record.attributes@.len() && (forall|k: int|
                0 <= k < record.attributes@.len() ==> ((#[trigger] w.attributes@[k]).key
                    == record.attributes@[k].0 && w.attributes@[k].value@ == json_of_any(
                    deep_any(record.attributes@[k].1->Known_0),
                ))) && w.instrumentation_scope is Some && {
                let ws = w.instrumentation_scope->0;
                ws.name == scope.name && ws.version == scope.version && ws.schema_url
                    == scope.schema_url && ws.attributes@ == wasi_attrs_of(scope.attributes@)
            } && (match resource {
                Some(res) => w.resource is Some && (w.resource->0).schema_url == res.schema_url && (
                w.resource->0).attributes@ == wasi_attrs_of(res.attributes@),
                None => w.resource is None,
            }) && (match record.trace_context {
                Some(tc) => w.trace_id is Some && (w.trace_id->0)@ == hex_of(tc.trace_id as nat, 32)
                    && w.span_id is Some && (w.span_id->0)@ == hex_of(tc.span_id as nat, 16) && (
                match tc.sampled {
                    Some(b) => w.trace_flags == Some(TraceFlags { sampled: b }),
                    None => w.trace_flags is None,
                }),
                None => w.trace_id is None && w.span_id is None && w.trace_flags is None,
            })
        },
{
    let OtelLogRecord {
        event_name,
        timestamp,
        observed_timestamp,
        severity,
        severity_text,
        body,
        attributes,
        trace_context,
    } = record;
    // First: reject a timestamp before the epoch.
    let ts = match timestamp {
        Some(t) => {
            if t.before_epoch {
                return Err(Error::TimeBeforeEpoch);
            }
            Some(Datetime { seconds: t.seconds, nanoseconds: t.nanoseconds })
        },
        None => None,
    };
    let ots = match observed_timestamp {
        Some(t) => {
            if t.before_epoch {
                return Err(Error::TimeBeforeEpoch);
            }
            Some(Datetime { seconds: t.seconds, nanoseconds: t.nanoseconds })
        },
        None => None,
    };
    // Then: the body, the attribute values, the scope and the resource.
    let body_json = match body {
        Some(OtelAnyValue::Known(v)) => Some(any_value_to_json(&v)),
        Some(OtelAnyValue::Unsupported) => {
            return Err(Error::UnsupportedValueKind);
        },
        None => None,
    };
    let ghost attrs0 = attributes@;
    let mut rest = attributes;
    let mut out_attrs: Vec<LogRecordAttribute> = Vec::new();
    let ghost k: int = 0;
    while rest.len() > 0
        invariant
            0 <= k <= attrs0.len(),
            rest@ == attrs0.skip(k),
            out_attrs@.len() == k,
            forall|p: int| 0 <= p < k ==> (#[trigger] attrs0[p]).1 is Known,
            forall|p: int|
                0 <= p < k ==> ((#[trigger] out_attrs@[p]).key == attrs0[p].0
                    && out_attrs@[p].value@ == json_of_any(deep_any(attrs0[p].1->Known_0))),
        decreases rest@.len(),
    {
        let kv = rest.remove(0);
        proof {
            assert(kv == attrs0[k]);
        }
        let (key, value) = kv;
        match value {
            OtelAnyValue::Known(v) => {
                let json = any_value_to_json(&v);
                out_attrs.push(LogRecordAttribute { key, value: json });
            },
            OtelAnyValue::Unsupported => {
                return Err(Error::UnsupportedValueKind);
            },
        }
        proof {
            assert(rest@ =~= attrs0.skip(k + 1));
            k = k + 1;
        }
    }
    let wasi_scope = match scope_to_wasi(scope) {
        Ok(sc) => sc,
        Err(e) => {
            return Err(e);
        },
    };
    let wasi_resource = match resource {
        Some(res) => match resource_to_wasi(res) {
            Ok(wr) => Some(wr),
            Err(e) => {
                return Err(e);
            },
        },
        None => None,
    };
    let (trace_id, span_id, trace_flags) = match trace_context {
        Some(tc) => {
            let tid = hex_string(tc.trace_id, 32);
            let sid = hex_string(tc.span_id as u128, 16);
            let flags = match tc.sampled {
                Some(b) => Some(TraceFlags { sampled: b }),
                None => None,
            };
            (Some(tid), Some(sid), flags)
        },
        None => (None, None, None),
    };
    Ok(
        LogRecord {
            event_name,
            timestamp: ts,
            observed_timestamp: ots,
            severity,
            severity_text,
            body: body_json,
            attributes: out_attrs,
            instrumentation_scope: Some(wasi_scope),
            resource: wasi_resource,
            trace_id,
            span_id,
            trace_flags,
        },
    )
}

} // verus!
