use vstd::prelude::*;
use crate::error::Error;
use crate::hex::hex_of;
use crate::tracing::hex_string;
use crate::types::{attrs_supported, attrs_to_wasi, wasi_attrs_of, resource_to_wasi, scope_to_wasi,
    Datetime, EpochOffset, InstrumentationScope, KeyValue, OtelInstrumentationScope,
    OtelKeyValue, OtelResource, Resource};

verus! {

/// A measurement tagged by its numeric width and signedness; doubles
/// carry their bit pattern. Exactly one representation applies per
/// metric.
#[derive(Debug, Clone, Copy, PartialEq, Eq, Structural)]
pub enum MetricNumber {
    F64(u64),
    S64(i64),
    U64(u64),
}

/// The measurement as the SDK's numeric generics hand it over.
#[derive(Debug, Clone, Copy, PartialEq, Eq, Structural)]
pub enum OtelNumber {
    F64(u64),
    I64(i64),
    U64(u64),
}

pub open spec fn wasi_number_of(n: OtelNumber) -> MetricNumber {
    match n {
        OtelNumber::F64(bits) => MetricNumber::F64(bits),
        OtelNumber::I64(v) => MetricNumber::S64(v),
        OtelNumber::U64(v) => MetricNumber::U64(v),
    }
}

pub fn number_to_wasi(n: OtelNumber) -> (r: MetricNumber)
    ensures
        r == wasi_number_of(n),
{
    match n {
        OtelNumber::F64(bits) => MetricNumber::F64(bits),
        OtelNumber::I64(v) => MetricNumber::S64(v),
        OtelNumber::U64(v) => MetricNumber::U64(v),
    }
}

pub open spec fn opt_number_of(n: Option<OtelNumber>) -> Option<MetricNumber> {
    match n {
        Some(v) => Some(wasi_number_of(v)),
        None => None,
    }
}

/// Whether a reported value is a running total, a delta since the last
/// report, or the memory-optimized variant.
#[derive(Debug, Clone, Copy, PartialEq, Eq, Structural)]
pub enum Temporality {
    Cumulative,
    Delta,
    LowMemory,
}

/// The temporality as the SDK's open-ended enum hands it over.
#[derive(Debug, Clone, Copy, PartialEq, Eq, Structural)]
pub enum OtelTemporality {
    Cumulative,
    Delta,
    LowMemory,
    Other,
}

/// The deliberate policy for a temporality outside the known three: it
/// is carried as `Cumulative`.
pub open spec fn wasi_temporality_of(t: OtelTemporality) -> Temporality {
    match t {
        OtelTemporality::Delta => Temporality::Delta,
        OtelTemporality::LowMemory => Temporality::LowMemory,
        _ => Temporality::Cumulative,
    }
}

pub fn temporality_to_wasi(t: OtelTemporality) -> (r: Temporality)
    ensures
        r == wasi_temporality_of(t),
{
    match t {
        OtelTemporality::Delta => Temporality::Delta,
        OtelTemporality::LowMemory => Temporality::LowMemory,
        _ => Temporality::Cumulative,
    }
}

/// One sampled raw measurement kept beside an aggregation, correlated to
/// the trace that produced it; ids cross as lowercase hex, like a span
/// context's.
#[derive(Debug)]
pub struct Exemplar {
    pub filtered_attributes: Vec<KeyValue>,
    pub time: Datetime,
    pub value: MetricNumber,
    pub span_id: String,
    pub trace_id: String,
}

#[derive(Debug)]
pub struct OtelExemplar {
    pub filtered_attributes: Vec<OtelKeyValue>,
    pub time: EpochOffset,
    pub value: OtelNumber,
    pub span_id: u64,
    pub trace_id: u128,
}

pub open spec fn exemplar_ok(e: OtelExemplar) -> bool {
    !e.time.before_epoch && attrs_supported(e.filtered_attributes@)
}

pub open spec fn is_wasi_exemplar_of(w: Exemplar, e: OtelExemplar) -> bool {
    w.filtered_attributes@ == wasi_attrs_of(e.filtered_attributes@) && w.time
        == crate::tracing::dt_of(e.time) && w.value == wasi_number_of(e.value) && w.span_id@
        == hex_of(e.span_id as nat, 16) && w.trace_id@ == hex_of(e.trace_id as nat, 32)
}

pub fn exemplar_to_wasi(e: OtelExemplar) -> (r: Result<Exemplar, Error>)
    ensures
        r is Ok <==> exemplar_ok(e),
        e.time.before_epoch ==> r == Err::<Exemplar, Error>(Error::TimeBeforeEpoch),
        !e.time.before_epoch && !attrs_supported(e.filtered_attributes@) ==> r == Err::<
            Exemplar,
            Error,
        >(Error::UnsupportedValueKind),
        r is Ok ==> is_wasi_exemplar_of(r->Ok_0, e),
{
    let OtelExemplar { filtered_attributes, time, value, span_id, trace_id } = e;
    let dt = match crate::types::Datetime::from_epoch_offset(time) {
        Ok(d) => d,
        Err(err) => {
            return Err(err);
        },
    };
    let attrs = match attrs_to_wasi(filtered_attributes) {
        Ok(a) => a,
        Err(err) => {
            return Err(err);
        },
    };
    Ok(
        Exemplar {
            filtered_attributes: attrs,
            time: dt,
            value: number_to_wasi(value),
            span_id: hex_string(span_id as u128, 16),
            trace_id: hex_string(trace_id, 32),
        },
    )
}

pub open spec fn exemplars_ok(es: Seq<OtelExemplar>) -> bool {
    forall|k: int| 0 <= k < es.len() ==> exemplar_ok(#[trigger] es[k])
}

pub open spec fn are_wasi_exemplars_of(ws: Seq<Exemplar>, es: Seq<OtelExemplar>) -> bool {
    ws.len() == es.len() && forall|k: int|
        0 <= k < es.len() ==> is_wasi_exemplar_of(#[trigger] ws[k], es[k])
}

pub open spec fn exemplars_times_ok(es: Seq<OtelExemplar>) -> bool {
    forall|k: int| 0 <= k < es.len() ==> !(#[trigger] es[k]).time.before_epoch
}

pub open spec fn exemplars_values_ok(es: Seq<OtelExemplar>) -> bool {
    forall|k: int| 0 <= k < es.len() ==> attrs_supported((#[trigger] es[k]).filtered_attributes@)
}

#[verifier::loop_isolation(false)]
pub fn exemplars_to_wasi(es: Vec<OtelExemplar>) -> (r: Result<Vec<Exemplar>, Error>)
    ensures
        r is Ok <==> exemplars_ok(es@),
        r is Ok ==> are_wasi_exemplars_of((r->Ok_0)@, es@),
        exemplars_times_ok(es@) && r is Err ==> r->Err_0 == Error::UnsupportedValueKind,
        exemplars_values_ok(es@) && r is Err ==> r->Err_0 == Error::TimeBeforeEpoch,
        r is Err ==> (r->Err_0 == Error::TimeBeforeEpoch || r->Err_0
            == Error::UnsupportedValueKind),
{
    let ghost es0 = es@;
    let mut rest = es;
    let mut out: Vec<Exemplar> = Vec::new();
    let ghost k: int = 0;
    while rest.len() > 0
        invariant
            0 <= k <= es0.len(),
            rest@ == es0.skip(k),
            out@.len() == k,
            forall|p: int| 0 <= p < k ==> exemplar_ok(#[trigger] es0[p]),
            forall|p: int| 0 <= p < k ==> is_wasi_exemplar_of(#[trigger] out@[p], es0[p]),
        decreases rest@.len(),
    {
        let e = rest.remove(0);
        proof {
            assert(e == es0[k]);
        }
        match exemplar_to_wasi(e) {
            Ok(w) => {
                out.push(w);
            },
            Err(err) => {
                return Err(err);
            },
        }
        proof {
            assert(rest@ =~= es0.skip(k + 1));
            k = k + 1;
        }
    }
    Ok(out)
}

/// One gauge or sum sample: its attributes, the value, and any
/// exemplars.
#[derive(Debug)]
pub struct MetricDataPoint {
    pub attributes: Vec<KeyValue>,
    pub value: MetricNumber,
    pub exemplars: Vec<Exemplar>,
}

#[derive(Debug)]
pub struct OtelMetricDataPoint {
    pub attributes: Vec<OtelKeyValue>,
    pub value: OtelNumber,
    pub exemplars: Vec<OtelExemplar>,
}

pub open spec fn point_ok(p: OtelMetricDataPoint) -> bool {
    attrs_supported(p.attributes@) && exemplars_ok(p.exemplars@)
}

pub open spec fn point_times_ok(p: OtelMetricDataPoint) -> bool {
    exemplars_times_ok(p.exemplars@)
}

pub open spec fn point_values_ok(p: OtelMetricDataPoint) -> bool {
    attrs_supported(p.attributes@) && exemplars_values_ok(p.exemplars@)
}

pub open spec fn is_wasi_point_of(w: MetricDataPoint, p: OtelMetricDataPoint) -> bool {
    w.attributes@ == wasi_attrs_of(p.attributes@) && w.value == wasi_number_of(p.value)
        && are_wasi_exemplars_of(w.exemplars@, p.exemplars@)
}

pub fn point_to_wasi(p: OtelMetricDataPoint) -> (r: Result<MetricDataPoint, Error>)
    ensures
        r is Ok <==> point_ok(p),
        r is Ok ==> is_wasi_point_of(r->Ok_0, p),
        point_times_ok(p) && r is Err ==> r->Err_0 == Error::UnsupportedValueKind,
        point_values_ok(p) && r is Err ==> r->Err_0 == Error::TimeBeforeEpoch,
        r is Err ==> (r->Err_0 == Error::TimeBeforeEpoch || r->Err_0
            == Error::UnsupportedValueKind),
{
    let OtelMetricDataPoint { attributes, value, exemplars } = p;
    let attrs = match attrs_to_wasi(attributes) {
        Ok(a) => a,
        Err(err) => {
            return Err(err);
        },
    };
    let ex = match exemplars_to_wasi(exemplars) {
        Ok(x) => x,
        Err(err) => {
            return Err(err);
        },
    };
    Ok(MetricDataPoint { attributes: attrs, value: number_to_wasi(value), exemplars: ex })
}

pub open spec fn points_ok(ps: Seq<OtelMetricDataPoint>) -> bool {
    forall|k: int| 0 <= k < ps.len() ==> point_ok(#[trigger] ps[k])
}

pub open spec fn points_times_ok(ps: Seq<OtelMetricDataPoint>) -> bool {
    forall|k: int| 0 <= k < ps.len() ==> point_times_ok(#[trigger] ps[k])
}

pub open spec fn points_values_ok(ps: Seq<OtelMetricDataPoint>) -> bool {
    forall|k: int| 0 <= k < ps.len() ==> point_values_ok(#[trigger] ps[k])
}

pub open spec fn are_wasi_points_of(ws: Seq<MetricDataPoint>, ps: Seq<OtelMetricDataPoint>) -> bool {
    ws.len() == ps.len() && forall|k: int|
        0 <= k < ps.len() ==> is_wasi_point_of(#[trigger] ws[k], ps[k])
}

#[verifier::loop_isolation(false)]
pub fn points_to_wasi(ps: Vec<OtelMetricDataPoint>) -> (r: Result<Vec<MetricDataPoint>, Error>)
    ensures
        r is Ok <==> points_ok(ps@),
        r is Ok ==> are_wasi_points_of((r->Ok_0)@, ps@),
        points_times_ok(ps@) && r is Err ==> r->Err_0 == Error::UnsupportedValueKind,
        points_values_ok(ps@) && r is Err ==> r->Err_0 == Error::TimeBeforeEpoch,
        r is Err ==> (r->Err_0 == Error::TimeBeforeEpoch || r->Err_0
            == Error::UnsupportedValueKind),
{
    let ghost ps0 = ps@;
    let mut rest = ps;
    let mut out: Vec<MetricDataPoint> = Vec::new();
    let ghost k: int = 0;
    while rest.len() > 0
        invariant
            0 <= k <= ps0.len(),
            rest@ == ps0.skip(k),
            out@.len() == k,
            forall|p: int| 0 <= p < k ==> point_ok(#[trigger] ps0[p]),
            forall|p: int| 0 <= p < k ==> is_wasi_point_of(#[trigger] out@[p], ps0[p]),
        decreases rest@.len(),
    {
        let p = rest.remove(0);
        proof {
            assert(p == ps0[k]);
        }
        match point_to_wasi(p) {
            Ok(w) => {
                out.push(w);
            },
            Err(err) => {
                return Err(err);
            },
        }
        proof {
            assert(rest@ =~= ps0.skip(k + 1));
            k = k + 1;
        }
    }
    Ok(out)
}

/// The latest sampled values of an instrument.
#[derive(Debug)]
pub struct Gauge {
    pub data_points: Vec<MetricDataPoint>,
    pub start_time: Option<Datetime>,
    pub time: Datetime,
}

#[derive(Debug)]
pub struct OtelGauge {
    pub data_points: Vec<OtelMetricDataPoint>,
    pub start_time: Option<EpochOffset>,
    pub time: EpochOffset,
}

/// Accumulated totals, with the monotonic flag and the temporality.
#[derive(Debug)]
pub struct Sum {
    pub data_points: Vec<MetricDataPoint>,
    pub start_time: Datetime,
    pub time: Datetime,
    pub temporality: Temporality,
    pub is_monotonic: bool,
}

#[derive(Debug)]
pub struct OtelSum {
    pub data_points: Vec<OtelMetricDataPoint>,
    pub start_time: EpochOffset,
    pub time: EpochOffset,
    pub temporality: OtelTemporality,
    pub is_monotonic: bool,
}

/// One histogram sample: bucket counts index-aligned with the bounds.
#[derive(Debug)]
pub struct HistogramDataPoint {
    pub attributes: Vec<KeyValue>,
    pub count: u64,
    pub bounds: Vec<u64>,
    pub bucket_counts: Vec<u64>,
    pub min: Option<MetricNumber>,
    pub max: Option<MetricNumber>,
    pub sum: MetricNumber,
    pub exemplars: Vec<Exemplar>,
}

#[derive(Debug)]
pub struct OtelHistogramDataPoint {
    pub attributes: Vec<OtelKeyValue>,
    pub count: u64,
    pub bounds: Vec<u64>,
    pub bucket_counts: Vec<u64>,
    pub min: Option<OtelNumber>,
    pub max: Option<OtelNumber>,
    pub sum: OtelNumber,
    pub exemplars: Vec<OtelExemplar>,
}

pub open spec fn hist_point_ok(p: OtelHistogramDataPoint) -> bool {
    attrs_supported(p.attributes@) && exemplars_ok(p.exemplars@)
}

pub open spec fn hist_point_times_ok(p: OtelHistogramDataPoint) -> bool {
    exemplars_times_ok(p.exemplars@)
}

pub open spec fn hist_point_values_ok(p: OtelHistogramDataPoint) -> bool {
    attrs_supported(p.attributes@) && exemplars_values_ok(p.exemplars@)
}

pub open spec fn is_wasi_hist_point_of(w: HistogramDataPoint, p: OtelHistogramDataPoint) -> bool {
    w.attributes@ == wasi_attrs_of(p.attributes@) && w.count == p.count && w.bounds@ == p.bounds@
        && w.bucket_counts@ == p.bucket_counts@ && w.min == opt_number_of(p.min) && w.max
        == opt_number_of(p.max) && w.sum == wasi_number_of(p.sum) && are_wasi_exemplars_of(
        w.exemplars@,
        p.exemplars@,
    )
}

pub fn hist_point_to_wasi(p: OtelHistogramDataPoint) -> (r: Result<HistogramDataPoint, Error>)
    ensures
        r is Ok <==> hist_point_ok(p),
        r is Ok ==> is_wasi_hist_point_of(r->Ok_0, p),
        hist_point_times_ok(p) && r is Err ==> r->Err_0 == Error::UnsupportedValueKind,
        hist_point_values_ok(p) && r is Err ==> r->Err_0 == Error::TimeBeforeEpoch,
        r is Err ==> (r->Err_0 == Error::TimeBeforeEpoch || r->Err_0
            == Error::UnsupportedValueKind),
{
    let OtelHistogramDataPoint { attributes, count, bounds, bucket_counts, min, max, sum, exemplars
    } = p;
    let attrs = match attrs_to_wasi(attributes) {
        Ok(a) => a,
        Err(err) => {
            return Err(err);
        },
    };
    let ex = match exemplars_to_wasi(exemplars) {
        Ok(x) => x,
        Err(err) => {
            return Err(err);
        },
    };
    let wmin = match min {
        Some(v) => Some(number_to_wasi(v)),
        None => None,
    };
    let wmax = match max {
        Some(v) => Some(number_to_wasi(v)),
        None => None,
    };
    Ok(
        HistogramDataPoint {
            attributes: attrs,
            count,
            bounds,
            bucket_counts,
            min: wmin,
            max: wmax,
            sum: number_to_wasi(sum),
            exemplars: ex,
        },
    )
}

pub open spec fn hist_points_ok(ps: Seq<OtelHistogramDataPoint>) -> bool {
    forall|k: int| 0 <= k < ps.len() ==> hist_point_ok(#[trigger] ps[k])
}

pub open spec fn hist_points_times_ok(ps: Seq<OtelHistogramDataPoint>) -> bool {
    forall|k: int| 0 <= k < ps.len() ==> hist_point_times_ok(#[trigger] ps[k])
}

pub open spec fn hist_points_values_ok(ps: Seq<OtelHistogramDataPoint>) -> bool {
    forall|k: int| 0 <= k < ps.len() ==> hist_point_values_ok(#[trigger] ps[k])
}

pub open spec fn are_wasi_hist_points_of(
    ws: Seq<HistogramDataPoint>,
    ps: Seq<OtelHistogramDataPoint>,
) -> bool {
    ws.len() == ps.len() && forall|k: int|
        0 <= k < ps.len() ==> is_wasi_hist_point_of(#[trigger] ws[k], ps[k])
}

#[verifier::loop_isolation(false)]
pub fn hist_points_to_wasi(ps: Vec<OtelHistogramDataPoint>) -> (r: Result<
    Vec<HistogramDataPoint>,
    Error,
>)
    ensures
        r is Ok <==> hist_points_ok(ps@),
        r is Ok ==> are_wasi_hist_points_of((r->Ok_0)@, ps@),
        hist_points_times_ok(ps@) && r is Err ==> r->Err_0 == Error::UnsupportedValueKind,
        hist_points_values_ok(ps@) && r is Err ==> r->Err_0 == Error::TimeBeforeEpoch,
        r is Err ==> (r->Err_0 == Error::TimeBeforeEpoch || r->Err_0
            == Error::UnsupportedValueKind),
{
    let ghost ps0 = ps@;
    let mut rest = ps;
    let mut out: Vec<HistogramDataPoint> = Vec::new();
    let ghost k: int = 0;
    while rest.len() > 0
        invariant
            0 <= k <= ps0.len(),
            rest@ == ps0.skip(k),
            out@.len() == k,
            forall|p: int| 0 <= p < k ==> hist_point_ok(#[trigger] ps0[p]),
            forall|p: int| 0 <= p < k ==> is_wasi_hist_point_of(#[trigger] out@[p], ps0[p]),
        decreases rest@.len(),
    {
        let p = rest.remove(0);
        proof {
            assert(p == ps0[k]);
        }
        match hist_point_to_wasi(p) {
            Ok(w) => {
                out.push(w);
            },
            Err(err) => {
                return Err(err);
            },
        }
        proof {
            assert(rest@ =~= ps0.skip(k + 1));
            k = k + 1;
        }
    }
    Ok(out)
}

/// One signed scale of exponential buckets, offset plus counts in order.
#[derive(Debug)]
pub struct ExponentialBucket {
    pub offset: i32,
    pub counts: Vec<u64>,
}

/// One exponential-histogram sample.
#[derive(Debug)]
pub struct ExponentialHistogramDataPoint {
    pub attributes: Vec<KeyValue>,
    pub count: u64,
    pub min: Option<MetricNumber>,
    pub max: Option<MetricNumber>,
    pub sum: MetricNumber,
    pub scale: i8,
    pub zero_count: u64,
    pub positive_bucket: ExponentialBucket,
    pub negative_bucket: ExponentialBucket,
    pub zero_threshold: u64,
    pub exemplars: Vec<Exemplar>,
}

#[derive(Debug)]
pub struct OtelExponentialHistogramDataPoint {
    pub attributes: Vec<OtelKeyValue>,
    pub count: u64,
    pub min: Option<OtelNumber>,
    pub max: Option<OtelNumber>,
    pub sum: OtelNumber,
    pub scale: i8,
    pub zero_count: u64,
    pub positive_bucket: ExponentialBucket,
    pub negative_bucket: ExponentialBucket,
    pub zero_threshold: u64,
    pub exemplars: Vec<OtelExemplar>,
}

pub open spec fn exp_point_ok(p: OtelExponentialHistogramDataPoint) -> bool {
    attrs_supported(p.attributes@) && exemplars_ok(p.exemplars@)
}

pub open spec fn exp_point_times_ok(p: OtelExponentialHistogramDataPoint) -> bool {
    exemplars_times_ok(p.exemplars@)
}

pub open spec fn exp_point_values_ok(p: OtelExponentialHistogramDataPoint) -> bool {
    attrs_supported(p.attributes@) && exemplars_values_ok(p.exemplars@)
}

pub open spec fn is_wasi_exp_point_of(
    w: ExponentialHistogramDataPoint,
    p: OtelExponentialHistogramDataPoint,
) -> bool {
    w.attributes@ == wasi_attrs_of(p.attributes@) && w.count == p.count && w.min == opt_number_of(
        p.min,
    ) && w.max == opt_number_of(p.max) && w.sum == wasi_number_of(p.sum) && w.scale == p.scale
        && w.zero_count == p.zero_count && w.positive_bucket.offset == p.positive_bucket.offset
        && w.positive_bucket.counts@ == p.positive_bucket.counts@ && w.negative_bucket.offset
        == p.negative_bucket.offset && w.negative_bucket.counts@ == p.negative_bucket.counts@
        && w.zero_threshold == p.zero_threshold && are_wasi_exemplars_of(w.exemplars@, p.exemplars@)
}

pub fn exp_point_to_wasi(p: OtelExponentialHistogramDataPoint) -> (r: Result<
    ExponentialHistogramDataPoint,
    Error,
>)
    ensures
        r is Ok <==> exp_point_ok(p),
        r is Ok ==> is_wasi_exp_point_of(r->Ok_0, p),
        exp_point_times_ok(p) && r is Err ==> r->Err_0 == Error::UnsupportedValueKind,
        exp_point_values_ok(p) && r is Err ==> r->Err_0 == Error::TimeBeforeEpoch,
        r is Err ==> (r->Err_0 == Error::TimeBeforeEpoch || r->Err_0
            == Error::UnsupportedValueKind),
{
    let OtelExponentialHistogramDataPoint {
        attributes,
        count,
        min,
        max,
        sum,
        scale,
        zero_count,
        positive_bucket,
        negative_bucket,
        zero_threshold,
        exemplars,
    } = p;
    let attrs = match attrs_to_wasi(attributes) {
        Ok(a) => a,
        Err(err) => {
            return Err(err);
        },
    };
    let ex = match exemplars_to_wasi(exemplars) {
        Ok(x) => x,
        Err(err) => {
            return Err(err);
        },
    };
    let wmin = match min {
        Some(v) => Some(number_to_wasi(v)),
        None => None,
    };
    let wmax = match max {
        Some(v) => Some(number_to_wasi(v)),
        None => None,
    };
    Ok(
        ExponentialHistogramDataPoint {
            attributes: attrs,
            count,
            min: wmin,
            max: wmax,
            sum: number_to_wasi(sum),
            scale,
            zero_count,
            positive_bucket,
            negative_bucket,
            zero_threshold,
            exemplars: ex,
        },
    )
}

pub open spec fn exp_points_ok(ps: Seq<OtelExponentialHistogramDataPoint>) -> bool {
    forall|k: int| 0 <= k < ps.len() ==> exp_point_ok(#[trigger] ps[k])
}

pub open spec fn exp_points_times_ok(ps: Seq<OtelExponentialHistogramDataPoint>) -> bool {
    forall|k: int| 0 <= k < ps.len() ==> exp_point_times_ok(#[trigger] ps[k])
}

pub open spec fn exp_points_values_ok(ps: Seq<OtelExponentialHistogramDataPoint>) -> bool {
    forall|k: int| 0 <= k < ps.len() ==> exp_point_values_ok(#[trigger] ps[k])
}

pub open spec fn are_wasi_exp_points_of(
    ws: Seq<ExponentialHistogramDataPoint>,
    ps: Seq<OtelExponentialHistogramDataPoint>,
) -> bool {
    ws.len() == ps.len() && forall|k: int|
        0 <= k < ps.len() ==> is_wasi_exp_point_of(#[trigger] ws[k], ps[k])
}

#[verifier::loop_isolation(false)]
pub fn exp_points_to_wasi(ps: Vec<OtelExponentialHistogramDataPoint>) -> (r: Result<
    Vec<ExponentialHistogramDataPoint>,
    Error,
>)
    ensures
        r is Ok <==> exp_points_ok(ps@),
        r is Ok ==> are_wasi_exp_points_of((r->Ok_0)@, ps@),
        exp_points_times_ok(ps@) && r is Err ==> r->Err_0 == Error::UnsupportedValueKind,
        exp_points_values_ok(ps@) && r is Err ==> r->Err_0 == Error::TimeBeforeEpoch,
        r is Err ==> (r->Err_0 == Error::TimeBeforeEpoch || r->Err_0
            == Error::UnsupportedValueKind),
{
    let ghost ps0 = ps@;
    let mut rest = ps;
    let mut out: Vec<ExponentialHistogramDataPoint> = Vec::new();
    let ghost k: int = 0;
    while rest.len() > 0
        invariant
            0 <= k <= ps0.len(),
            rest@ == ps0.skip(k),
            out@.len() == k,
            forall|p: int| 0 <= p < k ==> exp_point_ok(#[trigger] ps0[p]),
            forall|p: int| 0 <= p < k ==> is_wasi_exp_point_of(#[trigger] out@[p], ps0[p]),
        decreases rest@.len(),
    {
        let p = rest.remove(0);
        proof {
            assert(p == ps0[k]);
        }
        match exp_point_to_wasi(p) {
            Ok(w) => {
                out.push(w);
            },
            Err(err) => {
                return Err(err);
            },
        }
        proof {
            assert(rest@ =~= ps0.skip(k + 1));
            k = k + 1;
        }
    }
    Ok(out)
}


/// An accumulated distribution over explicit bounds.
#[derive(Debug)]
pub struct Histogram {
    pub data_points: Vec<HistogramDataPoint>,
    pub start_time: Datetime,
    pub time: Datetime,
    pub temporality: Temporality,
}

#[derive(Debug)]
pub struct OtelHistogram {
    pub data_points: Vec<OtelHistogramDataPoint>,
    pub start_time: EpochOffset,
    pub time: EpochOffset,
    pub temporality: OtelTemporality,
}

/// An accumulated distribution over exponential buckets.
#[derive(Debug)]
pub struct ExponentialHistogram {
    pub data_points: Vec<ExponentialHistogramDataPoint>,
    pub start_time: Datetime,
    pub time: Datetime,
    pub temporality: Temporality,
}

#[derive(Debug)]
pub struct OtelExponentialHistogram {
    pub data_points: Vec<OtelExponentialHistogramDataPoint>,
    pub start_time: EpochOffset,
    pub time: EpochOffset,
    pub temporality: OtelTemporality,
}

/// One instrument's aggregation as the SDK hands it over: the closed
/// four shapes, or something beyond them, which this layer rejects
/// loudly.
#[derive(Debug)]
pub enum OtelAggregation {
    Gauge(OtelGauge),
    Sum(OtelSum),
    Histogram(OtelHistogram),
    ExponentialHistogram(OtelExponentialHistogram),
    Unsupported,
}

/// One instrument's aggregation as the boundary carries it: a closed
/// tagged union, exhaustive by construction.
#[derive(Debug)]
pub enum MetricData {
    Gauge(Gauge),
    Sum(Sum),
    Histogram(Histogram),
    ExponentialHistogram(ExponentialHistogram),
}

pub open spec fn gauge_ok(g: OtelGauge) -> bool {
    points_ok(g.data_points@) && !g.time.before_epoch && (match g.start_time {
        Some(t) => !t.before_epoch,
        None => true,
    })
}

pub open spec fn gauge_times_ok(g: OtelGauge) -> bool {
    points_times_ok(g.data_points@) && !g.time.before_epoch && (match g.start_time {
        Some(t) => !t.before_epoch,
        None => true,
    })
}

pub open spec fn gauge_values_ok(g: OtelGauge) -> bool {
    points_values_ok(g.data_points@)
}

pub open spec fn is_wasi_gauge_of(w: Gauge, g: OtelGauge) -> bool {
    are_wasi_points_of(w.data_points@, g.data_points@) && w.start_time == (match g.start_time {
        Some(t) => Some(crate::tracing::dt_of(t)),
        None => None::<Datetime>,
    }) && w.time == crate::tracing::dt_of(g.time)
}

pub fn gauge_to_wasi(g: OtelGauge) -> (r: Result<Gauge, Error>)
    ensures
        r is Ok <==> gauge_ok(g),
        r is Ok ==> is_wasi_gauge_of(r->Ok_0, g),
        gauge_times_ok(g) && r is Err ==> r->Err_0 == Error::UnsupportedValueKind,
        gauge_values_ok(g) && r is Err ==> r->Err_0 == Error::TimeBeforeEpoch,
        r is Err ==> (r->Err_0 == Error::TimeBeforeEpoch || r->Err_0
            == Error::UnsupportedValueKind),
{
    let OtelGauge { data_points, start_time, time } = g;
    let start = match start_time {
        Some(t) => {
            if t.before_epoch {
                return Err(Error::TimeBeforeEpoch);
            }
            Some(Datetime { seconds: t.seconds, nanoseconds: t.nanoseconds })
        },
        None => None,
    };
    let dt = match Datetime::from_epoch_offset(time) {
        Ok(d) => d,
        Err(err) => {
            return Err(err);
        },
    };
    let points = match points_to_wasi(data_points) {
        Ok(ps) => ps,
        Err(err) => {
            return Err(err);
        },
    };
    Ok(Gauge { data_points: points, start_time: start, time: dt })
}

pub open spec fn sum_ok(s: OtelSum) -> bool {
    points_ok(s.data_points@) && !s.start_time.before_epoch && !s.time.before_epoch
}

pub open spec fn sum_times_ok(s: OtelSum) -> bool {
    points_times_ok(s.data_points@) && !s.start_time.before_epoch && !s.time.before_epoch
}

pub open spec fn sum_values_ok(s: OtelSum) -> bool {
    points_values_ok(s.data_points@)
}

/// Width and sign survive the conversion: the monotonic flag, the
/// temporality, and every tagged value cross unchanged, point for point
/// and attribute for attribute, in order.
pub open spec fn is_wasi_sum_of(w: Sum, s: OtelSum) -> bool {
    are_wasi_points_of(w.data_points@, s.data_points@) && w.start_time == crate::tracing::dt_of(
        s.start_time,
    ) && w.time == crate::tracing::dt_of(s.time) && w.temporality == wasi_temporality_of(
        s.temporality,
    ) && w.is_monotonic == s.is_monotonic
}

pub fn sum_to_wasi(s: OtelSum) -> (r: Result<Sum, Error>)
    ensures
        r is Ok <==> sum_ok(s),
        r is Ok ==> is_wasi_sum_of(r->Ok_0, s),
        sum_times_ok(s) && r is Err ==> r->Err_0 == Error::UnsupportedValueKind,
        sum_values_ok(s) && r is Err ==> r->Err_0 == Error::TimeBeforeEpoch,
        r is Err ==> (r->Err_0 == Error::TimeBeforeEpoch || r->Err_0
            == Error::UnsupportedValueKind),
{
    let OtelSum { data_points, start_time, time, temporality, is_monotonic } = s;
    let start = match Datetime::from_epoch_offset(start_time) {
        Ok(d) => d,
        Err(err) => {
            return Err(err);
        },
    };
    let dt = match Datetime::from_epoch_offset(time) {
        Ok(d) => d,
        Err(err) => {
            return Err(err);
        },
    };
    let points = match points_to_wasi(data_points) {
        Ok(ps) => ps,
        Err(err) => {
            return Err(err);
        },
    };
    Ok(
        Sum {
            data_points: points,
            start_time: start,
            time: dt,
            temporality: temporality_to_wasi(temporality),
            is_monotonic,
        },
    )
}

pub open spec fn histogram_ok(h: OtelHistogram) -> bool {
    hist_points_ok(h.data_points@) && !h.start_time.before_epoch && !h.time.before_epoch
}

pub open spec fn histogram_times_ok(h: OtelHistogram) -> bool {
    hist_points_times_ok(h.data_points@) && !h.start_time.before_epoch && !h.time.before_epoch
}

pub open spec fn histogram_values_ok(h: OtelHistogram) -> bool {
    hist_points_values_ok(h.data_points@)
}

pub open spec fn is_wasi_histogram_of(w: Histogram, h: OtelHistogram) -> bool {
    are_wasi_hist_points_of(w.data_points@, h.data_points@) && w.start_time
        == crate::tracing::dt_of(h.start_time) && w.time == crate::tracing::dt_of(h.time)
        && w.temporality == wasi_temporality_of(h.temporality)
}

pub fn histogram_to_wasi(h: OtelHistogram) -> (r: Result<Histogram, Error>)
    ensures
        r is Ok <==> histogram_ok(h),
        r is Ok ==> is_wasi_histogram_of(r->Ok_0, h),
        histogram_times_ok(h) && r is Err ==> r->Err_0 == Error::UnsupportedValueKind,
        histogram_values_ok(h) && r is Err ==> r->Err_0 == Error::TimeBeforeEpoch,
        r is Err ==> (r->Err_0 == Error::TimeBeforeEpoch || r->Err_0
            == Error::UnsupportedValueKind),
{
    let OtelHistogram { data_points, start_time, time, temporality } = h;
    let start = match Datetime::from_epoch_offset(start_time) {
        Ok(d) => d,
        Err(err) => {
            return Err(err);
        },
    };
    let dt = match Datetime::from_epoch_offset(time) {
        Ok(d) => d,
        Err(err) => {
            return Err(err);
        },
    };
    let points = match hist_points_to_wasi(data_points) {
        Ok(ps) => ps,
        Err(err) => {
            return Err(err);
        },
    };
    Ok(Histogram { data_points: points, start_time: start, time: dt, temporality:
        temporality_to_wasi(temporality) })
}

pub open spec fn exp_histogram_ok(h: OtelExponentialHistogram) -> bool {
    exp_points_ok(h.data_points@) && !h.start_time.before_epoch && !h.time.before_epoch
}

pub open spec fn exp_histogram_times_ok(h: OtelExponentialHistogram) -> bool {
    exp_points_times_ok(h.data_points@) && !h.start_time.before_epoch && !h.time.before_epoch
}

pub open spec fn exp_histogram_values_ok(h: OtelExponentialHistogram) -> bool {
    exp_points_values_ok(h.data_points@)
}

pub open spec fn is_wasi_exp_histogram_of(w: ExponentialHistogram, h: OtelExponentialHistogram) -> bool {
    are_wasi_exp_points_of(w.data_points@, h.data_points@) && w.start_time
        == crate::tracing::dt_of(h.start_time) && w.time == crate::tracing::dt_of(h.time)
        && w.temporality == wasi_temporality_of(h.temporality)
}

pub fn exp_histogram_to_wasi(h: OtelExponentialHistogram) -> (r: Result<ExponentialHistogram, Error>)
    ensures
        r is Ok <==> exp_histogram_ok(h),
        r is Ok ==> is_wasi_exp_histogram_of(r->Ok_0, h),
        exp_histogram_times_ok(h) && r is Err ==> r->Err_0 == Error::UnsupportedValueKind,
        exp_histogram_values_ok(h) && r is Err ==> r->Err_0 == Error::TimeBeforeEpoch,
        r is Err ==> (r->Err_0 == Error::TimeBeforeEpoch || r->Err_0
            == Error::UnsupportedValueKind),
{
    let OtelExponentialHistogram { data_points, start_time, time, temporality } = h;
    let start = match Datetime::from_epoch_offset(start_time) {
        Ok(d) => d,
        Err(err) => {
            return Err(err);
        },
    };
    let dt = match Datetime::from_epoch_offset(time) {
        Ok(d) => d,
        Err(err) => {
            return Err(err);
        },
    };
    let points = match exp_points_to_wasi(data_points) {
        Ok(ps) => ps,
        Err(err) => {
            return Err(err);
        },
    };
    Ok(ExponentialHistogram { data_points: points, start_time: start, time: dt, temporality:
        temporality_to_wasi(temporality) })
}

pub open spec fn aggregation_ok(a: OtelAggregation) -> bool {
    match a {
        OtelAggregation::Gauge(g) => gauge_ok(g),
        OtelAggregation::Sum(s) => sum_ok(s),
        OtelAggregation::Histogram(h) => histogram_ok(h),
        OtelAggregation::ExponentialHistogram(h) => exp_histogram_ok(h),
        OtelAggregation::Unsupported => false,
    }
}

pub open spec fn aggregation_times_ok(a: OtelAggregation) -> bool {
    match a {
        OtelAggregation::Gauge(g) => gauge_times_ok(g),
        OtelAggregation::Sum(s) => sum_times_ok(s),
        OtelAggregation::Histogram(h) => histogram_times_ok(h),
        OtelAggregation::ExponentialHistogram(h) => exp_histogram_times_ok(h),
        OtelAggregation::Unsupported => true,
    }
}

pub open spec fn aggregation_values_ok(a: OtelAggregation) -> bool {
    match a {
        OtelAggregation::Gauge(g) => gauge_values_ok(g),
        OtelAggregation::Sum(s) => sum_values_ok(s),
        OtelAggregation::Histogram(h) => histogram_values_ok(h),
        OtelAggregation::ExponentialHistogram(h) => exp_histogram_values_ok(h),
        OtelAggregation::Unsupported => false,
    }
}

pub open spec fn is_wasi_aggregation_of(w: MetricData, a: OtelAggregation) -> bool {
    match a {
        OtelAggregation::Gauge(g) => w is Gauge && is_wasi_gauge_of(w->Gauge_0, g),
        OtelAggregation::Sum(s) => w is Sum && is_wasi_sum_of(w->Sum_0, s),
        OtelAggregation::Histogram(h) => w is Histogram && is_wasi_histogram_of(w->Histogram_0, h),
        OtelAggregation::ExponentialHistogram(h) => w is ExponentialHistogram
            && is_wasi_exp_histogram_of(w->ExponentialHistogram_0, h),
        OtelAggregation::Unsupported => false,
    }
}

/// Converts one aggregation by its shape. A shape outside the closed
/// four is a contract violation and fails with `UnsupportedAggregation`
/// — and with nothing else, so a rejected shape is never mistaken for
/// another failure.
pub fn aggregation_to_wasi(a: OtelAggregation) -> (r: Result<MetricData, Error>)
    ensures
        r is Ok <==> aggregation_ok(a),
        r is Ok ==> is_wasi_aggregation_of(r->Ok_0, a),
        r == Err::<MetricData, Error>(Error::UnsupportedAggregation) <==> a is Unsupported,
        !(a is Unsupported) && aggregation_times_ok(a) && r is Err ==> r->Err_0
            == Error::UnsupportedValueKind,
        aggregation_values_ok(a) && r is Err ==> r->Err_0 == Error::TimeBeforeEpoch,
        r is Err ==> (r->Err_0 == Error::TimeBeforeEpoch || r->Err_0 == Error::UnsupportedValueKind
            || r->Err_0 == Error::UnsupportedAggregation),
{
    match a {
        OtelAggregation::Gauge(g) => match gauge_to_wasi(g) {
            Ok(w) => Ok(MetricData::Gauge(w)),
            Err(e) => Err(e),
        },
        OtelAggregation::Sum(s) => match sum_to_wasi(s) {
            Ok(w) => Ok(MetricData::Sum(w)),
            Err(e) => Err(e),
        },
        OtelAggregation::Histogram(h) => match histogram_to_wasi(h) {
            Ok(w) => Ok(MetricData::Histogram(w)),
            Err(e) => Err(e),
        },
        OtelAggregation::ExponentialHistogram(h) => match exp_histogram_to_wasi(h) {
            Ok(w) => Ok(MetricData::ExponentialHistogram(w)),
            Err(e) => Err(e),
        },
        OtelAggregation::Unsupported => Err(Error::UnsupportedAggregation),
    }
}

/// One named instrument with its accumulated data.
#[derive(Debug)]
pub struct Metric {
    pub name: String,
    pub description: String,
    pub unit: String,
    pub data: MetricData,
}

#[derive(Debug)]
pub struct OtelMetric {
    pub name: String,
    pub description: String,
    pub unit: String,
    pub data: OtelAggregation,
}

pub open spec fn metric_ok(m: OtelMetric) -> bool {
    aggregation_ok(m.data)
}

pub open spec fn metric_times_ok(m: OtelMetric) -> bool {
    aggregation_times_ok(m.data)
}

pub open spec fn metric_values_ok(m: OtelMetric) -> bool {
    aggregation_values_ok(m.data)
}

pub open spec fn is_wasi_metric_of(w: Metric, m: OtelMetric) -> bool {
    w.name == m.name && w.description == m.description && w.unit == m.unit
        && is_wasi_aggregation_of(w.data, m.data)
}

pub fn metric_to_wasi(m: OtelMetric) -> (r: Result<Metric, Error>)
    ensures
        r is Ok <==> metric_ok(m),
        r is Ok ==> is_wasi_metric_of(r->Ok_0, m),
        r == Err::<Metric, Error>(Error::UnsupportedAggregation) <==> m.data is Unsupported,
        !(m.data is Unsupported) && metric_times_ok(m) && r is Err ==> r->Err_0
            == Error::UnsupportedValueKind,
        metric_values_ok(m) && r is Err ==> r->Err_0 == Error::TimeBeforeEpoch,
        r is Err ==> (r->Err_0 == Error::TimeBeforeEpoch || r->Err_0 == Error::UnsupportedValueKind
            || r->Err_0 == Error::UnsupportedAggregation),
{
    let OtelMetric { name, description, unit, data } = m;
    match aggregation_to_wasi(data) {
        Ok(d) => Ok(Metric { name, description, unit, data: d }),
        Err(e) => Err(e),
    }
}

/// The metrics one instrumentation scope produced.
#[derive(Debug)]
pub struct ScopeMetrics {
    pub scope: InstrumentationScope,
    pub metrics: Vec<Metric>,
}

#[derive(Debug)]
pub struct OtelScopeMetrics {
    pub scope: OtelInstrumentationScope,
    pub metrics: Vec<OtelMetric>,
}

pub open spec fn scope_metrics_ok(s: OtelScopeMetrics) -> bool {
    attrs_supported(s.scope.attributes@) && (forall|k: int|
        0 <= k < s.metrics@.len() ==> metric_ok(#[trigger] s.metrics@[k]))
}

pub open spec fn scope_metrics_times_ok(s: OtelScopeMetrics) -> bool {
    forall|k: int| 0 <= k < s.metrics@.len() ==> metric_times_ok(#[trigger] s.metrics@[k])
}

pub open spec fn scope_metrics_values_ok(s: OtelScopeMetrics) -> bool {
    attrs_supported(s.scope.attributes@) && (forall|k: int|
        0 <= k < s.metrics@.len() ==> metric_values_ok(#[trigger] s.metrics@[k]))
}

pub open spec fn scope_metrics_aggs_known(s: OtelScopeMetrics) -> bool {
    forall|k: int| 0 <= k < s.metrics@.len() ==> !((#[trigger] s.metrics@[k]).data is Unsupported)
}

pub open spec fn is_wasi_scope_metrics_of(w: ScopeMetrics, s: OtelScopeMetrics) -> bool {
    w.scope.name == s.scope.name && w.scope.version == s.scope.version && w.scope.schema_url
        == s.scope.schema_url && w.scope.attributes@ == wasi_attrs_of(s.scope.attributes@)
        && w.metrics@.len() == s.metrics@.len() && (forall|k: int|
        0 <= k < s.metrics@.len() ==> is_wasi_metric_of(#[trigger] w.metrics@[k], s.metrics@[k]))
}

#[verifier::loop_isolation(false)]
pub fn scope_metrics_to_wasi(s: OtelScopeMetrics) -> (r: Result<ScopeMetrics, Error>)
    ensures
        r is Ok <==> scope_metrics_ok(s),
        r is Ok ==> is_wasi_scope_metrics_of(r->Ok_0, s),
        scope_metrics_aggs_known(s) && scope_metrics_times_ok(s) && r is Err ==> r->Err_0
            == Error::UnsupportedValueKind,
        scope_metrics_values_ok(s) && r is Err ==> r->Err_0 == Error::TimeBeforeEpoch,
        r == Err::<ScopeMetrics, Error>(Error::UnsupportedAggregation) ==> !scope_metrics_aggs_known(
            s,
        ),
        r is Err ==> (r->Err_0 == Error::TimeBeforeEpoch || r->Err_0 == Error::UnsupportedValueKind
            || r->Err_0 == Error::UnsupportedAggregation),
{
    let OtelScopeMetrics { scope, metrics } = s;
    let wasi_scope = match scope_to_wasi(scope) {
        Ok(sc) => sc,
        Err(e) => {
            return Err(e);
        },
    };
    let ghost ms0 = metrics@;
    let mut rest = metrics;
    let mut out: Vec<Metric> = Vec::new();
    let ghost k: int = 0;
    while rest.len() > 0
        invariant
            0 <= k <= ms0.len(),
            rest@ == ms0.skip(k),
            out@.len() == k,
            forall|p: int| 0 <= p < k ==> metric_ok(#[trigger] ms0[p]),
            forall|p: int| 0 <= p < k ==> is_wasi_metric_of(#[trigger] out@[p], ms0[p]),
        decreases rest@.len(),
    {
        let m = rest.remove(0);
        proof {
            assert(m == ms0[k]);
        }
        match metric_to_wasi(m) {
            Ok(w) => {
                out.push(w);
            },
            Err(e) => {
                return Err(e);
            },
        }
        proof {
            assert(rest@ =~= ms0.skip(k + 1));
            k = k + 1;
        }
    }
    Ok(ScopeMetrics { scope: wasi_scope, metrics: out })
}

/// The whole batch one reader pushes: the resource and its scopes.
#[derive(Debug)]
pub struct ResourceMetrics {
    pub resource: Resource,
    pub scope_metrics: Vec<ScopeMetrics>,
}

#[derive(Debug)]
pub struct OtelResourceMetrics {
    pub resource: OtelResource,
    pub scope_metrics: Vec<OtelScopeMetrics>,
}

pub open spec fn resource_metrics_ok(r: OtelResourceMetrics) -> bool {
    attrs_supported(r.resource.attributes@) && (forall|k: int|
        0 <= k < r.scope_metrics@.len() ==> scope_metrics_ok(#[trigger] r.scope_metrics@[k]))
}

pub open spec fn resource_metrics_times_ok(r: OtelResourceMetrics) -> bool {
    forall|k: int|
        0 <= k < r.scope_metrics@.len() ==> scope_metrics_times_ok(#[trigger] r.scope_metrics@[k])
}

pub open spec fn resource_metrics_values_ok(r: OtelResourceMetrics) -> bool {
    attrs_supported(r.resource.attributes@) && (forall|k: int|
        0 <= k < r.scope_metrics@.len() ==> scope_metrics_values_ok(
            #[trigger] r.scope_metrics@[k],
        ))
}

pub open spec fn resource_metrics_aggs_known(r: OtelResourceMetrics) -> bool {
    forall|k: int|
        0 <= k < r.scope_metrics@.len() ==> scope_metrics_aggs_known(#[trigger] r.scope_metrics@[k])
}

pub open spec fn is_wasi_resource_metrics_of(w: ResourceMetrics, r: OtelResourceMetrics) -> bool {
    w.resource.schema_url == r.resource.schema_url && w.resource.attributes@ == wasi_attrs_of(
        r.resource.attributes@,
    ) && w.scope_metrics@.len() == r.scope_metrics@.len() && (forall|k: int|
        0 <= k < r.scope_metrics@.len() ==> is_wasi_scope_metrics_of(
            #[trigger] w.scope_metrics@[k],
            r.scope_metrics@[k],
        ))
}

/// Converts a whole pushed batch, resource and scopes in order.
#[verifier::loop_isolation(false)]
pub fn resource_metrics_to_wasi(rm: OtelResourceMetrics) -> (r: Result<ResourceMetrics, Error>)
    ensures
        r is Ok <==> resource_metrics_ok(rm),
        r is Ok ==> is_wasi_resource_metrics_of(r->Ok_0, rm),
        resource_metrics_aggs_known(rm) && resource_metrics_times_ok(rm) && r is Err ==> r->Err_0
            == Error::UnsupportedValueKind,
        resource_metrics_values_ok(rm) && r is Err ==> r->Err_0 == Error::TimeBeforeEpoch,
        r == Err::<ResourceMetrics, Error>(Error::UnsupportedAggregation)
            ==> !resource_metrics_aggs_known(rm),
        r is Err ==> (r->Err_0 == Error::TimeBeforeEpoch || r->Err_0 == Error::UnsupportedValueKind
            || r->Err_0 == Error::UnsupportedAggregation),
{
    let OtelResourceMetrics { resource, scope_metrics } = rm;
    let wasi_resource = match resource_to_wasi(resource) {
        Ok(res) => res,
        Err(e) => {
            return Err(e);
        },
    };
    let ghost ss0 = scope_metrics@;
    let mut rest = scope_metrics;
    let mut out: Vec<ScopeMetrics> = Vec::new();
    let ghost k: int = 0;
    while rest.len() > 0
        invariant
            0 <= k <= ss0.len(),
            rest@ == ss0.skip(k),
            out@.len() == k,
            forall|p: int| 0 <= p < k ==> scope_metrics_ok(#[trigger] ss0[p]),
            forall|p: int| 0 <= p < k ==> is_wasi_scope_metrics_of(#[trigger] out@[p], ss0[p]),
        decreases rest@.len(),
    {
        let s = rest.remove(0);
        proof {
            assert(s == ss0[k]);
        }
        match scope_metrics_to_wasi(s) {
            Ok(w) => {
                out.push(w);
            },
            Err(e) => {
                return Err(e);
            },
        }
        proof {
            assert(rest@ =~= ss0.skip(k + 1));
            k = k + 1;
        }
    }
    Ok(ResourceMetrics { resource: wasi_resource, scope_metrics: out })
}

} // verus!
