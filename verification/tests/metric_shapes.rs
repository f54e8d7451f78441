use wasi_otel::error::Error;
use wasi_otel::metrics::{
    aggregation_to_wasi, gauge_to_wasi, histogram_to_wasi, exp_histogram_to_wasi,
    resource_metrics_to_wasi, scope_metrics_to_wasi, ExponentialBucket, MetricData, MetricNumber,
    OtelAggregation, OtelExemplar, OtelExponentialHistogram, OtelExponentialHistogramDataPoint,
    OtelGauge, OtelHistogram, OtelHistogramDataPoint, OtelMetric, OtelMetricDataPoint, OtelNumber,
    OtelResourceMetrics, OtelScopeMetrics, OtelSum, OtelTemporality, Temporality,
};
use wasi_otel::types::{EpochOffset, OtelInstrumentationScope, OtelKeyValue, OtelResource,
    OtelValue};

fn at(seconds: u64) -> EpochOffset {
    EpochOffset {
        before_epoch: false,
        seconds,
        nanoseconds: 0,
    }
}

fn exemplar() -> OtelExemplar {
    OtelExemplar {
        filtered_attributes: vec![OtelKeyValue {
            key: String::from("sampled-by"),
            value: OtelValue::String(String::from("head")),
        }],
        time: at(5),
        value: OtelNumber::F64(9.5f64.to_bits()),
        span_id: 0x1122334455667788,
        trace_id: 0x000102030405060708090a0b0c0d0e0f,
    }
}

#[test]
fn exemplar_ids_render_as_hex_like_a_span_context() {
    let gauge = OtelGauge {
        data_points: vec![OtelMetricDataPoint {
            attributes: vec![],
            value: OtelNumber::I64(-3),
            exemplars: vec![exemplar()],
        }],
        start_time: None,
        time: at(6),
    };
    let wasi = gauge_to_wasi(gauge).unwrap();
    assert!(wasi.start_time.is_none());
    assert_eq!(wasi.data_points[0].value, MetricNumber::S64(-3));
    let e = &wasi.data_points[0].exemplars[0];
    assert_eq!(e.span_id, "1122334455667788");
    assert_eq!(e.trace_id, "000102030405060708090a0b0c0d0e0f");
    assert_eq!(e.value, MetricNumber::F64(9.5f64.to_bits()));
    assert_eq!(e.filtered_attributes[0].key, "sampled-by");
}

#[test]
fn histogram_buckets_stay_aligned_with_bounds() {
    let histogram = OtelHistogram {
        data_points: vec![OtelHistogramDataPoint {
            attributes: vec![],
            count: 7,
            bounds: vec![0.5f64.to_bits(), 1.5f64.to_bits(), 8.0f64.to_bits()],
            bucket_counts: vec![1, 2, 3, 1],
            min: Some(OtelNumber::F64(0.1f64.to_bits())),
            max: None,
            sum: OtelNumber::F64(12.25f64.to_bits()),
            exemplars: vec![],
        }],
        start_time: at(1),
        time: at(2),
        temporality: OtelTemporality::Cumulative,
    };
    let wasi = histogram_to_wasi(histogram).unwrap();
    let dp = &wasi.data_points[0];
    assert_eq!(dp.count, 7);
    assert_eq!(
        dp.bounds,
        vec![0.5f64.to_bits(), 1.5f64.to_bits(), 8.0f64.to_bits()]
    );
    assert_eq!(dp.bucket_counts, vec![1, 2, 3, 1]);
    assert_eq!(dp.min, Some(MetricNumber::F64(0.1f64.to_bits())));
    assert_eq!(dp.max, None);
    assert_eq!(wasi.temporality, Temporality::Cumulative);
}

#[test]
fn exponential_histogram_carries_both_bucket_scales() {
    let histogram = OtelExponentialHistogram {
        data_points: vec![OtelExponentialHistogramDataPoint {
            attributes: vec![],
            count: 4,
            min: None,
            max: Some(OtelNumber::I64(9)),
            sum: OtelNumber::I64(14),
            scale: -2,
            zero_count: 1,
            positive_bucket: ExponentialBucket {
                offset: 3,
                counts: vec![1, 0, 2],
            },
            negative_bucket: ExponentialBucket {
                offset: -1,
                counts: vec![1],
            },
            zero_threshold: 0.0f64.to_bits(),
            exemplars: vec![],
        }],
        start_time: at(1),
        time: at(2),
        temporality: OtelTemporality::Delta,
    };
    let wasi = exp_histogram_to_wasi(histogram).unwrap();
    let dp = &wasi.data_points[0];
    assert_eq!(dp.scale, -2);
    assert_eq!(dp.zero_count, 1);
    assert_eq!(dp.positive_bucket.offset, 3);
    assert_eq!(dp.positive_bucket.counts, vec![1, 0, 2]);
    assert_eq!(dp.negative_bucket.offset, -1);
    assert_eq!(dp.negative_bucket.counts, vec![1]);
    assert_eq!(dp.max, Some(MetricNumber::S64(9)));
}

fn one_metric(data: OtelAggregation) -> OtelMetric {
    OtelMetric {
        name: String::from("requests"),
        description: String::from("requests served"),
        unit: String::from("1"),
        data,
    }
}

fn tiny_sum() -> OtelAggregation {
    OtelAggregation::Sum(OtelSum {
        data_points: vec![OtelMetricDataPoint {
            attributes: vec![],
            value: OtelNumber::U64(1),
            exemplars: vec![],
        }],
        start_time: at(1),
        time: at(2),
        temporality: OtelTemporality::Cumulative,
        is_monotonic: true,
    })
}

#[test]
fn whole_batch_converts_scope_by_scope() {
    let batch = OtelResourceMetrics {
        resource: OtelResource {
            attributes: vec![OtelKeyValue {
                key: String::from("service.name"),
                value: OtelValue::String(String::from("demo")),
            }],
            schema_url: None,
        },
        scope_metrics: vec![OtelScopeMetrics {
            scope: OtelInstrumentationScope {
                name: String::from("meter-lib"),
                version: Some(String::from("0.1")),
                schema_url: None,
                attributes: vec![],
            },
            metrics: vec![one_metric(tiny_sum())],
        }],
    };
    let wasi = resource_metrics_to_wasi(batch).unwrap();
    assert_eq!(wasi.resource.attributes[0].key, "service.name");
    assert_eq!(wasi.scope_metrics.len(), 1);
    assert_eq!(wasi.scope_metrics[0].scope.name, "meter-lib");
    assert_eq!(wasi.scope_metrics[0].metrics[0].name, "requests");
    match &wasi.scope_metrics[0].metrics[0].data {
        MetricData::Sum(s) => assert_eq!(s.data_points[0].value, MetricNumber::U64(1)),
        other => panic!("wrong shape {:?}", other),
    }
}

#[test]
fn scope_batch_rejects_a_bad_metric_loudly() {
    let bad = OtelScopeMetrics {
        scope: OtelInstrumentationScope {
            name: String::from("meter-lib"),
            version: None,
            schema_url: None,
            attributes: vec![],
        },
        metrics: vec![one_metric(tiny_sum()), one_metric(OtelAggregation::Unsupported)],
    };
    assert_eq!(
        scope_metrics_to_wasi(bad).unwrap_err(),
        Error::UnsupportedAggregation
    );
}

#[test]
fn pre_epoch_metric_time_is_rejected() {
    let mut agg = match tiny_sum() {
        OtelAggregation::Sum(s) => s,
        _ => unreachable!(),
    };
    agg.start_time = EpochOffset {
        before_epoch: true,
        seconds: 3,
        nanoseconds: 0,
    };
    assert_eq!(
        aggregation_to_wasi(OtelAggregation::Sum(agg)).unwrap_err(),
        Error::TimeBeforeEpoch
    );
}
