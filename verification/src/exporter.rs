use vstd::prelude::*;
use crate::error::Error;
use crate::metrics::{resource_metrics_aggs_known, resource_metrics_ok, resource_metrics_times_ok,
    resource_metrics_to_wasi, resource_metrics_values_ok, is_wasi_resource_metrics_of,
    OtelResourceMetrics, ResourceMetrics, Temporality};
use crate::tracing::{is_wasi_span_of, span_to_wasi, span_times_ok, span_values_ok, OtelSpanData,
    SpanData};

verus! {

/// The push span exporter: converts completed spans for the boundary,
/// one or a whole batch, stopping at the first span that cannot be
/// converted.
#[derive(Debug)]
pub struct WasiExporter {
    pub is_shutdown: bool,
}

pub open spec fn batch_ok(batch: Seq<OtelSpanData>) -> bool {
    forall|k: int|
        0 <= k < batch.len() ==> (span_times_ok(#[trigger] batch[k]) && span_values_ok(batch[k]))
}

pub open spec fn batch_times_ok(batch: Seq<OtelSpanData>) -> bool {
    forall|k: int| 0 <= k < batch.len() ==> span_times_ok(#[trigger] batch[k])
}

pub open spec fn batch_values_ok(batch: Seq<OtelSpanData>) -> bool {
    forall|k: int| 0 <= k < batch.len() ==> span_values_ok(#[trigger] batch[k])
}

impl WasiExporter {
    pub fn new() -> (r: Self)
        ensures
            !r.is_shutdown,
    {
        WasiExporter { is_shutdown: false }
    }

    /// Converts one completed span, exactly as `span_to_wasi` says.
    pub fn export_one(span: OtelSpanData) -> (r: Result<SpanData, Error>)
        ensures
            r is Ok <==> (span_times_ok(span) && span_values_ok(span)),
            r is Ok ==> is_wasi_span_of(r->Ok_0, span),
            !span_times_ok(span) ==> r == Err::<SpanData, Error>(Error::TimeBeforeEpoch),
            span_times_ok(span) && !span_values_ok(span) ==> r == Err::<SpanData, Error>(
                Error::UnsupportedValueKind,
            ),
    {
        span_to_wasi(span)
    }

    /// Converts a batch in order; the first failing span aborts the
    /// export with its error.
    #[verifier::loop_isolation(false)]
    pub fn export(&self, batch: Vec<OtelSpanData>) -> (r: Result<Vec<SpanData>, Error>)
        ensures
            r is Ok <==> batch_ok(batch@),
            r is Ok ==> ((r->Ok_0)@.len() == batch@.len() && (forall|k: int|
                0 <= k < batch@.len() ==> is_wasi_span_of(#[trigger] (r->Ok_0)@[k], batch@[k]))),
            batch_times_ok(batch@) && r is Err ==> r->Err_0 == Error::UnsupportedValueKind,
            batch_values_ok(batch@) && r is Err ==> r->Err_0 == Error::TimeBeforeEpoch,
            r is Err ==> (r->Err_0 == Error::TimeBeforeEpoch || r->Err_0
                == Error::UnsupportedValueKind),
    {
        let ghost batch0 = batch@;
        let mut rest = batch;
        let mut out: Vec<SpanData> = Vec::new();
        let ghost k: int = 0;
        while rest.len() > 0
            invariant
                0 <= k <= batch0.len(),
                rest@ == batch0.skip(k),
                out@.len() == k,
                forall|p: int|
                    0 <= p < k ==> (span_times_ok(#[trigger] batch0[p]) && span_values_ok(
                        batch0[p],
                    )),
                forall|p: int| 0 <= p < k ==> is_wasi_span_of(#[trigger] out@[p], batch0[p]),
            decreases rest@.len(),
        {
            let span = rest.remove(0);
            proof {
                assert(span == batch0[k]);
            }
            match span_to_wasi(span) {
                Ok(w) => {
                    out.push(w);
                },
                Err(e) => {
                    return Err(e);
                },
            }
            proof {
                assert(rest@ =~= batch0.skip(k + 1));
                k = k + 1;
            }
        }
        Ok(out)
    }
}

/// Configures the metric exporter: by default it exports once more when
/// dropped, so data is not lost on scope exit; that safety net can be
/// switched off for fully manual control.
#[derive(Debug, Clone, Copy, PartialEq, Eq, Structural)]
pub struct WasiMetricExporterBuilder {
    pub export_on_drop: bool,
}

impl WasiMetricExporterBuilder {
    /// The default configuration: a best-effort export on drop.
    pub fn new() -> (r: Self)
        ensures
            r.export_on_drop,
    {
        WasiMetricExporterBuilder { export_on_drop: true }
    }

    /// Switches the drop-triggered export off: every export must then be
    /// requested explicitly.
    pub fn with_manual_export_only(self) -> (r: Self)
        ensures
            !r.export_on_drop,
    {
        WasiMetricExporterBuilder { export_on_drop: false }
    }

    /// Builds a fresh, active exporter with this configuration.
    pub fn build(self) -> (r: WasiMetricExporter)
        ensures
            r.export_on_drop == self.export_on_drop,
            !r.is_shutdown,
    {
        WasiMetricExporter { export_on_drop: self.export_on_drop, is_shutdown: false }
    }
}

/// The kinds of instrument a reader can be asked about. The observable
/// kinds need a background callback this environment cannot run.
#[derive(Debug, Clone, Copy, PartialEq, Eq, Structural)]
pub enum InstrumentKind {
    Counter,
    UpDownCounter,
    Gauge,
    Histogram,
    ObservableCounter,
    ObservableGauge,
    ObservableUpDownCounter,
}

pub open spec fn observable_kind(kind: InstrumentKind) -> bool {
    kind is ObservableCounter || kind is ObservableGauge || kind is ObservableUpDownCounter
}

/// The metric exporter at the boundary: converts pushed batches, and
/// carries the same one-way lifecycle as the processors.
#[derive(Debug, Clone, Copy, PartialEq, Eq, Structural)]
pub struct WasiMetricExporter {
    pub export_on_drop: bool,
    pub is_shutdown: bool,
}

impl WasiMetricExporter {
    pub fn builder() -> (r: WasiMetricExporterBuilder)
        ensures
            r.export_on_drop,
    {
        WasiMetricExporterBuilder::new()
    }

    /// Converts a collected batch for the boundary, exactly as
    /// `resource_metrics_to_wasi` says.
    pub fn export(&self, rm: OtelResourceMetrics) -> (r: Result<ResourceMetrics, Error>)
        ensures
            r is Ok <==> resource_metrics_ok(rm),
            r is Ok ==> is_wasi_resource_metrics_of(r->Ok_0, rm),
            resource_metrics_aggs_known(rm) && resource_metrics_times_ok(rm) && r is Err
                ==> r->Err_0 == Error::UnsupportedValueKind,
            resource_metrics_values_ok(rm) && r is Err ==> r->Err_0 == Error::TimeBeforeEpoch,
            r == Err::<ResourceMetrics, Error>(Error::UnsupportedAggregation)
                ==> !resource_metrics_aggs_known(rm),
            r is Err ==> (r->Err_0 == Error::TimeBeforeEpoch || r->Err_0
                == Error::UnsupportedValueKind || r->Err_0 == Error::UnsupportedAggregation),
    {
        resource_metrics_to_wasi(rm)
    }

    pub fn force_flush(&self) -> (r: Result<(), Error>)
        ensures
            r is Ok <==> !self.is_shutdown,
            self.is_shutdown ==> r == Err::<(), Error>(Error::AlreadyShutdown),
    {
        if self.is_shutdown {
            Err(Error::AlreadyShutdown)
        } else {
            Ok(())
        }
    }

    pub fn shutdown(&mut self) -> (r: Result<(), Error>)
        ensures
            final(self).is_shutdown,
            final(self).export_on_drop == old(self).export_on_drop,
            r is Ok <==> !old(self).is_shutdown,
            old(self).is_shutdown ==> r == Err::<(), Error>(Error::AlreadyShutdown),
    {
        let was_shutdown = self.is_shutdown;
        self.is_shutdown = true;
        if was_shutdown {
            Err(Error::AlreadyShutdown)
        } else {
            Ok(())
        }
    }

    /// This exporter reports running totals.
    pub fn temporality(&self, _kind: InstrumentKind) -> (r: Temporality)
        ensures
            r == Temporality::Cumulative,
    {
        Temporality::Cumulative
    }
}

/// The on-demand reader's temporality. Observable instruments need a
/// background callback the guest cannot run: asking about one is a
/// capability violation, reported as `UnsupportedInstrumentKind` rather
/// than a crash; every supported kind reports running totals.
pub fn reader_temporality(kind: InstrumentKind) -> (r: Result<Temporality, Error>)
    ensures
        r is Ok <==> !observable_kind(kind),
        observable_kind(kind) ==> r == Err::<Temporality, Error>(Error::UnsupportedInstrumentKind),
        !observable_kind(kind) ==> r == Ok::<Temporality, Error>(Temporality::Cumulative),
{
    match kind {
        InstrumentKind::ObservableCounter => Err(Error::UnsupportedInstrumentKind),
        InstrumentKind::ObservableGauge => Err(Error::UnsupportedInstrumentKind),
        InstrumentKind::ObservableUpDownCounter => Err(Error::UnsupportedInstrumentKind),
        _ => Ok(Temporality::Cumulative),
    }
}

} // verus!
