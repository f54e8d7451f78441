use vstd::prelude::*;

verus! {

/// Everything this layer can report as a failure.
///
/// Contract violations (`UnsupportedValueKind`, `UnsupportedAggregation`,
/// `UnsupportedInstrumentKind`) mean the producing SDK stepped outside the
/// closed world this layer models and the current call must be aborted.
/// `TimeBeforeEpoch` rejects timestamps that predate the epoch.
/// `AlreadyShutdown` is the checked, expected error of the one-way
/// processor/exporter lifecycle. `InvalidTraceId`/`InvalidSpanId` report a
/// remote context whose hex-encoded ids could not be parsed.
#[derive(Clone, Copy, Debug, PartialEq, Eq, Structural)]
pub enum Error {
    TimeBeforeEpoch,
    AlreadyShutdown,
    UnsupportedValueKind,
    UnsupportedAggregation,
    UnsupportedInstrumentKind,
    InvalidTraceId,
    InvalidSpanId,
}

impl Error {
    /// A short human-readable description of the error.
    pub fn message(&self) -> (r: &'static str)
        ensures
            r@ == self.message_spec(),
    {
        match self {
            Error::TimeBeforeEpoch => "timestamp predates the epoch",
            Error::AlreadyShutdown => "already shutdown",
            Error::UnsupportedValueKind => "unsupported value kind",
            Error::UnsupportedAggregation => "unsupported aggregation",
            Error::UnsupportedInstrumentKind => "unsupported instrument kind",
            Error::InvalidTraceId => "invalid trace id",
            Error::InvalidSpanId => "invalid span id",
        }
    }

    pub open spec fn message_spec(self) -> Seq<char> {
        match self {
            Error::TimeBeforeEpoch => "timestamp predates the epoch"@,
            Error::AlreadyShutdown => "already shutdown"@,
            Error::UnsupportedValueKind => "unsupported value kind"@,
            Error::UnsupportedAggregation => "unsupported aggregation"@,
            Error::UnsupportedInstrumentKind => "unsupported instrument kind"@,
            Error::InvalidTraceId => "invalid trace id"@,
            Error::InvalidSpanId => "invalid span id"@,
        }
    }
}

} // verus!
