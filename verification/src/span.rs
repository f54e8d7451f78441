use vstd::prelude::*;
use crate::error::Error;
use crate::types::{key_value_to_wasi, otel_value_supported, wasi_key_value_of, KeyValue,
    OtelKeyValue};
use crate::tracing::OtelSpanContext;

verus! {

/// One live span over a host-side resource: it keeps its trace identity
/// and closes exactly once. The host call that closes the resource
/// happens outside; this state machine decides when it may.
#[derive(Debug)]
pub struct Span {
    pub name: String,
    pub span_context: OtelSpanContext,
    pub ended: bool,
}

impl Span {
    /// A fresh span is open.
    pub fn new(name: String, span_context: OtelSpanContext) -> (r: Self)
        ensures
            r.name == name,
            r.span_context == span_context,
            !r.ended,
    {
        Span { name, span_context, ended: false }
    }

    /// The identity this span runs under.
    pub fn context(&self) -> (r: &OtelSpanContext)
        ensures
            r == &self.span_context,
    {
        &self.span_context
    }

    /// What to forward for one attribute set on the span: the converted
    /// attribute, or the usual loud rejection of an unsupported payload.
    pub fn set_attribute(&self, kv: OtelKeyValue) -> (r: Result<KeyValue, Error>)
        ensures
            r is Ok <==> otel_value_supported(kv.value),
            otel_value_supported(kv.value) ==> r == Ok::<KeyValue, Error>(wasi_key_value_of(kv)),
            !otel_value_supported(kv.value) ==> r == Err::<KeyValue, Error>(
                Error::UnsupportedValueKind,
            ),
    {
        key_value_to_wasi(kv)
    }

    /// Closes the span. Closing is idempotent here: the first call is
    /// the one that may close the host resource, which `was_open` tells
    /// the caller.
    pub fn end(&mut self) -> (was_open: bool)
        ensures
            final(self).ended,
            final(self).name == old(self).name,
            final(self).span_context == old(self).span_context,
            was_open == !old(self).ended,
    {
        let was_open = !self.ended;
        self.ended = true;
        was_open
    }
}

} // verus!
