use vstd::prelude::*;
use crate::span::Span;
use crate::tracing::OtelSpanContext;

verus! {

/// Builds spans for one instrumenting library. This layer never mints
/// ids of its own: the host owns identity, so the new-id hooks report
/// the reserved all-zero invalid id.
#[derive(Debug)]
pub struct Tracer {
    pub library_name: String,
}

impl Tracer {
    pub fn new(library_name: String) -> (r: Self)
        ensures
            r.library_name == library_name,
    {
        Tracer { library_name }
    }

    /// Starts a span under the given parent context.
    pub fn build_with_context(&self, name: String, parent: OtelSpanContext) -> (r: Span)
        ensures
            r.name == name,
            r.span_context == parent,
            !r.ended,
    {
        Span::new(name, parent)
    }

    /// This layer does not sample ids: the invalid id signals that the
    /// host decides identity.
    pub fn new_trace_id(&self) -> (r: u128)
        ensures
            r == 0,
    {
        0
    }

    pub fn new_span_id(&self) -> (r: u64)
        ensures
            r == 0,
    {
        0
    }
}

} // verus!
