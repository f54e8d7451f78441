use vstd::prelude::*;
use crate::tracer::Tracer;

verus! {

/// Hands out tracers. The provider itself carries no state: the spans it
/// produces talk to the boundary through the adapters.
#[derive(Debug)]
pub struct TracerProvider {}

/// Configures a `TracerProvider`. Nothing is configurable yet; the
/// builder keeps the construction site stable.
#[derive(Debug)]
pub struct Builder {}

impl TracerProvider {
    pub fn builder() -> (r: Builder) {
        Builder {  }
    }

    /// The tracer for one instrumenting library.
    pub fn library_tracer(&self, library_name: String) -> (r: Tracer)
        ensures
            r.library_name == library_name,
    {
        Tracer::new(library_name)
    }
}

impl Builder {
    pub fn build(self) -> (r: TracerProvider) {
        TracerProvider {  }
    }
}

} // verus!
