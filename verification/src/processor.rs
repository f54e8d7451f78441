use vstd::prelude::*;
use crate::error::Error;
use crate::logs::{log_times_ok, log_values_ok, to_wasi_log_record, LogRecord, OtelLogRecord};
use crate::tracing::{is_wasi_context_of, is_wasi_span_of, span_context_to_wasi, span_to_wasi,
    span_times_ok, span_values_ok, OtelSpanContext, OtelSpanData, SpanContext, SpanData};
use crate::types::{attrs_supported, OtelInstrumentationScope, OtelResource};

verus! {

/// The span processor at the boundary: a one-way `Active` to `Shutdown`
/// lifecycle around the span conversions. Once shut down, span events
/// produce nothing that could cross the boundary, and further lifecycle
/// calls report `AlreadyShutdown`.
#[derive(Debug)]
pub struct WasiSpanProcessor {
    pub is_shutdown: bool,
}

impl WasiSpanProcessor {
    /// A fresh processor is active.
    pub fn new() -> (r: Self)
        ensures
            !r.is_shutdown,
    {
        WasiSpanProcessor { is_shutdown: false }
    }

    /// What to send when a span starts: its boundary context, or nothing
    /// once shut down.
    pub fn on_start(&self, ctx: OtelSpanContext) -> (r: Option<SpanContext>)
        ensures
            r is Some <==> !self.is_shutdown,
            !self.is_shutdown ==> is_wasi_context_of(r->0, ctx),
    {
        if self.is_shutdown {
            None
        } else {
            Some(span_context_to_wasi(ctx))
        }
    }

    /// What to send when a span ends: the converted span, or nothing once
    /// shut down. The conversion itself fails exactly as `span_to_wasi`
    /// says.
    pub fn on_end(&self, span: OtelSpanData) -> (r: Option<Result<SpanData, Error>>)
        ensures
            r is Some <==> !self.is_shutdown,
            !self.is_shutdown ==> ((r->0) is Ok <==> (span_times_ok(span) && span_values_ok(
                span,
            ))),
            !self.is_shutdown && (r->0) is Ok ==> is_wasi_span_of((r->0)->Ok_0, span),
    {
        if self.is_shutdown {
            None
        } else {
            Some(span_to_wasi(span))
        }
    }

    /// Nothing is buffered, so a flush succeeds trivially while active and
    /// reports `AlreadyShutdown` after.
    pub fn force_flush(&self) -> (r: Result<(), Error>)
        ensures
            r is Ok <==> !self.is_shutdown,
            self.is_shutdown ==> r == Err::<(), Error>(Error::AlreadyShutdown),
    {
        if self.is_shutdown {
            Err(Error::AlreadyShutdown)
        } else {
            Ok(())
        }
    }

    /// The one-way transition: the first call flushes and succeeds, every
    /// later call reports `AlreadyShutdown`, and the flag never clears.
    pub fn shutdown(&mut self) -> (r: Result<(), Error>)
        ensures
            final(self).is_shutdown,
            r is Ok <==> !old(self).is_shutdown,
            old(self).is_shutdown ==> r == Err::<(), Error>(Error::AlreadyShutdown),
    {
        let result = self.force_flush();
        let was_shutdown = self.is_shutdown;
        self.is_shutdown = true;
        if was_shutdown {
            Err(Error::AlreadyShutdown)
        } else {
            result
        }
    }
}

/// The same one-way lifecycle around the span conversions, kept under the
/// name the processor first carried.
#[derive(Debug)]
pub struct WasiProcessor {
    pub is_shutdown: bool,
}

impl WasiProcessor {
    pub fn new() -> (r: Self)
        ensures
            !r.is_shutdown,
    {
        WasiProcessor { is_shutdown: false }
    }

    pub fn on_start(&self, ctx: OtelSpanContext) -> (r: Option<SpanContext>)
        ensures
            r is Some <==> !self.is_shutdown,
            !self.is_shutdown ==> is_wasi_context_of(r->0, ctx),
    {
        if self.is_shutdown {
            None
        } else {
            Some(span_context_to_wasi(ctx))
        }
    }

    pub fn on_end(&self, span: OtelSpanData) -> (r: Option<Result<SpanData, Error>>)
        ensures
            r is Some <==> !self.is_shutdown,
            !self.is_shutdown ==> ((r->0) is Ok <==> (span_times_ok(span) && span_values_ok(
                span,
            ))),
            !self.is_shutdown && (r->0) is Ok ==> is_wasi_span_of((r->0)->Ok_0, span),
    {
        if self.is_shutdown {
            None
        } else {
            Some(span_to_wasi(span))
        }
    }

    pub fn force_flush(&self) -> (r: Result<(), Error>)
        ensures
            r is Ok <==> !self.is_shutdown,
            self.is_shutdown ==> r == Err::<(), Error>(Error::AlreadyShutdown),
    {
        if self.is_shutdown {
            Err(Error::AlreadyShutdown)
        } else {
            Ok(())
        }
    }

    pub fn shutdown(&mut self) -> (r: Result<(), Error>)
        ensures
            final(self).is_shutdown,
            r is Ok <==> !old(self).is_shutdown,
            old(self).is_shutdown ==> r == Err::<(), Error>(Error::AlreadyShutdown),
    {
        let result = self.force_flush();
        let was_shutdown = self.is_shutdown;
        self.is_shutdown = true;
        if was_shutdown {
            Err(Error::AlreadyShutdown)
        } else {
            result
        }
    }
}

/// The log processor: the same one-way lifecycle around the log-record
/// conversion.
#[derive(Debug)]
pub struct WasiLogProcessor {
    pub is_shutdown: bool,
}

impl WasiLogProcessor {
    pub fn new() -> (r: Self)
        ensures
            !r.is_shutdown,
    {
        WasiLogProcessor { is_shutdown: false }
    }

    /// What to emit for one record: the converted record, or nothing once
    /// shut down. The conversion fails exactly as `to_wasi_log_record`
    /// says.
    pub fn emit(
        &self,
        record: OtelLogRecord,
        scope: OtelInstrumentationScope,
        resource: Option<OtelResource>,
    ) -> (r: Option<Result<LogRecord, Error>>)
        ensures
            r is Some <==> !self.is_shutdown,
            !self.is_shutdown ==> ((r->0) is Ok <==> (log_times_ok(record) && log_values_ok(record)
                && attrs_supported(scope.attributes@) && (match resource {
                Some(res) => attrs_supported(res.attributes@),
                None => true,
            }))),
    {
        if self.is_shutdown {
            None
        } else {
            Some(to_wasi_log_record(record, scope, resource))
        }
    }

    pub fn force_flush(&self) -> (r: Result<(), Error>)
        ensures
            r is Ok <==> !self.is_shutdown,
            self.is_shutdown ==> r == Err::<(), Error>(Error::AlreadyShutdown),
    {
        if self.is_shutdown {
            Err(Error::AlreadyShutdown)
        } else {
            Ok(())
        }
    }

    pub fn shutdown(&mut self) -> (r: Result<(), Error>)
        ensures
            final(self).is_shutdown,
            r is Ok <==> !old(self).is_shutdown,
            old(self).is_shutdown ==> r == Err::<(), Error>(Error::AlreadyShutdown),
    {
        let result = self.force_flush();
        let was_shutdown = self.is_shutdown;
        self.is_shutdown = true;
        if was_shutdown {
            Err(Error::AlreadyShutdown)
        } else {
            result
        }
    }
}

} // verus!
