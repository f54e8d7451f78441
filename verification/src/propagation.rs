use vstd::prelude::*;
use crate::error::Error;
use crate::hex::{all_hex, hex_num, parse_hex};
use crate::text::chars_of;
use crate::tracing::{deep_pairs, join_pairs, parse_id_spec, span_context_from_wasi,
    OtelSpanContext, SpanContext};

verus! {

/// Pulls a host-provided remote span context into the SDK's shape.
pub trait WasiPropagator {
    /// Reads the remote context gracefully: an id that does not parse
    /// degrades to the reserved all-zero invalid id instead of blocking
    /// the request.
    fn extract(&self, ctx: &SpanContext) -> (r: OtelSpanContext)
        ensures
            r.trace_id as int == parse_id_spec(ctx.trace_id@, 32),
            r.span_id as int == parse_id_spec(ctx.span_id@, 16),
            r.sampled == ctx.trace_flags.sampled,
            r.is_remote == ctx.is_remote,
            r.trace_state@ == join_pairs(deep_pairs(ctx.trace_state@)),
    ;
}

/// The one propagator this layer ships.
#[derive(Debug)]
pub struct TraceContextPropagator {}

impl TraceContextPropagator {
    pub fn new() -> (r: Self) {
        TraceContextPropagator {  }
    }
}

impl WasiPropagator for TraceContextPropagator {
    fn extract(&self, ctx: &SpanContext) -> (r: OtelSpanContext) {
        span_context_from_wasi(ctx)
    }
}

/// Reads a host-provided remote context strictly, for callers that want
/// corruption surfaced instead of degraded: an unparseable trace id is
/// `InvalidTraceId`, then an unparseable span id is `InvalidSpanId`.
/// The extracted context is always marked sampled, as the host's remote
/// parent is.
pub fn extract_trace_context(ctx: &SpanContext) -> (r: Result<OtelSpanContext, Error>)
    ensures
        r is Ok <==> ((1 <= ctx.trace_id@.len() <= 32 && all_hex(ctx.trace_id@)) && (1
            <= ctx.span_id@.len() <= 16 && all_hex(ctx.span_id@))),
        !(1 <= ctx.trace_id@.len() <= 32 && all_hex(ctx.trace_id@)) ==> r == Err::<
            OtelSpanContext,
            Error,
        >(Error::InvalidTraceId),
        (1 <= ctx.trace_id@.len() <= 32 && all_hex(ctx.trace_id@)) && !(1 <= ctx.span_id@.len()
            <= 16 && all_hex(ctx.span_id@)) ==> r == Err::<OtelSpanContext, Error>(
            Error::InvalidSpanId,
        ),
        r is Ok ==> ((r->Ok_0).trace_id as int == hex_num(ctx.trace_id@) && (r->Ok_0).span_id as int
            == hex_num(ctx.span_id@) && (r->Ok_0).sampled && (r->Ok_0).is_remote == ctx.is_remote
            && (r->Ok_0).trace_state@ == join_pairs(deep_pairs(ctx.trace_state@))),
{
    let tid_chars = chars_of(ctx.trace_id.as_str());
    let trace_id: u128 = match parse_hex(&tid_chars, 32) {
        Some(v) => v,
        None => {
            return Err(Error::InvalidTraceId);
        },
    };
    let sid_chars = chars_of(ctx.span_id.as_str());
    let span_id: u64 = match parse_hex(&sid_chars, 16) {
        Some(v) => {
            proof {
                crate::hex::lemma_hex_num_bound(sid_chars@);
                crate::hex::lemma_pow16_le(sid_chars@.len() as nat, 16);
                assert(crate::hex::pow16(16) == 0x10000000000000000) by {
                    reveal_with_fuel(crate::hex::pow16, 17);
                }
            }
            v as u64
        },
        None => {
            return Err(Error::InvalidSpanId);
        },
    };
    let graceful = span_context_from_wasi(ctx);
    Ok(
        OtelSpanContext {
            trace_id,
            span_id,
            sampled: true,
            is_remote: ctx.is_remote,
            trace_state: graceful.trace_state,
        },
    )
}

} // verus!
