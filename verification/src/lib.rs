//! A conversion layer between an in-process telemetry SDK's data model
//! (spans, metrics, logs) and the flat, versioned schema that crosses a
//! sandboxed guest's host boundary.
//!
//! The library owns the boundary schema (`types`, `tracing`, `logs`,
//! `metrics`), the mapping rules from the SDK's representations into it —
//! including the JSON text encoding of structured values (`json`,
//! `anyvalue`, `parse`) with its base64 byte-payload scheme (`b64`) and
//! hex id rendering (`hex`) — and the small lifecycle state machines of
//! the processor and exporter adapters (`processor`, `exporter`). Host
//! I/O itself stays outside: the adapters decide what crosses the
//! boundary and hand back plain values.

pub mod anyvalue;
pub mod b64;
pub mod error;
pub mod hex;
pub mod json;
pub mod parse;
pub mod severity;
pub mod text;

pub mod logs;
pub mod metrics;
pub mod tracing;
pub mod types;

pub mod exporter;
pub mod processor;
pub mod propagation;
pub mod provider;
pub mod span;
pub mod tracer;
