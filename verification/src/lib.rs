//! A small OpenTelemetry trace/log backend core: OTLP documents are
//! flattened into relational rows, written through idempotent bulk
//! upserts, and queried through a whitelist-gated aggregate builder.

use vstd::prelude::*;

pub mod codec;
pub mod coerce;
pub mod flatten;
pub mod sqlgen;
pub mod writer;
pub mod query;
pub mod store;
pub mod wire;
pub mod model;

verus! {

/// Number of bytes in a raw OTLP trace id.
pub const TRACE_ID_LEN: usize = 16;

/// Number of bytes in a raw OTLP span id.
pub const SPAN_ID_LEN: usize = 8;

} // verus!
