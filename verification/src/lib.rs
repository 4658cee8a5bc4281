//! Streaming front end that turns raw audio into fixed-shape log-mel tensors.
//!
//! The crate holds the exact, integer side of the pipeline: parameter
//! validation, overlapping frame extraction from a chunked sample stream,
//! the triangular layout of the mel filterbank, temporal batching, and the
//! state machine that sequences them. Every function is verified against a
//! mathematical model of the stream it works on. Sample values themselves are
//! opaque to the crate, so the numeric kernels (taper, transform, logarithm)
//! are supplied by the caller.

pub mod batching;
pub mod config;
pub mod filterbank;
pub mod framing;
pub mod pipeline;
