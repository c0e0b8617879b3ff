//! A synthetic-traffic generator: records describing HTTP calls are turned
//! into timeline entries, ordered by their active window, and released
//! against a simulated clock that can be compressed by a scale factor.
//!
//! The library holds the scheduling logic: the scaled windows, the order of
//! the entries, the release delays of the clock and the cadence of request
//! offsets inside each window. Sleeping, spawning and the network live with
//! the caller.
use vstd::prelude::*;

pub mod event;
pub mod generator;
pub mod http;

verus! {

/// Where the payload of a request comes from.
#[derive(Debug, Clone)]
#[allow(non_camel_case_types)]
pub enum Body {
    /// A file on local disk, uploaded as one multipart form part named `name`.
    MULTIPART { path: String, name: String },
}

/// One traffic pattern: an HTTP call and the window `[start, end)` in which
/// it is repeated.
#[derive(Debug, Clone)]
pub struct Record {
    pub method: String,
    pub host: String,
    pub path: String,
    pub start: u32,
    pub end: u32,
    pub body: Body,
}

/// Why a set of records cannot be scheduled.
#[derive(Debug, Clone, Copy, PartialEq, Eq, Structural)]
pub enum ConfigError {
    /// The time scale is zero.
    ZeroScale,
    /// The step, once divided by the scale, is zero.
    ZeroStep,
    /// The record at `index` has a method that is no HTTP method token.
    InvalidMethod { index: usize },
}

} // verus!
