//! Verified core of a container-runtime metrics exporter.
//!
//! The crate keeps a set of per-entity metric trackers congruent with the
//! latest snapshot of live containers, volumes and images, owns the table of
//! registered metric handles, and accounts for probe failures. Transport to
//! the runtime socket and text rendering live outside the library; the
//! library receives decoded snapshot data and hands back the registry state.

pub mod collector;
pub mod config;
pub mod docker;
pub mod metrics;
pub mod text;
pub mod trackers;

use vstd::prelude::*;

verus! {

} // verus!
