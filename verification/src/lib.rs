//! Analyzer core for localizing a nondeterministic concurrency failure that is
//! reproduced under a deterministic record-and-replay runtime.
//!
//! The library holds the schedule-space reduction pipeline: establishing a
//! failing (matching) run, minimizing its preemption set, deriving a nearby
//! passing (baseline) run, and bisecting over interleavings until a single
//! critical reordering remains.  The runtime itself is an external
//! collaborator: it is driven through run requests that the pipeline builds
//! and through the outcomes that the caller reports back.

pub mod bisect;
pub mod codec;
pub mod criteria;
pub mod minimize;
pub mod opts;
pub mod phases;
pub mod record;
pub mod render;
pub mod runopts;
pub mod search;
