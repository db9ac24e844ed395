//! Background-download core for a chapter reader backend.
//!
//! The crate owns three things: the composite identifier model with its
//! lexicographically sortable ordering key, a write-once pollable result
//! cell for background jobs, and the decision logic of the chapter
//! download orchestrator.  Network, database and runtime glue live outside
//! the crate and hand plain values in and out.

pub mod download;
pub mod job;
pub mod maintenance;
pub mod model;
pub mod ordering;
pub mod presentation;
pub mod text;
