//! A verified inference runtime: shared-pool accounting, batch execution, request
//! scheduling and the host-side decisions of a bidirectional encoder.

pub mod batch;
pub mod bert;
pub mod cli;
pub mod engine;
pub mod foundation;
pub mod text;
