//! Execution primitives that are independent of inference policy: model and parameter
//! identity, resource topology, prepared placement and shared-pool accounting, without
//! request, token or cache semantics.

pub mod laws;
pub mod messages;
pub mod parameter;
pub mod plan;
pub mod pool;
pub mod readiness;
pub mod topology;
