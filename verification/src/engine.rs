//! Inference semantics and execution ownership, without a commitment to a checkpoint
//! format, a device backend or a scheduler implementation.

pub mod backend;
pub mod conversions;
pub mod device;
pub mod execution;
pub mod execution_laws;
pub mod messages;
pub mod model;
pub mod nvidia;
pub mod ownership;
pub mod policy;
pub mod qualification;
pub mod queues;
pub mod readiness;
pub mod request;
pub mod residency;
pub mod runtime;
pub mod scheduler;
pub mod scheduler_laws;
pub mod serving;
pub mod serving_laws;
pub mod serving_links;
pub mod serving_runtime;
pub mod single;
pub mod state;
pub mod state_laws;
pub mod state_manager;
pub mod tensor;
pub mod transition_laws;
pub mod weights;
