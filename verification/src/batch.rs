//! Non-autoregressive dynamic-batch runtime.
//!
//! Inputs and outputs are executor-defined. The runtime has no token, prefix, cache,
//! decode or chat semantics.
//!
//! The runtime accounts for two different quantities. Waiting work is bounded by
//! `BatchConfig::max_waiting_requests`. Terminal results the caller has not consumed are
//! bounded by `BatchConfig::max_retained_results` and by a shared byte pool, because a
//! caller that stops draining results would otherwise grow memory without limit.
//!
//! The pool is the single byte authority for every runtime drawing on it. It is passed
//! to the operations that use it, so one constraint binds siblings instead of each
//! runtime enforcing a private byte budget. Reserving a request's retained output yields
//! an owning lease that travels with the entry, so a completed result keeps its charge
//! until the caller takes responsibility for the storage it covers.

pub mod executor;
pub mod laws;
pub mod messages;
pub mod retention;
pub mod runtime;
