//! BERT-style bidirectional encoder: which parameters exist, how a package's tensors map
//! onto them, in what order the encoder applies them, which request shapes it accepts and
//! how many device bytes each accepted request holds.

pub mod config;
pub mod conversions;
pub mod denotation;
pub mod encoder;
pub mod executor;
pub mod forward;
pub mod laws;
pub mod messages;
pub mod request;
pub mod weights;
