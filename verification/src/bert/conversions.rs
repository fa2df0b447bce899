//! How the parts of an encoder report their errors through it.

use crate::bert::config::ConfigError;
use crate::bert::encoder::EncoderError;
use crate::bert::request::EncoderConstraint;
use crate::bert::weights::WeightError;
use vstd::prelude::*;

verus! {

impl From<ConfigError> for EncoderError {
    fn from(error: ConfigError) -> (r: Self) {
        EncoderError::Config(error)
    }
}

impl vstd::std_specs::convert::FromSpecImpl<ConfigError> for EncoderError {
    open spec fn obeys_from_spec() -> bool {
        true
    }

    open spec fn from_spec(error: ConfigError) -> Self {
        EncoderError::Config(error)
    }
}

impl From<WeightError> for EncoderError {
    fn from(error: WeightError) -> (r: Self) {
        EncoderError::Weights(error)
    }
}

impl vstd::std_specs::convert::FromSpecImpl<WeightError> for EncoderError {
    open spec fn obeys_from_spec() -> bool {
        true
    }

    open spec fn from_spec(error: WeightError) -> Self {
        EncoderError::Weights(error)
    }
}

impl From<EncoderConstraint> for EncoderError {
    fn from(error: EncoderConstraint) -> (r: Self) {
        EncoderError::InvalidRequest(error)
    }
}

impl vstd::std_specs::convert::FromSpecImpl<EncoderConstraint> for EncoderError {
    open spec fn obeys_from_spec() -> bool {
        true
    }

    open spec fn from_spec(error: EncoderConstraint) -> Self {
        EncoderError::InvalidRequest(error)
    }
}

} // verus!
