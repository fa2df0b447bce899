//! What the encoder's errors say.

use crate::bert::config::ConfigError;
use crate::bert::encoder::EncoderError;
use crate::bert::request::EncoderConstraint;
use crate::bert::weights::WeightError;
use crate::text::{debug_text, decimal, number, quoted};
use vstd::prelude::*;

verus! {

impl EncoderConstraint {
    /// What a constraint says.
    pub open spec fn text(self) -> Seq<char> {
        match self {
            EncoderConstraint::EmptySequence => "sequence length must be positive"@,
            EncoderConstraint::SequenceTooLong { sequence, max_position_embeddings } => {
                "sequence length "@ + decimal(sequence as nat) + " exceeds the model's "@
                    + decimal(max_position_embeddings as nat) + " position embeddings"@
            },
            EncoderConstraint::LengthMismatch { tokens, token_types, mask } => {
                "token, token-type and mask lengths must agree, found "@ + decimal(tokens as nat)
                    + ", "@ + decimal(token_types as nat) + " and "@ + decimal(mask as nat)
            },
            EncoderConstraint::UnknownToken { token, vocabulary } => {
                "token id "@ + decimal(token as nat) + " is outside the model's vocabulary of "@
                    + decimal(vocabulary as nat)
            },
            EncoderConstraint::UnknownTokenType { kind, type_vocabulary } => {
                "token type id "@ + decimal(kind as nat)
                    + " is outside the model's type vocabulary of "@
                    + decimal(type_vocabulary as nat)
            },
            EncoderConstraint::ShapeOverflow { sequence } => {
                "a sequence of "@ + decimal(sequence as nat)
                    + " positions does not fit an addressable byte envelope"@
            },
        }
    }

    /// Says a constraint in words.
    #[must_use]
    pub fn message(&self) -> (r: String)
        ensures
            r@ == self.text(),
    {
        match self {
            EncoderConstraint::EmptySequence => "sequence length must be positive".to_owned(),
            EncoderConstraint::SequenceTooLong { sequence, max_position_embeddings } => {
                let mut text = "sequence length ".to_owned();
                text.append(number(*sequence as u64).as_str());
                text.append(" exceeds the model's ");
                text.append(number(*max_position_embeddings as u64).as_str());
                text.append(" position embeddings");
                text
            },
            EncoderConstraint::LengthMismatch { tokens, token_types, mask } => {
                let mut text = "token, token-type and mask lengths must agree, found ".to_owned();
                text.append(number(*tokens as u64).as_str());
                text.append(", ");
                text.append(number(*token_types as u64).as_str());
                text.append(" and ");
                text.append(number(*mask as u64).as_str());
                text
            },
            EncoderConstraint::UnknownToken { token, vocabulary } => {
                let mut text = "token id ".to_owned();
                text.append(number(*token as u64).as_str());
                text.append(" is outside the model's vocabulary of ");
                text.append(number(*vocabulary as u64).as_str());
                text
            },
            EncoderConstraint::UnknownTokenType { kind, type_vocabulary } => {
                let mut text = "token type id ".to_owned();
                text.append(number(*kind as u64).as_str());
                text.append(" is outside the model's type vocabulary of ");
                text.append(number(*type_vocabulary as u64).as_str());
                text
            },
            EncoderConstraint::ShapeOverflow { sequence } => {
                let mut text = "a sequence of ".to_owned();
                text.append(number(*sequence as u64).as_str());
                text.append(" positions does not fit an addressable byte envelope");
                text
            },
        }
    }
}

impl ConfigError {
    /// What a configuration error says; `epsilon` is how an unusable epsilon is written.
    pub open spec fn text(self, epsilon: Seq<char>) -> Seq<char> {
        match self {
            ConfigError::MissingField(field) => "config.json is missing "@ + field@,
            ConfigError::InvalidField { field, value } => {
                "config.json field "@ + field@ + " is not usable: "@ + value@
            },
            ConfigError::UnsupportedModelType(found) => {
                "this encoder executes model_type=bert checkpoints, found "@ + debug_text(found@)
            },
            ConfigError::UnsupportedActivation(found) => {
                "this encoder executes hidden_act=gelu, found "@ + debug_text(found@)
                    + "; substituting another activation would change the model's arithmetic"@
            },
            ConfigError::NonPositive => "every BERT geometry field must be positive"@,
            ConfigError::IndivisibleHeads { hidden_size, heads } => {
                "hidden_size "@ + decimal(hidden_size as nat) + " is not divisible by "@
                    + decimal(heads as nat) + " attention heads"@
            },
            ConfigError::InvalidEpsilon(_) => {
                "layer_norm_eps must be finite and positive, found "@ + epsilon
            },
        }
    }

    /// Says a configuration error in words; `epsilon` is how an unusable epsilon is written.
    #[must_use]
    pub fn message(&self, epsilon: &str) -> (r: String)
        ensures
            r@ == self.text(epsilon@),
    {
        match self {
            ConfigError::MissingField(field) => {
                let mut text = "config.json is missing ".to_owned();
                text.append(*field);
                text
            },
            ConfigError::InvalidField { field, value } => {
                let mut text = "config.json field ".to_owned();
                text.append(*field);
                text.append(" is not usable: ");
                text.append(value.as_str());
                text
            },
            ConfigError::UnsupportedModelType(found) => {
                let mut text =
                    "this encoder executes model_type=bert checkpoints, found ".to_owned();
                text.append(quoted(found.as_str()).as_str());
                text
            },
            ConfigError::UnsupportedActivation(found) => {
                let mut text = "this encoder executes hidden_act=gelu, found ".to_owned();
                text.append(quoted(found.as_str()).as_str());
                text.append("; substituting another activation would change the model's arithmetic");
                text
            },
            ConfigError::NonPositive => "every BERT geometry field must be positive".to_owned(),
            ConfigError::IndivisibleHeads { hidden_size, heads } => {
                let mut text = "hidden_size ".to_owned();
                text.append(number(*hidden_size as u64).as_str());
                text.append(" is not divisible by ");
                text.append(number(*heads as u64).as_str());
                text.append(" attention heads");
                text
            },
            ConfigError::InvalidEpsilon(_) => {
                let mut text = "layer_norm_eps must be finite and positive, found ".to_owned();
                text.append(epsilon);
                text
            },
        }
    }
}

/// Dimensions as a list literal.
pub open spec fn dimensions_text(dimensions: Seq<usize>) -> Seq<char> {
    "["@ + joined_dimensions(dimensions) + "]"@
}

/// Dimensions separated by commas.
pub open spec fn joined_dimensions(dimensions: Seq<usize>) -> Seq<char>
    decreases dimensions.len(),
{
    if dimensions.len() == 0 {
        Seq::empty()
    } else if dimensions.len() == 1 {
        decimal(dimensions[0] as nat)
    } else {
        joined_dimensions(dimensions.drop_last()) + ", "@ + decimal(dimensions.last() as nat)
    }
}

fn dimension_list(dimensions: &Vec<usize>) -> (r: String)
    ensures
        r@ == dimensions_text(dimensions@),
{
    let mut text = String::new();
    let mut index: usize = 0;
    while index < dimensions.len()
        invariant
            index <= dimensions@.len(),
            text@ == joined_dimensions(dimensions@.take(index as int)),
        decreases dimensions@.len() - index,
    {
        proof {
            let next = dimensions@.take(index + 1);
            assert(next.drop_last() =~= dimensions@.take(index as int));
            assert(next.last() == dimensions@[index as int]);
            assert(next[0] == dimensions@[0]);
        }
        if index > 0 {
            text.append(", ");
        }
        text.append(number(dimensions[index] as u64).as_str());
        index += 1;
        assert(text@ =~= joined_dimensions(dimensions@.take(index as int)));
    }
    assert(dimensions@.take(index as int) =~= dimensions@);
    let mut list = "[".to_owned();
    list.append(text.as_str());
    list.append("]");
    list
}

impl WeightError {
    /// What a weight error says.
    pub open spec fn text(self) -> Seq<char> {
        match self {
            WeightError::Package(error) => "package resolution failed: "@ + error@,
            WeightError::Missing(parameter) => {
                "checkpoint is missing required parameter "@ + parameter@
            },
            WeightError::Shape { parameter, expected, found } => {
                "parameter "@ + parameter@ + " has shape "@ + dimensions_text(found@)
                    + ", expected "@ + dimensions_text(expected@)
            },
            WeightError::Dtype { parameter } => {
                "parameter "@ + parameter@ + " is not F32; this encoder executes F32 checkpoints"@
            },
            WeightError::Length { parameter, expected, found } => {
                "parameter "@ + parameter@ + " carries "@ + decimal(found as nat)
                    + " values, expected "@ + decimal(expected as nat)
            },
        }
    }

    /// Says a weight error in words.
    #[must_use]
    pub fn message(&self) -> (r: String)
        ensures
            r@ == self.text(),
    {
        match self {
            WeightError::Package(error) => {
                let mut text = "package resolution failed: ".to_owned();
                text.append(error.as_str());
                text
            },
            WeightError::Missing(parameter) => {
                let mut text = "checkpoint is missing required parameter ".to_owned();
                text.append(parameter.as_str());
                text
            },
            WeightError::Shape { parameter, expected, found } => {
                let mut text = "parameter ".to_owned();
                text.append(parameter.as_str());
                text.append(" has shape ");
                text.append(dimension_list(found).as_str());
                text.append(", expected ");
                text.append(dimension_list(expected).as_str());
                text
            },
            WeightError::Dtype { parameter } => {
                let mut text = "parameter ".to_owned();
                text.append(parameter.as_str());
                text.append(" is not F32; this encoder executes F32 checkpoints");
                text
            },
            WeightError::Length { parameter, expected, found } => {
                let mut text = "parameter ".to_owned();
                text.append(parameter.as_str());
                text.append(" carries ");
                text.append(number(*found as u64).as_str());
                text.append(" values, expected ");
                text.append(number(*expected as u64).as_str());
                text
            },
        }
    }
}

impl EncoderError {
    /// What an encoder error says; `epsilon` is how an unusable epsilon is written.
    pub open spec fn text(self, epsilon: Seq<char>) -> Seq<char> {
        match self {
            EncoderError::Config(error) => "encoder configuration: "@ + error.text(epsilon),
            EncoderError::Weights(error) => "encoder parameters: "@ + error.text(),
            EncoderError::Package(message) => "encoder package: "@ + message@,
            EncoderError::Kernels(error) => "encoder kernels: "@ + error@,
            EncoderError::Driver(message) => "encoder driver: "@ + message@,
            EncoderError::InvalidRequest(constraint) => "encoder request: "@ + constraint.text(),
        }
    }

    /// Says an encoder error in words; `epsilon` is how an unusable epsilon is written.
    #[must_use]
    pub fn message(&self, epsilon: &str) -> (r: String)
        ensures
            r@ == self.text(epsilon@),
    {
        match self {
            EncoderError::Config(error) => {
                let mut text = "encoder configuration: ".to_owned();
                text.append(error.message(epsilon).as_str());
                text
            },
            EncoderError::Weights(error) => {
                let mut text = "encoder parameters: ".to_owned();
                text.append(error.message().as_str());
                text
            },
            EncoderError::Package(message) => {
                let mut text = "encoder package: ".to_owned();
                text.append(message.as_str());
                text
            },
            EncoderError::Kernels(error) => {
                let mut text = "encoder kernels: ".to_owned();
                text.append(error.as_str());
                text
            },
            EncoderError::Driver(message) => {
                let mut text = "encoder driver: ".to_owned();
                text.append(message.as_str());
                text
            },
            EncoderError::InvalidRequest(constraint) => {
                let mut text = "encoder request: ".to_owned();
                text.append(constraint.message().as_str());
                text
            },
        }
    }
}
/// A refused request names the values that it was refused for.
pub proof fn law_refused_requests_name_their_values(found: usize, limit: usize, third: usize, id: u32)
    ensures
        (EncoderConstraint::SequenceTooLong {
            sequence: found,
            max_position_embeddings: limit,
        }).text() == "sequence length "@ + decimal(found as nat) + " exceeds the model's "@
            + decimal(limit as nat) + " position embeddings"@,
        (EncoderConstraint::LengthMismatch {
            tokens: found,
            token_types: limit,
            mask: third,
        }).text() == "token, token-type and mask lengths must agree, found "@ + decimal(
            found as nat,
        ) + ", "@ + decimal(limit as nat) + " and "@ + decimal(third as nat),
        (EncoderConstraint::UnknownToken { token: id, vocabulary: limit }).text() == "token id "@
            + decimal(id as nat) + " is outside the model's vocabulary of "@ + decimal(
            limit as nat,
        ),
        (EncoderConstraint::UnknownTokenType { kind: id, type_vocabulary: limit }).text()
            == "token type id "@ + decimal(id as nat)
            + " is outside the model's type vocabulary of "@ + decimal(limit as nat),
        (EncoderConstraint::ShapeOverflow { sequence: found }).text() == "a sequence of "@
            + decimal(found as nat) + " positions does not fit an addressable byte envelope"@,
{
}

/// Dimensions are listed from the first to the last, with a comma between two.
pub proof fn law_dimensions_are_listed(dimensions: Seq<usize>, next: usize)
    ensures
        dimensions_text(Seq::empty()) == "["@ + "]"@,
        dimensions.len() == 0 ==> dimensions_text(dimensions.push(next)) == "["@ + decimal(
            next as nat,
        ) + "]"@,
        dimensions.len() > 0 ==> dimensions_text(dimensions.push(next)) == "["@
            + joined_dimensions(dimensions) + ", "@ + decimal(next as nat) + "]"@,
{
    assert(dimensions.push(next).drop_last() =~= dimensions);
    assert("["@ + Seq::<char>::empty() + "]"@ =~= "["@ + "]"@);
    if dimensions.len() > 0 {
        assert("["@ + (joined_dimensions(dimensions) + ", "@ + decimal(next as nat)) + "]"@
            =~= "["@ + joined_dimensions(dimensions) + ", "@ + decimal(next as nat) + "]"@);
    }
}

} // verus!
