//! What holds of every request that the encoder accepts and of every set of weights.

use crate::batch::executor::JobOutput;
use crate::bert::config::BertConfig;
use crate::bert::encoder::{
    charge, given_back, preparation_defect, reserved_bytes, retired_charge, retired_of,
    EncoderErrorView, Retired,
};
use crate::bert::request::{
    envelope_bytes, execution_defect, first_outside, request_defect, shape_defect, shape_view,
    EncoderConstraint, EncoderRequestView,
};
use crate::bert::weights::{
    assembled, first_held_defect, held_defect, held_dimensions, held_values, layer_of,
    layer_shape, layer_start, layer_suffix, parameter_count, product, requirement, single_at,
    singles, supplied, weights_defect, HostWeights, TensorData, TensorFailure,
    TensorRequirementView, WeightErrorView,
};
use crate::engine::single::Single;
use crate::foundation::pool::{PoolLease, PoolView};
use crate::text::decimal;
use vstd::prelude::*;
use vstd::std_specs::cmp::PartialEqSpec;

verus! {

/// Whether every identifier is one of a vocabulary.
pub open spec fn all_known(ids: Seq<u32>, vocabulary: usize) -> bool {
    forall|i: int| 0 <= i < ids.len() ==> (#[trigger] ids[i]) < vocabulary
}

/// Identifiers are accepted exactly where each is one of the vocabulary; what is reported
/// otherwise is the first that is not.
pub proof fn law_first_unknown_identifier(ids: Seq<u32>, vocabulary: usize)
    ensures
        first_outside(ids, vocabulary) is None <==> all_known(ids, vocabulary),
        first_outside(ids, vocabulary) matches Some(found) ==> exists|i: int|
            0 <= i < ids.len() && #[trigger] ids[i] == found && found >= vocabulary && forall|j: int|
                0 <= j < i ==> (#[trigger] ids[j]) < vocabulary,
    decreases ids.len(),
{
    if ids.len() > 0 {
        if ids[0] < vocabulary {
            let rest = ids.drop_first();
            law_first_unknown_identifier(rest, vocabulary);
            assert forall|i: int| 0 <= i < rest.len() implies rest[i] == #[trigger] ids[i + 1] by {}
            if all_known(rest, vocabulary) {
                assert forall|i: int| 0 <= i < ids.len() implies (#[trigger] ids[i])
                    < vocabulary by {
                    if i > 0 {
                        assert(rest[i - 1] == ids[i]);
                    }
                }
            }
            if all_known(ids, vocabulary) {
                assert forall|i: int| 0 <= i < rest.len() implies (#[trigger] rest[i])
                    < vocabulary by {
                    assert(rest[i] == ids[i + 1]);
                }
            }
            if let Some(found) = first_outside(ids, vocabulary) {
                let i = choose|i: int|
                    0 <= i < rest.len() && #[trigger] rest[i] == found && found >= vocabulary
                        && forall|j: int| 0 <= j < i ==> (#[trigger] rest[j]) < vocabulary;
                assert(ids[i + 1] == found);
                assert forall|j: int| 0 <= j < i + 1 implies (#[trigger] ids[j]) < vocabulary by {
                    if j > 0 {
                        assert(rest[j - 1] == ids[j]);
                    }
                }
            }
        } else {
            assert(ids[0] == first_outside(ids, vocabulary)->Some_0);
        }
    }
}

/// A request is accepted exactly where it has some positions and no more than the model, its
/// three parts agree in length, and every token and token type is known.
pub proof fn law_accepted_requests(config: BertConfig, request: EncoderRequestView)
    ensures
        request_defect(config, request) is None <==> {
            &&& 0 < request.token_ids.len() <= config.max_position_embeddings
            &&& request.token_type_ids.len() == request.token_ids.len()
            &&& request.attention_mask.len() == request.token_ids.len()
            &&& all_known(request.token_ids, config.vocab_size)
            &&& all_known(request.token_type_ids, config.type_vocab_size)
        },
{
    law_first_unknown_identifier(request.token_ids, config.vocab_size);
    law_first_unknown_identifier(request.token_type_ids, config.type_vocab_size);
}

/// Why a request is refused: each reason is given exactly where it is the first that holds,
/// and it names the values that it is about.
pub proof fn law_refused_requests(config: BertConfig, request: EncoderRequestView)
    requires
        request_defect(config, request) is Some,
    ensures
        ({
            let tokens = request.token_ids.len();
            let agree = request.token_type_ids.len() == tokens && request.attention_mask.len()
                == tokens;
            match request_defect(config, request)->Some_0 {
                EncoderConstraint::EmptySequence => tokens == 0,
                EncoderConstraint::SequenceTooLong { sequence, max_position_embeddings } => {
                    &&& tokens > config.max_position_embeddings
                    &&& sequence == tokens as usize
                    &&& max_position_embeddings == config.max_position_embeddings
                },
                EncoderConstraint::LengthMismatch { tokens: counted, token_types, mask } => {
                    &&& 0 < tokens <= config.max_position_embeddings
                    &&& !agree
                    &&& counted == tokens
                    &&& token_types == request.token_type_ids.len() as usize
                    &&& mask == request.attention_mask.len() as usize
                },
                EncoderConstraint::UnknownToken { token, vocabulary } => {
                    &&& agree
                    &&& request.token_ids.contains(token)
                    &&& token >= vocabulary
                    &&& vocabulary == config.vocab_size
                },
                EncoderConstraint::UnknownTokenType { kind, type_vocabulary } => {
                    &&& agree
                    &&& all_known(request.token_ids, config.vocab_size)
                    &&& request.token_type_ids.contains(kind)
                    &&& kind >= type_vocabulary
                    &&& type_vocabulary == config.type_vocab_size
                },
                EncoderConstraint::ShapeOverflow { .. } => false,
            }
        }),
{
    law_first_unknown_identifier(request.token_ids, config.vocab_size);
    law_first_unknown_identifier(request.token_type_ids, config.type_vocab_size);
}

/// The envelope of a sequence holds, at four bytes a value, six buffers of the hidden width
/// and one of the intermediate width for each position, two rows of the hidden width, and
/// three identifiers for each position.
pub proof fn law_envelope_of_a_sequence(config: BertConfig, sequence: int)
    ensures
        envelope_bytes(config, sequence) == 24 * (sequence * config.hidden_size) + 4 * (sequence
            * config.intermediate_size) + 8 * config.hidden_size + 12 * sequence,
{
}

/// A sequence has a shape exactly where it has some positions, no more than the model, and an
/// envelope that can be addressed; the shape then says what its buffers hold.
pub proof fn law_shapes_of_sequences(config: BertConfig, sequence: int)
    requires
        0 <= sequence,
    ensures
        shape_defect(config, sequence) is None <==> 0 < sequence <= config.max_position_embeddings
            && envelope_bytes(config, sequence) <= usize::MAX,
        sequence == 0 ==> shape_defect(config, sequence) == Some(EncoderConstraint::EmptySequence),
        sequence > config.max_position_embeddings ==> shape_defect(config, sequence) == Some(
            EncoderConstraint::SequenceTooLong {
                sequence: sequence as usize,
                max_position_embeddings: config.max_position_embeddings,
            },
        ),
        0 < sequence <= config.max_position_embeddings && envelope_bytes(config, sequence)
            > usize::MAX ==> shape_defect(config, sequence) == Some(
            EncoderConstraint::ShapeOverflow { sequence: sequence as usize },
        ),
        shape_defect(config, sequence) is None ==> {
            let shape = shape_view(config, sequence);
            &&& shape.sequence == sequence
            &&& shape.hidden == config.hidden_size
            &&& shape.heads == config.num_attention_heads
            &&& shape.hidden_values == sequence * config.hidden_size
            &&& shape.intermediate_values == sequence * config.intermediate_size
            &&& shape.device_bytes == envelope_bytes(config, sequence)
        },
{
    let hidden = sequence * config.hidden_size;
    let intermediate = sequence * config.intermediate_size;
    assert(hidden >= 0 && intermediate >= 0) by (nonlinear_arith)
        requires
            0 <= sequence,
            hidden == sequence * config.hidden_size,
            intermediate == sequence * config.intermediate_size,
    ;
}

/// The encoder executes exactly the requests that it accepts and whose sequence has a shape.
pub proof fn law_executable_requests(config: BertConfig, request: EncoderRequestView)
    ensures
        execution_defect(config, request) is None <==> request_defect(config, request) is None
            && envelope_bytes(config, request.token_ids.len() as int) <= usize::MAX,
        request_defect(config, request) is Some ==> execution_defect(config, request)
            == request_defect(config, request),
{
    law_accepted_requests(config, request);
    law_shapes_of_sequences(config, request.token_ids.len() as int);
}

/// A value's four bytes are its bits, the lowest first.
pub proof fn law_values_are_little_endian(data: Seq<u8>, index: int)
    requires
        0 <= index,
        4 * index + 3 < data.len(),
    ensures
        singles(data).len() == data.len() / 4,
        ({
            let bits = singles(data)[index].bits;
            &&& bits % 0x100 == data[4 * index]
            &&& (bits / 0x100) % 0x100 == data[4 * index + 1]
            &&& (bits / 0x1_0000) % 0x100 == data[4 * index + 2]
            &&& bits / 0x100_0000 == data[4 * index + 3]
        }),
{
    assert(index < data.len() / 4);
    assert(singles(data)[index] == single_at(data, index));
    let (a, b, c, d) = (
        data[4 * index] as int,
        data[4 * index + 1] as int,
        data[4 * index + 2] as int,
        data[4 * index + 3] as int,
    );
    let bits = a + 0x100 * b + 0x1_0000 * c + 0x100_0000 * d;
    assert(0 <= bits <= u32::MAX);
    assert(bits / 0x100 == b + 0x100 * c + 0x1_0000 * d);
    assert(bits / 0x1_0000 == c + 0x100 * d);
}

/// The element count of a row and of a matrix.
pub proof fn law_element_counts_of_shapes(rows: usize, columns: usize)
    ensures
        product(Seq::empty()) == 1,
        product(seq![columns]) == columns,
        product(seq![rows, columns]) == rows * columns,
{
    assert(seq![columns].drop_last() =~= Seq::<usize>::empty());
    assert(product(seq![columns].drop_last()) == 1);
    assert(seq![rows].drop_last() =~= Seq::<usize>::empty());
    assert(product(seq![rows].drop_last()) == 1);
    assert(product(seq![rows]) == rows);
    assert(seq![rows, columns].drop_last() =~= seq![rows]);
}

/// A tensor is taken exactly where it holds singles, has the required shape and as many
/// values as that shape; its values are then those that its bytes hold.
pub proof fn law_taken_tensors(
    required: TensorRequirementView,
    found: Result<TensorData, TensorFailure>,
)
    ensures
        supplied(required, found) is Ok <==> {
            &&& found matches Ok(tensor) && tensor.scalar_type is F32 && tensor.shape@
                == required.shape && singles(tensor.data@).len() == product(required.shape)
        },
        supplied(required, found) is Ok ==> supplied(required, found)->Ok_0 == singles(
            found->Ok_0.data@,
        ),
        found matches Err(TensorFailure::UnknownParameter) ==> supplied(required, found) == Err::<
            Seq<Single>,
            WeightErrorView,
        >(WeightErrorView::Missing(required.name)),
        found is Ok && !(found->Ok_0.scalar_type is F32) ==> supplied(required, found) == Err::<
            Seq<Single>,
            WeightErrorView,
        >(WeightErrorView::Dtype { parameter: required.name }),
        found is Ok && found->Ok_0.scalar_type is F32 && found->Ok_0.shape@ != required.shape
            ==> supplied(required, found) == Err::<Seq<Single>, WeightErrorView>(
            WeightErrorView::Shape {
                parameter: required.name,
                expected: required.shape,
                found: found->Ok_0.shape@,
            },
        ),
        found is Ok && found->Ok_0.scalar_type is F32 && found->Ok_0.shape@ == required.shape
            && singles(found->Ok_0.data@).len() != product(required.shape) ==> supplied(
            required,
            found,
        ) is Err && {
            &&& supplied(required, found)->Err_0 matches WeightErrorView::Length {
                parameter,
                expected,
                found: counted,
            }
            &&& parameter == required.name
            &&& counted == singles(found->Ok_0.data@).len() as usize
            &&& product(required.shape) <= usize::MAX ==> expected == product(required.shape)
        },
{
    lemma_product_nonnegative(required.shape);
}

proof fn lemma_product_nonnegative(shape: Seq<usize>)
    ensures
        product(shape) >= 0,
    decreases shape.len(),
{
    if shape.len() > 0 {
        lemma_product_nonnegative(shape.drop_last());
        let (rest, last) = (product(shape.drop_last()), shape.last() as int);
        assert(rest * last >= 0) by (nonlinear_arith)
            requires
                rest >= 0,
                last >= 0,
        ;
    }
}

/// Whether the tensors that were taken for an encoder hold these values under a name, with a
/// shape: there is a parameter of that name and shape, and the values are what was taken for
/// it.
pub open spec fn gives(
    config: BertConfig,
    tensors: Seq<Vec<Single>>,
    name: Seq<char>,
    shape: Seq<usize>,
    values: Seq<Single>,
) -> bool {
    exists|position: int|
        0 <= position < parameter_count(config) && (#[trigger] requirement(
            config,
            position,
        )).name == name && requirement(config, position).shape == shape && tensors[position]@
            == values
}

proof fn lemma_layer_requirement(config: BertConfig, layer: int, slot: int)
    requires
        0 <= layer < config.num_hidden_layers,
        0 <= slot < 16,
    ensures
        0 <= layer_start(layer) + slot < parameter_count(config),
        requirement(config, layer_start(layer) + slot) == (TensorRequirementView {
            name: "encoder.layer."@ + decimal(layer as nat) + layer_suffix(slot),
            shape: layer_shape(config, slot),
        }),
{
    let position = layer_start(layer) + slot;
    assert((position - 5) / 16 == layer && (position - 5) % 16 == slot);
}

/// Every part of a layer is read from the parameter of its own name, in the layout of that
/// name: a projection's weight has a row for each output.
pub proof fn law_layers_hold_their_named_parameters(
    config: BertConfig,
    tensors: Seq<Vec<Single>>,
    weights: HostWeights,
    layer: int,
)
    requires
        tensors.len() == parameter_count(config),
        assembled(config, tensors, weights),
        0 <= layer < config.num_hidden_layers,
    ensures
        weights.layers@.len() == config.num_hidden_layers,
        ({
            let prefix = "encoder.layer."@ + decimal(layer as nat);
            let held = weights.layers@[layer];
            &&& gives(
                config,
                tensors,
                prefix + ".attention.self.query.weight"@,
                seq![config.hidden_size, config.hidden_size],
                held.query.weight@,
            )
            &&& gives(
                config,
                tensors,
                prefix + ".attention.self.query.bias"@,
                seq![config.hidden_size],
                held.query.bias@,
            )
            &&& gives(
                config,
                tensors,
                prefix + ".attention.self.key.weight"@,
                seq![config.hidden_size, config.hidden_size],
                held.key.weight@,
            )
            &&& gives(
                config,
                tensors,
                prefix + ".attention.self.key.bias"@,
                seq![config.hidden_size],
                held.key.bias@,
            )
            &&& gives(
                config,
                tensors,
                prefix + ".attention.self.value.weight"@,
                seq![config.hidden_size, config.hidden_size],
                held.value.weight@,
            )
            &&& gives(
                config,
                tensors,
                prefix + ".attention.self.value.bias"@,
                seq![config.hidden_size],
                held.value.bias@,
            )
            &&& gives(
                config,
                tensors,
                prefix + ".attention.output.dense.weight"@,
                seq![config.hidden_size, config.hidden_size],
                held.attention_output.weight@,
            )
            &&& gives(
                config,
                tensors,
                prefix + ".attention.output.dense.bias"@,
                seq![config.hidden_size],
                held.attention_output.bias@,
            )
            &&& gives(
                config,
                tensors,
                prefix + ".attention.output.LayerNorm.weight"@,
                seq![config.hidden_size],
                held.attention_norm.weight@,
            )
            &&& gives(
                config,
                tensors,
                prefix + ".attention.output.LayerNorm.bias"@,
                seq![config.hidden_size],
                held.attention_norm.bias@,
            )
            &&& gives(
                config,
                tensors,
                prefix + ".intermediate.dense.weight"@,
                seq![config.intermediate_size, config.hidden_size],
                held.intermediate.weight@,
            )
            &&& gives(
                config,
                tensors,
                prefix + ".intermediate.dense.bias"@,
                seq![config.intermediate_size],
                held.intermediate.bias@,
            )
            &&& gives(
                config,
                tensors,
                prefix + ".output.dense.weight"@,
                seq![config.hidden_size, config.intermediate_size],
                held.output.weight@,
            )
            &&& gives(
                config,
                tensors,
                prefix + ".output.dense.bias"@,
                seq![config.hidden_size],
                held.output.bias@,
            )
            &&& gives(
                config,
                tensors,
                prefix + ".output.LayerNorm.weight"@,
                seq![config.hidden_size],
                held.output_norm.weight@,
            )
            &&& gives(
                config,
                tensors,
                prefix + ".output.LayerNorm.bias"@,
                seq![config.hidden_size],
                held.output_norm.bias@,
            )
            &&& held.query.input == config.hidden_size && held.query.output == config.hidden_size
            &&& held.key.input == config.hidden_size && held.key.output == config.hidden_size
            &&& held.value.input == config.hidden_size && held.value.output == config.hidden_size
            &&& held.attention_output.input == config.hidden_size
                && held.attention_output.output == config.hidden_size
            &&& held.intermediate.input == config.hidden_size && held.intermediate.output
                == config.intermediate_size
            &&& held.output.input == config.intermediate_size && held.output.output
                == config.hidden_size
        }),
{
    assert(weights.layers@[layer] == layer_of(config, tensors, layer));
    lemma_layer_requirement(config, layer, 0);
    lemma_layer_requirement(config, layer, 1);
    lemma_layer_requirement(config, layer, 2);
    lemma_layer_requirement(config, layer, 3);
    lemma_layer_requirement(config, layer, 4);
    lemma_layer_requirement(config, layer, 5);
    lemma_layer_requirement(config, layer, 6);
    lemma_layer_requirement(config, layer, 7);
    lemma_layer_requirement(config, layer, 8);
    lemma_layer_requirement(config, layer, 9);
    lemma_layer_requirement(config, layer, 10);
    lemma_layer_requirement(config, layer, 11);
    lemma_layer_requirement(config, layer, 12);
    lemma_layer_requirement(config, layer, 13);
    lemma_layer_requirement(config, layer, 14);
    lemma_layer_requirement(config, layer, 15);
}

/// The embeddings and the pooler are read from the parameters of their own names.
pub proof fn law_embeddings_and_pooler_hold_their_named_parameters(
    config: BertConfig,
    tensors: Seq<Vec<Single>>,
    weights: HostWeights,
)
    requires
        tensors.len() == parameter_count(config),
        assembled(config, tensors, weights),
    ensures
        gives(
            config,
            tensors,
            "embeddings.word_embeddings.weight"@,
            seq![config.vocab_size, config.hidden_size],
            weights.word_embeddings@,
        ),
        gives(
            config,
            tensors,
            "embeddings.position_embeddings.weight"@,
            seq![config.max_position_embeddings, config.hidden_size],
            weights.position_embeddings@,
        ),
        gives(
            config,
            tensors,
            "embeddings.token_type_embeddings.weight"@,
            seq![config.type_vocab_size, config.hidden_size],
            weights.token_type_embeddings@,
        ),
        gives(
            config,
            tensors,
            "embeddings.LayerNorm.weight"@,
            seq![config.hidden_size],
            weights.embedding_norm.weight@,
        ),
        gives(
            config,
            tensors,
            "embeddings.LayerNorm.bias"@,
            seq![config.hidden_size],
            weights.embedding_norm.bias@,
        ),
        gives(
            config,
            tensors,
            "pooler.dense.weight"@,
            seq![config.hidden_size, config.hidden_size],
            weights.pooler.weight@,
        ),
        gives(
            config,
            tensors,
            "pooler.dense.bias"@,
            seq![config.hidden_size],
            weights.pooler.bias@,
        ),
        weights.pooler.input == config.hidden_size,
        weights.pooler.output == config.hidden_size,
{
    let at = layer_start(config.num_hidden_layers as int);
    assert(requirement(config, 0).name == "embeddings.word_embeddings.weight"@);
    assert(requirement(config, 1).name == "embeddings.position_embeddings.weight"@);
    assert(requirement(config, 2).name == "embeddings.token_type_embeddings.weight"@);
    assert(requirement(config, 3).name == "embeddings.LayerNorm.weight"@);
    assert(requirement(config, 4).name == "embeddings.LayerNorm.bias"@);
    assert(requirement(config, at).name == "pooler.dense.weight"@);
    assert(requirement(config, at + 1).name == "pooler.dense.bias"@);
}

/// An encoder has five embedding parameters, sixteen for each layer, and two for its pooler.
pub proof fn law_parameters_of_an_encoder(config: BertConfig)
    ensures
        parameter_count(config) == 7 + 16 * config.num_hidden_layers,
{
}

/// Weights fit a configuration exactly where every parameter is held, in its own dimensions
/// where it is a projection and with as many values as its shape, and no layer is held beyond
/// those configured.
pub proof fn law_fitting_weights(config: BertConfig, weights: HostWeights)
    ensures
        weights_defect(config, weights) is None <==> {
            &&& weights.layers@.len() <= config.num_hidden_layers
            &&& forall|position: int|
                0 <= position < parameter_count(config) ==> {
                    let required = #[trigger] requirement(config, position);
                    &&& held_values(config, weights, position) matches Some(values)
                        && values.len() == product(required.shape)
                    &&& held_dimensions(config, weights, position) matches Some(dimensions)
                        ==> dimensions == required.shape
                }
        },
        weights_defect(config, weights) is None ==> weights.layers@.len()
            == config.num_hidden_layers,
{
    lemma_first_held(config, weights, 0);
    assert forall|position: int| 0 <= position < parameter_count(config) implies (held_defect(
        config,
        weights,
        position,
    ) is None <==> {
        let required = #[trigger] requirement(config, position);
        &&& held_values(config, weights, position) matches Some(values) && values.len()
            == product(required.shape)
        &&& held_dimensions(config, weights, position) matches Some(dimensions) ==> dimensions
            == required.shape
    }) by {}
    if first_held_defect(config, weights, 0) is None {
        assert forall|position: int| 0 <= position < parameter_count(config) implies {
            let required = #[trigger] requirement(config, position);
            &&& held_values(config, weights, position) matches Some(values) && values.len()
                == product(required.shape)
            &&& held_dimensions(config, weights, position) matches Some(dimensions) ==> dimensions
                == required.shape
        } by {
            assert(held_defect(config, weights, position) is None);
        }
        if weights.layers@.len() < config.num_hidden_layers {
            let position = layer_start(weights.layers@.len() as int);
            assert((position - 5) / 16 == weights.layers@.len());
            assert(0 <= position < parameter_count(config));
            assert(held_defect(config, weights, position) is Some);
        }
    }
}

proof fn lemma_first_held(config: BertConfig, weights: HostWeights, from: int)
    requires
        0 <= from <= parameter_count(config),
    ensures
        first_held_defect(config, weights, from) is None <==> forall|position: int|
            from <= position < parameter_count(config) ==> #[trigger] held_defect(
                config,
                weights,
                position,
            ) is None,
    decreases parameter_count(config) - from,
{
    if from < parameter_count(config) {
        lemma_first_held(config, weights, from + 1);
    }
}

/// Weights are prepared exactly where the configuration is usable and they fit it; what is
/// wrong with the configuration is said first.
pub proof fn law_prepared_weights(config: BertConfig, host: HostWeights)
    ensures
        preparation_defect(config, host) is None <==> config.defect() is None && weights_defect(
            config,
            host,
        ) is None,
        config.defect() matches Some(error) ==> preparation_defect(config, host) == Some(
            EncoderErrorView::Config(error@),
        ),
        config.defect() is None && weights_defect(config, host) is Some ==> preparation_defect(
            config,
            host,
        ) == Some(EncoderErrorView::Weights(weights_defect(config, host)->Some_0)),
{
}

/// Configurations are equal exactly where all their dimensions are the same and their epsilons
/// have the same value.
pub proof fn law_equal_configurations(a: BertConfig, b: BertConfig)
    ensures
        a.eq_spec(&b) <==> {
            &&& a.layer_norm_eps.at_least(b.layer_norm_eps) && b.layer_norm_eps.at_least(
                a.layer_norm_eps,
            )
            &&& BertConfig { layer_norm_eps: b.layer_norm_eps, ..a } == b
        },
{
}

/// Weights that do not fit are refused for their first parameter that does not: where it is
/// not held, where it is a projection of other dimensions, or where it has another number of
/// values, and that parameter is named.
pub proof fn law_misfitting_weights(config: BertConfig, weights: HostWeights)
    requires
        weights_defect(config, weights) is Some,
        weights.layers@.len() <= config.num_hidden_layers,
    ensures
        exists|position: int|
            0 <= position < parameter_count(config) && {
                let required = #[trigger] requirement(config, position);
                let values = held_values(config, weights, position);
                let dimensions = held_dimensions(config, weights, position);
                match weights_defect(config, weights)->Some_0 {
                    WeightErrorView::Missing(name) => name == required.name && values is None,
                    WeightErrorView::Shape { parameter, expected, found } => parameter
                        == required.name && expected == required.shape && dimensions == Some(found)
                        && found != expected,
                    WeightErrorView::Length { parameter, expected, found } => parameter
                        == required.name && values is Some && found
                        == values->Some_0.len() as usize && values->Some_0.len() != product(
                        required.shape,
                    ),
                    _ => false,
                }
            },
{
    lemma_first_misfit(config, weights, 0);
    let position = choose|position: int|
        0 <= position < parameter_count(config) && #[trigger] held_defect(
            config,
            weights,
            position,
        ) == first_held_defect(config, weights, 0);
    assert(requirement(config, position).name == requirement(config, position).name);
}

proof fn lemma_first_misfit(config: BertConfig, weights: HostWeights, from: int)
    requires
        0 <= from <= parameter_count(config),
    ensures
        first_held_defect(config, weights, from) is Some ==> exists|position: int|
            from <= position < parameter_count(config) && #[trigger] held_defect(
                config,
                weights,
                position,
            ) == first_held_defect(config, weights, from),
    decreases parameter_count(config) - from,
{
    if from < parameter_count(config) {
        if held_defect(config, weights, from) is None {
            lemma_first_misfit(config, weights, from + 1);
        } else {
            assert(held_defect(config, weights, from) == first_held_defect(config, weights, from));
        }
    }
}

/// Results that are taken back keep their own storage together with the lease that covers it.
pub proof fn law_retired_results_keep_their_lease<S>(outputs: Seq<JobOutput<S>>, i: int)
    requires
        0 <= i < outputs.len(),
    ensures
        retired_of(outputs).len() == outputs.len(),
        retired_of(outputs)[i].submission == outputs[i].output,
        retired_of(outputs)[i].lease == Some(outputs[i].lease),
        charge(retired_of(outputs)[i].lease) == outputs[i].lease@.bytes,
{
}

/// What retired work keeps reserved is what the leases of all of it cover.
pub proof fn law_retired_charges_add_up<S>(retired: Seq<Retired<S>>, entry: Retired<S>)
    ensures
        retired_charge(Seq::<Retired<S>>::empty()) == 0,
        retired_charge(retired.push(entry)) == retired_charge(retired) + match entry.lease {
            Some(lease) => lease@.bytes as int,
            None => 0,
        },
{
    assert(retired.push(entry).drop_last() =~= retired);
}

/// The bytes of leases together.
pub open spec fn leased(leases: Seq<PoolLease>) -> int
    decreases leases.len(),
{
    if leases.len() == 0 {
        0
    } else {
        leased(leases.drop_last()) + leases.last()@.bytes
    }
}

/// Reservations that cover no storage go back to the pool, each in full.
pub proof fn law_unused_reservations_go_back(pool: PoolView, leases: Seq<PoolLease>)
    requires
        leased(leases) <= pool.granted,
    ensures
        given_back(pool, leases).granted == pool.granted - leased(leases),
        given_back(pool, leases).capacity == pool.capacity,
        given_back(pool, leases).closed == pool.closed,
    decreases leases.len(),
{
    if leases.len() > 0 {
        law_unused_reservations_go_back(pool, leases.drop_last());
    }
}

/// A sequence that can never run reserves nothing, and any other one its whole envelope.
pub proof fn law_reservations_of_sequences(config: BertConfig, sequence: int)
    requires
        0 <= sequence,
    ensures
        reserved_bytes(config, sequence) == if 0 < sequence <= config.max_position_embeddings
            && envelope_bytes(config, sequence) <= usize::MAX {
            envelope_bytes(config, sequence)
        } else {
            0
        },
{
    law_shapes_of_sequences(config, sequence);
}

} // verus!
