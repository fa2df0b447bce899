//! What the steps of the forward pass compute.
//!
//! A device performs each step on the values that its buffers hold. Whatever the kernels of a
//! device compute, the steps of a forward pass compose them to the equations of the encoder:
//! that is what the plan is for, and it is stated here without mentioning a step.

use crate::bert::forward::{
    embedding_steps, forward_steps, layer_steps, layers_steps, pooler_steps, Buffer,
    DenseParameters, EncoderStep, NormParameters,
};
use vstd::prelude::*;

verus! {

/// The kernels of a device, as functions on what a buffer can hold.
#[verifier::reject_recursive_types(T)]
pub struct Kernels<T> {
    /// The sums of the word, position and type embeddings of a request.
    pub embeddings: T,
    pub layer_norm: spec_fn(NormParameters, T) -> T,
    /// `weight * input + bias` of a projection, for so many rows.
    pub project: spec_fn(DenseParameters, int, T) -> T,
    /// Attention of queries over keys and values.
    pub attention: spec_fn(T, T, T) -> T,
    pub sum: spec_fn(T, T) -> T,
    pub gelu: spec_fn(T) -> T,
    pub first_row: spec_fn(T) -> T,
    pub tanh: spec_fn(T) -> T,
}

/// What the buffers hold once a device has performed a step.
pub open spec fn performed<T>(
    kernels: Kernels<T>,
    memory: Map<Buffer, T>,
    step: EncoderStep,
) -> Map<Buffer, T> {
    match step {
        EncoderStep::EmbeddingSum { output } => memory.insert(output, kernels.embeddings),
        EncoderStep::LayerNorm { norm, input, output } => memory.insert(
            output,
            (kernels.layer_norm)(norm, memory[input]),
        ),
        EncoderStep::Swap { first, second } => memory.insert(first, memory[second]).insert(
            second,
            memory[first],
        ),
        EncoderStep::Project { dense, input, rows, output } => memory.insert(
            output,
            (kernels.project)(dense, rows as int, memory[input]),
        ),
        EncoderStep::Attention { query, key, value, output } => memory.insert(
            output,
            (kernels.attention)(memory[query], memory[key], memory[value]),
        ),
        EncoderStep::AddInPlace { target, addend } => memory.insert(
            target,
            (kernels.sum)(memory[target], memory[addend]),
        ),
        EncoderStep::Gelu { target } => memory.insert(target, (kernels.gelu)(memory[target])),
        EncoderStep::CopyFirstRow { input, output } => memory.insert(
            output,
            (kernels.first_row)(memory[input]),
        ),
        EncoderStep::Tanh { target } => memory.insert(target, (kernels.tanh)(memory[target])),
    }
}

/// What the buffers hold once a device has performed a list of steps.
pub open spec fn performed_all<T>(
    kernels: Kernels<T>,
    memory: Map<Buffer, T>,
    steps: Seq<EncoderStep>,
) -> Map<Buffer, T>
    decreases steps.len(),
{
    if steps.len() == 0 {
        memory
    } else {
        performed(kernels, performed_all(kernels, memory, steps.drop_last()), steps.last())
    }
}

/// One layer of the encoder: attention and feed-forward, each added to its own input and
/// normalized.
pub open spec fn layer_output<T>(kernels: Kernels<T>, rows: int, layer: usize, hidden: T) -> T {
    let context = (kernels.attention)(
        (kernels.project)(DenseParameters::Query { layer }, rows, hidden),
        (kernels.project)(DenseParameters::Key { layer }, rows, hidden),
        (kernels.project)(DenseParameters::Value { layer }, rows, hidden),
    );
    let attended = (kernels.layer_norm)(
        NormParameters::Attention { layer },
        (kernels.sum)(
            (kernels.project)(DenseParameters::AttentionOutput { layer }, rows, context),
            hidden,
        ),
    );
    let raised = (kernels.gelu)(
        (kernels.project)(DenseParameters::Intermediate { layer }, rows, attended),
    );
    (kernels.layer_norm)(
        NormParameters::Output { layer },
        (kernels.sum)(
            (kernels.project)(DenseParameters::Output { layer }, rows, raised),
            attended,
        ),
    )
}

/// The hidden states behind the first `layers` layers: the normalized embeddings, taken
/// through one layer after another.
pub open spec fn hidden_states<T>(kernels: Kernels<T>, rows: int, layers: nat) -> T
    decreases layers,
{
    if layers == 0 {
        (kernels.layer_norm)(NormParameters::Embedding, kernels.embeddings)
    } else {
        layer_output(
            kernels,
            rows,
            (layers - 1) as usize,
            hidden_states(kernels, rows, (layers - 1) as nat),
        )
    }
}

/// The pooled row: the hyperbolic tangent of the pooler's projection of the first position.
pub open spec fn pooled_row<T>(kernels: Kernels<T>, hidden: T) -> T {
    (kernels.tanh)((kernels.project)(DenseParameters::Pooler, 1, (kernels.first_row)(hidden)))
}

proof fn lemma_performed_concat<T>(
    kernels: Kernels<T>,
    memory: Map<Buffer, T>,
    first: Seq<EncoderStep>,
    second: Seq<EncoderStep>,
)
    ensures
        performed_all(kernels, memory, first + second) == performed_all(
            kernels,
            performed_all(kernels, memory, first),
            second,
        ),
    decreases second.len(),
{
    if second.len() == 0 {
        assert(first + second =~= first);
    } else {
        lemma_performed_concat(kernels, memory, first, second.drop_last());
        assert((first + second).drop_last() =~= first + second.drop_last());
        assert((first + second).last() == second.last());
    }
}

proof fn lemma_performed_take<T>(
    kernels: Kernels<T>,
    memory: Map<Buffer, T>,
    steps: Seq<EncoderStep>,
    n: int,
)
    requires
        0 <= n < steps.len(),
    ensures
        performed_all(kernels, memory, steps.take(n + 1)) == performed(
            kernels,
            performed_all(kernels, memory, steps.take(n)),
            steps[n],
        ),
{
    assert(steps.take(n + 1).drop_last() =~= steps.take(n));
}

proof fn lemma_layer_performed<T>(
    kernels: Kernels<T>,
    memory: Map<Buffer, T>,
    rows: usize,
    layer: usize,
)
    ensures
        performed_all(kernels, memory, layer_steps(rows, layer))[Buffer::Hidden] == layer_output(
            kernels,
            rows as int,
            layer,
            memory[Buffer::Hidden],
        ),
{
    let steps = layer_steps(rows, layer);
    assert(steps.take(0) =~= Seq::empty());
    lemma_performed_take(kernels, memory, steps, 0);
    lemma_performed_take(kernels, memory, steps, 1);
    lemma_performed_take(kernels, memory, steps, 2);
    lemma_performed_take(kernels, memory, steps, 3);
    lemma_performed_take(kernels, memory, steps, 4);
    lemma_performed_take(kernels, memory, steps, 5);
    lemma_performed_take(kernels, memory, steps, 6);
    lemma_performed_take(kernels, memory, steps, 7);
    lemma_performed_take(kernels, memory, steps, 8);
    lemma_performed_take(kernels, memory, steps, 9);
    lemma_performed_take(kernels, memory, steps, 10);
    lemma_performed_take(kernels, memory, steps, 11);
    assert(steps.take(12) =~= steps);
}

proof fn lemma_layers_performed<T>(
    kernels: Kernels<T>,
    memory: Map<Buffer, T>,
    rows: usize,
    layers: nat,
)
    requires
        memory[Buffer::Hidden] == hidden_states(kernels, rows as int, 0),
    ensures
        performed_all(kernels, memory, layers_steps(rows, layers))[Buffer::Hidden]
            == hidden_states(kernels, rows as int, layers),
    decreases layers,
{
    if layers > 0 {
        let fewer = (layers - 1) as nat;
        let before = layers_steps(rows, fewer);
        lemma_layers_performed(kernels, memory, rows, fewer);
        lemma_performed_concat(kernels, memory, before, layer_steps(rows, fewer as usize));
        lemma_layer_performed(
            kernels,
            performed_all(kernels, memory, before),
            rows,
            fewer as usize,
        );
    }
}

/// The forward pass computes the encoder: on any device, whatever its buffers held before and
/// whatever its kernels compute, the planned steps leave the hidden states of all layers in
/// the hidden buffer and the pooled row of those states in the pooled buffer.
pub proof fn law_forward_pass_computes_the_encoder<T>(
    kernels: Kernels<T>,
    memory: Map<Buffer, T>,
    rows: usize,
    layers: nat,
)
    ensures
        ({
            let left = performed_all(kernels, memory, forward_steps(rows, layers));
            let hidden = hidden_states(kernels, rows as int, layers);
            &&& left[Buffer::Hidden] == hidden
            &&& left[Buffer::Pooled] == pooled_row(kernels, hidden)
        }),
{
    let embedding = embedding_steps();
    let middle = layers_steps(rows, layers);
    assert(embedding.take(0) =~= Seq::empty());
    lemma_performed_take(kernels, memory, embedding, 0);
    lemma_performed_take(kernels, memory, embedding, 1);
    lemma_performed_take(kernels, memory, embedding, 2);
    assert(embedding.take(3) =~= embedding);
    let embedded = performed_all(kernels, memory, embedding);
    lemma_layers_performed(kernels, embedded, rows, layers);
    lemma_performed_concat(kernels, memory, embedding, middle);
    lemma_performed_concat(kernels, memory, embedding + middle, pooler_steps());
    let before = performed_all(kernels, memory, embedding + middle);
    let pooler = pooler_steps();
    assert(pooler.take(0) =~= Seq::empty());
    lemma_performed_take(kernels, before, pooler, 0);
    lemma_performed_take(kernels, before, pooler, 1);
    lemma_performed_take(kernels, before, pooler, 2);
    assert(pooler.take(3) =~= pooler);
}

} // verus!
