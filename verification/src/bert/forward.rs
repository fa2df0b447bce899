//! The forward pass as a list of device steps, and the buffers that it works on.
//!
//! The order of the steps and the extent of every buffer are host decisions. A device
//! performs the steps one after another on one stream; nothing about the order is left to
//! it.

use crate::bert::config::BertConfig;
use crate::bert::denotation::{
    hidden_states, law_forward_pass_computes_the_encoder, performed_all, pooled_row, Kernels,
};
use crate::bert::request::{EncoderShape, EncoderShapeView};
use vstd::prelude::*;

verus! {

/// A float buffer of one request.
#[derive(Clone, Copy, Debug, Hash, PartialEq, Eq, Structural)]
pub enum Buffer {
    Hidden,
    Query,
    Key,
    Value,
    Context,
    Projection,
    Intermediate,
    FirstRow,
    Pooled,
}

/// A normalization of the encoder.
#[derive(Clone, Copy, Debug, Hash, PartialEq, Eq, Structural)]
pub enum NormParameters {
    Embedding,
    Attention { layer: usize },
    Output { layer: usize },
}

/// A dense projection of the encoder.
#[derive(Clone, Copy, Debug, Hash, PartialEq, Eq, Structural)]
pub enum DenseParameters {
    Query { layer: usize },
    Key { layer: usize },
    Value { layer: usize },
    AttentionOutput { layer: usize },
    Intermediate { layer: usize },
    Output { layer: usize },
    Pooler,
}

/// One step of the forward pass.
#[derive(Clone, Copy, Debug, Hash, PartialEq, Eq, Structural)]
pub enum EncoderStep {
    /// Sum the word, position and type embeddings of every position.
    EmbeddingSum { output: Buffer },
    /// Normalize every row.
    LayerNorm { norm: NormParameters, input: Buffer, output: Buffer },
    /// Exchange two buffers.
    Swap { first: Buffer, second: Buffer },
    /// Project `rows` rows: `weight * input + bias`.
    Project { dense: DenseParameters, input: Buffer, rows: usize, output: Buffer },
    /// Attend over the unmasked positions.
    Attention { query: Buffer, key: Buffer, value: Buffer, output: Buffer },
    /// Add a buffer to another.
    AddInPlace { target: Buffer, addend: Buffer },
    /// Apply the error-function form of GELU.
    Gelu { target: Buffer },
    /// Copy the first row.
    CopyFirstRow { input: Buffer, output: Buffer },
    /// Apply the hyperbolic tangent.
    Tanh { target: Buffer },
}

/// The steps before the first layer: embed every position and normalize, leaving the result
/// in the hidden buffer.
pub open spec fn embedding_steps() -> Seq<EncoderStep> {
    seq![
        EncoderStep::EmbeddingSum { output: Buffer::Hidden },
        EncoderStep::LayerNorm {
            norm: NormParameters::Embedding,
            input: Buffer::Hidden,
            output: Buffer::Query,
        },
        EncoderStep::Swap { first: Buffer::Hidden, second: Buffer::Query },
    ]
}

/// The steps of one layer: attention with its residual, then the feed-forward with its
/// residual, each normalized back into the hidden buffer.
pub open spec fn layer_steps(rows: usize, layer: usize) -> Seq<EncoderStep> {
    seq![
        EncoderStep::Project {
            dense: DenseParameters::Query { layer },
            input: Buffer::Hidden,
            rows,
            output: Buffer::Query,
        },
        EncoderStep::Project {
            dense: DenseParameters::Key { layer },
            input: Buffer::Hidden,
            rows,
            output: Buffer::Key,
        },
        EncoderStep::Project {
            dense: DenseParameters::Value { layer },
            input: Buffer::Hidden,
            rows,
            output: Buffer::Value,
        },
        EncoderStep::Attention {
            query: Buffer::Query,
            key: Buffer::Key,
            value: Buffer::Value,
            output: Buffer::Context,
        },
        EncoderStep::Project {
            dense: DenseParameters::AttentionOutput { layer },
            input: Buffer::Context,
            rows,
            output: Buffer::Projection,
        },
        EncoderStep::AddInPlace { target: Buffer::Projection, addend: Buffer::Hidden },
        EncoderStep::LayerNorm {
            norm: NormParameters::Attention { layer },
            input: Buffer::Projection,
            output: Buffer::Hidden,
        },
        EncoderStep::Project {
            dense: DenseParameters::Intermediate { layer },
            input: Buffer::Hidden,
            rows,
            output: Buffer::Intermediate,
        },
        EncoderStep::Gelu { target: Buffer::Intermediate },
        EncoderStep::Project {
            dense: DenseParameters::Output { layer },
            input: Buffer::Intermediate,
            rows,
            output: Buffer::Projection,
        },
        EncoderStep::AddInPlace { target: Buffer::Projection, addend: Buffer::Hidden },
        EncoderStep::LayerNorm {
            norm: NormParameters::Output { layer },
            input: Buffer::Projection,
            output: Buffer::Hidden,
        },
    ]
}

/// The steps of the first `layers` layers, in order.
pub open spec fn layers_steps(rows: usize, layers: nat) -> Seq<EncoderStep>
    decreases layers,
{
    if layers == 0 {
        Seq::empty()
    } else {
        layers_steps(rows, (layers - 1) as nat) + layer_steps(rows, (layers - 1) as usize)
    }
}

/// The steps behind the last layer. The pooler reads the first position only, so that row
/// is copied and projected as a single-row input instead of running the head over every
/// position.
pub open spec fn pooler_steps() -> Seq<EncoderStep> {
    seq![
        EncoderStep::CopyFirstRow { input: Buffer::Hidden, output: Buffer::FirstRow },
        EncoderStep::Project {
            dense: DenseParameters::Pooler,
            input: Buffer::FirstRow,
            rows: 1,
            output: Buffer::Pooled,
        },
        EncoderStep::Tanh { target: Buffer::Pooled },
    ]
}

/// The whole forward pass.
pub open spec fn forward_steps(rows: usize, layers: nat) -> Seq<EncoderStep> {
    embedding_steps() + layers_steps(rows, layers) + pooler_steps()
}

fn push_layer(steps: &mut Vec<EncoderStep>, rows: usize, layer: usize)
    ensures
        final(steps)@ == old(steps)@ + layer_steps(rows, layer),
{
    steps.push(
        EncoderStep::Project {
            dense: DenseParameters::Query { layer },
            input: Buffer::Hidden,
            rows,
            output: Buffer::Query,
        },
    );
    steps.push(
        EncoderStep::Project {
            dense: DenseParameters::Key { layer },
            input: Buffer::Hidden,
            rows,
            output: Buffer::Key,
        },
    );
    steps.push(
        EncoderStep::Project {
            dense: DenseParameters::Value { layer },
            input: Buffer::Hidden,
            rows,
            output: Buffer::Value,
        },
    );
    steps.push(
        EncoderStep::Attention {
            query: Buffer::Query,
            key: Buffer::Key,
            value: Buffer::Value,
            output: Buffer::Context,
        },
    );
    steps.push(
        EncoderStep::Project {
            dense: DenseParameters::AttentionOutput { layer },
            input: Buffer::Context,
            rows,
            output: Buffer::Projection,
        },
    );
    steps.push(EncoderStep::AddInPlace { target: Buffer::Projection, addend: Buffer::Hidden });
    steps.push(
        EncoderStep::LayerNorm {
            norm: NormParameters::Attention { layer },
            input: Buffer::Projection,
            output: Buffer::Hidden,
        },
    );
    steps.push(
        EncoderStep::Project {
            dense: DenseParameters::Intermediate { layer },
            input: Buffer::Hidden,
            rows,
            output: Buffer::Intermediate,
        },
    );
    steps.push(EncoderStep::Gelu { target: Buffer::Intermediate });
    steps.push(
        EncoderStep::Project {
            dense: DenseParameters::Output { layer },
            input: Buffer::Intermediate,
            rows,
            output: Buffer::Projection,
        },
    );
    steps.push(EncoderStep::AddInPlace { target: Buffer::Projection, addend: Buffer::Hidden });
    steps.push(
        EncoderStep::LayerNorm {
            norm: NormParameters::Output { layer },
            input: Buffer::Projection,
            output: Buffer::Hidden,
        },
    );
    assert(steps@ =~= old(steps)@ + layer_steps(rows, layer));
}

/// Plan the whole forward pass of a shape through `layers` layers.
#[must_use]
pub fn forward_pass(shape: EncoderShape, layers: usize) -> (r: Vec<EncoderStep>)
    ensures
        r@ == forward_steps(shape@.sequence, layers as nat),
        forall|kernels: Kernels<int>, memory: Map<Buffer, int>|
            {
                let left = #[trigger] performed_all(kernels, memory, r@);
                let hidden = hidden_states(kernels, shape@.sequence as int, layers as nat);
                &&& left[Buffer::Hidden] == hidden
                &&& left[Buffer::Pooled] == pooled_row(kernels, hidden)
            },
{
    let rows: usize = shape.sequence();
    let mut steps: Vec<EncoderStep> = Vec::new();
    steps.push(EncoderStep::EmbeddingSum { output: Buffer::Hidden });
    steps.push(
        EncoderStep::LayerNorm {
            norm: NormParameters::Embedding,
            input: Buffer::Hidden,
            output: Buffer::Query,
        },
    );
    steps.push(EncoderStep::Swap { first: Buffer::Hidden, second: Buffer::Query });
    assert(steps@ =~= embedding_steps());
    let mut layer: usize = 0;
    assert(steps@ =~= embedding_steps() + layers_steps(rows, 0));
    while layer < layers
        invariant
            layer <= layers,
            steps@ == embedding_steps() + layers_steps(rows, layer as nat),
        decreases layers - layer,
    {
        push_layer(&mut steps, rows, layer);
        layer += 1;
        assert(steps@ =~= embedding_steps() + layers_steps(rows, layer as nat));
    }
    let ghost before = steps@;
    steps.push(EncoderStep::CopyFirstRow { input: Buffer::Hidden, output: Buffer::FirstRow });
    steps.push(
        EncoderStep::Project {
            dense: DenseParameters::Pooler,
            input: Buffer::FirstRow,
            rows: 1,
            output: Buffer::Pooled,
        },
    );
    steps.push(EncoderStep::Tanh { target: Buffer::Pooled });
    assert(steps@ =~= before + pooler_steps());
    proof {
        assert forall|kernels: Kernels<int>, memory: Map<Buffer, int>| {
            let left = #[trigger] performed_all(kernels, memory, steps@);
            let hidden = hidden_states(kernels, shape@.sequence as int, layers as nat);
            &&& left[Buffer::Hidden] == hidden
            &&& left[Buffer::Pooled] == pooled_row(kernels, hidden)
        } by {
            law_forward_pass_computes_the_encoder(kernels, memory, rows, layers as nat);
        }
    }
    steps
}

/// Value counts of every buffer that one request holds on the device.
#[derive(Clone, Copy, Debug, PartialEq, Eq, Structural)]
pub struct BufferLengths {
    pub tokens: usize,
    pub types: usize,
    pub mask: usize,
    pub hidden: usize,
    pub query: usize,
    pub key: usize,
    pub value: usize,
    pub context: usize,
    pub projection: usize,
    pub intermediate: usize,
    pub first_row: usize,
    pub pooled: usize,
}

impl BufferLengths {
    /// The buffers that a shape needs.
    pub open spec fn needed(shape: EncoderShapeView) -> BufferLengths {
        BufferLengths {
            tokens: shape.sequence,
            types: shape.sequence,
            mask: shape.sequence,
            hidden: shape.hidden_values,
            query: shape.hidden_values,
            key: shape.hidden_values,
            value: shape.hidden_values,
            context: shape.hidden_values,
            projection: shape.hidden_values,
            intermediate: shape.intermediate_values,
            first_row: shape.hidden,
            pooled: shape.hidden,
        }
    }

    /// Values of the float buffers.
    pub open spec fn floats(self) -> int {
        self.hidden + self.query + self.key + self.value + self.context + self.projection
            + self.intermediate + self.first_row + self.pooled
    }

    /// Values of the id vectors.
    pub open spec fn ids(self) -> int {
        self.tokens + self.types + self.mask
    }

    /// Value count of one float buffer.
    pub open spec fn of(self, buffer: Buffer) -> int {
        match buffer {
            Buffer::Hidden => self.hidden as int,
            Buffer::Query => self.query as int,
            Buffer::Key => self.key as int,
            Buffer::Value => self.value as int,
            Buffer::Context => self.context as int,
            Buffer::Projection => self.projection as int,
            Buffer::Intermediate => self.intermediate as int,
            Buffer::FirstRow => self.first_row as int,
            Buffer::Pooled => self.pooled as int,
        }
    }

    /// The buffers that a shape needs.
    #[must_use]
    pub fn of_shape(shape: EncoderShape) -> (r: Self)
        ensures
            r == BufferLengths::needed(shape@),
    {
        let sequence: usize = shape.sequence();
        let hidden: usize = shape.hidden();
        let hidden_values: usize = shape.hidden_values();
        BufferLengths {
            tokens: sequence,
            types: sequence,
            mask: sequence,
            hidden: hidden_values,
            query: hidden_values,
            key: hidden_values,
            value: hidden_values,
            context: hidden_values,
            projection: hidden_values,
            intermediate: shape.intermediate_values(),
            first_row: hidden,
            pooled: hidden,
        }
    }

    /// Bytes that the buffers hold, at four a value; the largest count where more are held
    /// than can be addressed.
    #[must_use]
    pub fn device_bytes(&self) -> (r: u64)
        requires
            self.floats() <= usize::MAX,
            self.ids() <= usize::MAX,
        ensures
            r == (if 4 * (self.floats() + self.ids()) <= usize::MAX {
                4 * (self.floats() + self.ids())
            } else {
                usize::MAX as int
            }),
    {
        let floats: usize = self.hidden + self.query + self.key + self.value + self.context
            + self.projection + self.intermediate + self.first_row + self.pooled;
        let ids: usize = self.tokens + self.types + self.mask;
        let bytes: usize = match floats.checked_mul(4) {
            None => usize::MAX,
            Some(float_bytes) => match ids.checked_mul(4) {
                None => usize::MAX,
                Some(id_bytes) => match float_bytes.checked_add(id_bytes) {
                    None => usize::MAX,
                    Some(bytes) => bytes,
                },
            },
        };
        bytes as u64
    }
}

/// The `m`, `n` and `k` of one projection and its leading dimensions.
///
/// The checkpoint stores a weight row-major as `[output, input]`, which is column-major
/// `[input, output]`: the projection is a product over `k = input` against the transpose of
/// that view, and gives `[output, rows]` column-major, which is `[rows, output]` row-major.
#[derive(Clone, Copy, Debug, PartialEq, Eq, Structural)]
pub struct GemmDimensions {
    pub m: i32,
    pub n: i32,
    pub k: i32,
    pub lda: i32,
    pub ldb: i32,
    pub ldc: i32,
}

/// Lay out the product that projects `rows` rows.
///
/// # Errors
/// Names the first dimension that a product cannot express: the width, the rows or the
/// inner extent.
pub fn projection_dimensions(output: usize, rows: usize, input: usize) -> (r: Result<
    GemmDimensions,
    &'static str,
>)
    ensures
        output > i32::MAX ==> r == Err::<GemmDimensions, &'static str>("width"),
        output <= i32::MAX && rows > i32::MAX ==> r == Err::<GemmDimensions, &'static str>("rows"),
        output <= i32::MAX && rows <= i32::MAX && input > i32::MAX ==> r == Err::<
            GemmDimensions,
            &'static str,
        >("inner"),
        output <= i32::MAX && rows <= i32::MAX && input <= i32::MAX ==> r == Ok::<
            GemmDimensions,
            &'static str,
        >(
            GemmDimensions {
                m: output as i32,
                n: rows as i32,
                k: input as i32,
                lda: input as i32,
                ldb: input as i32,
                ldc: output as i32,
            },
        ),
{
    let limit: usize = i32::MAX as usize;
    if output > limit {
        return Err("width");
    }
    if rows > limit {
        return Err("rows");
    }
    if input > limit {
        return Err("inner");
    }
    let m: i32 = output as i32;
    let n: i32 = rows as i32;
    let k: i32 = input as i32;
    Ok(GemmDimensions { m, n, k, lda: k, ldb: k, ldc: m })
}

/// The `[output, input]` dimensions of a projection under a configuration.
pub open spec fn dense_dimensions(config: BertConfig, dense: DenseParameters) -> (int, int) {
    let hidden = config.hidden_size as int;
    let intermediate = config.intermediate_size as int;
    match dense {
        DenseParameters::Intermediate { .. } => (intermediate, hidden),
        DenseParameters::Output { .. } => (hidden, intermediate),
        _ => (hidden, hidden),
    }
}

/// The layer whose parameters a step uses, if it uses a layer's.
pub open spec fn step_layer(step: EncoderStep) -> Option<usize> {
    match step {
        EncoderStep::LayerNorm { norm, .. } => match norm {
            NormParameters::Embedding => None,
            NormParameters::Attention { layer } => Some(layer),
            NormParameters::Output { layer } => Some(layer),
        },
        EncoderStep::Project { dense, .. } => match dense {
            DenseParameters::Query { layer } => Some(layer),
            DenseParameters::Key { layer } => Some(layer),
            DenseParameters::Value { layer } => Some(layer),
            DenseParameters::AttentionOutput { layer } => Some(layer),
            DenseParameters::Intermediate { layer } => Some(layer),
            DenseParameters::Output { layer } => Some(layer),
            DenseParameters::Pooler => None,
        },
        _ => None,
    }
}

/// Whether a step stays inside the buffers it names: rows times width is exactly the
/// extent of what it reads and writes.
pub open spec fn step_fits(
    config: BertConfig,
    rows: int,
    lengths: BufferLengths,
    step: EncoderStep,
) -> bool {
    let hidden = config.hidden_size as int;
    match step {
        EncoderStep::EmbeddingSum { output } => {
            &&& lengths.tokens == rows
            &&& lengths.types == rows
            &&& lengths.of(output) == rows * hidden
        },
        EncoderStep::LayerNorm { input, output, .. } => {
            &&& input != output
            &&& lengths.of(input) == rows * hidden
            &&& lengths.of(output) == rows * hidden
        },
        EncoderStep::Swap { first, second } => {
            &&& first != second
            &&& lengths.of(first) == lengths.of(second)
        },
        EncoderStep::Project { dense, input, rows: projected, output } => {
            &&& input != output
            &&& lengths.of(input) == projected * dense_dimensions(config, dense).1
            &&& lengths.of(output) == projected * dense_dimensions(config, dense).0
        },
        EncoderStep::Attention { query, key, value, output } => {
            &&& output != query && output != key && output != value
            &&& lengths.mask == rows
            &&& lengths.of(query) == rows * hidden
            &&& lengths.of(key) == rows * hidden
            &&& lengths.of(value) == rows * hidden
            &&& lengths.of(output) == rows * hidden
        },
        EncoderStep::AddInPlace { target, addend } => {
            &&& target != addend
            &&& lengths.of(target) == lengths.of(addend)
        },
        EncoderStep::Gelu { .. } => true,
        EncoderStep::CopyFirstRow { input, output } => {
            &&& input != output
            &&& lengths.of(input) >= hidden
            &&& lengths.of(output) == hidden
        },
        EncoderStep::Tanh { .. } => true,
    }
}

/// The buffers that hold a computed value once a step has run on such buffers, or none
/// where the step reads a buffer that holds none.
pub open spec fn after_step(written: Set<Buffer>, step: EncoderStep) -> Option<Set<Buffer>> {
    match step {
        EncoderStep::EmbeddingSum { output } => Some(written.insert(output)),
        EncoderStep::LayerNorm { input, output, .. } => if written.contains(input) {
            Some(written.insert(output))
        } else {
            None
        },
        EncoderStep::Swap { first, second } => if written.contains(first) && written.contains(
            second,
        ) {
            Some(written)
        } else {
            None
        },
        EncoderStep::Project { input, output, .. } => if written.contains(input) {
            Some(written.insert(output))
        } else {
            None
        },
        EncoderStep::Attention { query, key, value, output } => if written.contains(query)
            && written.contains(key) && written.contains(value) {
            Some(written.insert(output))
        } else {
            None
        },
        EncoderStep::AddInPlace { target, addend } => if written.contains(target)
            && written.contains(addend) {
            Some(written)
        } else {
            None
        },
        EncoderStep::Gelu { target } => if written.contains(target) {
            Some(written)
        } else {
            None
        },
        EncoderStep::CopyFirstRow { input, output } => if written.contains(input) {
            Some(written.insert(output))
        } else {
            None
        },
        EncoderStep::Tanh { target } => if written.contains(target) {
            Some(written)
        } else {
            None
        },
    }
}

/// The same of a list of steps.
pub open spec fn after_steps(written: Set<Buffer>, steps: Seq<EncoderStep>) -> Option<Set<Buffer>>
    decreases steps.len(),
{
    if steps.len() == 0 {
        Some(written)
    } else {
        match after_steps(written, steps.drop_last()) {
            None => None,
            Some(before) => after_step(before, steps.last()),
        }
    }
}

proof fn lemma_after_steps_concat(
    written: Set<Buffer>,
    first: Seq<EncoderStep>,
    second: Seq<EncoderStep>,
)
    ensures
        after_steps(written, first + second) == (match after_steps(written, first) {
            None => None,
            Some(between) => after_steps(between, second),
        }),
    decreases second.len(),
{
    if second.len() == 0 {
        assert(first + second =~= first);
    } else {
        lemma_after_steps_concat(written, first, second.drop_last());
        assert((first + second).drop_last() =~= first + second.drop_last());
        assert((first + second).last() == second.last());
    }
}

/// What holds of the written buffers between layers.
pub open spec fn layer_ready(written: Option<Set<Buffer>>) -> bool {
    written is Some && written->Some_0.contains(Buffer::Hidden)
}

proof fn lemma_after_take(written: Set<Buffer>, steps: Seq<EncoderStep>, n: int)
    requires
        0 <= n < steps.len(),
    ensures
        after_steps(written, steps.take(n + 1)) == (match after_steps(written, steps.take(n)) {
            None => None,
            Some(before) => after_step(before, steps[n]),
        }),
{
    assert(steps.take(n + 1).drop_last() =~= steps.take(n));
}

proof fn lemma_layer_keeps_ready(written: Set<Buffer>, rows: usize, layer: usize)
    requires
        written.contains(Buffer::Hidden),
    ensures
        layer_ready(after_steps(written, layer_steps(rows, layer))),
{
    let steps = layer_steps(rows, layer);
    assert(steps.take(0) =~= Seq::empty());
    lemma_after_take(written, steps, 0);
    lemma_after_take(written, steps, 1);
    lemma_after_take(written, steps, 2);
    lemma_after_take(written, steps, 3);
    lemma_after_take(written, steps, 4);
    lemma_after_take(written, steps, 5);
    lemma_after_take(written, steps, 6);
    lemma_after_take(written, steps, 7);
    lemma_after_take(written, steps, 8);
    lemma_after_take(written, steps, 9);
    lemma_after_take(written, steps, 10);
    lemma_after_take(written, steps, 11);
    assert(steps.take(12) =~= steps);
}

proof fn lemma_layers_keep_ready(written: Set<Buffer>, rows: usize, layers: nat)
    requires
        written.contains(Buffer::Hidden),
    ensures
        layer_ready(after_steps(written, layers_steps(rows, layers))),
    decreases layers,
{
    if layers > 0 {
        let before = layers_steps(rows, (layers - 1) as nat);
        lemma_layers_keep_ready(written, rows, (layers - 1) as nat);
        lemma_after_steps_concat(written, before, layer_steps(rows, (layers - 1) as usize));
        lemma_layer_keeps_ready(
            after_steps(written, before)->Some_0,
            rows,
            (layers - 1) as usize,
        );
    }
}

/// The forward pass reads no buffer before it was written, whatever the number of layers,
/// and leaves both results written: the hidden states and the pooled row.
pub proof fn law_steps_read_only_written_buffers(rows: usize, layers: nat)
    ensures
        ({
            let written = after_steps(Set::empty(), forward_steps(rows, layers));
            &&& written is Some
            &&& written->Some_0.contains(Buffer::Hidden)
            &&& written->Some_0.contains(Buffer::Pooled)
        }),
{
    let start = Set::<Buffer>::empty();
    let embedding = embedding_steps();
    let middle = layers_steps(rows, layers);
    assert(embedding.take(0) =~= Seq::empty());
    lemma_after_take(start, embedding, 0);
    lemma_after_take(start, embedding, 1);
    lemma_after_take(start, embedding, 2);
    assert(embedding.take(3) =~= embedding);
    assert(layer_ready(after_steps(start, embedding)));
    let embedded = after_steps(start, embedding)->Some_0;
    lemma_layers_keep_ready(embedded, rows, layers);
    lemma_after_steps_concat(start, embedding, middle);
    lemma_after_steps_concat(start, embedding + middle, pooler_steps());
    let before = after_steps(start, embedding + middle)->Some_0;
    let pooler = pooler_steps();
    assert(pooler.take(0) =~= Seq::empty());
    lemma_after_take(before, pooler, 0);
    lemma_after_take(before, pooler, 1);
    lemma_after_take(before, pooler, 2);
    assert(pooler.take(3) =~= pooler);
}

/// Every step of the forward pass stays inside the buffers that the shape allocates: rows
/// times width is the exact extent of what it reads and writes, no step reads and writes
/// one buffer where the device does not allow it, and every layer that a step names exists.
pub proof fn law_steps_fit_their_buffers(
    config: BertConfig,
    shape: EncoderShapeView,
    layers: nat,
    at: int,
)
    requires
        shape.wf(),
        shape.hidden == config.hidden_size,
        shape.intermediate_values == shape.sequence * config.intermediate_size,
        layers <= usize::MAX,
        0 <= at < forward_steps(shape.sequence, layers).len(),
    ensures
        step_fits(
            config,
            shape.sequence as int,
            BufferLengths::needed(shape),
            forward_steps(shape.sequence, layers)[at],
        ),
        match step_layer(forward_steps(shape.sequence, layers)[at]) {
            Some(layer) => layer < layers,
            None => true,
        },
{
    let rows = shape.sequence;
    let lengths = BufferLengths::needed(shape);
    let hidden = config.hidden_size;
    assert(rows * hidden >= hidden && rows * hidden == hidden * rows && 1 * hidden == hidden)
        by (nonlinear_arith)
        requires
            rows >= 1,
    ;
    let middle = layers_steps(rows, layers);
    if 3 <= at < 3 + middle.len() {
        lemma_layers_fit(config, shape, layers, at - 3);
    }
}

proof fn lemma_layers_fit(config: BertConfig, shape: EncoderShapeView, layers: nat, at: int)
    requires
        shape.wf(),
        shape.hidden == config.hidden_size,
        shape.intermediate_values == shape.sequence * config.intermediate_size,
        layers <= usize::MAX,
        0 <= at < layers_steps(shape.sequence, layers).len(),
    ensures
        step_fits(
            config,
            shape.sequence as int,
            BufferLengths::needed(shape),
            layers_steps(shape.sequence, layers)[at],
        ),
        match step_layer(layers_steps(shape.sequence, layers)[at]) {
            Some(layer) => layer < layers,
            None => true,
        },
    decreases layers,
{
    let before = layers_steps(shape.sequence, (layers - 1) as nat);
    if at < before.len() {
        lemma_layers_fit(config, shape, (layers - 1) as nat, at);
        assert(layers_steps(shape.sequence, layers)[at] == before[at]);
    } else {
        let step = layer_steps(shape.sequence, (layers - 1) as usize)[at - before.len()];
        assert(layers_steps(shape.sequence, layers)[at] == step);
    }
}

/// The envelope a pool is charged for is the storage it covers: the bytes counted from the
/// buffers that a shape allocates are the bytes that the shape predicts.
pub proof fn law_envelope_is_the_storage(shape: EncoderShapeView)
    requires
        shape.wf(),
    ensures
        4 * (BufferLengths::needed(shape).floats() + BufferLengths::needed(shape).ids())
            == shape.device_bytes,
        BufferLengths::needed(shape).floats() <= usize::MAX,
        BufferLengths::needed(shape).ids() <= usize::MAX,
{
}

} // verus!
