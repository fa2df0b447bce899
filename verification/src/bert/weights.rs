//! Host-side parameter loading and shape validation.
//!
//! The encoder declares which parameters a BERT checkpoint must carry and what shape each
//! one has. Resolving the package and reading tensor bytes belongs to the caller, who asks
//! [`WeightLoader`] which parameter comes next and hands over what was found;
//! interpreting those bytes as this model's parameters belongs here.

use crate::bert::config::BertConfig;
use crate::engine::single::Single;
use crate::foundation::parameter::ScalarType;
use crate::text::{decimal, is_digit, lemma_decimal_digits, number};
use std::collections::VecDeque;
use vstd::prelude::*;

verus! {

/// One dense projection: `weight` is `[output, input]` in row-major order, matching the
/// checkpoint's `torch.nn.Linear` layout, and `bias` has one value per output.
#[derive(Clone, Debug, PartialEq)]
pub struct Dense {
    pub input: usize,
    pub output: usize,
    pub weight: Vec<Single>,
    pub bias: Vec<Single>,
}

/// One normalization layer's affine parameters.
#[derive(Clone, Debug, PartialEq)]
pub struct LayerNorm {
    pub weight: Vec<Single>,
    pub bias: Vec<Single>,
}

/// Every parameter of one encoder layer.
#[derive(Clone, Debug, PartialEq)]
pub struct Layer {
    pub query: Dense,
    pub key: Dense,
    pub value: Dense,
    pub attention_output: Dense,
    pub attention_norm: LayerNorm,
    pub intermediate: Dense,
    pub output: Dense,
    pub output_norm: LayerNorm,
}

/// A complete encoder's parameters on the host.
#[derive(Clone, Debug, PartialEq)]
pub struct HostWeights {
    pub word_embeddings: Vec<Single>,
    pub position_embeddings: Vec<Single>,
    pub token_type_embeddings: Vec<Single>,
    pub embedding_norm: LayerNorm,
    pub layers: Vec<Layer>,
    pub pooler: Dense,
}

impl Dense {
    /// The dimensions of `weight`.
    pub open spec fn dimensions(self) -> Seq<usize> {
        seq![self.output, self.input]
    }

    fn dimensions_list(&self) -> (r: Vec<usize>)
        ensures
            r@ == self.dimensions(),
    {
        let dimensions: Vec<usize> = vec![self.output, self.input];
        assert(dimensions@ =~= self.dimensions());
        dimensions
    }

    /// Flattened row-major offset of `weight[row][column]`.
    #[must_use]
    pub fn offset(&self, row: usize, column: usize) -> (r: usize)
        requires
            row * self.input + column <= usize::MAX,
        ensures
            r == row * self.input + column,
    {
        assert(0 <= row * self.input) by (nonlinear_arith);
        row * self.input + column
    }
}

/// A parameter that a checkpoint must carry: its name and its shape.
#[derive(Clone, Debug, PartialEq, Eq)]
pub struct TensorRequirement {
    pub name: String,
    pub shape: Vec<usize>,
}

/// What a requirement demands.
#[verifier::ext_equal]
pub struct TensorRequirementView {
    pub name: Seq<char>,
    pub shape: Seq<usize>,
}

impl View for TensorRequirement {
    type V = TensorRequirementView;

    open spec fn view(&self) -> TensorRequirementView {
        TensorRequirementView { name: self.name@, shape: self.shape@ }
    }
}

/// A tensor as a package stores it.
#[derive(Clone, Debug, PartialEq, Eq)]
pub struct TensorData {
    pub scalar_type: ScalarType,
    pub shape: Vec<usize>,
    /// The payload, every value in little-endian byte order.
    pub data: Vec<u8>,
}

/// Why a package gave no tensor for a parameter.
#[derive(Clone, Debug, PartialEq, Eq)]
pub enum TensorFailure {
    /// The package knows no parameter of that name.
    UnknownParameter,
    /// The package could not be read.
    Package(String),
}

/// Why a checkpoint cannot supply this encoder's parameters.
#[derive(Clone, Debug, PartialEq, Eq)]
pub enum WeightError {
    Package(String),
    Missing(String),
    Shape { parameter: String, expected: Vec<usize>, found: Vec<usize> },
    Dtype { parameter: String },
    Length { parameter: String, expected: usize, found: usize },
}

/// What a weight error says.
#[verifier::ext_equal]
pub enum WeightErrorView {
    Package(Seq<char>),
    Missing(Seq<char>),
    Shape { parameter: Seq<char>, expected: Seq<usize>, found: Seq<usize> },
    Dtype { parameter: Seq<char> },
    Length { parameter: Seq<char>, expected: usize, found: usize },
}

impl View for WeightError {
    type V = WeightErrorView;

    open spec fn view(&self) -> WeightErrorView {
        match *self {
            WeightError::Package(message) => WeightErrorView::Package(message@),
            WeightError::Missing(parameter) => WeightErrorView::Missing(parameter@),
            WeightError::Shape { parameter, expected, found } => WeightErrorView::Shape {
                parameter: parameter@,
                expected: expected@,
                found: found@,
            },
            WeightError::Dtype { parameter } => WeightErrorView::Dtype { parameter: parameter@ },
            WeightError::Length { parameter, expected, found } => WeightErrorView::Length {
                parameter: parameter@,
                expected,
                found,
            },
        }
    }
}

/// How many values a shape holds.
pub open spec fn product(shape: Seq<usize>) -> int
    decreases shape.len(),
{
    if shape.len() == 0 {
        1
    } else {
        product(shape.drop_last()) * shape.last()
    }
}

/// A count as far as it can be represented. No payload holds more values than that.
pub open spec fn countable(count: int) -> usize {
    if count <= usize::MAX {
        count as usize
    } else {
        usize::MAX
    }
}

/// The value that stands at one place of a little-endian payload.
pub open spec fn single_at(data: Seq<u8>, index: int) -> Single {
    Single {
        bits: (data[4 * index] + 0x100 * data[4 * index + 1] + 0x1_0000 * data[4 * index + 2]
            + 0x100_0000 * data[4 * index + 3]) as u32,
    }
}

/// The values of a little-endian payload.
pub open spec fn singles(data: Seq<u8>) -> Seq<Single> {
    Seq::new((data.len() / 4) as nat, |index: int| single_at(data, index))
}

/// What a found tensor supplies to a requirement, or why it cannot.
pub open spec fn supplied(
    requirement: TensorRequirementView,
    found: Result<TensorData, TensorFailure>,
) -> Result<Seq<Single>, WeightErrorView> {
    match found {
        Err(TensorFailure::UnknownParameter) => Err(WeightErrorView::Missing(requirement.name)),
        Err(TensorFailure::Package(message)) => Err(WeightErrorView::Package(message@)),
        Ok(tensor) => if !(tensor.scalar_type is F32) {
            Err(WeightErrorView::Dtype { parameter: requirement.name })
        } else if tensor.shape@ != requirement.shape {
            Err(
                WeightErrorView::Shape {
                    parameter: requirement.name,
                    expected: requirement.shape,
                    found: tensor.shape@,
                },
            )
        } else if singles(tensor.data@).len() != product(requirement.shape) {
            Err(
                WeightErrorView::Length {
                    parameter: requirement.name,
                    expected: countable(product(requirement.shape)),
                    found: singles(tensor.data@).len() as usize,
                },
            )
        } else {
            Ok(singles(tensor.data@))
        },
    }
}

/// Parameters before the first layer: three embedding tables and their normalization.
pub const EMBEDDING_PARAMETERS: usize = 5;

/// Parameters of one layer.
pub const LAYER_PARAMETERS: usize = 16;

/// Parameters behind the last layer: the pooler's weight and bias.
pub const POOLER_PARAMETERS: usize = 2;

/// How many parameters an encoder has.
pub open spec fn parameter_count(config: BertConfig) -> int {
    EMBEDDING_PARAMETERS + LAYER_PARAMETERS * config.num_hidden_layers + POOLER_PARAMETERS
}

/// The position of a layer's first parameter.
pub open spec fn layer_start(layer: int) -> int {
    EMBEDDING_PARAMETERS + LAYER_PARAMETERS * layer
}

/// The name of a parameter before the first layer.
pub open spec fn embedding_name(slot: int) -> Seq<char> {
    if slot == 0 {
        "embeddings.word_embeddings.weight"@
    } else if slot == 1 {
        "embeddings.position_embeddings.weight"@
    } else if slot == 2 {
        "embeddings.token_type_embeddings.weight"@
    } else if slot == 3 {
        "embeddings.LayerNorm.weight"@
    } else {
        "embeddings.LayerNorm.bias"@
    }
}

/// What the name of a layer parameter adds to the name of its layer.
pub open spec fn layer_suffix(slot: int) -> Seq<char> {
    if slot == 0 {
        ".attention.self.query.weight"@
    } else if slot == 1 {
        ".attention.self.query.bias"@
    } else if slot == 2 {
        ".attention.self.key.weight"@
    } else if slot == 3 {
        ".attention.self.key.bias"@
    } else if slot == 4 {
        ".attention.self.value.weight"@
    } else if slot == 5 {
        ".attention.self.value.bias"@
    } else if slot == 6 {
        ".attention.output.dense.weight"@
    } else if slot == 7 {
        ".attention.output.dense.bias"@
    } else if slot == 8 {
        ".attention.output.LayerNorm.weight"@
    } else if slot == 9 {
        ".attention.output.LayerNorm.bias"@
    } else if slot == 10 {
        ".intermediate.dense.weight"@
    } else if slot == 11 {
        ".intermediate.dense.bias"@
    } else if slot == 12 {
        ".output.dense.weight"@
    } else if slot == 13 {
        ".output.dense.bias"@
    } else if slot == 14 {
        ".output.LayerNorm.weight"@
    } else {
        ".output.LayerNorm.bias"@
    }
}

/// The name of a parameter behind the last layer.
pub open spec fn pooler_name(slot: int) -> Seq<char> {
    if slot == 0 {
        "pooler.dense.weight"@
    } else {
        "pooler.dense.bias"@
    }
}

/// The shape of a parameter before the first layer.
pub open spec fn embedding_shape(config: BertConfig, slot: int) -> Seq<usize> {
    if slot == 0 {
        seq![config.vocab_size, config.hidden_size]
    } else if slot == 1 {
        seq![config.max_position_embeddings, config.hidden_size]
    } else if slot == 2 {
        seq![config.type_vocab_size, config.hidden_size]
    } else {
        seq![config.hidden_size]
    }
}

/// The shape of a layer parameter.
pub open spec fn layer_shape(config: BertConfig, slot: int) -> Seq<usize> {
    if slot == 10 {
        seq![config.intermediate_size, config.hidden_size]
    } else if slot == 11 {
        seq![config.intermediate_size]
    } else if slot == 12 {
        seq![config.hidden_size, config.intermediate_size]
    } else if slot == 0 || slot == 2 || slot == 4 || slot == 6 {
        seq![config.hidden_size, config.hidden_size]
    } else {
        seq![config.hidden_size]
    }
}

/// The shape of a parameter behind the last layer.
pub open spec fn pooler_shape(config: BertConfig, slot: int) -> Seq<usize> {
    if slot == 0 {
        seq![config.hidden_size, config.hidden_size]
    } else {
        seq![config.hidden_size]
    }
}

fn embedding_name_text(slot: usize) -> (r: &'static str)
    ensures
        slot < 5 ==> r@ == embedding_name(slot as int),
{
    match slot {
        0 => "embeddings.word_embeddings.weight",
        1 => "embeddings.position_embeddings.weight",
        2 => "embeddings.token_type_embeddings.weight",
        3 => "embeddings.LayerNorm.weight",
        _ => "embeddings.LayerNorm.bias",
    }
}

fn layer_suffix_text(slot: usize) -> (r: &'static str)
    ensures
        slot < 16 ==> r@ == layer_suffix(slot as int),
{
    match slot {
        0 => ".attention.self.query.weight",
        1 => ".attention.self.query.bias",
        2 => ".attention.self.key.weight",
        3 => ".attention.self.key.bias",
        4 => ".attention.self.value.weight",
        5 => ".attention.self.value.bias",
        6 => ".attention.output.dense.weight",
        7 => ".attention.output.dense.bias",
        8 => ".attention.output.LayerNorm.weight",
        9 => ".attention.output.LayerNorm.bias",
        10 => ".intermediate.dense.weight",
        11 => ".intermediate.dense.bias",
        12 => ".output.dense.weight",
        13 => ".output.dense.bias",
        14 => ".output.LayerNorm.weight",
        _ => ".output.LayerNorm.bias",
    }
}

fn pooler_name_text(slot: usize) -> (r: &'static str)
    ensures
        slot < 2 ==> r@ == pooler_name(slot as int),
{
    match slot {
        0 => "pooler.dense.weight",
        _ => "pooler.dense.bias",
    }
}

fn embedding_dimensions(config: &BertConfig, slot: usize) -> (r: Vec<usize>)
    ensures
        slot < 5 ==> r@ == embedding_shape(*config, slot as int),
{
    let shape: Vec<usize> = match slot {
        0 => vec![config.vocab_size, config.hidden_size],
        1 => vec![config.max_position_embeddings, config.hidden_size],
        2 => vec![config.type_vocab_size, config.hidden_size],
        _ => vec![config.hidden_size],
    };
    assert(slot < 5 ==> shape@ =~= embedding_shape(*config, slot as int));
    shape
}

fn layer_dimensions(config: &BertConfig, slot: usize) -> (r: Vec<usize>)
    ensures
        slot < 16 ==> r@ == layer_shape(*config, slot as int),
{
    let shape: Vec<usize> = match slot {
        10 => vec![config.intermediate_size, config.hidden_size],
        11 => vec![config.intermediate_size],
        12 => vec![config.hidden_size, config.intermediate_size],
        0 | 2 | 4 | 6 => vec![config.hidden_size, config.hidden_size],
        _ => vec![config.hidden_size],
    };
    assert(slot < 16 ==> shape@ =~= layer_shape(*config, slot as int));
    shape
}

fn pooler_dimensions(config: &BertConfig, slot: usize) -> (r: Vec<usize>)
    ensures
        slot < 2 ==> r@ == pooler_shape(*config, slot as int),
{
    let shape: Vec<usize> = match slot {
        0 => vec![config.hidden_size, config.hidden_size],
        _ => vec![config.hidden_size],
    };
    assert(slot < 2 ==> shape@ =~= pooler_shape(*config, slot as int));
    shape
}

/// The parameter at one position of an encoder's inventory, in loading order.
pub open spec fn requirement(config: BertConfig, position: int) -> TensorRequirementView {
    let layer = (position - EMBEDDING_PARAMETERS) / LAYER_PARAMETERS as int;
    let slot = (position - EMBEDDING_PARAMETERS) % LAYER_PARAMETERS as int;
    if position < EMBEDDING_PARAMETERS {
        TensorRequirementView {
            name: embedding_name(position),
            shape: embedding_shape(config, position),
        }
    } else if layer < config.num_hidden_layers {
        TensorRequirementView {
            name: "encoder.layer."@ + decimal(layer as nat) + layer_suffix(slot),
            shape: layer_shape(config, slot),
        }
    } else {
        let slot = position - layer_start(config.num_hidden_layers as int);
        TensorRequirementView { name: pooler_name(slot), shape: pooler_shape(config, slot) }
    }
}

proof fn lemma_product_small(shape: Seq<usize>)
    requires
        1 <= shape.len() <= 2,
    ensures
        shape.len() == 1 ==> product(shape) == shape[0],
        shape.len() == 2 ==> product(shape) == shape[0] * shape[1],
{
    reveal_with_fuel(product, 3);
    if shape.len() == 2 {
        assert(shape.drop_last().drop_last() =~= Seq::empty());
        assert(shape.drop_last()[0] == shape[0]);
        assert(1 * shape[0] == shape[0]);
    } else {
        assert(shape.drop_last() =~= Seq::empty());
        assert(1 * shape[0] == shape[0]);
    }
}

/// Every required shape has one or two dimensions.
proof fn lemma_requirement_shape(config: BertConfig, position: int)
    requires
        0 <= position < parameter_count(config),
    ensures
        1 <= requirement(config, position).shape.len() <= 2,
{
}

/// The parameter at one position of an encoder's inventory, in loading order.
#[must_use]
pub fn required_tensor(config: &BertConfig, position: u128) -> (r: TensorRequirement)
    requires
        position < parameter_count(*config),
    ensures
        r@ == requirement(*config, position as int),
{
    if position < EMBEDDING_PARAMETERS as u128 {
        return TensorRequirement {
            name: embedding_name_text(position as usize).to_owned(),
            shape: embedding_dimensions(config, position as usize),
        };
    }
    let (layer, slot) = layer_place(config, position);
    if layer < config.num_hidden_layers {
        let mut name = "encoder.layer.".to_owned();
        name.append(number(layer as u64).as_str());
        name.append(layer_suffix_text(slot));
        return TensorRequirement { name, shape: layer_dimensions(config, slot) };
    }
    TensorRequirement {
        name: pooler_name_text(slot).to_owned(),
        shape: pooler_dimensions(config, slot),
    }
}

/// The layer and the place in it of a parameter behind the embeddings. The parameters behind
/// the last layer have its number, and their own places.
fn layer_place(config: &BertConfig, position: u128) -> (r: (usize, usize))
    requires
        EMBEDDING_PARAMETERS <= position < parameter_count(*config),
    ensures
        r.0 == (position - EMBEDDING_PARAMETERS) / LAYER_PARAMETERS as int,
        r.1 == (position - EMBEDDING_PARAMETERS) % LAYER_PARAMETERS as int,
        r.0 <= config.num_hidden_layers,
        r.0 == config.num_hidden_layers ==> r.1 < POOLER_PARAMETERS && position == layer_start(
            config.num_hidden_layers as int,
        ) + r.1,
{
    let behind: u128 = position - EMBEDDING_PARAMETERS as u128;
    let layer: u128 = behind / LAYER_PARAMETERS as u128;
    let slot: u128 = behind % LAYER_PARAMETERS as u128;
    assert(layer <= config.num_hidden_layers);
    (layer as usize, slot as usize)
}

fn same_shape(a: &Vec<usize>, b: &Vec<usize>) -> (r: bool)
    ensures
        r == (a@ == b@),
{
    if a.len() != b.len() {
        return false;
    }
    let mut index: usize = 0;
    while index < a.len()
        invariant
            index <= a@.len() == b@.len(),
            forall|i: int| 0 <= i < index ==> a@[i] == b@[i],
        decreases a@.len() - index,
    {
        if a[index] != b[index] {
            assert(a@[index as int] != b@[index as int]);
            return false;
        }
        index += 1;
    }
    assert(a@ =~= b@);
    true
}

/// How many values a shape of one or two dimensions holds, where that can be represented.
fn value_count(shape: &Vec<usize>) -> (r: Option<usize>)
    requires
        1 <= shape@.len() <= 2,
    ensures
        product(shape@) <= usize::MAX ==> r is Some && r->Some_0 == product(shape@),
        product(shape@) > usize::MAX ==> r is None,
{
    proof {
        lemma_product_small(shape@);
    }
    if shape.len() == 1 {
        Some(shape[0])
    } else {
        shape[0].checked_mul(shape[1])
    }
}

/// The count of values that a shape of one or two dimensions demands of `found` values, if
/// they are not as many.
fn missed_count(shape: &Vec<usize>, found: usize) -> (r: Option<usize>)
    requires
        1 <= shape@.len() <= 2,
    ensures
        found == product(shape@) ==> r is None,
        found != product(shape@) ==> r == Some(countable(product(shape@))),
{
    match value_count(shape) {
        Some(expected) => if found == expected {
            None
        } else {
            Some(expected)
        },
        None => Some(usize::MAX),
    }
}

/// The values of a little-endian payload.
fn decode(data: &Vec<u8>) -> (r: Vec<Single>)
    ensures
        r@ == singles(data@),
{
    let count: usize = data.len() / 4;
    let mut values: Vec<Single> = Vec::new();
    let mut index: usize = 0;
    while index < count
        invariant
            index <= count == data@.len() / 4,
            data@.len() <= usize::MAX,
            values@ == singles(data@).take(index as int),
        decreases count - index,
    {
        let bits: u32 = data[4 * index] as u32 + 0x100 * data[4 * index + 1] as u32 + 0x1_0000
            * data[4 * index + 2] as u32 + 0x100_0000 * data[4 * index + 3] as u32;
        values.push(Single { bits });
        index += 1;
        assert(values@ =~= singles(data@).take(index as int));
    }
    assert(values@ =~= singles(data@));
    values
}

/// Interpret a found tensor as the values of the parameter that was required.
///
/// # Errors
/// Returns [`WeightError`] for a missing parameter, a wrong shape or dtype, or a package
/// resolution failure.
pub fn supply(requirement: TensorRequirement, found: Result<TensorData, TensorFailure>) -> (r:
    Result<Vec<Single>, WeightError>)
    requires
        1 <= requirement@.shape.len() <= 2,
    ensures
        match supplied(requirement@, found) {
            Ok(values) => r is Ok && r->Ok_0@ == values,
            Err(error) => r is Err && r->Err_0@ == error,
        },
{
    let tensor = match found {
        Ok(tensor) => tensor,
        Err(TensorFailure::UnknownParameter) => return Err(
            WeightError::Missing(requirement.name),
        ),
        Err(TensorFailure::Package(message)) => return Err(WeightError::Package(message)),
    };
    match &tensor.scalar_type {
        ScalarType::F32 => {},
        _ => return Err(WeightError::Dtype { parameter: requirement.name }),
    }
    if !same_shape(&tensor.shape, &requirement.shape) {
        return Err(
            WeightError::Shape {
                parameter: requirement.name,
                expected: requirement.shape,
                found: tensor.shape,
            },
        );
    }
    let values = decode(&tensor.data);
    match missed_count(&requirement.shape, values.len()) {
        Some(expected) => Err(
            WeightError::Length { parameter: requirement.name, expected, found: values.len() },
        ),
        None => Ok(values),
    }
}

/// Collects every parameter of one encoder, in inventory order.
#[derive(Debug)]
pub struct WeightLoader {
    config: BertConfig,
    tensors: VecDeque<Vec<Single>>,
}

/// What a loader holds: the values of the parameters supplied so far.
#[verifier::ext_equal]
pub struct WeightLoaderView {
    pub config: BertConfig,
    pub tensors: Seq<Vec<Single>>,
}

impl View for WeightLoader {
    type V = WeightLoaderView;

    closed spec fn view(&self) -> WeightLoaderView {
        WeightLoaderView { config: self.config, tensors: self.tensors@ }
    }
}

impl WeightLoaderView {
    /// Whether each supplied parameter has the value count of its shape.
    pub open spec fn wf(self) -> bool {
        &&& self.tensors.len() <= parameter_count(self.config)
        &&& forall|i: int|
            0 <= i < self.tensors.len() ==> (#[trigger] self.tensors[i])@.len() == product(
                requirement(self.config, i).shape,
            )
    }

    /// Whether every parameter was supplied.
    pub open spec fn complete(self) -> bool {
        self.tensors.len() == parameter_count(self.config)
    }
}

/// A projection out of two supplied parameters.
pub open spec fn dense_of(input: usize, output: usize, tensors: Seq<Vec<Single>>, at: int) -> Dense {
    Dense { input, output, weight: tensors[at], bias: tensors[at + 1] }
}

/// A normalization out of two supplied parameters.
pub open spec fn norm_of(tensors: Seq<Vec<Single>>, at: int) -> LayerNorm {
    LayerNorm { weight: tensors[at], bias: tensors[at + 1] }
}

/// A layer out of the parameters supplied for it.
pub open spec fn layer_of(config: BertConfig, tensors: Seq<Vec<Single>>, layer: int) -> Layer {
    let hidden = config.hidden_size;
    let intermediate = config.intermediate_size;
    let at = layer_start(layer);
    Layer {
        query: dense_of(hidden, hidden, tensors, at),
        key: dense_of(hidden, hidden, tensors, at + 2),
        value: dense_of(hidden, hidden, tensors, at + 4),
        attention_output: dense_of(hidden, hidden, tensors, at + 6),
        attention_norm: norm_of(tensors, at + 8),
        intermediate: dense_of(hidden, intermediate, tensors, at + 10),
        output: dense_of(intermediate, hidden, tensors, at + 12),
        output_norm: norm_of(tensors, at + 14),
    }
}

/// Whether host weights hold the supplied parameters, each in its place.
pub open spec fn assembled(
    config: BertConfig,
    tensors: Seq<Vec<Single>>,
    weights: HostWeights,
) -> bool {
    &&& weights.word_embeddings == tensors[0]
    &&& weights.position_embeddings == tensors[1]
    &&& weights.token_type_embeddings == tensors[2]
    &&& weights.embedding_norm == norm_of(tensors, 3)
    &&& weights.layers@ == Seq::new(
        config.num_hidden_layers as nat,
        |layer: int| layer_of(config, tensors, layer),
    )
    &&& weights.pooler == dense_of(
        config.hidden_size,
        config.hidden_size,
        tensors,
        layer_start(config.num_hidden_layers as int),
    )
}

fn take_next(tensors: &mut VecDeque<Vec<Single>>, Ghost(all): Ghost<Seq<Vec<Single>>>, Ghost(at): Ghost<int>) -> (r: Vec<Single>)
    requires
        0 <= at < all.len(),
        old(tensors)@ == all.skip(at),
    ensures
        r == all[at],
        final(tensors)@ == all.skip(at + 1),
{
    match tensors.pop_front() {
        Some(values) => {
            assert(tensors@ =~= all.skip(at + 1));
            values
        },
        None => Vec::new(),
    }
}

fn take_dense(
    input: usize,
    output: usize,
    tensors: &mut VecDeque<Vec<Single>>,
    Ghost(all): Ghost<Seq<Vec<Single>>>,
    Ghost(at): Ghost<int>,
) -> (r: Dense)
    requires
        0 <= at,
        at + 1 < all.len(),
        old(tensors)@ == all.skip(at),
    ensures
        r == dense_of(input, output, all, at),
        final(tensors)@ == all.skip(at + 2),
{
    let weight = take_next(tensors, Ghost(all), Ghost(at));
    let bias = take_next(tensors, Ghost(all), Ghost(at + 1));
    Dense { input, output, weight, bias }
}

fn take_norm(
    tensors: &mut VecDeque<Vec<Single>>,
    Ghost(all): Ghost<Seq<Vec<Single>>>,
    Ghost(at): Ghost<int>,
) -> (r: LayerNorm)
    requires
        0 <= at,
        at + 1 < all.len(),
        old(tensors)@ == all.skip(at),
    ensures
        r == norm_of(all, at),
        final(tensors)@ == all.skip(at + 2),
{
    let weight = take_next(tensors, Ghost(all), Ghost(at));
    let bias = take_next(tensors, Ghost(all), Ghost(at + 1));
    LayerNorm { weight, bias }
}

fn take_layer(
    config: &BertConfig,
    tensors: &mut VecDeque<Vec<Single>>,
    Ghost(all): Ghost<Seq<Vec<Single>>>,
    Ghost(layer): Ghost<int>,
) -> (r: Layer)
    requires
        0 <= layer,
        layer_start(layer + 1) <= all.len(),
        old(tensors)@ == all.skip(layer_start(layer)),
    ensures
        r == layer_of(*config, all, layer),
        final(tensors)@ == all.skip(layer_start(layer + 1)),
{
    let hidden: usize = config.hidden_size;
    let intermediate: usize = config.intermediate_size;
    let ghost at = layer_start(layer);
    Layer {
        query: take_dense(hidden, hidden, tensors, Ghost(all), Ghost(at)),
        key: take_dense(hidden, hidden, tensors, Ghost(all), Ghost(at + 2)),
        value: take_dense(hidden, hidden, tensors, Ghost(all), Ghost(at + 4)),
        attention_output: take_dense(hidden, hidden, tensors, Ghost(all), Ghost(at + 6)),
        attention_norm: take_norm(tensors, Ghost(all), Ghost(at + 8)),
        intermediate: take_dense(hidden, intermediate, tensors, Ghost(all), Ghost(at + 10)),
        output: take_dense(intermediate, hidden, tensors, Ghost(all), Ghost(at + 12)),
        output_norm: take_norm(tensors, Ghost(all), Ghost(at + 14)),
    }
}

/// How many parameters an encoder has.
fn parameters(config: &BertConfig) -> (r: u128)
    ensures
        r == parameter_count(*config),
{
    let layers: u64 = config.num_hidden_layers as u64;
    assert(layers == config.num_hidden_layers);
    assert(LAYER_PARAMETERS as u128 * layers as u128 == 16 * layers);
    let inside: u128 = LAYER_PARAMETERS as u128 * layers as u128;
    EMBEDDING_PARAMETERS as u128 + inside + POOLER_PARAMETERS as u128
}

impl WeightLoader {
    #[verifier::type_invariant]
    spec fn inv(self) -> bool {
        self@.wf()
    }

    /// A loader that has been supplied with nothing.
    #[must_use]
    pub fn new(config: BertConfig) -> (r: Self)
        ensures
            r@ == (WeightLoaderView { config, tensors: Seq::empty() }),
            r@.wf(),
    {
        proof {
            assert(parameter_count(config) >= 0) by (nonlinear_arith)
                requires
                    parameter_count(config) == 5 + 16 * config.num_hidden_layers + 2,
            ;
        }
        let tensors: VecDeque<Vec<Single>> = VecDeque::new();
        WeightLoader { config, tensors }
    }

    /// The parameter that must be supplied next, until all were.
    #[must_use]
    pub fn next_requirement(&self) -> (r: Option<TensorRequirement>)
        ensures
            self@.wf(),
            r is None <==> self@.complete(),
            r is Some ==> r->Some_0@ == requirement(self@.config, self@.tensors.len() as int),
    {
        proof {
            use_type_invariant(self);
        }
        let position: u128 = self.tensors.len() as u128;
        if position >= parameters(&self.config) {
            return None;
        }
        Some(required_tensor(&self.config, position))
    }

    /// Hand over what the package gave for the next parameter.
    ///
    /// # Errors
    /// Returns [`WeightError`] for a missing parameter, a wrong shape or dtype, or a package
    /// resolution failure. The loader keeps waiting for the same parameter.
    pub fn supply_next(&mut self, found: Result<TensorData, TensorFailure>) -> (r: Result<
        (),
        WeightError,
    >)
        requires
            !old(self)@.complete(),
        ensures
            old(self)@.wf(),
            final(self)@.wf(),
            final(self)@.config == old(self)@.config,
            match supplied(
                requirement(old(self)@.config, old(self)@.tensors.len() as int),
                found,
            ) {
                Ok(values) => {
                    &&& r == Ok::<(), WeightError>(())
                    &&& final(self)@.tensors.len() == old(self)@.tensors.len() + 1
                    &&& final(self)@.tensors.drop_last() == old(self)@.tensors
                    &&& final(self)@.tensors.last()@ == values
                },
                Err(error) => {
                    &&& r is Err
                    &&& r->Err_0@ == error
                    &&& final(self)@ == old(self)@
                },
            },
    {
        proof {
            use_type_invariant(&*self);
            lemma_requirement_shape(self.config, self.tensors@.len() as int);
        }
        let ghost before = self.tensors@;
        let required = required_tensor(&self.config, self.tensors.len() as u128);
        match supply(required, found) {
            Ok(values) => {
                let mut tensors: VecDeque<Vec<Single>> = VecDeque::new();
                core::mem::swap(&mut tensors, &mut self.tensors);
                tensors.push_back(values);
                assert(tensors@.drop_last() =~= before);
                self.tensors = tensors;
                Ok(())
            },
            Err(error) => Err(error),
        }
    }

    /// Assemble the parameters once all were supplied.
    #[must_use]
    pub fn finish(self) -> (r: HostWeights)
        requires
            self@.complete(),
        ensures
            self@.wf(),
            assembled(self@.config, self@.tensors, r),
    {
        proof {
            use_type_invariant(&self);
        }
        let ghost all = self.tensors@;
        let config = self.config;
        let hidden: usize = config.hidden_size;
        let mut tensors = self.tensors;
        assert(all.skip(0) =~= all);
        let word_embeddings = take_next(&mut tensors, Ghost(all), Ghost(0));
        let position_embeddings = take_next(&mut tensors, Ghost(all), Ghost(1));
        let token_type_embeddings = take_next(&mut tensors, Ghost(all), Ghost(2));
        let embedding_norm = take_norm(&mut tensors, Ghost(all), Ghost(3));
        let mut layers: Vec<Layer> = Vec::new();
        while layers.len() < config.num_hidden_layers
            invariant
                layers@.len() <= config.num_hidden_layers,
                all.len() == parameter_count(config),
                tensors@ == all.skip(layer_start(layers@.len() as int)),
                layers@ == Seq::new(
                    layers@.len(),
                    |layer: int| layer_of(config, all, layer),
                ),
            decreases config.num_hidden_layers - layers@.len(),
        {
            let ghost before = layers@;
            let layer = take_layer(&config, &mut tensors, Ghost(all), Ghost(before.len() as int));
            layers.push(layer);
            assert(layers@ =~= Seq::new(
                layers@.len(),
                |layer: int| layer_of(config, all, layer),
            ));
        }
        let pooler = take_dense(
            hidden,
            hidden,
            &mut tensors,
            Ghost(all),
            Ghost(layer_start(config.num_hidden_layers as int)),
        );
        HostWeights {
            word_embeddings,
            position_embeddings,
            token_type_embeddings,
            embedding_norm,
            layers,
            pooler,
        }
    }
}


/// The values that a layer holds for one of its parameters.
pub open spec fn layer_values(layer: Layer, slot: int) -> Seq<Single> {
    if slot == 0 {
        layer.query.weight@
    } else if slot == 1 {
        layer.query.bias@
    } else if slot == 2 {
        layer.key.weight@
    } else if slot == 3 {
        layer.key.bias@
    } else if slot == 4 {
        layer.value.weight@
    } else if slot == 5 {
        layer.value.bias@
    } else if slot == 6 {
        layer.attention_output.weight@
    } else if slot == 7 {
        layer.attention_output.bias@
    } else if slot == 8 {
        layer.attention_norm.weight@
    } else if slot == 9 {
        layer.attention_norm.bias@
    } else if slot == 10 {
        layer.intermediate.weight@
    } else if slot == 11 {
        layer.intermediate.bias@
    } else if slot == 12 {
        layer.output.weight@
    } else if slot == 13 {
        layer.output.bias@
    } else if slot == 14 {
        layer.output_norm.weight@
    } else {
        layer.output_norm.bias@
    }
}

/// The `[output, input]` dimensions of a layer's projection, where the slot is that of its
/// weight.
pub open spec fn layer_dense_dimensions(layer: Layer, slot: int) -> Option<Seq<usize>> {
    if slot == 0 {
        Some(layer.query.dimensions())
    } else if slot == 2 {
        Some(layer.key.dimensions())
    } else if slot == 4 {
        Some(layer.value.dimensions())
    } else if slot == 6 {
        Some(layer.attention_output.dimensions())
    } else if slot == 10 {
        Some(layer.intermediate.dimensions())
    } else if slot == 12 {
        Some(layer.output.dimensions())
    } else {
        None
    }
}

/// The values that host weights hold for the parameter at one position, if they hold it.
pub open spec fn held_values(config: BertConfig, weights: HostWeights, position: int) -> Option<
    Seq<Single>,
> {
    let layer = (position - EMBEDDING_PARAMETERS) / LAYER_PARAMETERS as int;
    let slot = (position - EMBEDDING_PARAMETERS) % LAYER_PARAMETERS as int;
    if position == 0 {
        Some(weights.word_embeddings@)
    } else if position == 1 {
        Some(weights.position_embeddings@)
    } else if position == 2 {
        Some(weights.token_type_embeddings@)
    } else if position == 3 {
        Some(weights.embedding_norm.weight@)
    } else if position == 4 {
        Some(weights.embedding_norm.bias@)
    } else if layer < config.num_hidden_layers {
        if layer < weights.layers@.len() {
            Some(layer_values(weights.layers@[layer], slot))
        } else {
            None
        }
    } else if position == layer_start(config.num_hidden_layers as int) {
        Some(weights.pooler.weight@)
    } else {
        Some(weights.pooler.bias@)
    }
}

/// The `[output, input]` dimensions that host weights give a projection, where the
/// parameter at one position is a projection's weight that they hold.
pub open spec fn held_dimensions(
    config: BertConfig,
    weights: HostWeights,
    position: int,
) -> Option<Seq<usize>> {
    let layer = (position - EMBEDDING_PARAMETERS) / LAYER_PARAMETERS as int;
    let slot = (position - EMBEDDING_PARAMETERS) % LAYER_PARAMETERS as int;
    if position < EMBEDDING_PARAMETERS {
        None
    } else if layer < config.num_hidden_layers {
        if layer < weights.layers@.len() {
            layer_dense_dimensions(weights.layers@[layer], slot)
        } else {
            None
        }
    } else if position == layer_start(config.num_hidden_layers as int) {
        Some(weights.pooler.dimensions())
    } else {
        None
    }
}

/// Why host weights do not hold the parameter at one position as a configuration requires
/// it, if they do not.
pub open spec fn held_defect(config: BertConfig, weights: HostWeights, position: int) -> Option<
    WeightErrorView,
> {
    let required = requirement(config, position);
    match held_values(config, weights, position) {
        None => Some(WeightErrorView::Missing(required.name)),
        Some(values) => {
            let dimensions = held_dimensions(config, weights, position);
            if dimensions is Some && dimensions->Some_0 != required.shape {
                Some(
                    WeightErrorView::Shape {
                        parameter: required.name,
                        expected: required.shape,
                        found: dimensions->Some_0,
                    },
                )
            } else if values.len() != product(required.shape) {
                Some(
                    WeightErrorView::Length {
                        parameter: required.name,
                        expected: countable(product(required.shape)),
                        found: values.len() as usize,
                    },
                )
            } else {
                None
            }
        },
    }
}

/// The first parameter, from a position on, that host weights do not hold as required.
pub open spec fn first_held_defect(
    config: BertConfig,
    weights: HostWeights,
    position: int,
) -> Option<WeightErrorView>
    decreases parameter_count(config) - position,
{
    if position >= parameter_count(config) {
        None
    } else if held_defect(config, weights, position) is Some {
        held_defect(config, weights, position)
    } else {
        first_held_defect(config, weights, position + 1)
    }
}

/// Why host weights are not the parameters that a configuration requires, if they are not:
/// the first parameter that they do not hold as required, or layers beyond its own.
pub open spec fn weights_defect(config: BertConfig, weights: HostWeights) -> Option<
    WeightErrorView,
> {
    if first_held_defect(config, weights, 0) is Some {
        first_held_defect(config, weights, 0)
    } else if weights.layers@.len() > config.num_hidden_layers {
        Some(
            WeightErrorView::Length {
                parameter: "encoder.layer"@,
                expected: config.num_hidden_layers,
                found: weights.layers@.len() as usize,
            },
        )
    } else {
        None
    }
}

impl HostWeights {
    fn projection_dimensions(&self, config: &BertConfig, position: u128) -> (r: Option<
        Vec<usize>,
    >)
        requires
            position < parameter_count(*config),
        ensures
            match held_dimensions(*config, *self, position as int) {
                Some(dimensions) => r is Some && r->Some_0@ == dimensions,
                None => r is None,
            },
    {
        if position < EMBEDDING_PARAMETERS as u128 {
            return None;
        }
        let (layer, slot) = layer_place(config, position);
        if layer < config.num_hidden_layers {
            if layer >= self.layers.len() {
                return None;
            }
            let layer = &self.layers[layer];
            return match slot {
                0 => Some(layer.query.dimensions_list()),
                2 => Some(layer.key.dimensions_list()),
                4 => Some(layer.value.dimensions_list()),
                6 => Some(layer.attention_output.dimensions_list()),
                10 => Some(layer.intermediate.dimensions_list()),
                12 => Some(layer.output.dimensions_list()),
                _ => None,
            };
        }
        if slot == 0 {
            Some(self.pooler.dimensions_list())
        } else {
            None
        }
    }

    fn held_len(&self, config: &BertConfig, position: u128) -> (r: Option<usize>)
        requires
            position < parameter_count(*config),
        ensures
            match held_values(*config, *self, position as int) {
                Some(values) => r is Some && r->Some_0 == values.len(),
                None => r is None,
            },
    {
        if position < EMBEDDING_PARAMETERS as u128 {
            return Some(
                match position {
                    0 => self.word_embeddings.len(),
                    1 => self.position_embeddings.len(),
                    2 => self.token_type_embeddings.len(),
                    3 => self.embedding_norm.weight.len(),
                    _ => self.embedding_norm.bias.len(),
                },
            );
        }
        let (layer, slot) = layer_place(config, position);
        if layer < config.num_hidden_layers {
            if layer >= self.layers.len() {
                return None;
            }
            let layer = &self.layers[layer];
            return Some(
                match slot {
                    0 => layer.query.weight.len(),
                    1 => layer.query.bias.len(),
                    2 => layer.key.weight.len(),
                    3 => layer.key.bias.len(),
                    4 => layer.value.weight.len(),
                    5 => layer.value.bias.len(),
                    6 => layer.attention_output.weight.len(),
                    7 => layer.attention_output.bias.len(),
                    8 => layer.attention_norm.weight.len(),
                    9 => layer.attention_norm.bias.len(),
                    10 => layer.intermediate.weight.len(),
                    11 => layer.intermediate.bias.len(),
                    12 => layer.output.weight.len(),
                    13 => layer.output.bias.len(),
                    14 => layer.output_norm.weight.len(),
                    _ => layer.output_norm.bias.len(),
                },
            );
        }
        if slot == 0 {
            Some(self.pooler.weight.len())
        } else {
            Some(self.pooler.bias.len())
        }
    }

    /// Check that these weights are the parameters that a configuration requires.
    ///
    /// # Errors
    /// Returns [`WeightError`] for the first parameter that is missing, whose projection has
    /// other dimensions or that has another value count than its shape, and for layers beyond
    /// the configuration's own.
    pub fn check(&self, config: &BertConfig) -> (r: Result<(), WeightError>)
        ensures
            match weights_defect(*config, *self) {
                Some(error) => r is Err && r->Err_0@ == error,
                None => r == Ok::<(), WeightError>(()),
            },
    {
        let count: u128 = parameters(config);
        let mut position: u128 = 0;
        while position < count
            invariant
                position <= count == parameter_count(*config),
                first_held_defect(*config, *self, 0) == first_held_defect(
                    *config,
                    *self,
                    position as int,
                ),
            decreases count - position,
        {
            proof {
                lemma_requirement_shape(*config, position as int);
            }
            let required = required_tensor(config, position);
            match self.held_len(config, position) {
                None => return Err(WeightError::Missing(required.name)),
                Some(found) => {
                    if let Some(dimensions) = self.projection_dimensions(config, position) {
                        if !same_shape(&dimensions, &required.shape) {
                            return Err(
                                WeightError::Shape {
                                    parameter: required.name,
                                    expected: required.shape,
                                    found: dimensions,
                                },
                            );
                        }
                    }
                    if let Some(expected) = missed_count(&required.shape, found) {
                        return Err(
                            WeightError::Length { parameter: required.name, expected, found },
                        );
                    }
                },
            }
            position += 1;
        }
        if self.layers.len() > config.num_hidden_layers {
            return Err(
                WeightError::Length {
                    parameter: "encoder.layer".to_owned(),
                    expected: config.num_hidden_layers,
                    found: self.layers.len(),
                },
            );
        }
        Ok(())
    }
}

/// Every supplied parameter lands under its own name: what the assembled weights hold for a
/// position of the inventory is what was supplied for it.
pub proof fn law_parameters_land_in_their_places(
    config: BertConfig,
    tensors: Seq<Vec<Single>>,
    weights: HostWeights,
    position: int,
)
    requires
        tensors.len() == parameter_count(config),
        assembled(config, tensors, weights),
        0 <= position < parameter_count(config),
    ensures
        held_values(config, weights, position) == Some(tensors[position]@),
{
    if position >= EMBEDDING_PARAMETERS {
        let layer = (position - EMBEDDING_PARAMETERS) / LAYER_PARAMETERS as int;
        let slot = (position - EMBEDDING_PARAMETERS) % LAYER_PARAMETERS as int;
        assert(position == layer_start(layer) + slot);
        if layer < config.num_hidden_layers {
            assert(weights.layers@[layer] == layer_of(config, tensors, layer));
        }
    }
}

/// Weights that a completed loader assembled satisfy the configuration they were loaded
/// for: no parameter is missing, every projection has the required dimensions, none has
/// another value count than its shape, and there is no further layer.
pub proof fn law_loaded_weights_fit_their_configuration(
    loader: WeightLoaderView,
    weights: HostWeights,
)
    requires
        loader.wf(),
        loader.complete(),
        assembled(loader.config, loader.tensors, weights),
    ensures
        weights_defect(loader.config, weights) is None,
{
    lemma_no_defect_from(loader, weights, 0);
}

proof fn lemma_no_defect_from(loader: WeightLoaderView, weights: HostWeights, position: int)
    requires
        loader.wf(),
        loader.complete(),
        assembled(loader.config, loader.tensors, weights),
        0 <= position <= parameter_count(loader.config),
    ensures
        first_held_defect(loader.config, weights, position) is None,
    decreases parameter_count(loader.config) - position,
{
    if position < parameter_count(loader.config) {
        law_parameters_land_in_their_places(loader.config, loader.tensors, weights, position);
        assert(loader.tensors[position]@.len() == product(
            requirement(loader.config, position).shape,
        ));
        let dimensions = held_dimensions(loader.config, weights, position);
        if dimensions is Some {
            let layer = (position - EMBEDDING_PARAMETERS) / LAYER_PARAMETERS as int;
            if layer < loader.config.num_hidden_layers {
                assert(weights.layers@[layer] == layer_of(loader.config, loader.tensors, layer));
            }
            assert(dimensions->Some_0 =~= requirement(loader.config, position).shape);
        }
        lemma_no_defect_from(loader, weights, position + 1);
    }
}

/// A projection's offsets address its weight one for one: every offset of a row and a
/// column lies inside `[output, input]`, and two places share an offset only where they
/// are the same.
pub proof fn law_offsets_are_distinct(
    input: int,
    output: int,
    row: int,
    column: int,
    other_row: int,
    other_column: int,
)
    requires
        0 <= row < output,
        0 <= other_row < output,
        0 <= column < input,
        0 <= other_column < input,
    ensures
        0 <= row * input + column < output * input,
        row * input + column == other_row * input + other_column ==> row == other_row && column
            == other_column,
{
    assert(0 <= row * input && row * input + input <= output * input) by (nonlinear_arith)
        requires
            0 <= row < output,
            0 < input,
    ;
    if row < other_row {
        assert(row * input + input <= other_row * input) by (nonlinear_arith)
            requires
                row < other_row,
                0 < input,
        ;
    } else if other_row < row {
        assert(other_row * input + input <= row * input) by (nonlinear_arith)
            requires
                other_row < row,
                0 < input,
        ;
    }
}


/// The length of a layer suffix.
spec fn suffix_length(slot: int) -> int {
    if slot == 0 {
        28
    } else if slot == 1 {
        26
    } else if slot == 2 {
        26
    } else if slot == 3 {
        24
    } else if slot == 4 {
        28
    } else if slot == 5 {
        26
    } else if slot == 6 {
        30
    } else if slot == 7 {
        28
    } else if slot == 8 {
        34
    } else if slot == 9 {
        32
    } else if slot == 10 {
        26
    } else if slot == 11 {
        24
    } else if slot == 12 {
        20
    } else if slot == 13 {
        18
    } else if slot == 14 {
        24
    } else {
        22
    }
}

/// The character that tells layer suffixes of one length apart.
spec fn suffix_mark(slot: int) -> char {
    if slot == 0 {
        'q'
    } else if slot == 1 {
        'q'
    } else if slot == 2 {
        'k'
    } else if slot == 3 {
        'k'
    } else if slot == 4 {
        'v'
    } else if slot == 5 {
        'v'
    } else if slot == 6 {
        't'
    } else if slot == 7 {
        't'
    } else if slot == 8 {
        't'
    } else if slot == 9 {
        't'
    } else if slot == 10 {
        'n'
    } else if slot == 11 {
        'n'
    } else if slot == 12 {
        'i'
    } else if slot == 13 {
        'a'
    } else if slot == 14 {
        'm'
    } else {
        'm'
    }
}

proof fn lemma_suffixes(slot: int)
    requires
        0 <= slot < LAYER_PARAMETERS,
    ensures
        layer_suffix(slot).len() == suffix_length(slot),
        layer_suffix(slot)[0] == '.',
        layer_suffix(slot)[16] == suffix_mark(slot),
{
    reveal_strlit(".attention.self.query.weight");
    reveal_strlit(".attention.self.query.bias");
    reveal_strlit(".attention.self.key.weight");
    reveal_strlit(".attention.self.key.bias");
    reveal_strlit(".attention.self.value.weight");
    reveal_strlit(".attention.self.value.bias");
    reveal_strlit(".attention.output.dense.weight");
    reveal_strlit(".attention.output.dense.bias");
    reveal_strlit(".attention.output.LayerNorm.weight");
    reveal_strlit(".attention.output.LayerNorm.bias");
    reveal_strlit(".intermediate.dense.weight");
    reveal_strlit(".intermediate.dense.bias");
    reveal_strlit(".output.dense.weight");
    reveal_strlit(".output.dense.bias");
    reveal_strlit(".output.LayerNorm.weight");
    reveal_strlit(".output.LayerNorm.bias");
}

proof fn lemma_embedding_names(slot: int)
    requires
        0 <= slot < EMBEDDING_PARAMETERS,
    ensures
        embedding_name(slot)[0] == 'e',
        embedding_name(slot)[1] == 'm',
        embedding_name(slot).len() == (if slot == 0 {
            33int
        } else if slot == 1 {
            37
        } else if slot == 2 {
            39
        } else if slot == 3 {
            27
        } else {
            25
        }),
{
    reveal_strlit("embeddings.word_embeddings.weight");
    reveal_strlit("embeddings.position_embeddings.weight");
    reveal_strlit("embeddings.token_type_embeddings.weight");
    reveal_strlit("embeddings.LayerNorm.weight");
    reveal_strlit("embeddings.LayerNorm.bias");
}

proof fn lemma_pooler_names(slot: int)
    requires
        0 <= slot < POOLER_PARAMETERS,
    ensures
        pooler_name(slot)[0] == 'p',
        pooler_name(slot).len() == (if slot == 0 {
            19int
        } else {
            17
        }),
{
    reveal_strlit("pooler.dense.weight");
    reveal_strlit("pooler.dense.bias");
}

proof fn lemma_layer_names_differ(layer: nat, slot: int, other_layer: nat, other_slot: int)
    requires
        0 <= slot < LAYER_PARAMETERS,
        0 <= other_slot < LAYER_PARAMETERS,
        "encoder.layer."@ + decimal(layer) + layer_suffix(slot) == "encoder.layer."@ + decimal(
            other_layer,
        ) + layer_suffix(other_slot),
    ensures
        layer == other_layer,
        slot == other_slot,
{
    let start = "encoder.layer."@;
    let name = start + decimal(layer) + layer_suffix(slot);
    let other = start + decimal(other_layer) + layer_suffix(other_slot);
    lemma_suffixes(slot);
    lemma_suffixes(other_slot);
    lemma_decimal_digits(layer);
    lemma_decimal_digits(other_layer);
    let digits = decimal(layer).len();
    let other_digits = decimal(other_layer).len();
    let from = start.len();
    if digits < other_digits {
        assert(name[from + digits as int] == layer_suffix(slot)[0]);
        assert(other[from + digits as int] == decimal(other_layer)[digits as int]);
        assert(is_digit(decimal(other_layer)[digits as int]));
    }
    if other_digits < digits {
        assert(other[from + other_digits as int] == layer_suffix(other_slot)[0]);
        assert(name[from + other_digits as int] == decimal(layer)[other_digits as int]);
        assert(is_digit(decimal(layer)[other_digits as int]));
    }
    assert(digits == other_digits);
    assert(decimal(layer) =~= name.subrange(from as int, (from + digits) as int));
    assert(decimal(other_layer) =~= other.subrange(from as int, (from + digits) as int));
    assert(decimal(layer) == decimal(other_layer));
    assert(layer_suffix(slot) =~= name.skip((from + digits) as int));
    assert(layer_suffix(other_slot) =~= other.skip((from + digits) as int));
    assert(layer_suffix(slot) == layer_suffix(other_slot));
}

/// No two parameters of an encoder share a name, so each is read once.
pub proof fn law_parameter_names_are_distinct(config: BertConfig, first: int, second: int)
    requires
        0 <= first < second < parameter_count(config),
    ensures
        requirement(config, first).name != requirement(config, second).name,
{
    let one = requirement(config, first).name;
    let two = requirement(config, second).name;
    let layers = config.num_hidden_layers as int;
    let layer_of_first = (first - EMBEDDING_PARAMETERS) / LAYER_PARAMETERS as int;
    let layer_of_second = (second - EMBEDDING_PARAMETERS) / LAYER_PARAMETERS as int;
    let slot_of_first = (first - EMBEDDING_PARAMETERS) % LAYER_PARAMETERS as int;
    let slot_of_second = (second - EMBEDDING_PARAMETERS) % LAYER_PARAMETERS as int;
    reveal_strlit("encoder.layer.");
    if first < EMBEDDING_PARAMETERS {
        lemma_embedding_names(first);
        if second < EMBEDDING_PARAMETERS {
            lemma_embedding_names(second);
        } else if layer_of_second < layers {
            assert(two[1] == 'n');
        } else {
            lemma_pooler_names(second - layer_start(layers));
        }
    } else if layer_of_first < layers {
        assert(one[0] == 'e');
        if layer_of_second < layers {
            if one == two {
                lemma_layer_names_differ(
                    layer_of_first as nat,
                    slot_of_first,
                    layer_of_second as nat,
                    slot_of_second,
                );
            }
        } else {
            lemma_pooler_names(second - layer_start(layers));
        }
    } else {
        lemma_pooler_names(first - layer_start(layers));
        lemma_pooler_names(second - layer_start(layers));
    }
}

} // verus!
