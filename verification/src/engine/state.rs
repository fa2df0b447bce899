//! Typed model-state descriptions.

use crate::engine::device::DeviceId;
use crate::engine::tensor::{width_of, DataType};
use vstd::prelude::*;

verus! {

/// Identity of one allocated state; never zero.
#[derive(Clone, Copy, Debug, Hash, PartialEq, Eq, Structural)]
pub struct StateId(u64);

impl View for StateId {
    type V = u64;

    closed spec fn view(&self) -> u64 {
        self.0
    }
}

impl StateId {
    #[verifier::type_invariant]
    spec fn nonzero(self) -> bool {
        self.0 != 0
    }

    #[must_use]
    pub fn new(value: u64) -> (r: Option<Self>)
        ensures
            value == 0 ==> r is None,
            value != 0 ==> r is Some && r->Some_0@ == value,
    {
        if value == 0 {
            None
        } else {
            Some(StateId(value))
        }
    }

    #[must_use]
    pub fn get(self) -> (r: u64)
        ensures
            r == self@,
            r != 0,
    {
        proof {
            use_type_invariant(&self);
        }
        self.0
    }

    /// An identity is determined by its number.
    pub proof fn lemma_determined(a: Self, b: Self)
        ensures
            a@ == b@ <==> a == b,
    {
    }
}

/// Where a state resides.
#[derive(Clone, Copy, Debug, Hash, PartialEq, Eq, Structural)]
pub enum StateLocation {
    Device(DeviceId),
    Host,
}

/// Geometry of a block of attention keys and values; no dimension is zero.
#[derive(Clone, Copy, Debug, Hash, PartialEq, Eq, Structural)]
pub struct KvStateSpec {
    layer_count: u16,
    kv_heads: u16,
    head_dim: u16,
    block_tokens: u32,
    dtype: DataType,
}

/// What a key/value specification holds.
#[verifier::ext_equal]
pub struct KvStateSpecView {
    pub layer_count: u16,
    pub kv_heads: u16,
    pub head_dim: u16,
    pub block_tokens: u32,
    pub dtype: DataType,
}

impl View for KvStateSpec {
    type V = KvStateSpecView;

    closed spec fn view(&self) -> KvStateSpecView {
        KvStateSpecView {
            layer_count: self.layer_count,
            kv_heads: self.kv_heads,
            head_dim: self.head_dim,
            block_tokens: self.block_tokens,
            dtype: self.dtype,
        }
    }
}

impl KvStateSpec {
    #[must_use]
    pub fn layer_count(self) -> (r: u16)
        ensures
            r == self@.layer_count,
    {
        self.layer_count
    }

    #[must_use]
    pub fn kv_heads(self) -> (r: u16)
        ensures
            r == self@.kv_heads,
    {
        self.kv_heads
    }

    #[must_use]
    pub fn head_dim(self) -> (r: u16)
        ensures
            r == self@.head_dim,
    {
        self.head_dim
    }

    #[must_use]
    pub fn block_tokens(self) -> (r: u32)
        ensures
            r == self@.block_tokens,
    {
        self.block_tokens
    }

    #[must_use]
    pub fn dtype(self) -> (r: DataType)
        ensures
            r == self@.dtype,
    {
        self.dtype
    }
}

impl KvStateSpecView {
    /// Whether every dimension is positive.
    pub open spec fn positive(self) -> bool {
        self.layer_count > 0 && self.kv_heads > 0 && self.head_dim > 0 && self.block_tokens > 0
    }

    /// Bytes of the block: keys and values for every layer, head, dimension and token.
    pub open spec fn bytes(self) -> int {
        self.layer_count * self.kv_heads * self.head_dim * self.block_tokens * 2 * width_of(
            self.dtype,
        )
    }
}

impl KvStateSpec {
    #[verifier::type_invariant]
    spec fn positive(self) -> bool {
        self@.positive()
    }

    /// # Errors
    /// Returns [`StateSpecError::ZeroDimension`] when any state dimension is zero.
    pub fn new(
        layer_count: u16,
        kv_heads: u16,
        head_dim: u16,
        block_tokens: u32,
        dtype: DataType,
    ) -> (r: Result<Self, StateSpecError>)
        ensures
            ({
                let spec = KvStateSpecView {
                    layer_count,
                    kv_heads,
                    head_dim,
                    block_tokens,
                    dtype,
                };
                &&& !spec.positive() ==> r == Err::<KvStateSpec, StateSpecError>(
                    StateSpecError::ZeroDimension,
                )
                &&& spec.positive() ==> r is Ok && r->Ok_0@ == spec
            }),
    {
        if layer_count == 0 || kv_heads == 0 || head_dim == 0 || block_tokens == 0 {
            return Err(StateSpecError::ZeroDimension);
        }
        Ok(KvStateSpec { layer_count, kv_heads, head_dim, block_tokens, dtype })
    }

    /// Bytes of the block, where they can be counted.
    #[must_use]
    pub fn byte_size(self) -> (r: Option<u64>)
        ensures
            self@.bytes() <= u64::MAX ==> r == Some(self@.bytes() as u64),
            self@.bytes() > u64::MAX ==> r is None,
    {
        proof {
            use_type_invariant(&self);
        }
        product6(
            self.layer_count as u64,
            self.kv_heads as u64,
            self.head_dim as u64,
            self.block_tokens as u64,
            2,
            self.dtype.byte_width(),
        )
    }
}

/// The product of positive factors, where it fits. Stopping at the first partial product
/// that does not fit is sound because the remaining factors are at least one.
fn product6(a: u64, b: u64, c: u64, d: u64, e: u64, f: u64) -> (r: Option<u64>)
    requires
        a > 0,
        b > 0,
        c > 0,
        d > 0,
        e > 0,
        f > 0,
    ensures
        a * b * c * d * e * f <= u64::MAX ==> r == Some((a * b * c * d * e * f) as u64),
        a * b * c * d * e * f > u64::MAX ==> r is None,
{
    proof {
        lemma_product_grows(a * b, c as int);
        lemma_product_positive(a as int, b as int);
        lemma_product_positive(a * b, c as int);
        lemma_product_positive(a * b * c, d as int);
        lemma_product_positive(a * b * c * d, e as int);
        lemma_product_grows(a * b * c, d as int);
        lemma_product_grows(a * b * c * d, e as int);
        lemma_product_grows(a * b * c * d * e, f as int);
    }
    let ab: u64 = match a.checked_mul(b) {
        Some(value) => value,
        None => {
            return None;
        },
    };
    let abc: u64 = match ab.checked_mul(c) {
        Some(value) => value,
        None => {
            return None;
        },
    };
    let abcd: u64 = match abc.checked_mul(d) {
        Some(value) => value,
        None => {
            return None;
        },
    };
    let abcde: u64 = match abcd.checked_mul(e) {
        Some(value) => value,
        None => {
            return None;
        },
    };
    abcde.checked_mul(f)
}

proof fn lemma_product_grows(x: int, y: int)
    requires
        x >= 0,
        y >= 1,
    ensures
        x * y >= x,
{
    assert(x * y >= x) by (nonlinear_arith)
        requires
            x >= 0,
            y >= 1,
    ;
}

proof fn lemma_product_positive(x: int, y: int)
    requires
        x > 0,
        y > 0,
    ensures
        x * y > 0,
{
    assert(x * y > 0) by (nonlinear_arith)
        requires
            x > 0,
            y > 0,
    ;
}

/// Storage geometry for a bank of recurrent state matrices.
///
/// This describes physical semantic state as `[matrix][row][column]`. Model projection head
/// counts are deliberately absent: a gated-delta model can tile projected key heads across
/// state matrices without multiplying the persistent state allocation by the
/// projection-head count.
#[derive(Clone, Copy, Debug, Hash, PartialEq, Eq, Structural)]
pub struct RecurrentMatrixShape {
    matrix_count: u16,
    rows: u16,
    columns: u16,
}

/// What a matrix shape holds.
#[verifier::ext_equal]
pub struct RecurrentMatrixShapeView {
    pub matrix_count: u16,
    pub rows: u16,
    pub columns: u16,
}

impl View for RecurrentMatrixShape {
    type V = RecurrentMatrixShapeView;

    closed spec fn view(&self) -> RecurrentMatrixShapeView {
        RecurrentMatrixShapeView {
            matrix_count: self.matrix_count,
            rows: self.rows,
            columns: self.columns,
        }
    }
}

impl RecurrentMatrixShape {
    #[must_use]
    pub fn matrix_count(self) -> (r: u16)
        ensures
            r == self@.matrix_count,
    {
        self.matrix_count
    }

    #[must_use]
    pub fn rows(self) -> (r: u16)
        ensures
            r == self@.rows,
    {
        self.rows
    }

    #[must_use]
    pub fn columns(self) -> (r: u16)
        ensures
            r == self@.columns,
    {
        self.columns
    }
}

impl RecurrentMatrixShape {
    #[verifier::type_invariant]
    spec fn positive(self) -> bool {
        self.matrix_count > 0 && self.rows > 0 && self.columns > 0
    }

    #[must_use]
    pub fn new(matrix_count: u16, rows: u16, columns: u16) -> (r: Option<Self>)
        ensures
            matrix_count == 0 || rows == 0 || columns == 0 ==> r is None,
            matrix_count > 0 && rows > 0 && columns > 0 ==> r is Some && r->Some_0@ == (
            RecurrentMatrixShapeView { matrix_count, rows, columns }),
    {
        if matrix_count == 0 || rows == 0 || columns == 0 {
            None
        } else {
            Some(RecurrentMatrixShape { matrix_count, rows, columns })
        }
    }
}

/// Persistent causal-convolution history as `[channel][history_token]`.
#[derive(Clone, Copy, Debug, Hash, PartialEq, Eq, Structural)]
pub struct ConvolutionStateShape {
    channels: u32,
    history_tokens: u16,
}

/// What a convolution shape holds.
#[verifier::ext_equal]
pub struct ConvolutionStateShapeView {
    pub channels: u32,
    pub history_tokens: u16,
}

impl View for ConvolutionStateShape {
    type V = ConvolutionStateShapeView;

    closed spec fn view(&self) -> ConvolutionStateShapeView {
        ConvolutionStateShapeView {
            channels: self.channels,
            history_tokens: self.history_tokens,
        }
    }
}

impl ConvolutionStateShape {
    #[must_use]
    pub fn channels(self) -> (r: u32)
        ensures
            r == self@.channels,
    {
        self.channels
    }

    #[must_use]
    pub fn history_tokens(self) -> (r: u16)
        ensures
            r == self@.history_tokens,
    {
        self.history_tokens
    }
}

impl ConvolutionStateShape {
    #[verifier::type_invariant]
    spec fn positive(self) -> bool {
        self.channels > 0 && self.history_tokens > 0
    }

    #[must_use]
    pub fn new(channels: u32, history_tokens: u16) -> (r: Option<Self>)
        ensures
            channels == 0 || history_tokens == 0 ==> r is None,
            channels > 0 && history_tokens > 0 ==> r is Some && r->Some_0@ == (
            ConvolutionStateShapeView { channels, history_tokens }),
    {
        if channels == 0 || history_tokens == 0 {
            None
        } else {
            Some(ConvolutionStateShape { channels, history_tokens })
        }
    }
}

/// Geometry of the recurrent state of a model; it covers at least one layer.
#[derive(Clone, Copy, Debug, Hash, PartialEq, Eq, Structural)]
pub struct RecurrentStateSpec {
    layer_count: u16,
    matrix: RecurrentMatrixShape,
    convolution: ConvolutionStateShape,
    matrix_dtype: DataType,
    convolution_dtype: DataType,
}

/// What a recurrent specification holds.
#[verifier::ext_equal]
pub struct RecurrentStateSpecView {
    pub layer_count: u16,
    pub matrix: RecurrentMatrixShape,
    pub convolution: ConvolutionStateShape,
    pub matrix_dtype: DataType,
    pub convolution_dtype: DataType,
}

impl View for RecurrentStateSpec {
    type V = RecurrentStateSpecView;

    closed spec fn view(&self) -> RecurrentStateSpecView {
        RecurrentStateSpecView {
            layer_count: self.layer_count,
            matrix: self.matrix,
            convolution: self.convolution,
            matrix_dtype: self.matrix_dtype,
            convolution_dtype: self.convolution_dtype,
        }
    }
}

impl RecurrentStateSpec {
    #[must_use]
    pub fn layer_count(self) -> (r: u16)
        ensures
            r == self@.layer_count,
    {
        self.layer_count
    }

    #[must_use]
    pub fn matrix(self) -> (r: RecurrentMatrixShape)
        ensures
            r == self@.matrix,
    {
        self.matrix
    }

    #[must_use]
    pub fn convolution(self) -> (r: ConvolutionStateShape)
        ensures
            r == self@.convolution,
    {
        self.convolution
    }

    #[must_use]
    pub fn matrix_dtype(self) -> (r: DataType)
        ensures
            r == self@.matrix_dtype,
    {
        self.matrix_dtype
    }

    #[must_use]
    pub fn convolution_dtype(self) -> (r: DataType)
        ensures
            r == self@.convolution_dtype,
    {
        self.convolution_dtype
    }
}

impl RecurrentStateSpecView {
    /// Bytes of the matrices of all layers.
    pub open spec fn matrix_bytes(self) -> int {
        self.matrix@.matrix_count * self.matrix@.rows * self.matrix@.columns * self.layer_count
            * width_of(self.matrix_dtype)
    }

    /// Bytes of the convolution history of all layers.
    pub open spec fn convolution_bytes(self) -> int {
        self.convolution@.channels * self.convolution@.history_tokens * self.layer_count * width_of(
            self.convolution_dtype,
        )
    }

    /// Bytes of the whole state.
    pub open spec fn bytes(self) -> int {
        self.matrix_bytes() + self.convolution_bytes()
    }
}

impl RecurrentStateSpec {
    #[verifier::type_invariant]
    spec fn layered(self) -> bool {
        self.layer_count > 0
    }

    /// # Errors
    /// Returns [`StateSpecError::ZeroDimension`] when `layer_count` is zero.
    pub fn new(
        layer_count: u16,
        matrix: RecurrentMatrixShape,
        convolution: ConvolutionStateShape,
        matrix_dtype: DataType,
        convolution_dtype: DataType,
    ) -> (r: Result<Self, StateSpecError>)
        ensures
            layer_count == 0 ==> r == Err::<RecurrentStateSpec, StateSpecError>(
                StateSpecError::ZeroDimension,
            ),
            layer_count > 0 ==> r is Ok && r->Ok_0@ == (RecurrentStateSpecView {
                layer_count,
                matrix,
                convolution,
                matrix_dtype,
                convolution_dtype,
            }),
    {
        if layer_count == 0 {
            return Err(StateSpecError::ZeroDimension);
        }
        Ok(
            RecurrentStateSpec {
                layer_count,
                matrix,
                convolution,
                matrix_dtype,
                convolution_dtype,
            },
        )
    }

    /// Bytes of the whole state, where they can be counted.
    #[must_use]
    pub fn byte_size(self) -> (r: Option<u64>)
        ensures
            self@.bytes() <= u64::MAX ==> r == Some(self@.bytes() as u64),
            self@.bytes() > u64::MAX ==> r is None,
    {
        let matrix = self.matrix;
        let convolution = self.convolution;
        proof {
            use_type_invariant(&self);
            use_type_invariant(&matrix);
            use_type_invariant(&convolution);
        }
        let matrix_bytes = product6(
            matrix.matrix_count as u64,
            matrix.rows as u64,
            matrix.columns as u64,
            self.layer_count as u64,
            self.matrix_dtype.byte_width(),
            1,
        );
        let convolution_bytes = product6(
            convolution.channels as u64,
            convolution.history_tokens as u64,
            self.layer_count as u64,
            self.convolution_dtype.byte_width(),
            1,
            1,
        );
        match (matrix_bytes, convolution_bytes) {
            (Some(matrix_bytes), Some(convolution_bytes)) => matrix_bytes.checked_add(
                convolution_bytes,
            ),
            _ => None,
        }
    }
}

/// One kind of state that a model needs.
#[derive(Clone, Copy, Debug, Hash, PartialEq, Eq, Structural)]
pub enum StateRequirement {
    FullAttentionKv(KvStateSpec),
    Recurrent(RecurrentStateSpec),
}

impl StateRequirement {
    /// Bytes that the state occupies.
    pub open spec fn bytes(self) -> int {
        match self {
            StateRequirement::FullAttentionKv(spec) => spec@.bytes(),
            StateRequirement::Recurrent(spec) => spec@.bytes(),
        }
    }

    #[must_use]
    pub fn is_kv(self) -> (r: bool)
        ensures
            r == (self is FullAttentionKv),
    {
        match self {
            StateRequirement::FullAttentionKv(_) => true,
            StateRequirement::Recurrent(_) => false,
        }
    }

    #[must_use]
    pub fn is_recurrent(self) -> (r: bool)
        ensures
            r == (self is Recurrent),
    {
        match self {
            StateRequirement::FullAttentionKv(_) => false,
            StateRequirement::Recurrent(_) => true,
        }
    }

    /// Bytes that the state occupies, where they can be counted.
    #[must_use]
    pub fn byte_size(self) -> (r: Option<u64>)
        ensures
            self.bytes() <= u64::MAX ==> r == Some(self.bytes() as u64),
            self.bytes() > u64::MAX ==> r is None,
    {
        match self {
            StateRequirement::FullAttentionKv(spec) => spec.byte_size(),
            StateRequirement::Recurrent(spec) => spec.byte_size(),
        }
    }
}

/// A logical reference to allocated state at one token position.
#[derive(Debug, Hash, PartialEq, Eq)]
pub struct StateHandle {
    pub id: StateId,
    pub requirement: StateRequirement,
    pub location: StateLocation,
    pub token_position: u32,
}

impl Clone for StateHandle {
    fn clone(&self) -> (r: Self)
        ensures
            r == *self,
    {
        StateHandle {
            id: self.id,
            requirement: self.requirement,
            location: self.location,
            token_position: self.token_position,
        }
    }
}

impl StateHandle {
    /// The same reference at another position.
    pub open spec fn at(self, token_position: u32) -> StateHandle {
        StateHandle { token_position, ..self }
    }

    #[must_use]
    pub fn new(
        id: StateId,
        requirement: StateRequirement,
        location: StateLocation,
        token_position: u32,
    ) -> (r: Self)
        ensures
            r == (StateHandle { id, requirement, location, token_position }),
    {
        StateHandle { id, requirement, location, token_position }
    }

    #[must_use]
    pub fn id(&self) -> (r: StateId)
        ensures
            r == self.id,
    {
        self.id
    }

    #[must_use]
    pub fn requirement(&self) -> (r: StateRequirement)
        ensures
            r == self.requirement,
    {
        self.requirement
    }

    #[must_use]
    pub fn location(&self) -> (r: StateLocation)
        ensures
            r == self.location,
    {
        self.location
    }

    #[must_use]
    pub fn token_position(&self) -> (r: u32)
        ensures
            r == self.token_position,
    {
        self.token_position
    }
}

/// Attention key/value state; its handle asks for exactly its specification.
#[derive(Debug, Hash, PartialEq, Eq)]
pub struct KvState {
    handle: StateHandle,
    spec: KvStateSpec,
}

impl View for KvState {
    type V = StateHandle;

    closed spec fn view(&self) -> StateHandle {
        self.handle
    }
}

impl Clone for KvState {
    fn clone(&self) -> (r: Self)
        ensures
            r@ == self@,
    {
        proof {
            use_type_invariant(self);
        }
        KvState { handle: self.handle.clone(), spec: self.spec }
    }
}

impl KvState {
    #[verifier::type_invariant]
    spec fn typed(self) -> bool {
        self.handle.requirement == StateRequirement::FullAttentionKv(self.spec)
    }

    #[must_use]
    pub fn new(handle: StateHandle, spec: KvStateSpec) -> (r: Option<Self>)
        ensures
            handle.requirement == StateRequirement::FullAttentionKv(spec) ==> r is Some
                && r->Some_0@ == handle,
            handle.requirement != StateRequirement::FullAttentionKv(spec) ==> r is None,
    {
        if handle.requirement == StateRequirement::FullAttentionKv(spec) {
            Some(KvState { handle, spec })
        } else {
            None
        }
    }

    #[must_use]
    pub fn handle(&self) -> (r: &StateHandle)
        ensures
            *r == self@,
    {
        &self.handle
    }

    #[must_use]
    pub fn spec(&self) -> (r: KvStateSpec)
        ensures
            self@.requirement == StateRequirement::FullAttentionKv(r),
    {
        proof {
            use_type_invariant(self);
        }
        self.spec
    }
}

/// Recurrent state; its handle asks for exactly its specification.
#[derive(Debug, Hash, PartialEq, Eq)]
pub struct RecurrentState {
    handle: StateHandle,
    spec: RecurrentStateSpec,
}

impl View for RecurrentState {
    type V = StateHandle;

    closed spec fn view(&self) -> StateHandle {
        self.handle
    }
}

impl Clone for RecurrentState {
    fn clone(&self) -> (r: Self)
        ensures
            r@ == self@,
    {
        proof {
            use_type_invariant(self);
        }
        RecurrentState { handle: self.handle.clone(), spec: self.spec }
    }
}

impl RecurrentState {
    #[verifier::type_invariant]
    spec fn typed(self) -> bool {
        self.handle.requirement == StateRequirement::Recurrent(self.spec)
    }

    #[must_use]
    pub fn new(handle: StateHandle, spec: RecurrentStateSpec) -> (r: Option<Self>)
        ensures
            handle.requirement == StateRequirement::Recurrent(spec) ==> r is Some && r->Some_0@
                == handle,
            handle.requirement != StateRequirement::Recurrent(spec) ==> r is None,
    {
        if handle.requirement == StateRequirement::Recurrent(spec) {
            Some(RecurrentState { handle, spec })
        } else {
            None
        }
    }

    #[must_use]
    pub fn handle(&self) -> (r: &StateHandle)
        ensures
            *r == self@,
    {
        &self.handle
    }

    #[must_use]
    pub fn spec(&self) -> (r: RecurrentStateSpec)
        ensures
            self@.requirement == StateRequirement::Recurrent(r),
    {
        proof {
            use_type_invariant(self);
        }
        self.spec
    }
}

/// State of either family. What it holds is the handle, whose requirement tells the
/// family.
#[derive(Debug, Hash, PartialEq, Eq)]
pub enum InferenceState {
    Kv(KvState),
    Recurrent(RecurrentState),
}

impl View for InferenceState {
    type V = StateHandle;

    open spec fn view(&self) -> StateHandle {
        match self {
            InferenceState::Kv(state) => state@,
            InferenceState::Recurrent(state) => state@,
        }
    }
}

impl Clone for InferenceState {
    fn clone(&self) -> (r: Self)
        ensures
            r@ == self@,
            r is Kv == self is Kv,
    {
        match self {
            InferenceState::Kv(state) => InferenceState::Kv(state.clone()),
            InferenceState::Recurrent(state) => InferenceState::Recurrent(state.clone()),
        }
    }
}

impl InferenceState {
    #[must_use]
    pub fn handle(&self) -> (r: &StateHandle)
        ensures
            *r == self@,
    {
        match self {
            InferenceState::Kv(state) => state.handle(),
            InferenceState::Recurrent(state) => state.handle(),
        }
    }

    #[must_use]
    pub fn requirement(&self) -> (r: StateRequirement)
        ensures
            r == self@.requirement,
    {
        self.handle().requirement
    }

    /// The same state at another position.
    #[must_use]
    pub fn with_position(&self, token_position: u32) -> (r: Self)
        ensures
            r@ == self@.at(token_position),
            r is Kv == self is Kv,
    {
        let current = self.handle();
        let handle = StateHandle {
            id: current.id,
            requirement: current.requirement,
            location: current.location,
            token_position,
        };
        match self {
            InferenceState::Kv(state) => {
                proof {
                    use_type_invariant(state);
                }
                InferenceState::Kv(KvState { handle, spec: state.spec })
            },
            InferenceState::Recurrent(state) => {
                proof {
                    use_type_invariant(state);
                }
                InferenceState::Recurrent(RecurrentState { handle, spec: state.spec })
            },
        }
    }
}

impl From<KvState> for InferenceState {
    fn from(value: KvState) -> (r: Self) {
        InferenceState::Kv(value)
    }
}

impl vstd::std_specs::convert::FromSpecImpl<KvState> for InferenceState {
    open spec fn obeys_from_spec() -> bool {
        true
    }

    open spec fn from_spec(value: KvState) -> Self {
        InferenceState::Kv(value)
    }
}

impl From<RecurrentState> for InferenceState {
    fn from(value: RecurrentState) -> (r: Self) {
        InferenceState::Recurrent(value)
    }
}

impl vstd::std_specs::convert::FromSpecImpl<RecurrentState> for InferenceState {
    open spec fn obeys_from_spec() -> bool {
        true
    }

    open spec fn from_spec(value: RecurrentState) -> Self {
        InferenceState::Recurrent(value)
    }
}

/// The handles of states, in order.
pub open spec fn handles(states: Seq<InferenceState>) -> Seq<StateHandle> {
    states.map_values(|state: InferenceState| state@)
}

/// The handles of the states that are there.
pub open spec fn supplied(kv: Option<KvState>, recurrent: Option<RecurrentState>) -> Seq<
    StateHandle,
> {
    (match kv {
        Some(state) => seq![state@],
        None => Seq::<StateHandle>::empty(),
    }) + (match recurrent {
        Some(state) => seq![state@],
        None => Seq::<StateHandle>::empty(),
    })
}

/// Whether state `i` repeats the requirement of an earlier state.
pub open spec fn repeats_requirement(states: Seq<StateHandle>, i: int) -> bool {
    exists|j: int| 0 <= j < i && (#[trigger] states[j]).requirement == states[i].requirement
}

/// Why state `i` does not belong with the first one, if it does not.
pub open spec fn member_defect(states: Seq<StateHandle>, i: int) -> Option<StateError> {
    if states[i].token_position != states[0].token_position {
        Some(StateError::PositionMismatch)
    } else if states[i].location != states[0].location {
        Some(StateError::LocationMismatch)
    } else if repeats_requirement(states, i) {
        Some(StateError::DuplicateRequirement)
    } else {
        None
    }
}

/// The defect of the first defective state from `i` on.
pub open spec fn first_member_defect(states: Seq<StateHandle>, i: int) -> Option<StateError>
    decreases states.len() - i,
{
    if i < 0 || i >= states.len() {
        None
    } else if member_defect(states, i) is Some {
        member_defect(states, i)
    } else {
        first_member_defect(states, i + 1)
    }
}

/// Whether states share one prefix boundary and one placement, each requirement once.
pub open spec fn coherent(states: Seq<StateHandle>) -> bool {
    &&& forall|i: int|
        0 <= i < states.len() ==> (#[trigger] states[i]).token_position == states[0].token_position
            && states[i].location == states[0].location
    &&& forall|i: int, j: int|
        0 <= i < j < states.len() ==> (#[trigger] states[i]).requirement != (
        #[trigger] states[j]).requirement
}

/// The same states at another position.
pub open spec fn at_position(states: Seq<StateHandle>, token_position: u32) -> Seq<StateHandle> {
    states.map_values(|handle: StateHandle| handle.at(token_position))
}

proof fn lemma_no_defect_is_coherent(states: Seq<StateHandle>, i: int)
    requires
        0 <= i <= states.len(),
        first_member_defect(states, i) is None,
    ensures
        forall|k: int| i <= k < states.len() ==> #[trigger] member_defect(states, k) is None,
    decreases states.len() - i,
{
    if i < states.len() {
        lemma_no_defect_is_coherent(states, i + 1);
    }
}

/// Moving coherent states together keeps them coherent.
pub proof fn lemma_at_position_coherent(states: Seq<StateHandle>, token_position: u32)
    requires
        coherent(states),
    ensures
        coherent(at_position(states, token_position)),
{
    let moved = at_position(states, token_position);
    assert forall|i: int| 0 <= i < moved.len() implies (#[trigger] moved[i]).token_position
        == moved[0].token_position && moved[i].location == moved[0].location by {
        assert(moved[i] == states[i].at(token_position));
        assert(moved[0] == states[0].at(token_position));
    }
    assert forall|i: int, j: int| 0 <= i < j < moved.len() implies (
    #[trigger] moved[i]).requirement != (#[trigger] moved[j]).requirement by {
        assert(moved[i] == states[i].at(token_position));
        assert(moved[j] == states[j].at(token_position));
    }
}

/// Typed state at one semantic prefix boundary. New state families extend
/// [`InferenceState`] rather than changing scheduler or backend signatures.
#[derive(Debug, Hash, PartialEq, Eq)]
pub struct InferenceStateSet {
    states: Vec<InferenceState>,
}

impl View for InferenceStateSet {
    type V = Seq<StateHandle>;

    closed spec fn view(&self) -> Seq<StateHandle> {
        handles(self.states@)
    }
}

impl Clone for InferenceStateSet {
    fn clone(&self) -> (r: Self)
        ensures
            r@ == self@,
    {
        proof {
            use_type_invariant(self);
        }
        let states = self.states.clone();
        assert(handles(states@) =~= handles(self.states@));
        InferenceStateSet { states }
    }
}

impl InferenceStateSet {
    #[verifier::type_invariant]
    spec fn shares_boundary(self) -> bool {
        coherent(handles(self.states@))
    }

    /// # Errors
    /// Returns a state error when states disagree on token position or location, or when
    /// the same state requirement appears more than once.
    pub fn new(states: Vec<InferenceState>) -> (r: Result<Self, StateError>)
        ensures
            match first_member_defect(handles(states@), 0) {
                Some(error) => r == Err::<InferenceStateSet, StateError>(error),
                None => r is Ok && r->Ok_0@ == handles(states@) && coherent(handles(states@)),
            },
    {
        let ghost held = handles(states@);
        let mut index: usize = 0;
        while index < states.len()
            invariant
                index <= states.len(),
                held == handles(states@),
                first_member_defect(held, 0) == first_member_defect(held, index as int),
            decreases states.len() - index,
        {
            assert(held[0] == states@[0]@);
            assert(held[index as int] == states@[index as int]@);
            if states[index].handle().token_position != states[0].handle().token_position {
                return Err(StateError::PositionMismatch);
            }
            if states[index].handle().location != states[0].handle().location {
                return Err(StateError::LocationMismatch);
            }
            let mut known: usize = 0;
            while known < index
                invariant
                    known <= index < states.len(),
                    held == handles(states@),
                    first_member_defect(held, 0) == first_member_defect(held, index as int),
                    held[index as int].token_position == held[0].token_position,
                    held[index as int].location == held[0].location,
                    forall|j: int|
                        0 <= j < known ==> (#[trigger] held[j]).requirement
                            != held[index as int].requirement,
                decreases index - known,
            {
                assert(held[known as int] == states@[known as int]@);
                assert(held[index as int] == states@[index as int]@);
                if states[known].requirement() == states[index].requirement() {
                    assert(repeats_requirement(held, index as int));
                    return Err(StateError::DuplicateRequirement);
                }
                known += 1;
            }
            index += 1;
        }
        proof {
            lemma_no_defect_is_coherent(held, 0);
            assert forall|i: int| 0 <= i < held.len() implies (#[trigger] held[i]).token_position
                == held[0].token_position && held[i].location == held[0].location by {
                assert(member_defect(held, i) is None);
            }
            assert forall|i: int, j: int| 0 <= i < j < held.len() implies (
            #[trigger] held[i]).requirement != (#[trigger] held[j]).requirement by {
                assert(member_defect(held, j) is None);
            }
        }
        Ok(InferenceStateSet { states })
    }

    /// One optional state of each family.
    ///
    /// # Errors
    /// Returns a state error if the supplied states do not share a semantic prefix
    /// boundary or duplicate a state requirement.
    pub fn try_new(kv: Option<KvState>, recurrent: Option<RecurrentState>) -> (r: Result<
        Self,
        StateError,
    >)
        ensures
            match first_member_defect(supplied(kv, recurrent), 0) {
                Some(error) => r == Err::<InferenceStateSet, StateError>(error),
                None => r is Ok && r->Ok_0@ == supplied(kv, recurrent),
            },
    {
        let ghost given = supplied(kv, recurrent);
        let mut states: Vec<InferenceState> = Vec::new();
        if let Some(state) = kv {
            states.push(InferenceState::from(state));
        }
        if let Some(state) = recurrent {
            states.push(InferenceState::from(state));
        }
        assert(handles(states@) =~= given);
        InferenceStateSet::new(states)
    }

    #[must_use]
    pub fn states(&self) -> (r: &[InferenceState])
        ensures
            handles(r@) == self@,
            coherent(self@),
    {
        proof {
            use_type_invariant(self);
        }
        self.states.as_slice()
    }

    /// The first attention state, if there is one.
    #[must_use]
    pub fn kv(&self) -> (r: Option<&KvState>)
        ensures
            match r {
                Some(state) => exists|i: int|
                    0 <= i < self@.len() && #[trigger] self@[i] == state@
                        && self@[i].requirement is FullAttentionKv && forall|j: int|
                        0 <= j < i ==> !((#[trigger] self@[j]).requirement is FullAttentionKv),
                None => forall|j: int|
                    0 <= j < self@.len() ==> !((
                    #[trigger] self@[j]).requirement is FullAttentionKv),
            },
    {
        let mut index: usize = 0;
        while index < self.states.len()
            invariant
                index <= self.states.len(),
                forall|j: int|
                    0 <= j < index ==> !((#[trigger] self@[j]).requirement is FullAttentionKv),
            decreases self.states.len() - index,
        {
            assert(self@[index as int] == self.states@[index as int]@);
            match &self.states[index] {
                InferenceState::Kv(state) => {
                    proof {
                        use_type_invariant(state);
                    }
                    return Some(state);
                },
                InferenceState::Recurrent(state) => {
                    proof {
                        use_type_invariant(state);
                    }
                },
            }
            index += 1;
        }
        None
    }

    /// The first recurrent state, if there is one.
    #[must_use]
    pub fn recurrent(&self) -> (r: Option<&RecurrentState>)
        ensures
            match r {
                Some(state) => exists|i: int|
                    0 <= i < self@.len() && #[trigger] self@[i] == state@
                        && self@[i].requirement is Recurrent && forall|j: int|
                        0 <= j < i ==> !((#[trigger] self@[j]).requirement is Recurrent),
                None => forall|j: int|
                    0 <= j < self@.len() ==> !((#[trigger] self@[j]).requirement is Recurrent),
            },
    {
        let mut index: usize = 0;
        while index < self.states.len()
            invariant
                index <= self.states.len(),
                forall|j: int|
                    0 <= j < index ==> !((#[trigger] self@[j]).requirement is Recurrent),
            decreases self.states.len() - index,
        {
            assert(self@[index as int] == self.states@[index as int]@);
            match &self.states[index] {
                InferenceState::Recurrent(state) => {
                    proof {
                        use_type_invariant(state);
                    }
                    return Some(state);
                },
                InferenceState::Kv(state) => {
                    proof {
                        use_type_invariant(state);
                    }
                },
            }
            index += 1;
        }
        None
    }

    #[must_use]
    pub fn token_position(&self) -> (r: Option<u32>)
        ensures
            r == position_of(self@),
    {
        if self.states.len() == 0 {
            None
        } else {
            assert(self@[0] == self.states@[0]@);
            Some(self.states[0].handle().token_position)
        }
    }

    #[must_use]
    pub fn location(&self) -> (r: Option<StateLocation>)
        ensures
            r == location_of(self@),
    {
        if self.states.len() == 0 {
            None
        } else {
            assert(self@[0] == self.states@[0]@);
            Some(self.states[0].handle().location)
        }
    }

    #[must_use]
    pub fn contains(&self, requirement: StateRequirement) -> (r: bool)
        ensures
            r == satisfies(self@, requirement),
    {
        let mut index: usize = 0;
        while index < self.states.len()
            invariant
                index <= self.states.len(),
                forall|j: int|
                    0 <= j < index ==> (#[trigger] self@[j]).requirement != requirement,
            decreases self.states.len() - index,
        {
            assert(self@[index as int] == self.states@[index as int]@);
            if self.states[index].requirement() == requirement {
                return true;
            }
            index += 1;
        }
        false
    }

    /// Move every state to another position.
    pub(crate) fn moved_to(&self, token_position: u32) -> (r: InferenceStateSet)
        ensures
            r@ == at_position(self@, token_position),
    {
        proof {
            use_type_invariant(self);
        }
        let mut states: Vec<InferenceState> = Vec::new();
        let mut index: usize = 0;
        while index < self.states.len()
            invariant
                index <= self.states.len(),
                states@.len() == index,
                forall|j: int|
                    0 <= j < index ==> (#[trigger] states@[j])@ == self.states@[j]@.at(
                        token_position,
                    ),
            decreases self.states.len() - index,
        {
            states.push(self.states[index].with_position(token_position));
            index += 1;
        }
        proof {
            assert(handles(states@) =~= at_position(self@, token_position));
            lemma_at_position_coherent(self@, token_position);
        }
        InferenceStateSet { states }
    }
}

/// The position that states share, where there are any.
pub open spec fn position_of(states: Seq<StateHandle>) -> Option<u32> {
    if states.len() == 0 {
        None
    } else {
        Some(states[0].token_position)
    }
}

/// The placement that states share, where there are any.
pub open spec fn location_of(states: Seq<StateHandle>) -> Option<StateLocation> {
    if states.len() == 0 {
        None
    } else {
        Some(states[0].location)
    }
}

/// Whether one of the states meets the requirement.
pub open spec fn satisfies(states: Seq<StateHandle>, requirement: StateRequirement) -> bool {
    exists|i: int| 0 <= i < states.len() && (#[trigger] states[i]).requirement == requirement
}

#[derive(Clone, Copy, Debug, Hash, PartialEq, Eq, Structural)]
pub enum StateSpecError {
    ZeroDimension,
}

#[derive(Clone, Copy, Debug, Hash, PartialEq, Eq, Structural)]
pub enum StateError {
    UnsupportedRequirement,
    UnsupportedLocation,
    CapacityExceeded { requested_bytes: u64, available_bytes: u64 },
    SizeOverflow,
    InvalidHandle,
    DuplicateRequirement,
    PositionMismatch,
    LocationMismatch,
    PositionRegression,
}

/// A set is accepted exactly when its states share one prefix boundary and one placement
/// and no requirement occurs twice.
pub proof fn law_accepted_sets_share_a_boundary(states: Seq<StateHandle>)
    ensures
        first_member_defect(states, 0) is None <==> coherent(states),
{
    if first_member_defect(states, 0) is None {
        lemma_no_defect_is_coherent(states, 0);
        assert forall|i: int| 0 <= i < states.len() implies (#[trigger] states[i]).token_position
            == states[0].token_position && states[i].location == states[0].location by {
            assert(member_defect(states, i) is None);
        }
        assert forall|i: int, j: int| 0 <= i < j < states.len() implies (
        #[trigger] states[i]).requirement != (#[trigger] states[j]).requirement by {
            assert(member_defect(states, j) is None);
        }
    }
    if coherent(states) {
        lemma_coherent_has_no_defect(states, 0);
    }
}

proof fn lemma_coherent_has_no_defect(states: Seq<StateHandle>, i: int)
    requires
        0 <= i <= states.len(),
        coherent(states),
    ensures
        first_member_defect(states, i) is None,
    decreases states.len() - i,
{
    if i < states.len() {
        lemma_coherent_has_no_defect(states, i + 1);
    }
}

} // verus!
