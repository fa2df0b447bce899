//! Request shape, request-local infeasibility and concrete-shape selection.
//!
//! Everything here is host-computable and independent of a device context: which shapes
//! this encoder can execute at all, how many device bytes one request holds from
//! submission until release, and which prefix of a candidate set it accepts. Device
//! execution consumes these decisions instead of re-deriving them, so the accepted range
//! and the byte envelope the shared pool is asked to cover come from one concrete shape
//! rather than two independent budgets.

use crate::batch::executor::BatchSelection;
use crate::bert::config::BertConfig;
use vstd::prelude::*;

verus! {

/// One encoder request: token ids, their segment ids and a per-position key mask.
#[derive(Clone, Debug, PartialEq, Eq)]
pub struct EncoderRequest {
    pub token_ids: Vec<u32>,
    pub token_type_ids: Vec<u32>,
    /// One flag per position; a zero flag removes that position as a key.
    pub attention_mask: Vec<i32>,
}

/// What a request holds.
#[verifier::ext_equal]
pub struct EncoderRequestView {
    pub token_ids: Seq<u32>,
    pub token_type_ids: Seq<u32>,
    pub attention_mask: Seq<i32>,
}

impl View for EncoderRequest {
    type V = EncoderRequestView;

    open spec fn view(&self) -> EncoderRequestView {
        EncoderRequestView {
            token_ids: self.token_ids@,
            token_type_ids: self.token_type_ids@,
            attention_mask: self.attention_mask@,
        }
    }
}

impl EncoderRequest {
    /// A single-segment request whose every position is attendable.
    #[must_use]
    pub fn single_segment(token_ids: Vec<u32>) -> (r: Self)
        ensures
            r@.token_ids == token_ids@,
            r@.token_type_ids == Seq::new(token_ids@.len(), |i: int| 0u32),
            r@.attention_mask == Seq::new(token_ids@.len(), |i: int| 1i32),
    {
        let mut token_type_ids: Vec<u32> = Vec::new();
        let mut attention_mask: Vec<i32> = Vec::new();
        while token_type_ids.len() < token_ids.len()
            invariant
                token_type_ids@.len() <= token_ids@.len(),
                token_type_ids@ == Seq::new(token_type_ids@.len(), |i: int| 0u32),
                attention_mask@ == Seq::new(token_type_ids@.len(), |i: int| 1i32),
            decreases token_ids@.len() - token_type_ids@.len(),
        {
            token_type_ids.push(0);
            attention_mask.push(1);
        }
        EncoderRequest { token_ids, token_type_ids, attention_mask }
    }

    /// Positions this request occupies.
    #[must_use]
    pub fn sequence(&self) -> (r: usize)
        ensures
            r == self@.token_ids.len(),
    {
        self.token_ids.len()
    }
}

/// Why this encoder can never execute a request, whatever another owner releases.
///
/// These are request-local defects, not backpressure: releasing device bytes or draining a
/// consumer cannot make them executable. They are reported as [`BatchSelection::Rejected`]
/// and delivered without waiting.
#[derive(Clone, Copy, Debug, PartialEq, Eq, Structural)]
pub enum EncoderConstraint {
    /// A request with no positions has no shape to execute.
    EmptySequence,
    /// The request is longer than the model's position embeddings.
    SequenceTooLong { sequence: usize, max_position_embeddings: usize },
    /// Token, token-type and mask lengths do not agree.
    LengthMismatch { tokens: usize, token_types: usize, mask: usize },
    /// A token id is outside the model's vocabulary.
    UnknownToken { token: u32, vocabulary: usize },
    /// A token-type id is outside the model's type vocabulary.
    UnknownTokenType { kind: u32, type_vocabulary: usize },
    /// The request's element count does not fit an addressable byte envelope.
    ShapeOverflow { sequence: usize },
}

/// Concrete device shape of one request, and the storage it covers.
///
/// The envelope is the whole request's device footprint, not only the result: the staging
/// buffers, every activation the forward pass keeps alive, and the two outputs. A shared
/// pool must cover all of it before the work is admitted, because none of it is reusable
/// until the request is released.
#[derive(Clone, Copy, Debug, PartialEq, Eq, Structural)]
pub struct EncoderShape {
    sequence: usize,
    hidden: usize,
    heads: usize,
    hidden_values: usize,
    intermediate_values: usize,
    device_bytes: u64,
}

/// What a shape holds.
pub struct EncoderShapeView {
    pub sequence: usize,
    pub hidden: usize,
    pub heads: usize,
    pub hidden_values: usize,
    pub intermediate_values: usize,
    pub device_bytes: u64,
}

impl View for EncoderShape {
    type V = EncoderShapeView;

    closed spec fn view(&self) -> EncoderShapeView {
        EncoderShapeView {
            sequence: self.sequence,
            hidden: self.hidden,
            heads: self.heads,
            hidden_values: self.hidden_values,
            intermediate_values: self.intermediate_values,
            device_bytes: self.device_bytes,
        }
    }
}

impl EncoderShapeView {
    /// Whether the counts are those of the dimensions: one activation row per position,
    /// and an envelope that covers every buffer.
    pub open spec fn wf(self) -> bool {
        &&& self.sequence > 0
        &&& self.hidden_values == self.sequence * self.hidden
        &&& exists|intermediate: int|
            0 <= intermediate && self.intermediate_values == #[trigger] (self.sequence
                * intermediate)
        &&& self.device_bytes == 4 * shape_values(
            self.sequence as int,
            self.hidden as int,
            self.hidden_values as int,
            self.intermediate_values as int,
        )
        &&& self.device_bytes <= usize::MAX
    }
}

impl EncoderShape {
    #[verifier::type_invariant]
    spec fn inv(self) -> bool {
        self@.wf()
    }

    #[must_use]
    pub fn sequence(self) -> (r: usize)
        ensures
            r == self@.sequence,
            self@.wf(),
    {
        proof {
            use_type_invariant(&self);
        }
        self.sequence
    }

    #[must_use]
    pub fn hidden(self) -> (r: usize)
        ensures
            r == self@.hidden,
    {
        self.hidden
    }

    #[must_use]
    pub fn heads(self) -> (r: usize)
        ensures
            r == self@.heads,
    {
        self.heads
    }

    /// `[sequence, hidden]` value count of every activation row buffer.
    #[must_use]
    pub fn hidden_values(self) -> (r: usize)
        ensures
            r == self@.hidden_values,
            r == self@.sequence * self@.hidden,
    {
        proof {
            use_type_invariant(&self);
        }
        self.hidden_values
    }

    /// `[sequence, intermediate]` value count of the feed-forward buffer.
    #[must_use]
    pub fn intermediate_values(self) -> (r: usize)
        ensures
            r == self@.intermediate_values,
    {
        self.intermediate_values
    }

    /// Bytes this request holds on the device from submission until release.
    #[must_use]
    pub fn device_bytes(self) -> (r: u64)
        ensures
            r == self@.device_bytes,
            self@.wf(),
    {
        proof {
            use_type_invariant(&self);
        }
        self.device_bytes
    }
}

/// Values a request keeps on the device: six `[sequence, hidden]` float buffers, the
/// feed-forward buffer, the two `[hidden]` outputs and the three id vectors.
pub open spec fn shape_values(
    sequence: int,
    hidden: int,
    hidden_values: int,
    intermediate_values: int,
) -> int {
    6 * hidden_values + intermediate_values + 2 * hidden + 3 * sequence
}

/// Bytes that a sequence of positions holds on the device under a configuration.
pub open spec fn envelope_bytes(config: BertConfig, sequence: int) -> int {
    4 * shape_values(
        sequence,
        config.hidden_size as int,
        sequence * config.hidden_size,
        sequence * config.intermediate_size,
    )
}

/// The first of `ids` that is outside a vocabulary.
pub open spec fn first_outside(ids: Seq<u32>, vocabulary: usize) -> Option<u32>
    decreases ids.len(),
{
    if ids.len() == 0 {
        None
    } else if ids[0] >= vocabulary {
        Some(ids[0])
    } else {
        first_outside(ids.drop_first(), vocabulary)
    }
}

/// Why a sequence has no shape, if its length alone forbids one.
pub open spec fn length_defect(config: BertConfig, sequence: int) -> Option<EncoderConstraint> {
    if sequence == 0 {
        Some(EncoderConstraint::EmptySequence)
    } else if sequence > config.max_position_embeddings {
        Some(
            EncoderConstraint::SequenceTooLong {
                sequence: sequence as usize,
                max_position_embeddings: config.max_position_embeddings,
            },
        )
    } else {
        None
    }
}

/// The first constraint that makes a request permanently infeasible.
pub open spec fn request_defect(config: BertConfig, request: EncoderRequestView) -> Option<
    EncoderConstraint,
> {
    let tokens = request.token_ids.len();
    if length_defect(config, tokens as int) is Some {
        length_defect(config, tokens as int)
    } else if request.token_type_ids.len() != tokens || request.attention_mask.len() != tokens {
        Some(
            EncoderConstraint::LengthMismatch {
                tokens: tokens as usize,
                token_types: request.token_type_ids.len() as usize,
                mask: request.attention_mask.len() as usize,
            },
        )
    } else {
        match first_outside(request.token_ids, config.vocab_size) {
            Some(token) => Some(
                EncoderConstraint::UnknownToken { token, vocabulary: config.vocab_size },
            ),
            None => match first_outside(request.token_type_ids, config.type_vocab_size) {
                Some(kind) => Some(
                    EncoderConstraint::UnknownTokenType {
                        kind,
                        type_vocabulary: config.type_vocab_size,
                    },
                ),
                None => None,
            },
        }
    }
}

/// Why a sequence has no concrete shape, if it has none.
pub open spec fn shape_defect(config: BertConfig, sequence: int) -> Option<EncoderConstraint> {
    if length_defect(config, sequence) is Some {
        length_defect(config, sequence)
    } else if envelope_bytes(config, sequence) > usize::MAX {
        Some(EncoderConstraint::ShapeOverflow { sequence: sequence as usize })
    } else {
        None
    }
}

/// The shape of a sequence that has one.
pub open spec fn shape_view(config: BertConfig, sequence: int) -> EncoderShapeView {
    EncoderShapeView {
        sequence: sequence as usize,
        hidden: config.hidden_size,
        heads: config.num_attention_heads,
        hidden_values: (sequence * config.hidden_size) as usize,
        intermediate_values: (sequence * config.intermediate_size) as usize,
        device_bytes: envelope_bytes(config, sequence) as u64,
    }
}

/// Why a request cannot be executed: a defect of its own, or of the shape it would take.
pub open spec fn execution_defect(config: BertConfig, request: EncoderRequestView) -> Option<
    EncoderConstraint,
> {
    if request_defect(config, request) is Some {
        request_defect(config, request)
    } else {
        shape_defect(config, request.token_ids.len() as int)
    }
}

proof fn lemma_first_outside_skips(ids: Seq<u32>, vocabulary: usize, n: int)
    requires
        0 <= n <= ids.len(),
        forall|i: int| 0 <= i < n ==> #[trigger] ids[i] < vocabulary,
    ensures
        first_outside(ids, vocabulary) == first_outside(ids.skip(n), vocabulary),
    decreases n,
{
    if n == 0 {
        assert(ids.skip(0) =~= ids);
    } else {
        let rest = ids.drop_first();
        assert forall|i: int| 0 <= i < n - 1 implies #[trigger] rest[i] < vocabulary by {
            assert(rest[i] == ids[i + 1]);
        }
        assert(ids[0] < vocabulary);
        lemma_first_outside_skips(rest, vocabulary, n - 1);
        assert(rest.skip(n - 1) =~= ids.skip(n));
    }
}

fn find_outside(ids: &Vec<u32>, vocabulary: usize) -> (r: Option<u32>)
    ensures
        r == first_outside(ids@, vocabulary),
{
    let mut index: usize = 0;
    while index < ids.len()
        invariant
            index <= ids@.len(),
            forall|i: int| 0 <= i < index ==> #[trigger] ids@[i] < vocabulary,
        decreases ids@.len() - index,
    {
        let id: u32 = ids[index];
        if id as usize >= vocabulary {
            proof {
                lemma_first_outside_skips(ids@, vocabulary, index as int);
                assert(ids@.skip(index as int)[0] == id);
            }
            return Some(id);
        }
        index += 1;
    }
    proof {
        lemma_first_outside_skips(ids@, vocabulary, index as int);
        assert(ids@.skip(index as int) =~= Seq::empty());
    }
    None
}

/// Enumerate the constraints that make `request` permanently infeasible.
///
/// # Errors
/// Returns the first [`EncoderConstraint`] this request violates.
pub fn validate(config: &BertConfig, request: &EncoderRequest) -> (r: Result<
    (),
    EncoderConstraint,
>)
    ensures
        match request_defect(*config, request@) {
            Some(constraint) => r == Err::<(), EncoderConstraint>(constraint),
            None => r == Ok::<(), EncoderConstraint>(()),
        },
{
    let tokens: usize = request.token_ids.len();
    let token_types: usize = request.token_type_ids.len();
    let mask: usize = request.attention_mask.len();
    if tokens == 0 {
        return Err(EncoderConstraint::EmptySequence);
    }
    if tokens > config.max_position_embeddings {
        return Err(
            EncoderConstraint::SequenceTooLong {
                sequence: tokens,
                max_position_embeddings: config.max_position_embeddings,
            },
        );
    }
    if token_types != tokens || mask != tokens {
        return Err(EncoderConstraint::LengthMismatch { tokens, token_types, mask });
    }
    if let Some(token) = find_outside(&request.token_ids, config.vocab_size) {
        return Err(EncoderConstraint::UnknownToken { token, vocabulary: config.vocab_size });
    }
    if let Some(kind) = find_outside(&request.token_type_ids, config.type_vocab_size) {
        return Err(
            EncoderConstraint::UnknownTokenType { kind, type_vocabulary: config.type_vocab_size },
        );
    }
    Ok(())
}

/// Staging plus every activation the forward pass keeps alive, in bytes, where that many
/// can be addressed.
fn addressable_bytes(
    sequence: usize,
    hidden: usize,
    hidden_values: usize,
    intermediate_values: usize,
) -> (r: Option<u64>)
    ensures
        ({
            let bytes = 4 * shape_values(
                sequence as int,
                hidden as int,
                hidden_values as int,
                intermediate_values as int,
            );
            match r {
                Some(found) => found == bytes && bytes <= usize::MAX,
                None => bytes > usize::MAX,
            }
        }),
{
    let rows: usize = hidden_values.checked_mul(6)?;
    let activations: usize = rows.checked_add(intermediate_values)?;
    let outputs: usize = hidden.checked_mul(2)?;
    let floats: usize = activations.checked_add(outputs)?;
    let ids: usize = sequence.checked_mul(3)?;
    let elements: usize = floats.checked_add(ids)?;
    let bytes: usize = elements.checked_mul(4)?;
    Some(bytes as u64)
}

/// The concrete device shape of a sequence this model can execute.
///
/// # Errors
/// Returns [`EncoderConstraint`] for a sequence the model cannot execute at all.
pub fn shape(config: &BertConfig, sequence: usize) -> (r: Result<EncoderShape, EncoderConstraint>)
    ensures
        match shape_defect(*config, sequence as int) {
            Some(constraint) => r == Err::<EncoderShape, EncoderConstraint>(constraint),
            None => r is Ok && r->Ok_0@ == shape_view(*config, sequence as int),
        },
{
    if sequence == 0 {
        return Err(EncoderConstraint::EmptySequence);
    }
    if sequence > config.max_position_embeddings {
        return Err(
            EncoderConstraint::SequenceTooLong {
                sequence,
                max_position_embeddings: config.max_position_embeddings,
            },
        );
    }
    proof {
        assert(0 <= sequence * config.hidden_size && 0 <= sequence * config.intermediate_size)
            by (nonlinear_arith);
    }
    let hidden_values = match sequence.checked_mul(config.hidden_size) {
        Some(values) => values,
        None => return Err(EncoderConstraint::ShapeOverflow { sequence }),
    };
    let intermediate_values = match sequence.checked_mul(config.intermediate_size) {
        Some(values) => values,
        None => return Err(EncoderConstraint::ShapeOverflow { sequence }),
    };
    let device_bytes = match addressable_bytes(
        sequence,
        config.hidden_size,
        hidden_values,
        intermediate_values,
    ) {
        Some(bytes) => bytes,
        None => return Err(EncoderConstraint::ShapeOverflow { sequence }),
    };
    proof {
        let intermediate = config.intermediate_size as int;
        assert(intermediate_values == sequence * intermediate);
    }
    Ok(
        EncoderShape {
            sequence,
            hidden: config.hidden_size,
            heads: config.num_attention_heads,
            hidden_values,
            intermediate_values,
            device_bytes,
        },
    )
}

/// The concrete device shape of one request, after its contents are validated.
///
/// # Errors
/// Returns [`EncoderConstraint`] for a request this model cannot execute.
pub fn shape_of(config: &BertConfig, request: &EncoderRequest) -> (r: Result<
    EncoderShape,
    EncoderConstraint,
>)
    ensures
        match execution_defect(*config, request@) {
            Some(constraint) => r == Err::<EncoderShape, EncoderConstraint>(constraint),
            None => r is Ok && r->Ok_0@ == shape_view(*config, request@.token_ids.len() as int),
        },
{
    match validate(config, request) {
        Ok(()) => shape(config, request.sequence()),
        Err(constraint) => Err(constraint),
    }
}

/// Bytes one request holds on the device from submission until release.
///
/// This is exactly [`EncoderShape::device_bytes`] for the request's positions. A caller
/// that only needs the envelope (a capacity check, say) does not have to build a shape.
///
/// # Errors
/// Returns [`EncoderConstraint`] for a request this model cannot execute, or for a sequence
/// whose envelope is not representable.
pub fn envelope(config: &BertConfig, request: &EncoderRequest) -> (r: Result<
    u64,
    EncoderConstraint,
>)
    ensures
        match execution_defect(*config, request@) {
            Some(constraint) => r == Err::<u64, EncoderConstraint>(constraint),
            None => r is Ok && r->Ok_0 == envelope_bytes(
                *config,
                request@.token_ids.len() as int,
            ),
        },
{
    match shape_of(config, request) {
        Ok(shape) => Ok(shape.device_bytes()),
        Err(constraint) => Err(constraint),
    }
}

/// Whether the first `items` candidates can all be executed.
pub open spec fn executable_prefix(
    config: BertConfig,
    candidates: Seq<EncoderRequest>,
    items: int,
) -> bool {
    &&& 0 <= items <= candidates.len()
    &&& forall|i: int|
        0 <= i < items ==> execution_defect(config, #[trigger] candidates[i]@) is None
}

/// The longest executable prefix, or the defect of the head where there is a head and it
/// has one.
pub open spec fn selected(config: BertConfig, candidates: Seq<EncoderRequest>) -> BatchSelection<
    EncoderConstraint,
> {
    if candidates.len() > 0 && execution_defect(config, candidates[0]@) is Some {
        BatchSelection::Rejected(execution_defect(config, candidates[0]@)->Some_0)
    } else {
        BatchSelection::Ready { items: accepted(config, candidates) as usize }
    }
}

/// How many candidates the accepted range holds: all before the first defect.
pub open spec fn accepted(config: BertConfig, candidates: Seq<EncoderRequest>) -> nat
    decreases candidates.len(),
{
    if candidates.len() == 0 || execution_defect(config, candidates[0]@) is Some {
        0
    } else {
        1 + accepted(config, candidates.drop_first())
    }
}

proof fn lemma_accepted_skips(config: BertConfig, candidates: Seq<EncoderRequest>, n: int)
    requires
        executable_prefix(config, candidates, n),
    ensures
        accepted(config, candidates) == n + accepted(config, candidates.skip(n)),
    decreases n,
{
    if n == 0 {
        assert(candidates.skip(0) =~= candidates);
    } else {
        let rest = candidates.drop_first();
        assert(execution_defect(config, candidates[0]@) is None);
        assert(executable_prefix(config, rest, n - 1)) by {
            assert forall|i: int| 0 <= i < n - 1 implies execution_defect(
                config,
                #[trigger] rest[i]@,
            ) is None by {
                assert(rest[i] == candidates[i + 1]);
            }
        }
        lemma_accepted_skips(config, rest, n - 1);
        assert(rest.skip(n - 1) =~= candidates.skip(n));
    }
}

/// Accept the executable prefix of `candidates`, or reject the head.
///
/// The accepted range comes from concrete shapes rather than a per-row budget: a candidate
/// is admitted when this encoder can execute its shape at all, and the runtime budget is
/// the aggregate of the admitted requests' real envelopes. A defect in the head is
/// permanent and is reported as [`BatchSelection::Rejected`]; the same defect deeper in
/// the candidate set only stops the accepted range, because FIFO order makes that request
/// the head once earlier work drains.
///
/// `candidates` follows the runtime's contract: it is the queue prefix, in order, never
/// empty. An empty slice is answered with an empty selection, which the runtime never asks
/// for.
#[must_use]
pub fn select(config: &BertConfig, candidates: &[&EncoderRequest]) -> (r: BatchSelection<
    EncoderConstraint,
>)
    ensures
        r == selected(*config, candidates@.unref()),
{
    let ghost all = candidates@.unref();
    let mut items: usize = 0;
    while items < candidates.len()
        invariant
            items <= candidates@.len(),
            all == candidates@.unref(),
            executable_prefix(*config, all, items as int),
        decreases candidates@.len() - items,
    {
        let candidate = candidates[items];
        assert(all[items as int] == *candidate);
        if let Err(constraint) = shape_of(config, candidate) {
            proof {
                lemma_accepted_skips(*config, all, items as int);
                assert(all.skip(items as int)[0] == all[items as int]);
            }
            if items == 0 {
                return BatchSelection::Rejected(constraint);
            }
            proof {
                assert(execution_defect(*config, all[0]@) is None);
            }
            return BatchSelection::Ready { items };
        }
        items += 1;
    }
    proof {
        lemma_accepted_skips(*config, all, items as int);
        assert(all.skip(items as int) =~= Seq::empty());
        if items > 0 {
            assert(execution_defect(*config, all[0]@) is None);
        }
    }
    BatchSelection::Ready { items }
}

/// The envelope grows with the sequence: more positions hold strictly more device bytes.
pub proof fn law_envelope_grows_with_the_sequence(config: BertConfig, shorter: int, longer: int)
    requires
        0 <= shorter < longer,
    ensures
        envelope_bytes(config, shorter) < envelope_bytes(config, longer),
{
    assert(shorter * config.hidden_size <= longer * config.hidden_size) by (nonlinear_arith)
        requires
            0 <= shorter < longer,
    ;
    assert(shorter * config.intermediate_size <= longer * config.intermediate_size)
        by (nonlinear_arith)
        requires
            0 <= shorter < longer,
    ;
}

/// The accepted range is the longest prefix the encoder can execute: it holds no defect,
/// and the candidate behind it, where there is one, has a defect.
pub proof fn law_accepted_range_is_the_longest_prefix(
    config: BertConfig,
    candidates: Seq<EncoderRequest>,
)
    ensures
        executable_prefix(config, candidates, accepted(config, candidates) as int),
        accepted(config, candidates) < candidates.len() ==> execution_defect(
            config,
            candidates[accepted(config, candidates) as int]@,
        ) is Some,
    decreases candidates.len(),
{
    if candidates.len() > 0 && execution_defect(config, candidates[0]@) is None {
        let rest = candidates.drop_first();
        law_accepted_range_is_the_longest_prefix(config, rest);
        let items = accepted(config, candidates) as int;
        assert forall|i: int| 0 <= i < items implies execution_defect(
            config,
            #[trigger] candidates[i]@,
        ) is None by {
            if i > 0 {
                assert(candidates[i] == rest[i - 1]);
            }
        }
        if items < candidates.len() {
            assert(candidates[items] == rest[items - 1]);
        }
    }
}

/// Only the head can be rejected: a selection rejects exactly where there is a head and
/// the encoder can never execute it, whatever stands behind it.
pub proof fn law_only_a_defective_head_is_rejected(
    config: BertConfig,
    candidates: Seq<EncoderRequest>,
)
    ensures
        selected(config, candidates) is Rejected <==> (candidates.len() > 0 && execution_defect(
            config,
            candidates[0]@,
        ) is Some),
        selected(config, candidates) is Rejected ==> selected(config, candidates)->Rejected_0
            == execution_defect(config, candidates[0]@)->Some_0,
        !(selected(config, candidates) is Rejected) && candidates.len() > 0
            && candidates.len() <= usize::MAX ==> selected(config, candidates)->items > 0,
{
    law_accepted_range_is_the_longest_prefix(config, candidates);
}

} // verus!
