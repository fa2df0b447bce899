//! Request identity and semantic parameters.

use crate::engine::model::ModelId;
use crate::engine::single::{Single, ONE_BITS};
use vstd::prelude::*;

verus! {

/// Identity of one request; never zero.
#[derive(Clone, Copy, Debug, Hash, PartialEq, Eq, Structural)]
pub struct RequestId(u64);

impl View for RequestId {
    type V = u64;

    closed spec fn view(&self) -> u64 {
        self.0
    }
}

impl RequestId {
    #[verifier::type_invariant]
    spec fn nonzero(self) -> bool {
        self.0 != 0
    }

    #[must_use]
    pub fn new(value: u64) -> (r: Option<Self>)
        ensures
            value == 0 ==> r is None,
            value != 0 ==> r is Some && r->Some_0@ == value,
    {
        if value == 0 {
            None
        } else {
            Some(RequestId(value))
        }
    }

    #[must_use]
    pub fn get(self) -> (r: u64)
        ensures
            r == self@,
            r != 0,
    {
        proof {
            use_type_invariant(&self);
        }
        self.0
    }

    /// An identity is determined by its number.
    pub proof fn lemma_determined(a: Self, b: Self)
        ensures
            a@ == b@ <==> a == b,
    {
    }
}

#[derive(Clone, Copy, Debug, Hash, PartialEq, Eq, Structural)]
pub enum ThinkingMode {
    On,
    Off,
    Automatic,
}

/// Controls whether a tokenizer adds model boundary tokens to a plain-text prompt.
/// Special-token parsing remains an explicit adapter operation.
#[derive(Clone, Copy, Debug, Hash, PartialEq, Eq, Structural)]
pub enum SpecialTokenPolicy {
    Nothing,
    AddBos,
    AddEos,
    AddBosAndEos,
}

/// Selects the prompt representation requested by the caller.
#[derive(Clone, Copy, Debug, Hash, PartialEq, Eq, Structural)]
pub enum PromptFormat {
    PlainText,
    EmbeddedChatTemplate,
}

/// Semantic prompt encoding policy. It is part of request identity because changing it can
/// change the token sequence and model output.
#[derive(Clone, Copy, Debug, Hash, PartialEq, Eq, Structural)]
pub struct PromptPolicy {
    pub format: PromptFormat,
    pub special_tokens: SpecialTokenPolicy,
}

impl PromptPolicy {
    #[must_use]
    pub fn format(self) -> (r: PromptFormat)
        ensures
            r == self.format,
    {
        self.format
    }

    #[must_use]
    pub fn special_tokens(self) -> (r: SpecialTokenPolicy)
        ensures
            r == self.special_tokens,
    {
        self.special_tokens
    }
}

impl PromptPolicy {
    #[must_use]
    pub fn new(format: PromptFormat, special_tokens: SpecialTokenPolicy) -> (r: Self)
        ensures
            r == (PromptPolicy { format, special_tokens }),
    {
        PromptPolicy { format, special_tokens }
    }

    #[must_use]
    pub fn plain_text() -> (r: Self)
        ensures
            r == (PromptPolicy {
                format: PromptFormat::PlainText,
                special_tokens: SpecialTokenPolicy::Nothing,
            }),
    {
        PromptPolicy::new(PromptFormat::PlainText, SpecialTokenPolicy::Nothing)
    }
}

/// Sampling settings are semantic: changing them can change model output and therefore
/// they do not belong in a performance-policy snapshot. Temperature is finite and
/// non-negative; top-p is in the range (0, 1].
#[derive(Clone, Copy, Debug)]
pub struct SamplingParams {
    seed: Option<u64>,
    temperature: Single,
    top_p: Single,
    top_k: u32,
}

/// What sampling settings hold.
#[verifier::ext_equal]
pub struct SamplingParamsView {
    pub seed: Option<u64>,
    pub temperature: Single,
    pub top_p: Single,
    pub top_k: u32,
}

impl View for SamplingParams {
    type V = SamplingParamsView;

    closed spec fn view(&self) -> SamplingParamsView {
        SamplingParamsView {
            seed: self.seed,
            temperature: self.temperature,
            top_p: self.top_p,
            top_k: self.top_k,
        }
    }
}

impl PartialEq for SamplingParams {
    fn eq(&self, other: &Self) -> (r: bool) {
        self.seed == other.seed && self.temperature == other.temperature && self.top_p
            == other.top_p && self.top_k == other.top_k
    }
}

impl vstd::std_specs::cmp::PartialEqSpecImpl for SamplingParams {
    open spec fn obeys_eq_spec() -> bool {
        true
    }

    open spec fn eq_spec(&self, other: &Self) -> bool {
        &&& self@.seed == other@.seed
        &&& self@.temperature.equals(other@.temperature)
        &&& self@.top_p.equals(other@.top_p)
        &&& self@.top_k == other@.top_k
    }
}

impl SamplingParams {
    #[must_use]
    pub fn seed(self) -> (r: Option<u64>)
        ensures
            r == self@.seed,
    {
        self.seed
    }

    #[must_use]
    pub fn temperature(self) -> (r: Single)
        ensures
            r == self@.temperature,
    {
        self.temperature
    }

    #[must_use]
    pub fn top_p(self) -> (r: Single)
        ensures
            r == self@.top_p,
    {
        self.top_p
    }

    #[must_use]
    pub fn top_k(self) -> (r: u32)
        ensures
            r == self@.top_k,
    {
        self.top_k
    }
}

/// Whether a temperature is finite and non-negative.
pub open spec fn temperature_accepted(temperature: Single) -> bool {
    temperature.finite() && temperature.key() >= 0
}

/// Whether a top-p is in the range (0, 1].
pub open spec fn top_p_accepted(top_p: Single) -> bool {
    top_p.finite() && 0 < top_p.key() <= ONE_BITS
}

/// Whether a draw is in the range [0, 1).
pub open spec fn draw_accepted(random_unit: Single) -> bool {
    random_unit.finite() && 0 <= random_unit.key() < ONE_BITS
}

/// Whether every logit is finite.
pub open spec fn all_finite(logits: Seq<Single>) -> bool {
    forall|i: int| 0 <= i < logits.len() ==> (#[trigger] logits[i]).finite()
}

/// Whether token `a` comes before token `b`: a greater logit, or the same one and a lower
/// identity.
pub open spec fn outranks(logits: Seq<Single>, a: int, b: int) -> bool {
    logits[a].key() > logits[b].key() || (logits[a].key() == logits[b].key() && a < b)
}

/// Whether token `best` comes before every other one.
pub open spec fn is_best(logits: Seq<Single>, best: int) -> bool {
    &&& 0 <= best < logits.len()
    &&& forall|i: int| 0 <= i < logits.len() && i != best ==> outranks(logits, best, i)
}

/// Whether tokens stand in rank order.
pub open spec fn ranked(logits: Seq<Single>, tokens: Seq<u32>) -> bool {
    forall|i: int, j: int|
        0 <= i < j < tokens.len() ==> outranks(logits, #[trigger] tokens[i] as int, #[trigger] tokens[j] as int)
}

/// Whether tokens are exactly those from `low` up to `high`.
pub open spec fn spans(tokens: Seq<u32>, low: int, high: int) -> bool {
    &&& tokens.len() == high - low
    &&& forall|i: int| 0 <= i < tokens.len() ==> low <= (#[trigger] tokens[i]) < high
    &&& forall|t: u32| low <= t < high ==> #[trigger] tokens.contains(t)
}

/// How many candidates a top-k leaves of `count`; zero leaves all of them.
pub open spec fn kept(top_k: u32, count: nat) -> nat {
    if top_k == 0 || top_k >= count {
        count
    } else {
        top_k as nat
    }
}

/// The first cumulative share from `i` on that reaches `top_p`, counted with it; all of
/// them where none does.
pub open spec fn nucleus_size(cumulative: Seq<Single>, top_p: Single, i: int) -> int
    decreases cumulative.len() - i,
{
    if i < 0 || i >= cumulative.len() {
        cumulative.len() as int
    } else if cumulative[i].at_least(top_p) {
        i + 1
    } else {
        nucleus_size(cumulative, top_p, i + 1)
    }
}

/// The first cumulative weight from `i` on that is above the target.
pub open spec fn first_above(cumulative: Seq<Single>, target: Single, i: int) -> Option<int>
    decreases cumulative.len() - i,
{
    if i < 0 || i >= cumulative.len() {
        None
    } else if cumulative[i].above(target) {
        Some(i)
    } else {
        first_above(cumulative, target, i + 1)
    }
}

/// How a token is to be selected from logits.
#[derive(Clone, Copy, Debug, Hash, PartialEq, Eq, Structural)]
pub enum TokenSelection {
    /// The greedy choice.
    Greedy(u32),
    /// A draw over the weighted candidates.
    Stochastic,
}

impl SamplingParams {
    #[verifier::type_invariant]
    spec fn accepted(self) -> bool {
        temperature_accepted(self.temperature) && top_p_accepted(self.top_p)
    }

    /// # Errors
    /// Returns [`SamplingError::InvalidTemperature`] when the temperature is not finite and
    /// non-negative, then [`SamplingError::InvalidTopP`] when top-p is outside (0, 1].
    pub fn new(seed: Option<u64>, temperature: Single, top_p: Single, top_k: u32) -> (r: Result<
        Self,
        SamplingError,
    >)
        ensures
            !temperature_accepted(temperature) ==> r == Err::<SamplingParams, SamplingError>(
                SamplingError::InvalidTemperature,
            ),
            temperature_accepted(temperature) && !top_p_accepted(top_p) ==> r == Err::<
                SamplingParams,
                SamplingError,
            >(SamplingError::InvalidTopP),
            temperature_accepted(temperature) && top_p_accepted(top_p) ==> r is Ok && r->Ok_0@ == (
            SamplingParamsView { seed, temperature, top_p, top_k }),
    {
        if !temperature.is_finite() || temperature.order_key() < 0 {
            return Err(SamplingError::InvalidTemperature);
        }
        if !top_p.is_finite() || top_p.order_key() <= 0 || top_p.order_key() > ONE_BITS as i64 {
            return Err(SamplingError::InvalidTopP);
        }
        Ok(SamplingParams { seed, temperature, top_p, top_k })
    }

    #[must_use]
    pub fn greedy(seed: Option<u64>) -> (r: Self)
        ensures
            r@ == (SamplingParamsView {
                seed,
                temperature: Single { bits: 0 },
                top_p: Single { bits: ONE_BITS },
                top_k: 0,
            }),
    {
        SamplingParams {
            seed,
            temperature: Single { bits: 0 },
            top_p: Single { bits: ONE_BITS },
            top_k: 0,
        }
    }

    /// Decide how one token is selected from a logits vector. The caller supplies one
    /// uniform random draw, so that it can own the generator's state.
    ///
    /// For greedy sampling (a temperature of zero) `random_unit` is ignored, and ties are
    /// resolved by the lowest token identity. Otherwise the draw is checked, and the caller
    /// weighs the candidates that [`Self::candidates`] ranks.
    ///
    /// # Errors
    /// Returns [`SamplingError::EmptyLogits`], [`SamplingError::NonFiniteLogit`],
    /// [`SamplingError::TokenIndexOverflow`] for a greedy choice that no token identity
    /// names, or [`SamplingError::InvalidRandomUnit`] for a draw outside [0, 1).
    pub fn select_token(self, logits: &[Single], random_unit: Single) -> (r: Result<
        TokenSelection,
        SamplingError,
    >)
        ensures
            logits@.len() == 0 ==> r == Err::<TokenSelection, SamplingError>(
                SamplingError::EmptyLogits,
            ),
            logits@.len() > 0 && !all_finite(logits@) ==> r == Err::<TokenSelection, SamplingError>(
                SamplingError::NonFiniteLogit,
            ),
            logits@.len() > 0 && all_finite(logits@) && self@.temperature.key() == 0 ==> (
            exists|best: int| #[trigger]
                is_best(logits@, best) && r == if best <= u32::MAX {
                    Ok::<TokenSelection, SamplingError>(TokenSelection::Greedy(best as u32))
                } else {
                    Err(SamplingError::TokenIndexOverflow)
                }),
            logits@.len() > 0 && all_finite(logits@) && self@.temperature.key() != 0 ==> r == (
            if draw_accepted(random_unit) {
                Ok::<TokenSelection, SamplingError>(TokenSelection::Stochastic)
            } else {
                Err(SamplingError::InvalidRandomUnit)
            }),
    {
        if logits.len() == 0 {
            return Err(SamplingError::EmptyLogits);
        }
        let mut index: usize = 0;
        while index < logits.len()
            invariant
                index <= logits.len(),
                forall|i: int| 0 <= i < index ==> (#[trigger] logits@[i]).finite(),
            decreases logits.len() - index,
        {
            if !logits[index].is_finite() {
                return Err(SamplingError::NonFiniteLogit);
            }
            index += 1;
        }
        if self.temperature.order_key() == 0 {
            let best: usize = greedy_index(logits);
            assert(is_best(logits@, best as int));
            if best as u64 > u32::MAX as u64 {
                return Err(SamplingError::TokenIndexOverflow);
            }
            return Ok(TokenSelection::Greedy(best as u32));
        }
        if !random_unit.is_finite() || random_unit.order_key() < 0 || random_unit.order_key()
            >= ONE_BITS as i64 {
            return Err(SamplingError::InvalidRandomUnit);
        }
        Ok(TokenSelection::Stochastic)
    }

    /// The candidates for a draw, best first: the tokens of the scaled logits in rank
    /// order, cut to top-k.
    ///
    /// # Errors
    /// Returns [`SamplingError::TokenIndexOverflow`] when there are more logits than token
    /// identities.
    pub fn candidates(self, scaled: &[Single]) -> (r: Result<Vec<u32>, SamplingError>)
        ensures
            scaled@.len() > u32::MAX + 1 ==> r == Err::<Vec<u32>, SamplingError>(
                SamplingError::TokenIndexOverflow,
            ),
            scaled@.len() <= u32::MAX + 1 ==> r is Ok && {
                let tokens = r->Ok_0@;
                &&& tokens.len() == kept(self@.top_k, scaled@.len())
                &&& forall|i: int| 0 <= i < tokens.len() ==> (#[trigger] tokens[i]) < scaled@.len()
                &&& ranked(scaled@, tokens)
                &&& forall|t: u32, i: int|
                    t < scaled@.len() && !#[trigger] tokens.contains(t) && 0 <= i < tokens.len()
                        ==> outranks(scaled@, #[trigger] tokens[i] as int, t as int)
            },
    {
        if scaled.len() as u64 > u32::MAX as u64 + 1 {
            return Err(SamplingError::TokenIndexOverflow);
        }
        let mut tokens = rank(scaled, 0, scaled.len());
        let ghost all = tokens@;
        if self.top_k > 0 && (self.top_k as usize) < tokens.len() {
            tokens.truncate(self.top_k as usize);
            assert forall|t: u32, i: int|
                t < scaled@.len() && !#[trigger] tokens@.contains(t) && 0 <= i
                    < tokens@.len() implies outranks(
                scaled@,
                #[trigger] tokens@[i] as int,
                t as int,
            ) by {
                assert(all.contains(t));
                let at = choose|at: int| 0 <= at < all.len() && all[at] == t;
                if at < tokens@.len() {
                    assert(tokens@[at] == t);
                    assert(tokens@.contains(t));
                }
                assert(outranks(scaled@, all[i] as int, all[at] as int));
            }
            assert(ranked(scaled@, tokens@)) by {
                assert forall|i: int, j: int| 0 <= i < j < tokens@.len() implies outranks(
                    scaled@,
                    #[trigger] tokens@[i] as int,
                    #[trigger] tokens@[j] as int,
                ) by {
                    assert(outranks(scaled@, all[i] as int, all[j] as int));
                }
            }
        }
        Ok(tokens)
    }

    /// How many candidates the nucleus holds, from the cumulative shares of the ranked
    /// candidates: up to the first share that reaches top-p, or all of them.
    #[must_use]
    pub fn nucleus(self, cumulative: &[Single]) -> (r: usize)
        ensures
            r == nucleus_size(cumulative@, self@.top_p, 0),
            r <= cumulative@.len(),
            forall|i: int| 0 <= i < r - 1 ==> !(#[trigger] cumulative@[i]).at_least(self@.top_p),
            r < cumulative@.len() ==> r >= 1 && cumulative@[r - 1].at_least(self@.top_p),
            (exists|i: int|
                0 <= i < cumulative@.len() && (#[trigger] cumulative@[i]).at_least(self@.top_p))
                ==> r >= 1 && cumulative@[r - 1].at_least(self@.top_p),
    {
        let mut index: usize = 0;
        while index < cumulative.len()
            invariant
                index <= cumulative.len(),
                nucleus_size(cumulative@, self@.top_p, 0) == nucleus_size(
                    cumulative@,
                    self@.top_p,
                    index as int,
                ),
            decreases cumulative.len() - index,
        {
            if cumulative[index].is_at_least(self.top_p) {
                proof {
                    law_nucleus_ends_with_the_share_that_reaches_top_p(cumulative@, self@.top_p);
                }
                return index + 1;
            }
            index += 1;
        }
        proof {
            law_nucleus_ends_with_the_share_that_reaches_top_p(cumulative@, self@.top_p);
        }
        cumulative.len()
    }
}

/// Which candidate a draw selects, from the cumulative weights of the nucleus: the first
/// one above the target.
///
/// # Errors
/// Returns [`SamplingError::InvalidRandomUnit`] when no cumulative weight is above the
/// target.
pub fn drawn_candidate(cumulative: &[Single], target: Single) -> (r: Result<usize, SamplingError>)
    ensures
        match first_above(cumulative@, target, 0) {
            Some(index) => r is Ok && r->Ok_0 == index,
            None => r == Err::<usize, SamplingError>(SamplingError::InvalidRandomUnit),
        },
        r matches Ok(at) ==> at < cumulative@.len() && cumulative@[at as int].above(target)
            && forall|i: int| 0 <= i < at ==> !(#[trigger] cumulative@[i]).above(target),
        r is Err ==> forall|i: int|
            0 <= i < cumulative@.len() ==> !(#[trigger] cumulative@[i]).above(target),
{
    let mut index: usize = 0;
    while index < cumulative.len()
        invariant
            index <= cumulative.len(),
            first_above(cumulative@, target, 0) == first_above(cumulative@, target, index as int),
        decreases cumulative.len() - index,
    {
        if cumulative[index].is_above(target) {
            proof {
                law_draws_select_the_first_weight_above(cumulative@, target);
            }
            return Ok(index);
        }
        index += 1;
    }
    proof {
        law_draws_select_the_first_weight_above(cumulative@, target);
    }
    Err(SamplingError::InvalidRandomUnit)
}

fn greedy_index(logits: &[Single]) -> (r: usize)
    requires
        logits@.len() > 0,
    ensures
        is_best(logits@, r as int),
{
    let mut best: usize = 0;
    let mut index: usize = 1;
    while index < logits.len()
        invariant
            best < index <= logits.len(),
            forall|i: int| 0 <= i < index && i != best ==> outranks(logits@, best as int, i),
        decreases logits.len() - index,
    {
        let ghost before = best as int;
        if logits[index].order_key() > logits[best].order_key() {
            best = index;
        }
        assert forall|i: int| 0 <= i < index + 1 && i != best implies outranks(
            logits@,
            best as int,
            i,
        ) by {
            if i != before && i != index {
                assert(outranks(logits@, before, i));
            }
        }
        index += 1;
    }
    best
}

/// The tokens from `low` up to `high` in rank order.
fn rank(scaled: &[Single], low: usize, high: usize) -> (r: Vec<u32>)
    requires
        low <= high <= scaled@.len() <= u32::MAX + 1,
    ensures
        spans(r@, low as int, high as int),
        ranked(scaled@, r@),
    decreases high - low,
{
    if high - low == 0 {
        return Vec::new();
    }
    if high - low == 1 {
        let mut single: Vec<u32> = Vec::new();
        single.push(low as u32);
        assert(single@[0] == low as u32);
        assert(spans(single@, low as int, high as int));
        return single;
    }
    let middle: usize = low + (high - low) / 2;
    let left = rank(scaled, low, middle);
    let right = rank(scaled, middle, high);
    merge(scaled, &left, &right, low, middle, high)
}

fn merge(
    scaled: &[Single],
    left: &Vec<u32>,
    right: &Vec<u32>,
    low: usize,
    middle: usize,
    high: usize,
) -> (r: Vec<u32>)
    requires
        low <= middle <= high <= scaled@.len() <= u32::MAX + 1,
        spans(left@, low as int, middle as int),
        spans(right@, middle as int, high as int),
        ranked(scaled@, left@),
        ranked(scaled@, right@),
    ensures
        spans(r@, low as int, high as int),
        ranked(scaled@, r@),
{
    let mut merged: Vec<u32> = Vec::new();
    let mut i: usize = 0;
    let mut j: usize = 0;
    while i < left.len() || j < right.len()
        invariant
            i <= left@.len(),
            j <= right@.len(),
            merged@.len() == i + j,
            low <= middle <= high <= scaled@.len() <= u32::MAX + 1,
            spans(left@, low as int, middle as int),
            spans(right@, middle as int, high as int),
            ranked(scaled@, left@),
            ranked(scaled@, right@),
            ranked(scaled@, merged@),
            forall|k: int| 0 <= k < merged@.len() ==> low <= (#[trigger] merged@[k]) < high,
            forall|k: int| 0 <= k < i ==> merged@.contains(#[trigger] left@[k]),
            forall|k: int| 0 <= k < j ==> merged@.contains(#[trigger] right@[k]),
            forall|k: int, l: int|
                0 <= k < merged@.len() && i <= l < left@.len() ==> outranks(
                    scaled@,
                    #[trigger] merged@[k] as int,
                    #[trigger] left@[l] as int,
                ),
            forall|k: int, l: int|
                0 <= k < merged@.len() && j <= l < right@.len() ==> outranks(
                    scaled@,
                    #[trigger] merged@[k] as int,
                    #[trigger] right@[l] as int,
                ),
        decreases left.len() - i + right.len() - j,
    {
        let ghost before = merged@;
        let take_left: bool = if i >= left.len() {
            false
        } else if j >= right.len() {
            true
        } else {
            let a: u32 = left[i];
            let b: u32 = right[j];
            scaled[a as usize].order_key() >= scaled[b as usize].order_key()
        };
        let next: u32 = if take_left {
            left[i]
        } else {
            right[j]
        };
        proof {
            if take_left && j < right@.len() {
                assert(outranks(scaled@, left@[i as int] as int, right@[j as int] as int));
            }
            if !take_left && i < left@.len() {
                assert(outranks(scaled@, right@[j as int] as int, left@[i as int] as int));
            }
        }
        merged.push(next);
        proof {
            assert(merged@[before.len() as int] == next);
            assert forall|t: u32| before.contains(t) implies #[trigger] merged@.contains(t) by {
                let at = choose|at: int| 0 <= at < before.len() && before[at] == t;
                assert(merged@[at] == t);
            }
            assert(merged@.contains(next));
        }
        if take_left {
            i += 1;
        } else {
            j += 1;
        }
    }
    proof {
        assert forall|t: u32| low <= t < high implies #[trigger] merged@.contains(t) by {
            if t < middle {
                assert(left@.contains(t));
                let at = choose|at: int| 0 <= at < left@.len() && left@[at] == t;
                assert(merged@.contains(left@[at]));
            } else {
                assert(right@.contains(t));
                let at = choose|at: int| 0 <= at < right@.len() && right@[at] == t;
                assert(merged@.contains(right@[at]));
            }
        }
    }
    merged
}

/// Greedy selection has one answer: no two tokens both come before every other one.
pub proof fn law_greedy_choice_is_unique(logits: Seq<Single>, a: int, b: int)
    requires
        is_best(logits, a),
        is_best(logits, b),
    ensures
        a == b,
{
    if a != b {
        assert(outranks(logits, a, b));
        assert(outranks(logits, b, a));
    }
}

/// The lowest identity wins a tie: no token before the greedy choice has its logit.
pub proof fn law_ties_go_to_the_lowest_identity(logits: Seq<Single>, best: int, other: int)
    requires
        is_best(logits, best),
        0 <= other < logits.len(),
        logits[other].key() == logits[best].key(),
    ensures
        best <= other,
{
    if other != best {
        assert(outranks(logits, best, other));
    }
}

#[derive(Clone, Copy, Debug, Hash, PartialEq, Eq, Structural)]
pub enum SamplingError {
    InvalidTemperature,
    InvalidTopP,
    EmptyLogits,
    NonFiniteLogit,
    InvalidRandomUnit,
    TokenIndexOverflow,
}

/// Semantic parameters of a request; some output is allowed.
#[derive(Debug, PartialEq)]
pub struct RequestSemantics {
    max_output_tokens: u32,
    sampling: SamplingParams,
    thinking: ThinkingMode,
    prompt_policy: PromptPolicy,
}

/// What request semantics hold.
#[verifier::ext_equal]
pub struct RequestSemanticsView {
    pub max_output_tokens: u32,
    pub sampling: SamplingParams,
    pub thinking: ThinkingMode,
    pub prompt_policy: PromptPolicy,
}

impl View for RequestSemantics {
    type V = RequestSemanticsView;

    closed spec fn view(&self) -> RequestSemanticsView {
        RequestSemanticsView {
            max_output_tokens: self.max_output_tokens,
            sampling: self.sampling,
            thinking: self.thinking,
            prompt_policy: self.prompt_policy,
        }
    }
}

impl Clone for RequestSemantics {
    fn clone(&self) -> (r: Self)
        ensures
            r@ == self@,
    {
        proof {
            use_type_invariant(self);
        }
        RequestSemantics {
            max_output_tokens: self.max_output_tokens,
            sampling: self.sampling,
            thinking: self.thinking,
            prompt_policy: self.prompt_policy,
        }
    }
}

impl RequestSemantics {
    #[verifier::type_invariant]
    spec fn allows_output(self) -> bool {
        self.max_output_tokens > 0
    }

    #[must_use]
    pub fn max_output_tokens(&self) -> (r: u32)
        ensures
            r == self@.max_output_tokens,
            r > 0,
    {
        proof {
            use_type_invariant(self);
        }
        self.max_output_tokens
    }

    #[must_use]
    pub fn sampling(&self) -> (r: SamplingParams)
        ensures
            r == self@.sampling,
    {
        self.sampling
    }

    #[must_use]
    pub fn thinking(&self) -> (r: ThinkingMode)
        ensures
            r == self@.thinking,
    {
        self.thinking
    }

    #[must_use]
    pub fn prompt_policy(&self) -> (r: PromptPolicy)
        ensures
            r == self@.prompt_policy,
    {
        self.prompt_policy
    }
}

impl RequestSemantics {
    /// # Errors
    /// Returns [`RequestError::ZeroOutputBudget`] when no output is allowed.
    pub fn new(max_output_tokens: u32, sampling: SamplingParams, thinking: ThinkingMode) -> (r:
        Result<Self, RequestError>)
        ensures
            max_output_tokens == 0 ==> r == Err::<RequestSemantics, RequestError>(
                RequestError::ZeroOutputBudget,
            ),
            max_output_tokens > 0 ==> r is Ok && r->Ok_0@ == (RequestSemanticsView {
                max_output_tokens,
                sampling,
                thinking,
                prompt_policy: PromptPolicy {
                    format: PromptFormat::PlainText,
                    special_tokens: SpecialTokenPolicy::Nothing,
                },
            }),
    {
        if max_output_tokens == 0 {
            return Err(RequestError::ZeroOutputBudget);
        }
        Ok(
            RequestSemantics {
                max_output_tokens,
                sampling,
                thinking,
                prompt_policy: PromptPolicy::plain_text(),
            },
        )
    }

    #[must_use]
    pub fn with_prompt_policy(self, prompt_policy: PromptPolicy) -> (r: Self)
        ensures
            r@ == (RequestSemanticsView { prompt_policy, ..self@ }),
    {
        proof {
            use_type_invariant(&self);
        }
        RequestSemantics {
            max_output_tokens: self.max_output_tokens,
            sampling: self.sampling,
            thinking: self.thinking,
            prompt_policy,
        }
    }
}

#[derive(Clone, Copy, Debug, Hash, PartialEq, Eq, Structural)]
pub enum RequestError {
    ZeroOutputBudget,
}

/// A request contains semantic identity and behavior only. Queueing, batching, placement
/// and speculation budgets are supplied by runtime policy.
#[derive(Debug, PartialEq)]
pub struct RequestSpec {
    id: RequestId,
    model: ModelId,
    semantics: RequestSemantics,
}

/// What a request holds.
#[verifier::ext_equal]
pub struct RequestSpecView {
    pub id: RequestId,
    pub model: Seq<char>,
    pub semantics: RequestSemanticsView,
}

impl View for RequestSpec {
    type V = RequestSpecView;

    closed spec fn view(&self) -> RequestSpecView {
        RequestSpecView {
            id: self.id,
            model: self.model@,
            semantics: self.semantics@,
        }
    }
}

impl Clone for RequestSpec {
    fn clone(&self) -> (r: Self)
        ensures
            r@ == self@,
    {
        RequestSpec {
            id: self.id,
            model: self.model.clone(),
            semantics: self.semantics.clone(),
        }
    }
}

impl RequestSpec {
    #[must_use]
    pub fn id(&self) -> (r: RequestId)
        ensures
            r == self@.id,
            self@.semantics.max_output_tokens > 0,
    {
        let semantics = &self.semantics;
        proof {
            use_type_invariant(semantics);
        }
        self.id
    }

    #[must_use]
    pub fn model(&self) -> (r: &ModelId)
        ensures
            r@ == self@.model,
    {
        &self.model
    }

    #[must_use]
    pub fn semantics(&self) -> (r: &RequestSemantics)
        ensures
            r@ == self@.semantics,
    {
        &self.semantics
    }
}

impl RequestSpec {
    #[must_use]
    pub fn new(id: RequestId, model: ModelId, semantics: RequestSemantics) -> (r: Self)
        ensures
            r@ == (RequestSpecView { id, model: model@, semantics: semantics@ }),
    {
        RequestSpec { id, model, semantics }
    }
}

/// What the nucleus keeps, by its shares alone: no share but the last kept one reaches top-p,
/// the last kept one does where any share does, and all are kept where none does. The kept
/// count is the only one of which that holds.
pub proof fn law_nucleus_ends_with_the_share_that_reaches_top_p(
    cumulative: Seq<Single>,
    top_p: Single,
)
    ensures
        ({
            let n = nucleus_size(cumulative, top_p, 0);
            &&& 0 <= n <= cumulative.len()
            &&& forall|i: int| 0 <= i < n - 1 ==> !(#[trigger] cumulative[i]).at_least(top_p)
            &&& n < cumulative.len() ==> n >= 1 && cumulative[n - 1].at_least(top_p)
            &&& (exists|i: int|
                0 <= i < cumulative.len() && (#[trigger] cumulative[i]).at_least(top_p)) ==> n >= 1
                && cumulative[n - 1].at_least(top_p)
            &&& (forall|i: int|
                0 <= i < cumulative.len() ==> !(#[trigger] cumulative[i]).at_least(top_p)) ==> n
                == cumulative.len()
        }),
{
    lemma_nucleus_from(cumulative, top_p, 0);
}

proof fn lemma_nucleus_from(cumulative: Seq<Single>, top_p: Single, from: int)
    requires
        0 <= from <= cumulative.len(),
    ensures
        ({
            let n = nucleus_size(cumulative, top_p, from);
            &&& from <= n <= cumulative.len()
            &&& from < cumulative.len() ==> n > from
            &&& forall|i: int| from <= i < n - 1 ==> !(#[trigger] cumulative[i]).at_least(top_p)
            &&& (n < cumulative.len() || exists|i: int|
                from <= i < cumulative.len() && (#[trigger] cumulative[i]).at_least(top_p)) ==> n
                > from && cumulative[n - 1].at_least(top_p)
        }),
    decreases cumulative.len() - from,
{
    if from < cumulative.len() && !cumulative[from].at_least(top_p) {
        lemma_nucleus_from(cumulative, top_p, from + 1);
    }
}

/// A smaller top-p never keeps more candidates.
pub proof fn law_smaller_top_p_keeps_no_more(
    cumulative: Seq<Single>,
    smaller: Single,
    larger: Single,
)
    requires
        larger.at_least(smaller),
    ensures
        nucleus_size(cumulative, smaller, 0) <= nucleus_size(cumulative, larger, 0),
{
    law_nucleus_ends_with_the_share_that_reaches_top_p(cumulative, smaller);
    law_nucleus_ends_with_the_share_that_reaches_top_p(cumulative, larger);
    let few = nucleus_size(cumulative, smaller, 0);
    let many = nucleus_size(cumulative, larger, 0);
    if many < few {
        assert(cumulative[many - 1].at_least(larger));
        assert(cumulative[many - 1].at_least(smaller));
    }
}

/// What a draw selects, by the weights alone: the first candidate whose cumulative weight is
/// above the target, and none where no weight is.
pub proof fn law_draws_select_the_first_weight_above(cumulative: Seq<Single>, target: Single)
    ensures
        match first_above(cumulative, target, 0) {
            Some(at) => {
                &&& 0 <= at < cumulative.len()
                &&& cumulative[at].above(target)
                &&& forall|i: int| 0 <= i < at ==> !(#[trigger] cumulative[i]).above(target)
            },
            None => forall|i: int|
                0 <= i < cumulative.len() ==> !(#[trigger] cumulative[i]).above(target),
        },
{
    lemma_first_above_from(cumulative, target, 0);
}

proof fn lemma_first_above_from(cumulative: Seq<Single>, target: Single, from: int)
    requires
        0 <= from,
    ensures
        match first_above(cumulative, target, from) {
            Some(at) => {
                &&& from <= at < cumulative.len()
                &&& cumulative[at].above(target)
                &&& forall|i: int| from <= i < at ==> !(#[trigger] cumulative[i]).above(target)
            },
            None => forall|i: int|
                from <= i < cumulative.len() ==> !(#[trigger] cumulative[i]).above(target),
        },
    decreases cumulative.len() - from,
{
    if from < cumulative.len() && !cumulative[from].above(target) {
        lemma_first_above_from(cumulative, target, from + 1);
    }
}

/// The greedy choice is the greatest logit: no token has a greater one, and no token before
/// it has as great a one.
pub proof fn law_greedy_choice_is_the_greatest(logits: Seq<Single>, best: int, other: int)
    requires
        is_best(logits, best),
        0 <= other < logits.len(),
    ensures
        0 <= best < logits.len(),
        logits[best].key() >= logits[other].key(),
        other < best ==> logits[best].key() > logits[other].key(),
{
    if other != best {
        assert(outranks(logits, best, other));
    }
}

/// Top-k leaves the requested number of candidates where there are more, and all of them
/// where there are not; zero asks for all.
pub proof fn law_top_k_leaves_the_best(top_k: u32, count: nat)
    ensures
        kept(top_k, count) <= count,
        0 < top_k <= count ==> kept(top_k, count) == top_k,
        top_k == 0 || top_k > count ==> kept(top_k, count) == count,
{
}

/// Which settings are accepted, by the values: a finite temperature from zero up, and a top-p
/// above zero and not above one. A draw is from zero up and below one.
pub proof fn law_accepted_settings(value: Single)
    ensures
        ({
            let zero = Single { bits: 0 };
            let one = Single { bits: 0x3F80_0000 };
            &&& temperature_accepted(value) <==> value.finite() && value.at_least(zero)
            &&& top_p_accepted(value) <==> value.above(zero) && one.at_least(value)
            &&& draw_accepted(value) <==> value.at_least(zero) && one.above(value)
        }),
{
}

} // verus!
