//! Prepared model-weight metadata.
//!
//! This describes which model tensors a prepared execution may use. Checkpoint parsing
//! belongs to format adapters, and device allocations to backends.

use crate::engine::device::DeviceId;
use crate::engine::model::ModelId;
use crate::engine::tensor::{width_of, DataType};
use crate::text::{blank, is_blank, same_text};
use vstd::prelude::*;

verus! {

/// Metadata for one tensor in its stream's scalar ordering: named, with a shape of
/// positive dimensions whose product is the element count.
#[derive(Debug, Hash, PartialEq, Eq)]
pub struct WeightTensorSpec {
    name: String,
    dimensions: Vec<u64>,
    dtype: DataType,
    element_count: u64,
}

/// What a tensor's metadata holds.
#[verifier::ext_equal]
pub struct WeightTensorSpecView {
    pub name: Seq<char>,
    pub dimensions: Seq<u64>,
    pub dtype: DataType,
    pub element_count: u64,
}

impl View for WeightTensorSpec {
    type V = WeightTensorSpecView;

    closed spec fn view(&self) -> WeightTensorSpecView {
        WeightTensorSpecView {
            name: self.name@,
            dimensions: self.dimensions@,
            dtype: self.dtype,
            element_count: self.element_count,
        }
    }
}

impl Clone for WeightTensorSpec {
    fn clone(&self) -> (r: Self)
        ensures
            r@ == self@,
    {
        proof {
            use_type_invariant(self);
        }
        let dimensions = self.dimensions.clone();
        assert(dimensions@ =~= self.dimensions@);
        WeightTensorSpec {
            name: self.name.clone(),
            dimensions,
            dtype: self.dtype,
            element_count: self.element_count,
        }
    }
}

impl WeightTensorSpec {
    #[verifier::type_invariant]
    spec fn shaped(self) -> bool {
        !blank(self.name@) && self.dimensions@.len() > 0 && !self.dimensions@.contains(0)
            && self.element_count == product(self.dimensions@, 0)
    }

    #[must_use]
    pub fn name(&self) -> (r: &str)
        ensures
            r@ == self@.name,
    {
        self.name.as_str()
    }

    /// Dimensions are expressed in the stream's scalar ordering. A format adapter must not
    /// silently present serialized dimensions as a different execution layout.
    #[must_use]
    pub fn dimensions(&self) -> (r: &[u64])
        ensures
            r@ == self@.dimensions,
    {
        self.dimensions.as_slice()
    }

    #[must_use]
    pub fn dtype(&self) -> (r: DataType)
        ensures
            r == self@.dtype,
    {
        self.dtype
    }

    #[must_use]
    pub fn element_count(&self) -> (r: u64)
        ensures
            r == self@.element_count,
    {
        self.element_count
    }
}

/// The product of the dimensions from `i` on.
pub open spec fn product(dimensions: Seq<u64>, i: int) -> nat
    decreases dimensions.len() - i,
{
    if i < 0 || i >= dimensions.len() {
        1
    } else {
        dimensions[i] as nat * product(dimensions, i + 1)
    }
}

proof fn lemma_product_positive(dimensions: Seq<u64>, i: int)
    requires
        0 <= i,
        forall|k: int| 0 <= k < dimensions.len() ==> #[trigger] dimensions[k] > 0,
    ensures
        product(dimensions, i) > 0,
    decreases dimensions.len() - i,
{
    if i < dimensions.len() {
        lemma_product_positive(dimensions, i + 1);
        let head = dimensions[i] as nat;
        let rest = product(dimensions, i + 1);
        assert(head * rest > 0) by (nonlinear_arith)
            requires
                head > 0,
                rest > 0,
        ;
    }
}

/// The number of elements in a shape of positive dimensions, if it is representable.
fn count_elements(dimensions: &Vec<u64>) -> (r: Option<u64>)
    requires
        forall|k: int| 0 <= k < dimensions@.len() ==> #[trigger] dimensions@[k] > 0,
    ensures
        product(dimensions@, 0) <= u64::MAX ==> r is Some && r->Some_0 == product(dimensions@, 0),
        product(dimensions@, 0) > u64::MAX ==> r is None,
{
    let mut count: u64 = 1;
    let mut index: usize = 0;
    assert(1 * product(dimensions@, 0) == product(dimensions@, 0));
    while index < dimensions.len()
        invariant
            index <= dimensions@.len(),
            forall|k: int| 0 <= k < dimensions@.len() ==> #[trigger] dimensions@[k] > 0,
            count as nat * product(dimensions@, index as int) == product(dimensions@, 0),
        decreases dimensions.len() - index,
    {
        let ghost head = dimensions@[index as int] as nat;
        let ghost rest = product(dimensions@, index + 1);
        let ghost before = count as nat;
        proof {
            lemma_product_positive(dimensions@, index + 1);
            assert(product(dimensions@, index as int) == head * rest);
            assert((before * head) * rest == before * (head * rest)) by (nonlinear_arith);
            assert((before * head) * rest >= before * head) by (nonlinear_arith)
                requires
                    rest > 0,
            ;
        }
        match count.checked_mul(dimensions[index]) {
            None => {
                return None;
            },
            Some(next) => {
                count = next;
            },
        }
        index += 1;
    }
    assert(count as nat * 1 == count);
    Some(count)
}

impl WeightTensorSpec {
    /// # Errors
    /// Returns [`WeightSpecError`] when the name or shape is invalid or the element count
    /// overflows.
    pub fn new(name: &str, dimensions: Vec<u64>, dtype: DataType) -> (r: Result<
        Self,
        WeightSpecError,
    >)
        ensures
            match spec_defect(name@, dimensions@) {
                Some(error) => r == Err::<WeightTensorSpec, WeightSpecError>(error),
                None => r is Ok && r->Ok_0@ == (WeightTensorSpecView {
                    name: name@,
                    dimensions: dimensions@,
                    dtype,
                    element_count: product(dimensions@, 0) as u64,
                }),
            },
    {
        if is_blank(name) {
            return Err(WeightSpecError::EmptyName);
        }
        if dimensions.is_empty() {
            return Err(WeightSpecError::EmptyShape);
        }
        let mut index: usize = 0;
        while index < dimensions.len()
            invariant
                index <= dimensions@.len(),
                !blank(name@),
                dimensions@.len() > 0,
                forall|k: int| 0 <= k < index ==> #[trigger] dimensions@[k] > 0,
            decreases dimensions.len() - index,
        {
            if dimensions[index] == 0 {
                assert(dimensions@[index as int] == 0);
                return Err(WeightSpecError::ZeroDimension);
            }
            index += 1;
        }
        assert(!dimensions@.contains(0));
        match count_elements(&dimensions) {
            None => Err(WeightSpecError::ElementCountOverflow),
            Some(element_count) => Ok(
                WeightTensorSpec { name: name.to_owned(), dimensions, dtype, element_count },
            ),
        }
    }

    /// The tensor's size in bytes, if it is representable.
    #[must_use]
    pub fn byte_size(&self) -> (r: Option<u64>)
        ensures
            r == if self@.element_count * width_of(self@.dtype) <= u64::MAX {
                Some((self@.element_count * width_of(self@.dtype)) as u64)
            } else {
                None
            },
    {
        self.element_count.checked_mul(self.dtype.byte_width())
    }
}

/// Why a tensor's metadata is refused, if it is.
pub open spec fn spec_defect(name: Seq<char>, dimensions: Seq<u64>) -> Option<WeightSpecError> {
    if blank(name) {
        Some(WeightSpecError::EmptyName)
    } else if dimensions.len() == 0 {
        Some(WeightSpecError::EmptyShape)
    } else if dimensions.contains(0) {
        Some(WeightSpecError::ZeroDimension)
    } else if product(dimensions, 0) > u64::MAX {
        Some(WeightSpecError::ElementCountOverflow)
    } else {
        None
    }
}

/// What each tensor's metadata holds, in order.
pub open spec fn tensor_views(tensors: Seq<WeightTensorSpec>) -> Seq<WeightTensorSpecView> {
    tensors.map_values(|tensor: WeightTensorSpec| tensor@)
}

/// Whether tensor `i` has the name of an earlier one.
pub open spec fn repeats_name(tensors: Seq<WeightTensorSpecView>, i: int) -> bool {
    exists|j: int| 0 <= j < i && (#[trigger] tensors[j]).name == tensors[i].name
}

/// The name of the first tensor from `i` on that repeats an earlier one.
pub open spec fn first_repeated_name(tensors: Seq<WeightTensorSpecView>, i: int) -> Option<Seq<char>>
    decreases tensors.len() - i,
{
    if i < 0 || i >= tensors.len() {
        None
    } else if repeats_name(tensors, i) {
        Some(tensors[i].name)
    } else {
        first_repeated_name(tensors, i + 1)
    }
}

/// Where a name stands among tensors from `i` on, first of all.
pub open spec fn find_name(tensors: Seq<WeightTensorSpecView>, name: Seq<char>, i: int) -> Option<int>
    decreases tensors.len() - i,
{
    if i < 0 || i >= tensors.len() {
        None
    } else if tensors[i].name == name {
        Some(i)
    } else {
        find_name(tensors, name, i + 1)
    }
}

/// Logical model and device association of a prepared set of weight tensors. Physical
/// buffers remain owned by the selected backend.
#[derive(Debug, Hash, PartialEq, Eq)]
pub struct WeightBinding {
    model: ModelId,
    device: DeviceId,
    tensors: Vec<WeightTensorSpec>,
}

/// What a binding holds.
#[verifier::ext_equal]
pub struct WeightBindingView {
    pub model: Seq<char>,
    pub device: DeviceId,
    pub tensors: Seq<WeightTensorSpecView>,
}

impl View for WeightBinding {
    type V = WeightBindingView;

    closed spec fn view(&self) -> WeightBindingView {
        WeightBindingView {
            model: self.model@,
            device: self.device,
            tensors: tensor_views(self.tensors@),
        }
    }
}

impl Clone for WeightBinding {
    fn clone(&self) -> (r: Self)
        ensures
            r@ == self@,
    {
        let tensors = self.tensors.clone();
        assert(tensor_views(tensors@) =~= tensor_views(self.tensors@));
        WeightBinding { model: self.model.clone(), device: self.device, tensors }
    }
}

impl WeightBinding {
    /// # Errors
    /// Returns [`WeightBindingError::DuplicateTensor`] when two entries have the same tensor
    /// name.
    pub fn new(model: ModelId, device: DeviceId, tensors: Vec<WeightTensorSpec>) -> (r: Result<
        Self,
        WeightBindingError,
    >)
        ensures
            match first_repeated_name(tensor_views(tensors@), 0) {
                Some(name) => r is Err && r->Err_0->DuplicateTensor_0@ == name,
                None => r is Ok && r->Ok_0@ == (WeightBindingView {
                    model: model@,
                    device,
                    tensors: tensor_views(tensors@),
                }),
            },
    {
        let ghost views = tensor_views(tensors@);
        let mut index: usize = 0;
        while index < tensors.len()
            invariant
                index <= tensors.len(),
                views == tensor_views(tensors@),
                first_repeated_name(views, 0) == first_repeated_name(views, index as int),
            decreases tensors.len() - index,
        {
            let mut previous: usize = 0;
            while previous < index
                invariant
                    previous <= index < tensors.len(),
                    views == tensor_views(tensors@),
                    first_repeated_name(views, 0) == first_repeated_name(views, index as int),
                    forall|j: int|
                        0 <= j < previous ==> (#[trigger] views[j]).name
                            != views[index as int].name,
                decreases index - previous,
            {
                assert(views[previous as int] == tensors@[previous as int]@);
                assert(views[index as int] == tensors@[index as int]@);
                if tensors[previous].named(tensors[index].name()) {
                    assert(repeats_name(views, index as int));
                    return Err(
                        WeightBindingError::DuplicateTensor(tensors[index].name().to_owned()),
                    );
                }
                previous += 1;
            }
            index += 1;
        }
        Ok(WeightBinding { model, device, tensors })
    }

    #[must_use]
    pub fn empty(model: ModelId, device: DeviceId) -> (r: Self)
        ensures
            r@ == (WeightBindingView { model: model@, device, tensors: Seq::empty() }),
    {
        let tensors: Vec<WeightTensorSpec> = Vec::new();
        assert(tensor_views(tensors@) =~= Seq::empty());
        WeightBinding { model, device, tensors }
    }

    #[must_use]
    pub fn model(&self) -> (r: &ModelId)
        ensures
            r@ == self@.model,
    {
        &self.model
    }

    #[must_use]
    pub fn device(&self) -> (r: DeviceId)
        ensures
            r == self@.device,
    {
        self.device
    }

    #[must_use]
    pub fn tensors(&self) -> (r: &[WeightTensorSpec])
        ensures
            tensor_views(r@) == self@.tensors,
    {
        self.tensors.as_slice()
    }

    /// The tensor of a name.
    #[must_use]
    pub fn tensor(&self, name: &str) -> (r: Option<&WeightTensorSpec>)
        ensures
            match find_name(self@.tensors, name@, 0) {
                Some(index) => r is Some && r->Some_0@ == self@.tensors[index],
                None => r is None,
            },
    {
        let mut index: usize = 0;
        while index < self.tensors.len()
            invariant
                index <= self.tensors.len(),
                find_name(self@.tensors, name@, 0) == find_name(
                    self@.tensors,
                    name@,
                    index as int,
                ),
            decreases self.tensors.len() - index,
        {
            assert(self@.tensors[index as int] == self.tensors@[index as int]@);
            if self.tensors[index].named(name) {
                return Some(&self.tensors[index]);
            }
            index += 1;
        }
        None
    }
}

impl WeightTensorSpec {
    /// Whether the tensor has this name.
    fn named(&self, name: &str) -> (r: bool)
        ensures
            r == (self@.name == name@),
    {
        same_text(self.name.as_str(), name)
    }
}

#[derive(Clone, Copy, Debug, Hash, PartialEq, Eq, Structural)]
pub enum WeightSpecError {
    EmptyName,
    EmptyShape,
    ZeroDimension,
    ElementCountOverflow,
}

#[derive(Debug, Hash, PartialEq, Eq)]
pub enum WeightBindingError {
    DuplicateTensor(String),
}

} // verus!
