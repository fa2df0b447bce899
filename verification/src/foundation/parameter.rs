//! Parameters, their versions and the physical storage that materializes them.

use crate::foundation::topology::DeviceId;
use crate::text::{blank, is_blank};
use vstd::prelude::*;

verus! {

/// Name of a parameter; never blank.
#[derive(Debug, Hash, PartialEq, Eq)]
pub struct ParameterId(String);

impl View for ParameterId {
    type V = Seq<char>;

    closed spec fn view(&self) -> Seq<char> {
        self.0@
    }
}

impl Clone for ParameterId {
    fn clone(&self) -> (r: Self)
        ensures
            r == *self,
    {
        proof {
            use_type_invariant(self);
        }
        ParameterId(self.0.clone())
    }
}

impl ParameterId {
    #[verifier::type_invariant]
    spec fn named(self) -> bool {
        !blank(self.0@)
    }

    /// # Errors
    /// Returns an error for an empty identifier.
    pub fn new(value: &str) -> (r: Result<Self, ParameterError>)
        ensures
            blank(value@) ==> r == Err::<ParameterId, ParameterError>(
                ParameterError::EmptyIdentity("parameter"),
            ),
            !blank(value@) ==> r is Ok && r->Ok_0@ == value@,
    {
        if is_blank(value) {
            return Err(ParameterError::EmptyIdentity("parameter"));
        }
        Ok(ParameterId(value.to_owned()))
    }

    #[must_use]
    pub fn as_str(&self) -> (r: &str)
        ensures
            r@ == self@,
            !blank(r@),
    {
        proof {
            use_type_invariant(self);
        }
        self.0.as_str()
    }
}

/// Version of a model's parameters.
#[derive(Clone, Copy, Debug, Hash, PartialEq, Eq, Structural)]
pub struct ParameterVersion(pub u64);

impl ParameterVersion {
    #[must_use]
    pub fn new(value: u64) -> (r: Self)
        ensures
            r.0 == value,
    {
        ParameterVersion(value)
    }

    #[must_use]
    pub fn get(self) -> (r: u64)
        ensures
            r == self.0,
    {
        self.0
    }
}

#[derive(Debug, PartialEq, Eq)]
pub struct ParameterSpec {
    pub id: ParameterId,
    pub shape: Vec<u64>,
}

impl Clone for ParameterSpec {
    fn clone(&self) -> (r: Self)
        ensures
            r.id == self.id,
            r.shape@ == self.shape@,
    {
        let shape = self.shape.clone();
        assert(shape@ =~= self.shape@);
        ParameterSpec { id: self.id.clone(), shape }
    }
}

impl ParameterSpec {
    #[must_use]
    pub fn new(id: ParameterId, shape: Vec<u64>) -> (r: Self)
        ensures
            r == (ParameterSpec { id, shape }),
    {
        ParameterSpec { id, shape }
    }

    #[must_use]
    pub fn id(&self) -> (r: &ParameterId)
        ensures
            *r == self.id,
    {
        &self.id
    }

    #[must_use]
    pub fn shape(&self) -> (r: &[u64])
        ensures
            r@ == self.shape@,
    {
        self.shape.as_slice()
    }
}

#[derive(Debug, Hash, PartialEq, Eq)]
pub enum ScalarType {
    F16,
    Bf16,
    F32,
    F64,
    I8,
    U8,
    I16,
    U16,
    I32,
    U32,
    I64,
    U64,
    Bool,
    Named(String),
}

#[derive(Debug, Hash, PartialEq, Eq)]
pub enum StorageEncoding {
    Dense,
    Named(String),
}

impl Clone for ScalarType {
    fn clone(&self) -> (r: Self)
        ensures
            r == *self,
    {
        match self {
            ScalarType::F16 => ScalarType::F16,
            ScalarType::Bf16 => ScalarType::Bf16,
            ScalarType::F32 => ScalarType::F32,
            ScalarType::F64 => ScalarType::F64,
            ScalarType::I8 => ScalarType::I8,
            ScalarType::U8 => ScalarType::U8,
            ScalarType::I16 => ScalarType::I16,
            ScalarType::U16 => ScalarType::U16,
            ScalarType::I32 => ScalarType::I32,
            ScalarType::U32 => ScalarType::U32,
            ScalarType::I64 => ScalarType::I64,
            ScalarType::U64 => ScalarType::U64,
            ScalarType::Bool => ScalarType::Bool,
            ScalarType::Named(name) => ScalarType::Named(name.clone()),
        }
    }
}

impl Clone for StorageEncoding {
    fn clone(&self) -> (r: Self)
        ensures
            r == *self,
    {
        match self {
            StorageEncoding::Dense => StorageEncoding::Dense,
            StorageEncoding::Named(name) => StorageEncoding::Named(name.clone()),
        }
    }
}

/// Name of a storage layout; never blank.
#[derive(Debug, Hash, PartialEq, Eq)]
pub struct LayoutId(String);

impl View for LayoutId {
    type V = Seq<char>;

    closed spec fn view(&self) -> Seq<char> {
        self.0@
    }
}

impl Clone for LayoutId {
    fn clone(&self) -> (r: Self)
        ensures
            r == *self,
    {
        proof {
            use_type_invariant(self);
        }
        LayoutId(self.0.clone())
    }
}

impl LayoutId {
    #[verifier::type_invariant]
    spec fn named(self) -> bool {
        !blank(self.0@)
    }

    /// # Errors
    /// Returns an error for an empty layout identifier.
    pub fn new(value: &str) -> (r: Result<Self, ParameterError>)
        ensures
            blank(value@) ==> r == Err::<LayoutId, ParameterError>(
                ParameterError::EmptyIdentity("layout"),
            ),
            !blank(value@) ==> r is Ok && r->Ok_0@ == value@,
    {
        if is_blank(value) {
            return Err(ParameterError::EmptyIdentity("layout"));
        }
        Ok(LayoutId(value.to_owned()))
    }

    #[must_use]
    pub fn as_str(&self) -> (r: &str)
        ensures
            r@ == self@,
            !blank(r@),
    {
        proof {
            use_type_invariant(self);
        }
        self.0.as_str()
    }
}

#[derive(Clone, Copy, Debug, Hash, PartialEq, Eq, Structural)]
pub struct StorageId(pub u64);

impl StorageId {
    #[must_use]
    pub fn new(value: u64) -> (r: Self)
        ensures
            r.0 == value,
    {
        StorageId(value)
    }

    #[must_use]
    pub fn get(self) -> (r: u64)
        ensures
            r == self.0,
    {
        self.0
    }
}

#[derive(Debug, PartialEq, Eq)]
pub struct MaterializationPart {
    pub storage: StorageId,
    pub device: DeviceId,
}

impl Clone for MaterializationPart {
    fn clone(&self) -> (r: Self)
        ensures
            r == *self,
    {
        MaterializationPart {
            storage: self.storage,
            device: self.device.clone(),
        }
    }
}

impl MaterializationPart {
    #[must_use]
    pub fn new(storage: StorageId, device: DeviceId) -> (r: Self)
        ensures
            r == (MaterializationPart { storage, device }),
    {
        MaterializationPart { storage, device }
    }

    #[must_use]
    pub fn storage(&self) -> (r: StorageId)
        ensures
            r == self.storage,
    {
        self.storage
    }

    #[must_use]
    pub fn device(&self) -> (r: &DeviceId)
        ensures
            *r == self.device,
    {
        &self.device
    }
}

/// A parameter in physical storage; it has at least one part.
#[derive(Debug, PartialEq, Eq)]
pub struct ParameterMaterialization {
    parameter: ParameterId,
    version: ParameterVersion,
    scalar_type: ScalarType,
    encoding: StorageEncoding,
    layout: LayoutId,
    parts: Vec<MaterializationPart>,
}

/// What a materialization holds.
pub struct MaterializationView {
    pub parameter: ParameterId,
    pub version: ParameterVersion,
    pub scalar_type: ScalarType,
    pub encoding: StorageEncoding,
    pub layout: LayoutId,
    pub parts: Seq<MaterializationPart>,
}

impl View for ParameterMaterialization {
    type V = MaterializationView;

    closed spec fn view(&self) -> MaterializationView {
        MaterializationView {
            parameter: self.parameter,
            version: self.version,
            scalar_type: self.scalar_type,
            encoding: self.encoding,
            layout: self.layout,
            parts: self.parts@,
        }
    }
}

impl Clone for ParameterMaterialization {
    fn clone(&self) -> (r: Self)
        ensures
            r@ == self@,
    {
        proof {
            use_type_invariant(self);
        }
        let parts = self.parts.clone();
        assert(parts@ =~= self.parts@);
        ParameterMaterialization {
            parameter: self.parameter.clone(),
            version: self.version,
            scalar_type: self.scalar_type.clone(),
            encoding: self.encoding.clone(),
            layout: self.layout.clone(),
            parts,
        }
    }
}

impl ParameterMaterialization {
    #[verifier::type_invariant]
    spec fn stored(self) -> bool {
        self.parts@.len() > 0
    }

    /// # Errors
    /// Returns an error when no physical storage part is supplied.
    pub fn new(
        parameter: ParameterId,
        version: ParameterVersion,
        scalar_type: ScalarType,
        encoding: StorageEncoding,
        layout: LayoutId,
        parts: Vec<MaterializationPart>,
    ) -> (r: Result<Self, ParameterError>)
        ensures
            parts@.len() == 0 ==> r == Err::<ParameterMaterialization, ParameterError>(
                ParameterError::EmptyMaterialization,
            ),
            parts@.len() > 0 ==> r is Ok && r->Ok_0@ == (MaterializationView {
                parameter,
                version,
                scalar_type,
                encoding,
                layout,
                parts: parts@,
            }),
    {
        if parts.is_empty() {
            return Err(ParameterError::EmptyMaterialization);
        }
        Ok(
            ParameterMaterialization {
                parameter,
                version,
                scalar_type,
                encoding,
                layout,
                parts,
            },
        )
    }

    #[must_use]
    pub fn parameter(&self) -> (r: &ParameterId)
        ensures
            *r == self@.parameter,
    {
        &self.parameter
    }

    #[must_use]
    pub fn version(&self) -> (r: ParameterVersion)
        ensures
            r == self@.version,
    {
        self.version
    }

    #[must_use]
    pub fn scalar_type(&self) -> (r: &ScalarType)
        ensures
            *r == self@.scalar_type,
    {
        &self.scalar_type
    }

    #[must_use]
    pub fn encoding(&self) -> (r: &StorageEncoding)
        ensures
            *r == self@.encoding,
    {
        &self.encoding
    }

    #[must_use]
    pub fn layout(&self) -> (r: &LayoutId)
        ensures
            *r == self@.layout,
    {
        &self.layout
    }

    #[must_use]
    pub fn parts(&self) -> (r: &[MaterializationPart])
        ensures
            r@ == self@.parts,
            r@.len() > 0,
    {
        proof {
            use_type_invariant(self);
        }
        self.parts.as_slice()
    }
}

/// Materializations that all belong to one parameter version.
#[derive(Debug, PartialEq, Eq)]
pub struct ParameterSet {
    version: ParameterVersion,
    materializations: Vec<ParameterMaterialization>,
}

/// Whether every materialization belongs to `version`.
pub open spec fn one_version(
    version: ParameterVersion,
    materializations: Seq<ParameterMaterialization>,
) -> bool {
    forall|i: int|
        0 <= i < materializations.len() ==> (#[trigger] materializations[i])@.version == version
}

impl Clone for ParameterSet {
    fn clone(&self) -> (r: Self)
        ensures
            r.spec_version() == self.spec_version(),
            r.spec_materializations().len() == self.spec_materializations().len(),
            forall|i: int|
                0 <= i < r.spec_materializations().len() ==> (
                #[trigger] r.spec_materializations()[i])@ == self.spec_materializations()[i]@,
    {
        proof {
            use_type_invariant(self);
        }
        let materializations = self.materializations.clone();
        assert(forall|i: int|
            0 <= i < materializations@.len() ==> (#[trigger] materializations@[i])@
                == self.materializations@[i]@);
        ParameterSet { version: self.version, materializations }
    }
}

impl ParameterSet {
    pub closed spec fn spec_version(&self) -> ParameterVersion {
        self.version
    }

    pub closed spec fn spec_materializations(&self) -> Seq<ParameterMaterialization> {
        self.materializations@
    }

    #[verifier::type_invariant]
    spec fn uniform(self) -> bool {
        one_version(self.version, self.materializations@)
    }

    /// # Errors
    /// Returns an error when a materialization belongs to another parameter version.
    pub fn new(version: ParameterVersion, materializations: Vec<ParameterMaterialization>) -> (r:
        Result<Self, ParameterError>)
        ensures
            !one_version(version, materializations@) ==> r == Err::<ParameterSet, ParameterError>(
                ParameterError::MixedParameterVersions,
            ),
            one_version(version, materializations@) ==> {
                &&& r is Ok
                &&& r->Ok_0.spec_version() == version
                &&& r->Ok_0.spec_materializations() == materializations@
            },
    {
        let mut index: usize = 0;
        while index < materializations.len()
            invariant
                index <= materializations.len(),
                forall|i: int|
                    0 <= i < index ==> (#[trigger] materializations@[i])@.version == version,
            decreases materializations.len() - index,
        {
            if materializations[index].version() != version {
                return Err(ParameterError::MixedParameterVersions);
            }
            index += 1;
        }
        Ok(ParameterSet { version, materializations })
    }

    #[must_use]
    pub fn version(&self) -> (r: ParameterVersion)
        ensures
            r == self.spec_version(),
    {
        self.version
    }

    #[must_use]
    pub fn materializations(&self) -> (r: &[ParameterMaterialization])
        ensures
            r@ == self.spec_materializations(),
            one_version(self.spec_version(), r@),
    {
        proof {
            use_type_invariant(self);
        }
        self.materializations.as_slice()
    }
}

#[derive(Clone, Copy, Debug, PartialEq, Eq)]
pub enum ParameterError {
    EmptyIdentity(&'static str),
    EmptyMaterialization,
    MixedParameterVersions,
}

} // verus!
