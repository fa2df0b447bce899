//! Tensor and weight metadata shared by model providers and backends.

use vstd::prelude::*;

verus! {

/// Scalar types that a backend may expose for model weights or state.
#[derive(Clone, Copy, Debug, Hash, PartialEq, Eq, Structural)]
pub enum DataType {
    F16,
    BF16,
    F32,
    I8,
    U8,
}

/// Bytes that one scalar occupies.
pub open spec fn width_of(dtype: DataType) -> u64 {
    match dtype {
        DataType::F16 => 2,
        DataType::BF16 => 2,
        DataType::F32 => 4,
        DataType::I8 => 1,
        DataType::U8 => 1,
    }
}

impl DataType {
    /// Bytes that one scalar occupies.
    #[must_use]
    pub fn byte_width(self) -> (r: u64)
        ensures
            r == width_of(self),
    {
        match self {
            DataType::F16 => 2,
            DataType::BF16 => 2,
            DataType::F32 => 4,
            DataType::I8 => 1,
            DataType::U8 => 1,
        }
    }

    /// The type's conventional name.
    #[must_use]
    pub fn name(self) -> (r: &'static str)
        ensures
            r@ == match self {
                DataType::F16 => "f16"@,
                DataType::BF16 => "bf16"@,
                DataType::F32 => "f32"@,
                DataType::I8 => "i8"@,
                DataType::U8 => "u8"@,
            },
    {
        match self {
            DataType::F16 => "f16",
            DataType::BF16 => "bf16",
            DataType::F32 => "f32",
            DataType::I8 => "i8",
            DataType::U8 => "u8",
        }
    }
}

/// Weight quantization is explicit because similarly named formats are not
/// interchangeable for correctness or benchmark comparisons.
#[derive(Clone, Copy, Debug, Hash, PartialEq, Eq, Structural)]
pub enum Quantization {
    Unquantized,
    GgufQ4Km,
    CompressedTensorsW4A16 { group_size: u32 },
    Other,
}

/// The loader boundary keeps checkpoint representation out of the execution and state
/// interfaces.
#[derive(Debug, Hash, PartialEq, Eq)]
pub enum WeightFormat {
    Gguf,
    Safetensors,
    Vendor(String),
}

impl Clone for WeightFormat {
    fn clone(&self) -> (r: Self)
        ensures
            r == *self,
    {
        match self {
            WeightFormat::Gguf => WeightFormat::Gguf,
            WeightFormat::Safetensors => WeightFormat::Safetensors,
            WeightFormat::Vendor(name) => WeightFormat::Vendor(name.clone()),
        }
    }
}

} // verus!
