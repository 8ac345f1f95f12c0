use vstd::prelude::*;

use crate::dtype::DataType;
use crate::op::conf::TensorToConf;
use crate::tensor::Tensor;

verus! {

/// Converts a tensor to another element type.
pub struct TensorToLayer {
    pub lconf: TensorToConf,
}

/// How the elements are converted.
#[derive(Debug, Clone, Copy, PartialEq, Eq, Structural)]
pub enum Conversion {
    /// The tensor is kept as it is.
    Keep,
    /// Each float is truncated to an integer.
    FloatToInt64,
    /// Each float becomes whether it differs from zero.
    FloatToBoolean,
    /// Each float is rounded to a half-precision float.
    FloatToFloat16,
    /// Each float is rounded to a brain float.
    FloatToBFloat16,
    /// Each integer becomes the nearest float.
    Int64ToFloat,
    /// Each integer becomes whether it differs from zero.
    Int64ToBoolean,
}

/// Why a tensor could not be converted.
#[derive(Debug, Clone, Copy, PartialEq, Eq, Structural)]
pub enum TensorToError {
    /// Integers can only become floats, booleans or stay integers.
    UnsupportedTarget,
    /// Only float and integer tensors can be converted.
    UnsupportedInput,
}

impl TensorToConf {
    pub fn to_layer(self) -> (r: TensorToLayer)
        ensures
            r.lconf == self,
    {
        TensorToLayer { lconf: self }
    }
}

/// The conversion from elements of type `from` to elements of type `to`.
pub open spec fn spec_conversion(from: DataType, to: DataType) -> Result<Conversion, TensorToError> {
    match from {
        DataType::Float32 => match to {
            DataType::Int64 => Ok(Conversion::FloatToInt64),
            DataType::Boolean => Ok(Conversion::FloatToBoolean),
            DataType::Float16 => Ok(Conversion::FloatToFloat16),
            DataType::BFloat16 => Ok(Conversion::FloatToBFloat16),
            DataType::Float32 => Ok(Conversion::Keep),
        },
        DataType::Int64 => match to {
            DataType::Float32 => Ok(Conversion::Int64ToFloat),
            DataType::Boolean => Ok(Conversion::Int64ToBoolean),
            DataType::Int64 => Ok(Conversion::Keep),
            _ => Err(TensorToError::UnsupportedTarget),
        },
        _ => Err(TensorToError::UnsupportedInput),
    }
}

impl TensorToLayer {
    /// How a tensor with elements of type `from` is converted to the
    /// configured type.
    pub fn conversion(&self, from: DataType) -> (r: Result<Conversion, TensorToError>)
        ensures
            r == spec_conversion(from, self.lconf.target_dtype),
    {
        let to = self.lconf.target_dtype;
        match from {
            DataType::Float32 => match to {
                DataType::Int64 => Ok(Conversion::FloatToInt64),
                DataType::Boolean => Ok(Conversion::FloatToBoolean),
                DataType::Float16 => Ok(Conversion::FloatToFloat16),
                DataType::BFloat16 => Ok(Conversion::FloatToBFloat16),
                DataType::Float32 => Ok(Conversion::Keep),
            },
            DataType::Int64 => match to {
                DataType::Float32 => Ok(Conversion::Int64ToFloat),
                DataType::Boolean => Ok(Conversion::Int64ToBoolean),
                DataType::Int64 => Ok(Conversion::Keep),
                _ => Err(TensorToError::UnsupportedTarget),
            },
            _ => Err(TensorToError::UnsupportedInput),
        }
    }
}

/// An integer tensor as booleans: each element becomes whether it differs
/// from zero.
pub fn int64_to_boolean(input: &Tensor<i64>) -> (r: Tensor<bool>)
    requires
        input.wf(),
    ensures
        r.wf(),
        r.shape@ == input.shape@,
        r.data@.len() == input.data@.len(),
        forall|i: int| 0 <= i < r.data@.len() ==> #[trigger] r.data@[i] == (input.data@[i] != 0),
{
    let mut data: Vec<bool> = Vec::new();
    let mut i: usize = 0;
    while i < input.data.len()
        invariant
            i <= input.data@.len(),
            data@.len() == i,
            forall|q: int| 0 <= q < i ==> #[trigger] data@[q] == (input.data@[q] != 0),
        decreases input.data@.len() - i,
    {
        data.push(input.data[i] != 0);
        i = i + 1;
    }
    let shape = vstd::slice::slice_to_vec(input.shape.as_slice());
    Tensor { shape, data }
}

} // verus!
