use vstd::prelude::*;

verus! {

/// Element type of a tensor.
#[derive(Debug, Clone, Copy, PartialEq, Eq, Structural)]
pub enum DataType {
    BFloat16,
    Float16,
    Float32,
    Boolean,
    Int64,
}

/// Number of bytes one element of the given type occupies in a weight file.
pub open spec fn spec_bytes_per_element(dt: DataType) -> nat {
    match dt {
        DataType::Float32 => 4,
        DataType::Float16 | DataType::BFloat16 => 2,
        DataType::Boolean => 1,
        DataType::Int64 => 8,
    }
}

/// Number of bytes one element of the given type occupies in a weight file.
pub fn bytes_per_element(dt: DataType) -> (n: usize)
    ensures
        n == spec_bytes_per_element(dt),
{
    match dt {
        DataType::Float32 => 4,
        DataType::Float16 | DataType::BFloat16 => 2,
        DataType::Boolean => 1,
        DataType::Int64 => 8,
    }
}

} // verus!
