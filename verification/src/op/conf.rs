//! Settings of the layers.
use vstd::prelude::*;

use crate::dtype::DataType;
use crate::tensor::Tensor;

verus! {

pub struct SigmoidConf {}

pub struct TanhConf {}

pub struct SoftmaxConf {
    pub axis: i32,
}

pub struct Pool2dConf {
    pub kernel_size: Vec<usize>,
    pub stride: Vec<usize>,
    pub padding: Vec<usize>,
    pub pool_type: PoolType,
}

pub struct AdaptivePool2dConf {
    pub output_size: Vec<usize>,
    pub pool_type: PoolType,
}

#[derive(Debug, Clone, Copy, PartialEq, Eq, Structural)]
pub enum PoolType {
    Max,
    Avg,
}

pub struct ViewConf {
    pub output_shape: Vec<usize>,
}

#[derive(Debug, Clone)]
pub struct ExprConf {
    pub expr: String,
}

pub struct FlattenConf {
    pub start_dim: isize,
    pub end_dim: isize,
}

pub struct GeLUConf {}

pub struct SiLUConf {}

pub struct TransposeConf {
    pub dim0: isize,
    pub dim1: isize,
}

pub struct ExpandConf {
    pub shape: Vec<usize>,
}

pub struct TensorToConf {
    pub target_dtype: DataType,
}

pub struct EmbeddingConf<T> {
    pub weight: Tensor<T>,
}

pub struct UnsqueezeConf {
    pub axes: Vec<usize>,
}

pub struct CatConf {
    pub dim: isize,
}

pub struct TensorSplitConf {
    pub dim: isize,
    pub indices: Vec<usize>,
}

pub struct ContiguousConf {}

/// An axis given from the front (`0, 1, ..`) or from the back (`-1, -2, ..`)
/// of a tensor with `ndim` axes, counted from the front.
pub open spec fn spec_norm_dim(d: isize, ndim: nat) -> int {
    if d < 0 {
        d + ndim
    } else {
        d as int
    }
}


/// Whether `d` names an axis of a tensor with `ndim` axes.
pub fn axis_in_range(d: isize, ndim: usize) -> (r: bool)
    ensures
        r == (0 <= spec_norm_dim(d, ndim as nat) < ndim),
{
    if d >= 0 {
        (d as usize) < ndim
    } else {
        let back = (-(d + 1)) as usize + 1;
        back <= ndim
    }
}

/// The axis `d` of a tensor with `ndim` axes, counted from the front.
pub fn norm_dim(d: isize, ndim: usize) -> (r: usize)
    requires
        0 <= spec_norm_dim(d, ndim as nat) <= usize::MAX,
    ensures
        r == spec_norm_dim(d, ndim as nat),
{
    if d < 0 {
        let back = (-(d + 1)) as usize + 1;
        ndim - back
    } else {
        d as usize
    }
}

} // verus!
