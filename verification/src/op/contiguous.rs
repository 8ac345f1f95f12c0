use vstd::prelude::*;

use crate::op::conf::ContiguousConf;
use crate::tensor::Tensor;

verus! {

/// Copies a tensor.
pub struct ContiguousLayer {}

impl ContiguousConf {
    pub fn to_layer(self) -> ContiguousLayer {
        ContiguousLayer {}
    }
}

impl ContiguousLayer {
    pub fn forward<T: Copy>(&self, input: &Tensor<T>) -> (r: Tensor<T>)
        ensures
            r.shape@ == input.shape@,
            r.data@ == input.data@,
    {
        Tensor {
            shape: vstd::slice::slice_to_vec(input.shape.as_slice()),
            data: vstd::slice::slice_to_vec(input.data.as_slice()),
        }
    }
}

} // verus!
