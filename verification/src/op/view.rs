use vstd::prelude::*;

use crate::op::conf::ViewConf;
use crate::tensor::{checked_numel, numel, Tensor};

verus! {

/// Gives a tensor another shape with the same number of elements; the
/// elements keep their row-major order.
pub struct ViewLayer {
    pub lconf: ViewConf,
}

impl ViewConf {
    pub fn to_layer(self) -> (r: ViewLayer)
        ensures
            r.lconf == self,
    {
        ViewLayer { lconf: self }
    }
}

impl ViewLayer {
    /// The tensor can take the configured shape: both have as many elements.
    pub open spec fn accepts(&self, shape: Seq<usize>) -> bool {
        numel(self.lconf.output_shape@) == numel(shape)
    }

    /// Whether a tensor of this shape, holding `len` elements, can take
    /// the configured shape.
    pub fn admits(&self, shape: &Vec<usize>, len: usize) -> (r: bool)
        requires
            len == numel(shape@),
        ensures
            r == self.accepts(shape@),
    {
        match checked_numel(&self.lconf.output_shape) {
            Some(m) => m == len,
            None => false,
        }
    }

    pub fn forward<T: Copy>(&self, input: &Tensor<T>) -> (r: Tensor<T>)
        requires
            input.wf(),
            self.accepts(input.shape@),
        ensures
            r.wf(),
            r.shape@ == self.lconf.output_shape@,
            r.data@ == input.data@,
    {
        let shape = vstd::slice::slice_to_vec(self.lconf.output_shape.as_slice());
        let data = vstd::slice::slice_to_vec(input.data.as_slice());
        Tensor { shape, data }
    }
}

} // verus!
