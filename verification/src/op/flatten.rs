use vstd::prelude::*;

use crate::dtype::DataType;
use crate::op::conf::{axis_in_range, norm_dim, spec_norm_dim, FlattenConf};
use crate::tensor::{checked_numel, lemma_numel_concat, lemma_numel_single, numel, Tensor};

verus! {

/// Merges the axes `start_dim ..= end_dim` of a tensor into one; the
/// elements keep their row-major order.
pub struct FlattenLayer {
    pub fconf: FlattenConf,
}

/// Why a tensor could not be flattened.
#[derive(Debug, Clone, Copy, PartialEq, Eq, Structural)]
pub enum FlattenError {
    /// Only tensors of 32-bit floats are flattened.
    UnsupportedType,
}

impl FlattenConf {
    pub fn to_layer(self) -> (r: FlattenLayer)
        ensures
            r.fconf == self,
    {
        FlattenLayer { fconf: self }
    }
}

/// The shape after merging the axes `s ..= e` of `shape`.
pub open spec fn spec_flatten_shape(shape: Seq<usize>, s: int, e: int) -> Seq<usize> {
    shape.take(s) + seq![numel(shape.subrange(s, e + 1)) as usize] + shape.skip(e + 1)
}

impl FlattenLayer {
    pub open spec fn start(&self, ndim: nat) -> int {
        spec_norm_dim(self.fconf.start_dim, ndim)
    }

    pub open spec fn end(&self, ndim: nat) -> int {
        spec_norm_dim(self.fconf.end_dim, ndim)
    }

    /// The axes to merge exist, come in order, and the size of the merged
    /// axis fits in `usize`.
    pub open spec fn accepts(&self, shape: Seq<usize>) -> bool {
        let s = self.start(shape.len());
        let e = self.end(shape.len());
        &&& 0 <= s <= e < shape.len()
        &&& numel(shape.subrange(s, e + 1)) <= usize::MAX
    }

    /// Whether a tensor of this shape can be flattened.
    pub fn admits(&self, shape: &Vec<usize>) -> (r: bool)
        ensures
            r == self.accepts(shape@),
    {
        let n = shape.len();
        if !axis_in_range(self.fconf.start_dim, n) || !axis_in_range(self.fconf.end_dim, n) {
            return false;
        }
        let s = norm_dim(self.fconf.start_dim, n);
        let e = norm_dim(self.fconf.end_dim, n);
        if s > e {
            return false;
        }
        let part = vstd::slice::slice_to_vec(&shape.as_slice()[s..e + 1]);
        assert(part@ == shape@.subrange(s as int, e + 1));
        checked_numel(&part).is_some()
    }

    /// `out` is `input` with the axes `start ..= end` merged: the same
    /// elements in the same order, under the merged shape.
    pub open spec fn flattened<T>(&self, input: Tensor<T>, out: Tensor<T>) -> bool {
        &&& out.wf()
        &&& out.shape@ == spec_flatten_shape(
            input.shape@,
            self.start(input.shape@.len()),
            self.end(input.shape@.len()),
        )
        &&& out.data@ == input.data@
    }

    /// Flattens a tensor whose elements are of type `dtype`; tensors of
    /// any type but 32-bit floats are refused.
    pub fn forward_typed<T: Copy>(&self, dtype: DataType, input: &Tensor<T>) -> (r: Result<
        Tensor<T>,
        FlattenError,
    >)
        requires
            input.wf(),
            dtype == DataType::Float32 ==> self.accepts(input.shape@),
        ensures
            dtype != DataType::Float32 ==> r == Err::<Tensor<T>, FlattenError>(
                FlattenError::UnsupportedType,
            ),
            dtype == DataType::Float32 ==> r is Ok && self.flattened(*input, r->Ok_0),
    {
        if dtype != DataType::Float32 {
            return Err(FlattenError::UnsupportedType);
        }
        Ok(self.forward(input))
    }

    pub fn forward<T: Copy>(&self, input: &Tensor<T>) -> (r: Tensor<T>)
        requires
            input.wf(),
            self.accepts(input.shape@),
        ensures
            self.flattened(*input, r),
    {
        let ndim = input.shape.len();
        let start = norm_dim(self.fconf.start_dim, ndim);
        let end = norm_dim(self.fconf.end_dim, ndim);
        let ghost sh = input.shape@;
        let mut shape: Vec<usize> = Vec::new();
        let mut i: usize = 0;
        while i < start
            invariant
                i <= start <= sh.len(),
                sh == input.shape@,
                shape@ == sh.take(i as int),
            decreases start - i,
        {
            shape.push(input.shape[i]);
            assert(sh.take(i + 1) =~= sh.take(i as int).push(sh[i as int]));
            i = i + 1;
        }
        let sub = vstd::slice::slice_to_vec(&input.shape.as_slice()[start..end + 1]);
        let merged = match checked_numel(&sub) {
            Some(n) => n,
            None => {
                assert(false);
                0
            },
        };
        shape.push(merged);
        let mut k: usize = end + 1;
        while k < ndim
            invariant
                end + 1 <= k <= sh.len(),
                ndim == sh.len(),
                sh == input.shape@,
                shape@ == sh.take(start as int) + seq![merged] + sh.subrange(end + 1, k as int),
            decreases ndim - k,
        {
            shape.push(input.shape[k]);
            assert(sh.subrange(end + 1, k + 1) =~= sh.subrange(end + 1, k as int).push(sh[k as int]));
            k = k + 1;
        }
        assert(sh.subrange(end + 1, ndim as int) =~= sh.skip(end + 1));
        proof {
            assert(sh =~= sh.take(start as int) + sh.subrange(start as int, end + 1) + sh.skip(end + 1));
            lemma_numel_concat(sh.take(start as int) + sh.subrange(start as int, end + 1), sh.skip(end + 1));
            lemma_numel_concat(sh.take(start as int), sh.subrange(start as int, end + 1));
            lemma_numel_concat(sh.take(start as int) + seq![merged], sh.skip(end + 1));
            lemma_numel_concat(sh.take(start as int), seq![merged]);
            lemma_numel_single(merged);
        }
        let data = vstd::slice::slice_to_vec(input.data.as_slice());
        Tensor { shape, data }
    }
}

} // verus!
