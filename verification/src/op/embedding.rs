use vstd::prelude::*;

use crate::op::conf::EmbeddingConf;
use crate::tensor::{lemma_div_mod_radix, lemma_mixed_radix, numel, Tensor};

verus! {

/// Looks up a row of a table for each index of a tensor of indices.
pub struct EmbeddingLayer<T> {
    pub lconf: EmbeddingConf<T>,
}

/// Why the rows could not be looked up.
#[derive(Debug, Clone, Copy, PartialEq, Eq, Structural)]
pub enum EmbeddingError {
    /// Some index is negative or not a row of the table.
    IndexOutOfBounds,
}

impl<T> EmbeddingConf<T> {
    pub fn to_layer(self) -> (r: EmbeddingLayer<T>)
        ensures
            r.lconf == self,
    {
        EmbeddingLayer { lconf: self }
    }
}

impl<T> EmbeddingLayer<T> {
    /// The number of rows of the table.
    pub open spec fn rows(&self) -> int {
        self.lconf.weight.shape@[0] as int
    }

    /// The length of a row of the table.
    pub open spec fn width(&self) -> int {
        self.lconf.weight.shape@[1] as int
    }

    /// Every index names a row of the table.
    pub open spec fn indices_in_range(&self, indices: Seq<i64>) -> bool {
        forall|i: int| 0 <= i < indices.len() ==> 0 <= #[trigger] indices[i] < self.rows()
    }

    pub fn forward(&self, indices: &Tensor<i64>) -> (r: Result<Tensor<T>, EmbeddingError>) where
        T: Copy,

        requires
            indices.wf(),
            self.lconf.weight.wf(),
            self.lconf.weight.shape@.len() == 2,
        ensures
            r is Ok <==> self.indices_in_range(indices.data@),
            r is Err ==> r == Err::<Tensor<T>, EmbeddingError>(EmbeddingError::IndexOutOfBounds),
            r is Ok ==> {
                let out = r->Ok_0;
                let w = self.width();
                &&& out.wf()
                &&& out.shape@ == indices.shape@.push(w as usize)
                &&& forall|t: int|
                    0 <= t < out.data@.len() ==> #[trigger] out.data@[t]
                        == self.lconf.weight.data@[indices.data@[t / w] * w + t % w]
            },
    {
        let weight = &self.lconf.weight;
        let rows = weight.shape[0];
        let width = weight.shape[1];
        let n = indices.data.len();
        let mut i: usize = 0;
        while i < n
            invariant
                i <= n,
                n == indices.data@.len(),
                rows == self.rows(),
                forall|q: int| 0 <= q < i ==> 0 <= #[trigger] indices.data@[q] < rows,
            decreases n - i,
        {
            let idx = indices.data[i];
            if idx < 0 || idx as u64 >= rows as u64 {
                return Err(EmbeddingError::IndexOutOfBounds);
            }
            i = i + 1;
        }
        let ghost ws = weight.shape@;
        assert(ws.drop_last().drop_last() =~= Seq::<usize>::empty());
        assert(ws.last() == width && ws.drop_last().last() == rows);
        assert(numel(Seq::<usize>::empty()) == 1);
        assert(numel(ws) == numel(ws.drop_last()) * width);
        assert(numel(ws.drop_last()) == numel(ws.drop_last().drop_last()) * rows);
        let total = weight.data.len();
        assert(total == rows * width);
        let mut data: Vec<T> = Vec::new();
        let mut i: usize = 0;
        while i < n
            invariant
                i <= n,
                n == indices.data@.len(),
                rows == self.rows(),
                width == self.width(),
                total == weight.data@.len(),
                total == rows * width,
                *weight == self.lconf.weight,
                forall|q: int| 0 <= q < n ==> 0 <= #[trigger] indices.data@[q] < rows,
                data@.len() == i * width,
                forall|t: int|
                    0 <= t < data@.len() ==> #[trigger] data@[t] == weight.data@[indices.data@[t
                        / (width as int)] * width + t % (width as int)],
            decreases n - i,
        {
            let row = indices.data[i] as usize;
            assert(row < rows);
            let mut j: usize = 0;
            while j < width
                invariant
                    j <= width,
                    i < n,
                    row < rows,
                    row == indices.data@[i as int],
                    n == indices.data@.len(),
                    width == self.width(),
                    total == weight.data@.len(),
                    total == rows * width,
                    *weight == self.lconf.weight,
                    data@.len() == i * width + j,
                    forall|t: int|
                        0 <= t < data@.len() ==> #[trigger] data@[t] == weight.data@[indices.data@[t
                            / (width as int)] * width + t % (width as int)],
                decreases width - j,
            {
                proof {
                    lemma_mixed_radix(row as int, rows as int, j as int, (width as int));
                    lemma_mixed_radix(i as int, n as int, j as int, (width as int));
                    let t = (i * width + j) as int;
                    lemma_div_mod_radix(t, n as int, (width as int));
                    assert(t / (width as int) == i && t % (width as int) == j) by (nonlinear_arith)
                        requires
                            t == i * width + j,
                            0 <= j < width,
                            t == (t / (width as int)) * width + t % (width as int),
                            0 <= t % (width as int) < width,
                    ;
                }
                data.push(weight.data[row * width + j]);
                j = j + 1;
            }
            assert((i + 1) * width == i * width + width) by (nonlinear_arith);
            i = i + 1;
        }
        let mut shape = vstd::slice::slice_to_vec(indices.shape.as_slice());
        shape.push(width);
        proof {
            assert(shape@.drop_last() =~= indices.shape@);
        }
        Ok(Tensor { shape, data })
    }
}

} // verus!
