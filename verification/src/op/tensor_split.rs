use vstd::prelude::*;

use crate::op::conf::{axis_in_range, norm_dim, spec_norm_dim, TensorSplitConf};
use crate::tensor::{
    lemma_div_mod_radix, lemma_mixed_radix, lemma_numel_around, numel, numel_of_range, Tensor,
};

verus! {

/// Cuts a tensor along one axis at the given indices.
pub struct TensorSplitLayer {
    pub lconf: TensorSplitConf,
}

impl TensorSplitConf {
    pub fn to_layer(self) -> (r: TensorSplitLayer)
        ensures
            r.lconf == self,
    {
        TensorSplitLayer { lconf: self }
    }
}

/// Where the `j`-th piece begins and ends along the axis of length `total`
/// when cutting at `indices`; a piece whose end would come before its
/// beginning is empty.
pub open spec fn spec_piece(indices: Seq<usize>, total: int, j: int) -> (int, int) {
    let start = if j == 0 {
        0
    } else {
        indices[j - 1] as int
    };
    let end = if j == indices.len() {
        total
    } else {
        indices[j] as int
    };
    if end < start {
        (start, start)
    } else {
        (start, end)
    }
}

/// Where element `t` of a piece comes from: a piece of length `len` starting
/// at `start` along an axis of length `n`, with `i_len` elements per step
/// along that axis.
pub open spec fn spec_slice_source(t: int, n: int, start: int, len: int, i_len: int) -> int {
    let r = t % i_len;
    let k = (t / i_len) % len;
    let a = (t / i_len) / len;
    (a * n + start + k) * i_len + r
}

impl TensorSplitLayer {
    pub open spec fn dim(&self, ndim: nat) -> int {
        spec_norm_dim(self.lconf.dim, ndim)
    }

    /// The axis exists and no index lies past its end.
    pub open spec fn accepts(&self, shape: Seq<usize>) -> bool {
        let d = self.dim(shape.len());
        &&& 0 <= d < shape.len()
        &&& forall|j: int|
            0 <= j < self.lconf.indices@.len() ==> #[trigger] self.lconf.indices@[j] <= shape[d]
    }

    /// Whether a tensor of this shape can be cut as configured.
    pub fn admits(&self, shape: &Vec<usize>) -> (r: bool)
        ensures
            r == self.accepts(shape@),
    {
        let n = shape.len();
        if !axis_in_range(self.lconf.dim, n) {
            return false;
        }
        let d = norm_dim(self.lconf.dim, n);
        let len = shape[d];
        let mut j: usize = 0;
        while j < self.lconf.indices.len()
            invariant
                j <= self.lconf.indices@.len(),
                d == self.dim(shape@.len()),
                0 <= d < shape@.len(),
                len == shape@[d as int],
                forall|q: int| 0 <= q < j ==> #[trigger] self.lconf.indices@[q] <= len,
            decreases self.lconf.indices@.len() - j,
        {
            if self.lconf.indices[j] > len {
                return false;
            }
            j = j + 1;
        }
        true
    }

    pub fn forward<T: Copy>(&self, input: &Tensor<T>) -> (r: Vec<Tensor<T>>)
        requires
            input.wf(),
            self.accepts(input.shape@),
        ensures
            r@.len() == self.lconf.indices@.len() + 1,
            forall|j: int| 0 <= j < r@.len() ==> self.is_piece(input, j, #[trigger] r@[j]),
    {
        let ghost s = input.shape@;
        let ndim = input.shape.len();
        let d = norm_dim(self.lconf.dim, ndim);
        let mut result: Vec<Tensor<T>> = Vec::new();
        let n_cuts = self.lconf.indices.len();
        let mut j: usize = 0;
        while j < n_cuts
            invariant
                j <= n_cuts,
                n_cuts == self.lconf.indices@.len(),
                s == input.shape@,
                input.wf(),
                ndim == s.len(),
                d == self.dim(s.len()),
                0 <= d < s.len(),
                self.accepts(s),
                result@.len() == j,
                forall|q: int| 0 <= q < j ==> self.is_piece(input, q, #[trigger] result@[q]),
            decreases n_cuts - j,
        {
            let piece = self.piece(input, d, j);
            result.push(piece);
            j = j + 1;
        }
        let last = self.piece(input, d, n_cuts);
        result.push(last);
        assert forall|q: int| 0 <= q < result@.len() implies self.is_piece(input, q, #[trigger] result@[q]) by {
        }
        result
    }

    /// `p` is the `j`-th piece of `input`.
    pub open spec fn is_piece<T>(&self, input: &Tensor<T>, j: int, p: Tensor<T>) -> bool {
        let s = input.shape@;
        let d = self.dim(s.len());
        let (start, end) = spec_piece(self.lconf.indices@, s[d] as int, j);
        &&& p.wf()
        &&& p.shape@ == s.update(d, (end - start) as usize)
        &&& forall|t: int|
            0 <= t < p.data@.len() ==> #[trigger] p.data@[t] == input.data@[spec_slice_source(
                t,
                s[d] as int,
                start,
                end - start,
                numel(s.skip(d + 1)) as int,
            )]
    }

    /// The `j`-th piece of `input`, cut along axis `d`.
    fn piece<T: Copy>(&self, input: &Tensor<T>, d: usize, j: usize) -> (r: Tensor<T>)
        requires
            input.wf(),
            d == self.dim(input.shape@.len()),
            self.accepts(input.shape@),
            j <= self.lconf.indices@.len(),
        ensures
            self.is_piece(input, j as int, r),
    {
        let ghost s = input.shape@;
        let n_len = input.shape[d];
        let start = if j == 0 {
            0
        } else {
            self.lconf.indices[j - 1]
        };
        let end0 = if j == self.lconf.indices.len() {
            n_len
        } else {
            self.lconf.indices[j]
        };
        let end = if end0 < start {
            start
        } else {
            end0
        };
        let len = end - start;
        let mut shape = vstd::slice::slice_to_vec(input.shape.as_slice());
        shape.set(d, len);
        let data = self.cut(input, d, start, len);
        let ghost sh = shape@;
        proof {
            lemma_numel_around(sh, d as int);
            assert(sh.take(d as int) =~= s.take(d as int));
            assert(sh.skip(d + 1) =~= s.skip(d + 1));
        }
        Tensor { shape, data }
    }

    /// The elements of the piece of length `len` starting at `start` along
    /// axis `d`.
    fn cut<T: Copy>(&self, input: &Tensor<T>, d: usize, start: usize, len: usize) -> (r: Vec<T>)
        requires
            input.wf(),
            d < input.shape@.len(),
            start + len <= input.shape@[d as int],
        ensures
            r@.len() == numel(input.shape@.take(d as int)) * len * numel(input.shape@.skip(d + 1)),
            forall|t: int|
                0 <= t < r@.len() ==> #[trigger] r@[t] == input.data@[spec_slice_source(
                    t,
                    input.shape@[d as int] as int,
                    start as int,
                    len as int,
                    numel(input.shape@.skip(d + 1)) as int,
                )],
    {
        let ghost s = input.shape@;
        proof {
            lemma_numel_around(s, d as int);
        }
        if input.data.len() == 0 {
            let ghost a = numel(s.take(d as int)) as int;
            let ghost i = numel(s.skip(d + 1)) as int;
            let ghost n = s[d as int] as int;
            assert(a * len * i == 0) by (nonlinear_arith)
                requires
                    a * n * i == 0,
                    0 <= len <= n,
                    a >= 0,
                    i >= 0,
            ;
            return Vec::new();
        }
        let ndim = input.shape.len();
        let a_len = numel_of_range(&input.shape, 0, d);
        let i_len = numel_of_range(&input.shape, d + 1, ndim);
        let n_len = input.shape[d];
        assert(s.subrange(0, d as int) =~= s.take(d as int));
        assert(s.subrange(d + 1, ndim as int) =~= s.skip(d + 1));
        let total = input.data.len();
        proof {
            assert(a_len * len <= a_len * n_len && a_len * len * i_len <= a_len * n_len * i_len
                && a_len * n_len <= a_len * n_len * i_len) by (nonlinear_arith)
                requires
                    len <= n_len,
                    i_len > 0,
            ;
        }
        let out_len = a_len * len * i_len;
        let mut out: Vec<T> = Vec::new();
        let mut t: usize = 0;
        while t < out_len
            invariant
                t <= out_len,
                out_len == a_len * len * i_len,
                total == a_len * n_len * i_len,
                a_len * n_len <= total,
                total == input.data@.len(),
                start + len <= n_len,
                out@.len() == t,
                forall|u: int|
                    0 <= u < t ==> #[trigger] out@[u] == input.data@[spec_slice_source(
                        u,
                        n_len as int,
                        start as int,
                        len as int,
                        i_len as int,
                    )],
            decreases out_len - t,
        {
            proof {
                assert(a_len > 0 && len > 0 && i_len > 0) by (nonlinear_arith)
                    requires
                        0 <= t < out_len,
                        out_len == a_len * len * i_len,
                ;
                lemma_div_mod_radix(t as int, a_len * len, i_len as int);
                lemma_div_mod_radix(t as int / i_len as int, a_len as int, len as int);
                let k = (t as int / i_len as int) % (len as int);
                let a = (t as int / i_len as int) / (len as int);
                lemma_mixed_radix(a, a_len as int, start + k, n_len as int);
                lemma_mixed_radix(a * n_len + start + k, a_len * n_len, t as int % i_len as int, i_len as int);
            }
            let r = t % i_len;
            let k = (t / i_len) % len;
            let a = (t / i_len) / len;
            let src = (a * n_len + start + k) * i_len + r;
            out.push(input.data[src]);
            t = t + 1;
        }
        out
    }
}

} // verus!
