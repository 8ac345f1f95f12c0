use vstd::prelude::*;

use crate::dtype::DataType;
use crate::op::conf::{axis_in_range, norm_dim, spec_norm_dim, TransposeConf};
use vstd::arithmetic::div_mod::{lemma_fundamental_div_mod, lemma_fundamental_div_mod_converse};
use crate::tensor::{
    lemma_div_mod_radix, lemma_mixed_radix, lemma_numel_concat, lemma_numel_single, numel, Tensor,
};

verus! {

/// Swaps two axes of a tensor.
pub struct TransposeLayer {
    pub tconf: TransposeConf,
}

/// Why a tensor could not be transposed.
#[derive(Debug, Clone, Copy, PartialEq, Eq, Structural)]
pub enum TransposeError {
    /// Only tensors of 32-bit floats are transposed.
    UnsupportedType,
}

impl TransposeConf {
    pub fn to_layer(self) -> (r: TransposeLayer)
        ensures
            r.tconf == self,
    {
        TransposeLayer { tconf: self }
    }
}

/// Where the element at position `k` of the result comes from, when a tensor
/// of the block shape `(A, P, M, Q, I)` has its axes `P` and `Q` swapped: the
/// result has the block shape `(A, Q, M, P, I)`; `k` is split into its
/// coordinates `(a, q, m, p, i)` in that shape and they are put back
/// together in the shape of the source.
pub open spec fn spec_swap_index(k: int, p_len: int, m_len: int, q_len: int, i_len: int) -> int {
    let i = k % i_len;
    let k1 = k / i_len;
    let p = k1 % p_len;
    let k2 = k1 / p_len;
    let m = k2 % m_len;
    let k3 = k2 / m_len;
    let q = k3 % q_len;
    let a = k3 / q_len;
    (((a * p_len + p) * m_len + m) * q_len + q) * i_len + i
}

/// Where the element at position `k` of the result of swapping the axes `lo`
/// and `hi` (`lo <= hi`) of a tensor of shape `s` comes from.
pub open spec fn spec_transpose_source(s: Seq<usize>, lo: int, hi: int, k: int) -> int {
    if lo == hi {
        k
    } else {
        spec_swap_index(
            k,
            s[lo] as int,
            numel(s.subrange(lo + 1, hi)) as int,
            s[hi] as int,
            numel(s.skip(hi + 1)) as int,
        )
    }
}

proof fn lemma_swap_index(k: int, a_len: int, p_len: int, m_len: int, q_len: int, i_len: int)
    requires
        0 <= k < a_len * q_len * m_len * p_len * i_len,
        a_len > 0,
        p_len > 0,
        m_len > 0,
        q_len > 0,
        i_len > 0,
    ensures
        a_len * q_len * m_len * p_len * i_len == a_len * p_len * m_len * q_len * i_len,
        ({
            let i = k % i_len;
            let k1 = k / i_len;
            let p = k1 % p_len;
            let k2 = k1 / p_len;
            let m = k2 % m_len;
            let k3 = k2 / m_len;
            let q = k3 % q_len;
            let a = k3 / q_len;
            let x1 = a * p_len + p;
            let x2 = x1 * m_len + m;
            let x3 = x2 * q_len + q;
            let x4 = x3 * i_len + i;
            &&& 0 <= x1 < a_len * p_len
            &&& 0 <= x2 < a_len * p_len * m_len
            &&& 0 <= x3 < a_len * p_len * m_len * q_len
            &&& a_len * p_len <= a_len * p_len * m_len * q_len * i_len
            &&& a_len * p_len * m_len <= a_len * p_len * m_len * q_len * i_len
            &&& a_len * p_len * m_len * q_len <= a_len * p_len * m_len * q_len * i_len
            &&& 0 <= x4 < a_len * p_len * m_len * q_len * i_len
            &&& x4 == spec_swap_index(k, p_len, m_len, q_len, i_len)
            &&& 0 <= i < i_len
            &&& 0 <= p < p_len
            &&& 0 <= m < m_len
            &&& 0 <= q < q_len
            &&& 0 <= a < a_len
        }),
{
    assert(a_len * q_len * m_len * p_len * i_len == a_len * p_len * m_len * q_len * i_len)
        by (nonlinear_arith);
    assert(a_len * q_len * m_len * p_len > 0 && a_len * q_len * m_len > 0 && a_len * q_len > 0)
        by (nonlinear_arith)
        requires
            a_len > 0,
            p_len > 0,
            m_len > 0,
            q_len > 0,
    ;
    lemma_div_mod_radix(k, a_len * q_len * m_len * p_len, i_len);
    let k1 = k / i_len;
    lemma_div_mod_radix(k1, a_len * q_len * m_len, p_len);
    let k2 = k1 / p_len;
    lemma_div_mod_radix(k2, a_len * q_len, m_len);
    let k3 = k2 / m_len;
    lemma_div_mod_radix(k3, a_len, q_len);
    let i = k % i_len;
    let p = k1 % p_len;
    let m = k2 % m_len;
    let q = k3 % q_len;
    let a = k3 / q_len;
    lemma_mixed_radix(a, a_len, p, p_len);
    let x1 = a * p_len + p;
    lemma_mixed_radix(x1, a_len * p_len, m, m_len);
    let x2 = x1 * m_len + m;
    lemma_mixed_radix(x2, a_len * p_len * m_len, q, q_len);
    let x3 = x2 * q_len + q;
    lemma_mixed_radix(x3, a_len * p_len * m_len * q_len, i, i_len);
    assert(a_len * p_len <= a_len * p_len * m_len * q_len * i_len
        && a_len * p_len * m_len <= a_len * p_len * m_len * q_len * i_len
        && a_len * p_len * m_len * q_len <= a_len * p_len * m_len * q_len * i_len) by (nonlinear_arith)
        requires
            a_len > 0,
            p_len > 0,
            m_len > 0,
            q_len > 0,
            i_len > 0,
    ;
}

impl TransposeLayer {
    pub open spec fn dim0(&self, ndim: nat) -> int {
        spec_norm_dim(self.tconf.dim0, ndim)
    }

    pub open spec fn dim1(&self, ndim: nat) -> int {
        spec_norm_dim(self.tconf.dim1, ndim)
    }

    /// The tensor has at least two axes and both axes to swap exist.
    pub open spec fn accepts(&self, shape: Seq<usize>) -> bool {
        &&& shape.len() >= 2
        &&& 0 <= self.dim0(shape.len()) < shape.len()
        &&& 0 <= self.dim1(shape.len()) < shape.len()
    }

    /// Whether a tensor of this shape can be transposed.
    pub fn admits(&self, shape: &Vec<usize>) -> (r: bool)
        ensures
            r == self.accepts(shape@),
    {
        let n = shape.len();
        n >= 2 && axis_in_range(self.tconf.dim0, n) && axis_in_range(self.tconf.dim1, n)
    }

    /// `out` is `input` with the two axes swapped: each element of `out`
    /// is the element of `input` at the swapped coordinates.
    pub open spec fn transposed<T>(&self, input: Tensor<T>, out: Tensor<T>) -> bool {
        let s = input.shape@;
        let d0 = self.dim0(s.len());
        let d1 = self.dim1(s.len());
        let lo = if d0 <= d1 { d0 } else { d1 };
        let hi = if d0 <= d1 { d1 } else { d0 };
        &&& out.wf()
        &&& out.shape@ == s.update(d0, s[d1]).update(d1, s[d0])
        &&& out.data@.len() == input.data@.len()
        &&& forall|k: int|
            0 <= k < out.data@.len() ==> #[trigger] out.data@[k] == input.data@[spec_transpose_source(
                s,
                lo,
                hi,
                k,
            )]
    }

    /// Transposes a tensor whose elements are of type `dtype`; tensors of
    /// any type but 32-bit floats are refused.
    pub fn forward_typed<T: Copy>(&self, dtype: DataType, input: &Tensor<T>) -> (r: Result<
        Tensor<T>,
        TransposeError,
    >)
        requires
            input.wf(),
            dtype == DataType::Float32 ==> self.accepts(input.shape@),
        ensures
            dtype != DataType::Float32 ==> r == Err::<Tensor<T>, TransposeError>(
                TransposeError::UnsupportedType,
            ),
            dtype == DataType::Float32 ==> r is Ok && self.transposed(*input, r->Ok_0),
    {
        if dtype != DataType::Float32 {
            return Err(TransposeError::UnsupportedType);
        }
        Ok(self.forward(input))
    }

    pub fn forward<T: Copy>(&self, input: &Tensor<T>) -> (r: Tensor<T>)
        requires
            input.wf(),
            self.accepts(input.shape@),
        ensures
            self.transposed(*input, r),
    {
        let ghost s = input.shape@;
        let ndim = input.shape.len();
        let d0 = norm_dim(self.tconf.dim0, ndim);
        let d1 = norm_dim(self.tconf.dim1, ndim);
        let lo = if d0 <= d1 { d0 } else { d1 };
        let hi = if d0 <= d1 { d1 } else { d0 };
        let mut shape = vstd::slice::slice_to_vec(input.shape.as_slice());
        let x = shape[d0];
        let y = shape[d1];
        shape.set(d0, y);
        shape.set(d1, x);
        let total = input.data.len();
        if lo == hi {
            assert(shape@ =~= s);
            return Tensor { shape, data: vstd::slice::slice_to_vec(input.data.as_slice()) };
        }
        if total == 0 {
            assert(numel(shape@) == 0) by {
                lemma_numel_swap(s, lo as int, hi as int);
                assert(shape@ =~= s.take(lo as int) + seq![s[hi as int]] + s.subrange(lo + 1, hi as int) + seq![s[lo as int]] + s.skip(hi + 1));
            }
            return Tensor { shape, data: Vec::new() };
        }
        proof {
            lemma_positive_numel_parts(s, lo as int, hi as int);
        }
        let a_len = checked_prefix(&input.shape, lo);
        let p_len = input.shape[lo];
        let m_len = checked_range(&input.shape, lo + 1, hi);
        let q_len = input.shape[hi];
        let i_len = checked_range(&input.shape, hi + 1, ndim);
        proof {
            assert(s =~= s.take(lo as int) + seq![s[lo as int]] + s.subrange(lo + 1, hi as int) + seq![s[hi as int]] + s.skip(hi + 1));
            assert(shape@ =~= s.take(lo as int) + seq![s[hi as int]] + s.subrange(lo + 1, hi as int) + seq![s[lo as int]] + s.skip(hi + 1));
            assert(s.subrange(hi + 1, ndim as int) =~= s.skip(hi + 1));
            lemma_numel_single(s[lo as int]);
            lemma_numel_single(s[hi as int]);
            lemma_numel_concat(s.take(lo as int), seq![s[lo as int]]);
            lemma_numel_concat(s.take(lo as int) + seq![s[lo as int]], s.subrange(lo + 1, hi as int));
            lemma_numel_concat(s.take(lo as int) + seq![s[lo as int]] + s.subrange(lo + 1, hi as int), seq![s[hi as int]]);
            lemma_numel_concat(s.take(lo as int) + seq![s[lo as int]] + s.subrange(lo + 1, hi as int) + seq![s[hi as int]], s.skip(hi + 1));
            lemma_numel_concat(s.take(lo as int), seq![s[hi as int]]);
            lemma_numel_concat(s.take(lo as int) + seq![s[hi as int]], s.subrange(lo + 1, hi as int));
            lemma_numel_concat(s.take(lo as int) + seq![s[hi as int]] + s.subrange(lo + 1, hi as int), seq![s[lo as int]]);
            lemma_numel_concat(s.take(lo as int) + seq![s[hi as int]] + s.subrange(lo + 1, hi as int) + seq![s[lo as int]], s.skip(hi + 1));
            let a = a_len as int;
            let p = p_len as int;
            let m = m_len as int;
            let q = q_len as int;
            let i = i_len as int;
            assert(numel(s) == a * p * m * q * i);
            assert(numel(shape@) == a * q * m * p * i);
            assert(a * q * m * p * i == a * p * m * q * i) by (nonlinear_arith);
        }
        let mut data: Vec<T> = Vec::new();
        let mut k: usize = 0;
        while k < total
            invariant
                k <= total,
                total == input.data@.len(),
                total == a_len * q_len * m_len * p_len * i_len,
                total == a_len * p_len * m_len * q_len * i_len,
                data@.len() == k,
                forall|j: int|
                    0 <= j < k ==> #[trigger] data@[j] == input.data@[spec_swap_index(
                        j,
                        p_len as int,
                        m_len as int,
                        q_len as int,
                        i_len as int,
                    )],
            decreases total - k,
        {
            proof {
                assert(a_len > 0 && p_len > 0 && m_len > 0 && q_len > 0 && i_len > 0) by (nonlinear_arith)
                    requires
                        0 <= k < total,
                        total == a_len * q_len * m_len * p_len * i_len,
                ;
                lemma_swap_index(k as int, a_len as int, p_len as int, m_len as int, q_len as int, i_len as int);
            }
            let i = k % i_len;
            let k1 = k / i_len;
            let p = k1 % p_len;
            let k2 = k1 / p_len;
            let m = k2 % m_len;
            let k3 = k2 / m_len;
            let q = k3 % q_len;
            let a = k3 / q_len;
            let x1 = a * p_len + p;
            let x2 = x1 * m_len + m;
            let x3 = x2 * q_len + q;
            let src = x3 * i_len + i;
            data.push(input.data[src]);
            k = k + 1;
        }
        Tensor { shape, data }
    }
}

/// Swapping two axes keeps the number of elements.
proof fn lemma_numel_swap(s: Seq<usize>, lo: int, hi: int)
    requires
        0 <= lo < hi < s.len(),
    ensures
        numel(s) == numel(s.take(lo) + seq![s[hi]] + s.subrange(lo + 1, hi) + seq![s[lo]] + s.skip(hi + 1)),
{
    assert(s =~= s.take(lo) + seq![s[lo]] + s.subrange(lo + 1, hi) + seq![s[hi]] + s.skip(hi + 1));
    lemma_numel_single(s[lo]);
    lemma_numel_single(s[hi]);
    lemma_numel_concat(s.take(lo), seq![s[lo]]);
    lemma_numel_concat(s.take(lo) + seq![s[lo]], s.subrange(lo + 1, hi));
    lemma_numel_concat(s.take(lo) + seq![s[lo]] + s.subrange(lo + 1, hi), seq![s[hi]]);
    lemma_numel_concat(s.take(lo) + seq![s[lo]] + s.subrange(lo + 1, hi) + seq![s[hi]], s.skip(hi + 1));
    lemma_numel_concat(s.take(lo), seq![s[hi]]);
    lemma_numel_concat(s.take(lo) + seq![s[hi]], s.subrange(lo + 1, hi));
    lemma_numel_concat(s.take(lo) + seq![s[hi]] + s.subrange(lo + 1, hi), seq![s[lo]]);
    lemma_numel_concat(s.take(lo) + seq![s[hi]] + s.subrange(lo + 1, hi) + seq![s[lo]], s.skip(hi + 1));
    let a = numel(s.take(lo)) as int;
    let p = s[lo] as int;
    let m = numel(s.subrange(lo + 1, hi)) as int;
    let q = s[hi] as int;
    let i = numel(s.skip(hi + 1)) as int;
    assert(a * p * m * q * i == a * q * m * p * i) by (nonlinear_arith);
}

/// When a shape has elements, each of its parts has no more elements than
/// the whole.
proof fn lemma_positive_numel_parts(s: Seq<usize>, lo: int, hi: int)
    requires
        0 <= lo < hi < s.len(),
        numel(s) > 0,
    ensures
        numel(s.take(lo)) <= numel(s),
        numel(s.subrange(lo + 1, hi)) <= numel(s),
        numel(s.subrange(hi + 1, s.len() as int)) <= numel(s),
{
    assert forall|j: int| 0 <= j < s.len() implies s[j] > 0 by {
        if s[j] == 0 {
            crate::tensor::lemma_numel_zero(s, j);
        }
    }
    let x = s.take(lo);
    let y = s.subrange(lo + 1, hi);
    let z = s.subrange(hi + 1, s.len() as int);
    let w1 = s.subrange(lo, lo + 1);
    let w2 = s.subrange(hi, hi + 1);
    assert(s =~= x + w1 + y + w2 + z);
    lemma_numel_concat(x, w1);
    lemma_numel_concat(x + w1, y);
    lemma_numel_concat(x + w1 + y, w2);
    lemma_numel_concat(x + w1 + y + w2, z);
    crate::tensor::lemma_numel_prefix_le(x, 0);
    crate::tensor::lemma_numel_prefix_le(y, 0);
    crate::tensor::lemma_numel_prefix_le(z, 0);
    crate::tensor::lemma_numel_prefix_le(w1, 0);
    crate::tensor::lemma_numel_prefix_le(w2, 0);
    let a = numel(x) as int;
    let b = numel(w1) as int;
    let c = numel(y) as int;
    let d = numel(w2) as int;
    let e = numel(z) as int;
    assert(a <= a * b * c * d * e && c <= a * b * c * d * e && e <= a * b * c * d * e) by (nonlinear_arith)
        requires
            a > 0,
            b > 0,
            c > 0,
            d > 0,
            e > 0,
    ;
}

/// The number of elements of the first `n` axes of `shape`.
fn checked_prefix(shape: &Vec<usize>, n: usize) -> (r: usize)
    requires
        n <= shape@.len(),
        numel(shape@.take(n as int)) <= usize::MAX,
    ensures
        r == numel(shape@.take(n as int)),
{
    assert(shape@.subrange(0, n as int) =~= shape@.take(n as int));
    checked_range(shape, 0, n)
}

fn checked_range(shape: &Vec<usize>, lo: usize, hi: usize) -> (r: usize)
    requires
        lo <= hi <= shape@.len(),
        numel(shape@.subrange(lo as int, hi as int)) <= usize::MAX,
    ensures
        r == numel(shape@.subrange(lo as int, hi as int)),
{
    let sub = vstd::slice::slice_to_vec(&shape.as_slice()[lo..hi]);
    match crate::tensor::checked_numel(&sub) {
        Some(n) => n,
        None => {
            assert(false);
            0
        },
    }
}

/// Swapping the digits `P` and `Q` of a position twice gives the position
/// back.
proof fn lemma_swap_twice(k: int, a_len: int, p_len: int, m_len: int, q_len: int, i_len: int)
    requires
        0 <= k < a_len * q_len * m_len * p_len * i_len,
        a_len > 0,
        p_len > 0,
        m_len > 0,
        q_len > 0,
        i_len > 0,
    ensures
        spec_swap_index(spec_swap_index(k, p_len, m_len, q_len, i_len), q_len, m_len, p_len, i_len)
            == k,
{
    lemma_swap_index(k, a_len, p_len, m_len, q_len, i_len);
    let i = k % i_len;
    let k1 = k / i_len;
    let p = k1 % p_len;
    let k2 = k1 / p_len;
    let m = k2 % m_len;
    let k3 = k2 / m_len;
    let q = k3 % q_len;
    let a = k3 / q_len;
    let x1 = a * p_len + p;
    let x2 = x1 * m_len + m;
    let x3 = x2 * q_len + q;
    let x4 = x3 * i_len + i;
    assert(x4 == spec_swap_index(k, p_len, m_len, q_len, i_len));
    lemma_fundamental_div_mod_converse(x4, i_len, x3, i);
    lemma_fundamental_div_mod_converse(x3, q_len, x2, q);
    lemma_fundamental_div_mod_converse(x2, m_len, x1, m);
    lemma_fundamental_div_mod_converse(x1, p_len, a, p);
    lemma_fundamental_div_mod(k, i_len);
    lemma_fundamental_div_mod(k1, p_len);
    lemma_fundamental_div_mod(k2, m_len);
    lemma_fundamental_div_mod(k3, q_len);
    assert(k == (((a * q_len + q) * m_len + m) * p_len + p) * i_len + i) by (nonlinear_arith)
        requires
            k == k1 * i_len + i,
            k1 == k2 * p_len + p,
            k2 == k3 * m_len + m,
            k3 == a * q_len + q,
    ;
}

/// Swapping two axes twice gives the tensor back: in the tensor whose axes
/// `lo` and `hi` were swapped, and swapped again, every element is taken
/// from its own position.
pub proof fn law_transpose_twice(s: Seq<usize>, lo: int, hi: int, k: int)
    requires
        0 <= lo <= hi < s.len(),
        0 <= k < numel(s),
    ensures
        spec_transpose_source(
            s.update(lo, s[hi]).update(hi, s[lo]),
            lo,
            hi,
            spec_transpose_source(s, lo, hi, k),
        ) == k,
{
    if lo < hi {
        let s2 = s.update(lo, s[hi]).update(hi, s[lo]);
        let a = numel(s.take(lo)) as int;
        let p = s[lo] as int;
        let m = numel(s.subrange(lo + 1, hi)) as int;
        let q = s[hi] as int;
        let i = numel(s.skip(hi + 1)) as int;
        lemma_numel_parts(s, lo, hi);
        assert(s2[lo] == q && s2[hi] == p);
        assert(s2.subrange(lo + 1, hi) =~= s.subrange(lo + 1, hi));
        assert(s2.skip(hi + 1) =~= s.skip(hi + 1));
        assert(a > 0 && p > 0 && m > 0 && q > 0 && i > 0) by (nonlinear_arith)
            requires
                a * p * m * q * i > 0,
                a >= 0,
                p >= 0,
                m >= 0,
                q >= 0,
                i >= 0,
        ;
        assert(a * q * m * p * i == a * p * m * q * i) by (nonlinear_arith);
        lemma_swap_twice(k, a, p, m, q, i);
    }
}

/// The number of elements of a shape split at two axes.
proof fn lemma_numel_parts(s: Seq<usize>, lo: int, hi: int)
    requires
        0 <= lo < hi < s.len(),
    ensures
        numel(s) == numel(s.take(lo)) * (s[lo] as int) * numel(s.subrange(lo + 1, hi)) * (
        s[hi] as int) * numel(s.skip(hi + 1)),
{
    let x = s.take(lo);
    let y = s.subrange(lo + 1, hi);
    let z = s.skip(hi + 1);
    assert(s =~= x + seq![s[lo]] + y + seq![s[hi]] + z);
    lemma_numel_single(s[lo]);
    lemma_numel_single(s[hi]);
    lemma_numel_concat(x, seq![s[lo]]);
    lemma_numel_concat(x + seq![s[lo]], y);
    lemma_numel_concat(x + seq![s[lo]] + y, seq![s[hi]]);
    lemma_numel_concat(x + seq![s[lo]] + y + seq![s[hi]], z);
}

} // verus!
