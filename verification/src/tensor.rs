//! Dense tensors in row-major order, with elements of any type.
use vstd::prelude::*;

verus! {

/// A dense tensor: its extent along each axis, and its elements in row-major
/// order (the last axis varies fastest).
#[derive(Debug, Clone, PartialEq)]
pub struct Tensor<T> {
    pub shape: Vec<usize>,
    pub data: Vec<T>,
}

/// The number of elements of a tensor of this shape: the product of the
/// extents (1 for no axis at all).
pub open spec fn numel(s: Seq<usize>) -> nat
    decreases s.len(),
{
    if s.len() == 0 {
        1
    } else {
        numel(s.drop_last()) * (s.last() as nat)
    }
}

/// Coordinate `k` of element `t` of a row-major tensor of shape `s`: how
/// many whole blocks of the axes after `k` come before it, modulo the
/// extent of axis `k`.
pub open spec fn coord(s: Seq<usize>, t: int, k: int) -> int {
    (t / (numel(s.skip(k + 1)) as int)) % (s[k] as int)
}

/// The row-major position of the element at coordinates `c` of a tensor
/// of shape `s`.
pub open spec fn offset(s: Seq<usize>, c: Seq<int>) -> int
    decreases s.len(),
{
    if s.len() == 0 || c.len() == 0 {
        0
    } else {
        offset(s.drop_last(), c.drop_last()) * (s.last() as int) + c.last()
    }
}

impl<T> Tensor<T> {
    /// The tensor holds as many elements as its shape asks for.
    pub open spec fn wf(&self) -> bool {
        self.data@.len() == numel(self.shape@)
    }
}

/// `x * b + y` stays below `X * b` when `x < X` and `y < b`.
pub proof fn lemma_mixed_radix(x: int, xb: int, y: int, b: int)
    requires
        0 <= x < xb,
        0 <= y < b,
    ensures
        0 <= x * b + y < xb * b,
        x * b + y <= xb * b - 1,
{
    assert(x * b + y < xb * b) by (nonlinear_arith)
        requires
            0 <= x < xb,
            0 <= y < b,
    ;
    assert(0 <= x * b) by (nonlinear_arith)
        requires
            0 <= x,
            0 <= b,
    ;
}

/// Dividing a number below `X * b` by `b` gives a quotient below `X` and a
/// remainder below `b`, and the two give the number back.
pub proof fn lemma_div_mod_radix(k: int, xb: int, b: int)
    requires
        0 <= k < xb * b,
        b > 0,
    ensures
        0 <= k / b < xb,
        0 <= k % b < b,
        k == (k / b) * b + k % b,
{
    assert(0 <= k / b < xb && 0 <= k % b < b && k == (k / b) * b + k % b) by (nonlinear_arith)
        requires
            0 <= k < xb * b,
            b > 0,
    ;
}

/// The number of elements of two shapes laid one after the other is the
/// product of their numbers of elements.
pub proof fn lemma_numel_concat(s1: Seq<usize>, s2: Seq<usize>)
    ensures
        numel(s1 + s2) == numel(s1) * numel(s2),
    decreases s2.len(),
{
    if s2.len() == 0 {
        assert(s1 + s2 =~= s1);
        assert(numel(s2) == 1);
    } else {
        lemma_numel_concat(s1, s2.drop_last());
        assert((s1 + s2).drop_last() =~= s1 + s2.drop_last());
        assert((s1 + s2).last() == s2.last());
        let a = numel(s1);
        let b = numel(s2.drop_last());
        let c = s2.last() as nat;
        assert(numel(s1 + s2) == numel(s1 + s2.drop_last()) * c);
        assert(numel(s2) == b * c);
        assert((a * b) * c == a * (b * c)) by (nonlinear_arith);
    }
}

/// Splitting a shape at `k`: the number of elements is the product of the
/// numbers of elements of the two parts.
pub proof fn lemma_numel_split(s: Seq<usize>, k: int)
    requires
        0 <= k <= s.len(),
    ensures
        numel(s) == numel(s.take(k)) * numel(s.skip(k)),
{
    assert(s =~= s.take(k) + s.skip(k));
    lemma_numel_concat(s.take(k), s.skip(k));
}

pub proof fn lemma_numel_single(d: usize)
    ensures
        numel(seq![d]) == d,
{
    assert(seq![d].drop_last() =~= Seq::<usize>::empty());
    assert(numel(Seq::<usize>::empty()) == 1);
    assert(numel(seq![d]) == numel(seq![d].drop_last()) * (d as nat));
}

/// A shape with a zero extent has no elements.
pub proof fn lemma_numel_zero(s: Seq<usize>, i: int)
    requires
        0 <= i < s.len(),
        s[i] == 0,
    ensures
        numel(s) == 0,
    decreases s.len(),
{
    assert(numel(s) == numel(s.drop_last()) * (s.last() as nat));
    if i == s.len() - 1 {
        assert(s.last() == 0);
    } else {
        lemma_numel_zero(s.drop_last(), i);
        assert(numel(s.drop_last()) == 0);
    }
}

/// The number of elements of a shape without a zero extent is at least each
/// product of a prefix.
pub proof fn lemma_numel_prefix_le(s: Seq<usize>, k: int)
    requires
        0 <= k <= s.len(),
        forall|i: int| 0 <= i < s.len() ==> s[i] > 0,
    ensures
        numel(s.take(k)) <= numel(s),
        numel(s) > 0,
    decreases s.len(),
{
    if s.len() == 0 {
        assert(s.take(k) =~= s);
    } else if k == s.len() {
        assert(s.take(k) =~= s);
        lemma_numel_prefix_le(s.drop_last(), 0);
        let a = numel(s.drop_last());
        let c = s.last() as int;
        assert(a * c > 0) by (nonlinear_arith)
            requires
                a > 0,
                c > 0,
        ;
    } else {
        lemma_numel_prefix_le(s.drop_last(), k);
        assert(s.drop_last().take(k) =~= s.take(k));
        let a = numel(s.drop_last());
        let c = s.last() as int;
        assert(a <= a * c && a * c > 0) by (nonlinear_arith)
            requires
                a > 0,
                c > 0,
        ;
    }
}

/// A shape split around axis `d`: `numel(s) == A * s[d] * I` where `A` is
/// the product of the extents before `d` and `I` of those after it; when the
/// shape has elements, each of `A`, `s[d]` and `I` is positive and at most
/// `numel(s)`.
pub proof fn lemma_numel_around(s: Seq<usize>, d: int)
    requires
        0 <= d < s.len(),
    ensures
        numel(s) == numel(s.take(d)) * (s[d] as nat) * numel(s.skip(d + 1)),
        numel(s) > 0 ==> {
            &&& 0 < numel(s.take(d)) <= numel(s)
            &&& 0 < s[d] <= numel(s)
            &&& 0 < numel(s.skip(d + 1)) <= numel(s)
        },
{
    let x = s.take(d);
    let w = seq![s[d]];
    let z = s.skip(d + 1);
    assert(s =~= x + w + z);
    lemma_numel_concat(x, w);
    lemma_numel_concat(x + w, z);
    lemma_numel_single(s[d]);
    let a = numel(x) as int;
    let b = s[d] as int;
    let c = numel(z) as int;
    if numel(s) > 0 {
        assert(a > 0 && b > 0 && c > 0) by (nonlinear_arith)
            requires
                a >= 0,
                b >= 0,
                c >= 0,
                a * b * c > 0,
        ;
        assert(a <= a * b * c && b <= a * b * c && c <= a * b * c) by (nonlinear_arith)
            requires
                a > 0,
                b > 0,
                c > 0,
        ;
    }
}

/// The product of the extents of `shape[lo..hi]`, when it is known to fit.
pub fn numel_of_range(shape: &Vec<usize>, lo: usize, hi: usize) -> (r: usize)
    requires
        lo <= hi <= shape@.len(),
        numel(shape@.subrange(lo as int, hi as int)) <= usize::MAX,
    ensures
        r == numel(shape@.subrange(lo as int, hi as int)),
{
    let sub = vstd::slice::slice_to_vec(&shape.as_slice()[lo..hi]);
    match checked_numel(&sub) {
        Some(n) => n,
        None => {
            assert(false);
            0
        },
    }
}

/// The product of the non-zero extents of a shape: what must stay within
/// `isize::MAX` for a tensor of that shape to be allowed.
pub open spec fn nonzero_numel(s: Seq<usize>) -> nat
    decreases s.len(),
{
    if s.len() == 0 {
        1
    } else if s.last() == 0 {
        nonzero_numel(s.drop_last())
    } else {
        nonzero_numel(s.drop_last()) * (s.last() as nat)
    }
}

/// The product of the extents of any part of a shape is at most the product
/// of the non-zero extents of the whole shape, which is positive.
pub proof fn lemma_nonzero_numel_bounds(s: Seq<usize>, lo: int, hi: int)
    requires
        0 <= lo <= hi <= s.len(),
    ensures
        numel(s.subrange(lo, hi)) <= nonzero_numel(s),
        nonzero_numel(s.subrange(lo, hi)) <= nonzero_numel(s),
        nonzero_numel(s) >= 1,
    decreases s.len(),
{
    if s.len() == 0 {
        assert(s.subrange(lo, hi) =~= s);
    } else {
        let l = s.len() - 1;
        lemma_nonzero_numel_bounds(s.drop_last(), 0, 0);
        let p = nonzero_numel(s.drop_last());
        let c = s.last() as int;
        if hi == s.len() {
            if lo == hi {
                assert(s.subrange(lo, hi) =~= Seq::<usize>::empty());
                assert(numel(Seq::<usize>::empty()) == 1);
                assert(nonzero_numel(Seq::<usize>::empty()) == 1);
                if c != 0 {
                    assert(p * c >= 1) by (nonlinear_arith)
                        requires
                            p >= 1,
                            c >= 1,
                    ;
                }
            } else {
                lemma_nonzero_numel_bounds(s.drop_last(), lo, hi - 1);
                let sub = s.subrange(lo, hi);
                assert(sub.drop_last() =~= s.drop_last().subrange(lo, hi - 1));
                assert(sub.last() == s.last());
                let x = numel(sub.drop_last()) as int;
                let y = nonzero_numel(sub.drop_last()) as int;
                if c == 0 {
                    assert(numel(sub) == 0);
                } else {
                    assert(x * c <= p * c && y * c <= p * c && p * c >= 1) by (nonlinear_arith)
                        requires
                            x <= p,
                            y <= p,
                            p >= 1,
                            c >= 1,
                            x >= 0,
                            y >= 0,
                    ;
                }
            }
        } else {
            lemma_nonzero_numel_bounds(s.drop_last(), lo, hi);
            assert(s.drop_last().subrange(lo, hi) =~= s.subrange(lo, hi));
            if c != 0 {
                assert(p <= p * c) by (nonlinear_arith)
                    requires
                        p >= 1,
                        c >= 1,
                ;
            }
        }
    }
}

/// Whether the product of the non-zero extents of `shape` stays within
/// `isize::MAX`.
pub fn shape_fits(shape: &Vec<usize>) -> (r: bool)
    ensures
        r == (nonzero_numel(shape@) <= isize::MAX),
{
    let mut n: usize = 1;
    let mut k: usize = 0;
    while k < shape.len()
        invariant
            k <= shape@.len(),
            n == nonzero_numel(shape@.take(k as int)),
            n <= isize::MAX,
        decreases shape@.len() - k,
    {
        assert(shape@.take(k + 1).drop_last() =~= shape@.take(k as int));
        if shape[k] != 0 {
            match n.checked_mul(shape[k]) {
                Some(m) => {
                    if m > isize::MAX as usize {
                        proof {
                            assert(shape@ =~= shape@.take(k + 1) + shape@.skip(k + 1));
                            lemma_nonzero_numel_concat(shape@.take(k + 1), shape@.skip(k + 1));
                            lemma_nonzero_numel_bounds(shape@.skip(k + 1), 0, 0);
                            let x = m as int;
                            let y = nonzero_numel(shape@.skip(k + 1)) as int;
                            assert(x <= x * y) by (nonlinear_arith)
                                requires
                                    x >= 0,
                                    y >= 1,
                            ;
                        }
                        return false;
                    }
                    n = m;
                },
                None => {
                    proof {
                        assert(shape@ =~= shape@.take(k + 1) + shape@.skip(k + 1));
                        lemma_nonzero_numel_concat(shape@.take(k + 1), shape@.skip(k + 1));
                        lemma_nonzero_numel_bounds(shape@.skip(k + 1), 0, 0);
                        let x = (n as int) * (shape@[k as int] as int);
                        let y = nonzero_numel(shape@.skip(k + 1)) as int;
                        assert(x <= x * y) by (nonlinear_arith)
                            requires
                                x >= 0,
                                y >= 1,
                        ;
                    }
                    return false;
                },
            }
        }
        k = k + 1;
    }
    assert(shape@.take(shape@.len() as int) =~= shape@);
    true
}

/// The product of the non-zero extents of two shapes laid one after the
/// other is the product of the two products.
pub proof fn lemma_nonzero_numel_concat(s1: Seq<usize>, s2: Seq<usize>)
    ensures
        nonzero_numel(s1 + s2) == nonzero_numel(s1) * nonzero_numel(s2),
    decreases s2.len(),
{
    if s2.len() == 0 {
        assert(s1 + s2 =~= s1);
        assert(nonzero_numel(s2) == 1);
        assert(nonzero_numel(s1) * 1 == nonzero_numel(s1));
    } else {
        lemma_nonzero_numel_concat(s1, s2.drop_last());
        assert((s1 + s2).drop_last() =~= s1 + s2.drop_last());
        assert((s1 + s2).last() == s2.last());
        let a = nonzero_numel(s1);
        let b = nonzero_numel(s2.drop_last());
        let c = s2.last() as nat;
        if c != 0 {
            assert(nonzero_numel(s1 + s2) == nonzero_numel(s1 + s2.drop_last()) * c);
            assert(nonzero_numel(s2) == b * c);
            assert((a * b) * c == a * (b * c)) by (nonlinear_arith);
        } else {
            assert(nonzero_numel(s1 + s2) == nonzero_numel(s1 + s2.drop_last()));
            assert(nonzero_numel(s2) == b);
        }
    }
}

/// The number of elements of `shape`, when it fits in `usize`.
pub fn checked_numel(shape: &Vec<usize>) -> (r: Option<usize>)
    ensures
        match r {
            Some(n) => n == numel(shape@),
            None => numel(shape@) > usize::MAX,
        },
{
    let mut i: usize = 0;
    while i < shape.len()
        invariant
            i <= shape@.len(),
            forall|j: int| 0 <= j < i ==> shape@[j] != 0,
        decreases shape@.len() - i,
    {
        if shape[i] == 0 {
            proof {
                lemma_numel_zero(shape@, i as int);
            }
            return Some(0);
        }
        i = i + 1;
    }
    let mut n: usize = 1;
    let mut k: usize = 0;
    while k < shape.len()
        invariant
            k <= shape@.len(),
            forall|j: int| 0 <= j < shape@.len() ==> shape@[j] > 0,
            n == numel(shape@.take(k as int)),
        decreases shape@.len() - k,
    {
        assert(shape@.take(k + 1).drop_last() =~= shape@.take(k as int));
        match n.checked_mul(shape[k]) {
            Some(m) => {
                n = m;
            },
            None => {
                proof {
                    lemma_numel_prefix_le(shape@, k + 1);
                }
                return None;
            },
        }
        k = k + 1;
    }
    assert(shape@.take(shape@.len() as int) =~= shape@);
    Some(n)
}

} // verus!
