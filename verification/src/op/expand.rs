use vstd::prelude::*;

use crate::op::conf::ExpandConf;
use crate::tensor::{
    checked_numel, coord, lemma_numel_concat, offset, lemma_div_mod_radix, lemma_mixed_radix, lemma_nonzero_numel_bounds,
    lemma_numel_prefix_le, lemma_numel_zero, nonzero_numel, numel, shape_fits, Tensor,
};

verus! {

/// Repeats a tensor along the axes where it has extent 1, and along new
/// leading axes, to reach a target shape.
pub struct ExpandLayer {
    pub lconf: ExpandConf,
}

/// Why a tensor could not be expanded.
#[derive(Debug, Clone, Copy, PartialEq, Eq, Structural)]
pub enum ExpandError {
    /// The tensor's shape cannot be broadcast to the target shape, or the
    /// target shape is too large to address.
    CannotBroadcast,
}

impl ExpandConf {
    pub fn to_layer(self) -> (r: ExpandLayer)
        ensures
            r.lconf == self,
    {
        ExpandLayer { lconf: self }
    }
}

/// `from` can be broadcast to `to`: it has no more axes, and aligned at the
/// back each of its extents is either the target's extent or 1.
pub open spec fn broadcastable(to: Seq<usize>, from: Seq<usize>) -> bool {
    &&& from.len() <= to.len()
    &&& forall|i: int|
        0 <= i < from.len() ==> #[trigger] from[i] == 1 || from[i] == to[to.len() - from.len()
            + i]
}

/// Where element `t` (row-major) of the broadcast tensor of shape `to` is
/// taken from in the tensor of shape `from`: axes are matched from the back,
/// an axis of extent 1 in `from` always gives index 0, and leading axes of
/// `to` that `from` lacks are dropped.
pub open spec fn broadcast_source(to: Seq<usize>, from: Seq<usize>, t: int) -> int
    decreases from.len(),
{
    if from.len() == 0 || to.len() == 0 {
        0
    } else {
        let n = to.last() as int;
        let e = from.last() as int;
        let here = if e == 1 {
            0
        } else {
            t % n
        };
        broadcast_source(to.drop_last(), from.drop_last(), t / n) * e + here
    }
}

/// Whether `from` can be broadcast to `to`.
pub fn is_broadcastable(to: &Vec<usize>, from: &Vec<usize>) -> (r: bool)
    ensures
        r == broadcastable(to@, from@),
{
    if from.len() > to.len() {
        return false;
    }
    let tl = to.len();
    let off = tl - from.len();
    let mut i: usize = 0;
    while i < from.len()
        invariant
            i <= from@.len(),
            from@.len() <= to@.len(),
            off == to@.len() - from@.len(),
            tl == to@.len(),
            forall|q: int|
                0 <= q < i ==> #[trigger] from@[q] == 1 || from@[q] == to@[to@.len() - from@.len()
                    + q],
        decreases from@.len() - i,
    {
        if from[i] != 1 && from[i] != to[off + i] {
            return false;
        }
        i = i + 1;
    }
    true
}

/// The index in the tensor of shape `from` (its first `inn` axes) of element
/// `t` of the broadcast tensor of shape `to` (its first `tn` axes).
fn source_index(to: &Vec<usize>, tn: usize, from: &Vec<usize>, inn: usize, t: usize) -> (r: usize)
    requires
        inn <= tn <= to@.len(),
        inn <= from@.len(),
        tn - inn == to@.len() - from@.len(),
        broadcastable(to@, from@),
        0 <= t < numel(to@.take(tn as int)),
        numel(from@.take(inn as int)) <= usize::MAX,
    ensures
        r == broadcast_source(to@.take(tn as int), from@.take(inn as int), t as int),
        r < numel(from@.take(inn as int)),
    decreases inn,
{
    let ghost tp = to@.take(tn as int);
    let ghost fp = from@.take(inn as int);
    if inn == 0 {
        assert(numel(fp) == 1);
        return 0;
    }
    assert(tp.drop_last() =~= to@.take(tn - 1));
    assert(fp.drop_last() =~= from@.take(inn - 1));
    assert(tp.last() == to@[tn - 1]);
    assert(fp.last() == from@[inn - 1]);
    let n = to[tn - 1];
    let e = from[inn - 1];
    assert(e == 1 || e == n) by {
        assert(from@[inn - 1] == 1 || from@[inn - 1] == to@[to@.len() - from@.len() + inn - 1]);
    }
    let ghost pt = numel(to@.take(tn - 1)) as int;
    let ghost pf = numel(from@.take(inn - 1)) as int;
    assert(numel(tp) == pt * n);
    assert(numel(fp) == pf * e);
    assert(n > 0 && pt > 0) by (nonlinear_arith)
        requires
            0 <= t < pt * n,
            pt >= 0,
            n >= 0,
    ;
    proof {
        lemma_div_mod_radix(t as int, pt, n as int);
    }
    let k = t % n;
    let rest = t / n;
    assert(pf <= pf * e) by (nonlinear_arith)
        requires
            pf >= 0,
            e >= 1,
    ;
    let sub = source_index(to, tn - 1, from, inn - 1, rest);
    let here = if e == 1 {
        0
    } else {
        k
    };
    proof {
        lemma_mixed_radix(sub as int, pf, here as int, e as int);
    }
    sub * e + here
}

impl ExpandLayer {
    /// The input can be expanded: its shape broadcasts to the target shape,
    /// and the target's non-zero extents multiply to at most `isize::MAX`.
    pub open spec fn accepts(&self, shape: Seq<usize>) -> bool {
        &&& broadcastable(self.lconf.shape@, shape)
        &&& nonzero_numel(self.lconf.shape@) <= isize::MAX
    }

    pub fn forward<T: Copy>(&self, input: &Tensor<T>) -> (r: Result<Tensor<T>, ExpandError>)
        requires
            input.wf(),
        ensures
            r is Ok <==> self.accepts(input.shape@),
            r is Ok ==> {
                let out = r->Ok_0;
                &&& out.wf()
                &&& out.shape@ == self.lconf.shape@
                &&& forall|t: int|
                    0 <= t < out.data@.len() ==> #[trigger] out.data@[t] == input.data@[broadcast_source(
                        self.lconf.shape@,
                        input.shape@,
                        t,
                    )]
            },
    {
        let to = &self.lconf.shape;
        let from = &input.shape;
        if !shape_fits(to) || !is_broadcastable(to, from) {
            return Err(ExpandError::CannotBroadcast);
        }
        proof {
            lemma_nonzero_numel_bounds(to@, 0, to@.len() as int);
            assert(to@.subrange(0, to@.len() as int) =~= to@);
        }
        let count = match checked_numel(to) {
            Some(c) => c,
            None => {
                assert(false);
                0
            },
        };
        let mut data: Vec<T> = Vec::new();
        if count > 0 {
            let tn = to.len();
            let inn = from.len();
            assert(to@.take(tn as int) =~= to@);
            assert(from@.take(inn as int) =~= from@);
            proof {
                assert forall|i: int| 0 <= i < from@.len() implies from@[i] > 0 by {
                    let j = to@.len() - from@.len() + i;
                    if to@[j] == 0 {
                        lemma_numel_zero(to@, j);
                    }
                    assert(from@[i] == 1 || from@[i] == to@[j]);
                }
                lemma_numel_prefix_le(from@, inn as int);
            }
            let total = input.data.len();
            let mut t: usize = 0;
            while t < count
                invariant
                    t <= count,
                    count == numel(to@),
                    tn == to@.len(),
                    inn == from@.len(),
                    to@.take(tn as int) == to@,
                    from@.take(inn as int) == from@,
                    *to == self.lconf.shape,
                    *from == input.shape,
                    broadcastable(to@, from@),
                    numel(from@) == total,
                    total == input.data@.len(),
                    data@.len() == t,
                    forall|u: int|
                        0 <= u < t ==> #[trigger] data@[u] == input.data@[broadcast_source(
                            to@,
                            from@,
                            u,
                        )],
                decreases count - t,
            {
                let src = source_index(to, tn, from, inn, t);
                data.push(input.data[src]);
                t = t + 1;
            }
        }
        let shape = vstd::slice::slice_to_vec(to.as_slice());
        Ok(Tensor { shape, data })
    }
}

/// Expanding a tensor to its own shape changes nothing: the shape can be
/// broadcast to itself, and each element is taken from its own position.
pub proof fn law_expand_to_own_shape(s: Seq<usize>, t: int)
    requires
        0 <= t < numel(s),
    ensures
        broadcastable(s, s),
        broadcast_source(s, s, t) == t,
    decreases s.len(),
{
    if s.len() > 0 {
        let n = s.last() as int;
        let rest = s.drop_last();
        let p = numel(rest) as int;
        assert(numel(s) == p * n);
        assert(n > 0 && p > 0) by (nonlinear_arith)
            requires
                0 <= t < p * n,
                p >= 0,
                n >= 0,
        ;
        lemma_div_mod_radix(t, p, n);
        law_expand_to_own_shape(rest, t / n);
        if n == 1 {
            assert(t / n == t) by (nonlinear_arith)
                requires
                    n == 1,
            ;
        }
    }
}


/// The blocks after axis `j` of a shape are those of the shape without its
/// last axis, times that axis.
proof fn lemma_numel_skip_last(s: Seq<usize>, j: int)
    requires
        0 <= j + 1 < s.len(),
    ensures
        numel(s.skip(j + 1)) == numel(s.drop_last().skip(j + 1)) * (s.last() as nat),
{
    assert(s.skip(j + 1).drop_last() =~= s.drop_last().skip(j + 1));
    assert(s.skip(j + 1).last() == s.last());
}

/// Where an element of a broadcast tensor comes from, by coordinates: the
/// element at coordinates `(i_0, .., i_{m-1})` of the result, `m` the
/// number of target axes, is the input element whose coordinate on input
/// axis `k` is 0 where the input has extent 1, and otherwise the result's
/// coordinate on the matching axis `k + m - from.len()` (axes aligned at the
/// back). So moving along an axis that is broadcast never changes the
/// source.
pub proof fn law_expand_source(to: Seq<usize>, from: Seq<usize>, t: int)
    requires
        broadcastable(to, from),
        0 <= t < numel(to),
    ensures
        broadcast_source(to, from, t) == offset(
            from,
            Seq::new(
                from.len(),
                |k: int|
                    if from[k] == 1 {
                        0
                    } else {
                        coord(to, t, k + to.len() - from.len())
                    },
            ),
        ),
    decreases from.len(),
{
    let m = to.len() as int;
    let f = from.len() as int;
    let c = Seq::new(
        from.len(),
        |k: int|
            if from[k] == 1 {
                0
            } else {
                coord(to, t, k + to.len() - from.len())
            },
    );
    if f == 0 {
        return;
    }
    let to2 = to.drop_last();
    let from2 = from.drop_last();
    let n = to.last() as int;
    let e = from.last() as int;
    assert(numel(to) == numel(to2) * (n as nat));
    assert(n > 0 && numel(to2) > 0) by (nonlinear_arith)
        requires
            0 <= t < numel(to2) * n,
            n >= 0,
    ;
    let t2 = t / n;
    assert(0 <= t2 < numel(to2)) by (nonlinear_arith)
        requires
            0 <= t < numel(to2) * n,
            n > 0,
            t2 == t / n,
    ;
    assert(broadcastable(to2, from2)) by {
        assert forall|i: int| 0 <= i < from2.len() implies #[trigger] from2[i] == 1 || from2[i]
            == to2[to2.len() - from2.len() + i] by {
            assert(from2[i] == from[i]);
            assert(to2[to2.len() - from2.len() + i] == to[to.len() - from.len() + i]);
        }
    }
    law_expand_source(to2, from2, t2);
    let c2 = Seq::new(
        from2.len(),
        |k: int|
            if from2[k] == 1 {
                0
            } else {
                coord(to2, t2, k + to2.len() - from2.len())
            },
    );
    assert forall|k: int| 0 <= k < f - 1 implies #[trigger] c[k] == c2[k] by {
        let j = k + m - f;
        assert(0 <= j < m - 1);
        if from[k] != 1 {
            lemma_numel_skip_last(to, j);
            let a = numel(to2.skip(j + 1)) as int;
            lemma_numel_concat(to2.take(j + 1), to2.skip(j + 1));
            assert(to2.take(j + 1) + to2.skip(j + 1) =~= to2);
            assert(a > 0) by (nonlinear_arith)
                requires
                    numel(to2) == numel(to2.take(j + 1)) * a,
                    numel(to2) > 0,
                    a >= 0,
            ;
            vstd::arithmetic::div_mod::lemma_div_denominator(t, n, a);
            assert(t / (n * a) == t / (a * n)) by (nonlinear_arith);
            assert(to[j] == to2[j]);
        }
    }
    assert(c.drop_last() =~= c2);
    assert(c.last() == (if e == 1 { 0 } else { t % n })) by {
        assert(c.last() == c[f - 1]);
        assert(from[f - 1] == e);
        if e != 1 {
            assert(f - 1 + m - f == m - 1);
            assert(c[f - 1] == coord(to, t, m - 1));
            assert(to.skip(m) =~= Seq::<usize>::empty());
            assert(numel(to.skip(m)) == 1);
            assert(t / 1 == t);
            assert(to[m - 1] == n);
        }
    }
}

} // verus!
