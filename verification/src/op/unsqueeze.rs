use vstd::prelude::*;
use vstd::relations::{sorted_by, total_ordering};
use vstd::seq_lib::lemma_sorted_unique;

use crate::op::conf::UnsqueezeConf;
use crate::tensor::{lemma_numel_concat, lemma_numel_single, lemma_numel_split, numel, Tensor};

verus! {

/// Inserts axes of extent 1 into the shape of a tensor.
pub struct UnsqueezeLayer {
    pub lconf: UnsqueezeConf,
}

impl UnsqueezeConf {
    pub fn to_layer(self) -> (r: UnsqueezeLayer)
        ensures
            r.lconf == self,
    {
        UnsqueezeLayer { lconf: self }
    }
}

/// The order in which the axes are inserted: from the smallest up.
pub open spec fn axis_order() -> spec_fn(usize, usize) -> bool {
    |a: usize, b: usize| a <= b
}

/// The axes in increasing order.
pub open spec fn sorted_axes(axes: Seq<usize>) -> Seq<usize> {
    axes.sort_by(axis_order())
}

/// The shape after inserting an axis of extent 1 at each position of
/// `positions`, one after the other.
pub open spec fn insert_ones(shape: Seq<usize>, positions: Seq<usize>) -> Seq<usize>
    decreases positions.len(),
{
    if positions.len() == 0 {
        shape
    } else {
        insert_ones(shape, positions.drop_last()).insert(positions.last() as int, 1)
    }
}

/// Each insertion lands within the shape as it stands at that point: the
/// `k`-th position is at most the number of axes plus `k`.
pub open spec fn insertions_fit(ndim: nat, positions: Seq<usize>) -> bool {
    forall|k: int| 0 <= k < positions.len() ==> #[trigger] positions[k] <= ndim + k
}

/// Inserting axes of extent 1 keeps the number of elements, and adds one
/// axis per insertion.
pub proof fn lemma_insert_ones(shape: Seq<usize>, positions: Seq<usize>)
    requires
        insertions_fit(shape.len(), positions),
    ensures
        insert_ones(shape, positions).len() == shape.len() + positions.len(),
        numel(insert_ones(shape, positions)) == numel(shape),
    decreases positions.len(),
{
    if positions.len() > 0 {
        let rest = positions.drop_last();
        assert(insertions_fit(shape.len(), rest)) by {
            assert forall|k: int| 0 <= k < rest.len() implies #[trigger] rest[k] <= shape.len()
                + k by {
                assert(rest[k] == positions[k]);
            }
        }
        lemma_insert_ones(shape, rest);
        let s = insert_ones(shape, rest);
        let p = positions.last() as int;
        assert(positions[positions.len() - 1] <= shape.len() + positions.len() - 1);
        let ins = s.insert(p, 1);
        assert(ins =~= s.take(p) + seq![1usize] + s.skip(p));
        lemma_numel_concat(s.take(p), seq![1usize]);
        lemma_numel_concat(s.take(p) + seq![1usize], s.skip(p));
        lemma_numel_single(1);
        lemma_numel_split(s, p);
    }
}

/// The axes sorted in increasing order.
pub fn sort_axes(axes: &Vec<usize>) -> (r: Vec<usize>)
    ensures
        r@ == sorted_axes(axes@),
{
    broadcast use vstd::seq_lib::group_to_multiset_ensures;

    let mut out: Vec<usize> = Vec::new();
    let mut i: usize = 0;
    while i < axes.len()
        invariant
            i <= axes@.len(),
            sorted_by(out@, axis_order()),
            out@.to_multiset() == axes@.take(i as int).to_multiset(),
        decreases axes@.len() - i,
    {
        let x = axes[i];
        let mut p: usize = 0;
        while p < out.len() && out[p] <= x
            invariant
                p <= out@.len(),
                forall|q: int| 0 <= q < p ==> out@[q] <= x,
            decreases out@.len() - p,
        {
            p = p + 1;
        }
        let ghost before = out@;
        out.insert(p, x);
        proof {
            assert(axes@.take(i + 1) =~= axes@.take(i as int).push(x));
            vstd::seq_lib::to_multiset_insert(before, p as int, x);
            vstd::seq_lib::to_multiset_build(axes@.take(i as int), x);
            assert(out@.to_multiset() == axes@.take(i + 1).to_multiset());
            assert forall|a: int, b: int| 0 <= a < b < out@.len() implies #[trigger] (axis_order())(
                out@[a],
                out@[b],
            ) by {
                assert(sorted_by(before, axis_order()));
                if b < p {
                    assert((axis_order())(before[a], before[b]));
                } else if b == p {
                    assert(before[a] <= x);
                } else if a == p {
                    assert(p < before.len());
                    assert(!(before[p as int] <= x));
                    if b - 1 > p {
                        assert((axis_order())(before[p as int], before[b - 1]));
                    }
                } else if a < p {
                    assert(before[a] <= x);
                    assert(p < before.len());
                    if b - 1 > p {
                        assert((axis_order())(before[p as int], before[b - 1]));
                    }
                    assert(!(before[p as int] <= x));
                } else {
                    assert((axis_order())(before[a - 1], before[b - 1]));
                }
            }
        }
        i = i + 1;
    }
    proof {
        assert(axes@.take(axes@.len() as int) =~= axes@);
        axes@.lemma_sort_by_ensures(axis_order());
        lemma_sorted_unique(out@, sorted_axes(axes@), axis_order());
    }
    out
}

impl UnsqueezeLayer {
    /// Each axis, taken in increasing order, can be inserted.
    pub open spec fn accepts(&self, shape: Seq<usize>) -> bool {
        insertions_fit(shape.len(), sorted_axes(self.lconf.axes@))
    }

    /// Whether the axes can be inserted into a tensor of this shape.
    pub fn admits(&self, shape: &Vec<usize>) -> (r: bool)
        ensures
            r == self.accepts(shape@),
    {
        let axes = sort_axes(&self.lconf.axes);
        let n = shape.len();
        let mut k: usize = 0;
        while k < axes.len()
            invariant
                k <= axes@.len(),
                n == shape@.len(),
                axes@ == sorted_axes(self.lconf.axes@),
                forall|q: int| 0 <= q < k ==> #[trigger] axes@[q] <= n + q,
            decreases axes@.len() - k,
        {
            if axes[k] > n && axes[k] - n > k {
                return false;
            }
            k = k + 1;
        }
        true
    }

    pub fn forward<T: Copy>(&self, input: &Tensor<T>) -> (r: Tensor<T>)
        requires
            input.wf(),
            self.accepts(input.shape@),
        ensures
            r.wf(),
            r.shape@ == insert_ones(input.shape@, sorted_axes(self.lconf.axes@)),
            r.data@ == input.data@,
    {
        let axes = sort_axes(&self.lconf.axes);
        let ghost sorted = axes@;
        let mut shape = vstd::slice::slice_to_vec(input.shape.as_slice());
        let ghost n = input.shape@.len();
        let mut k: usize = 0;
        while k < axes.len()
            invariant
                k <= axes@.len(),
                sorted == axes@,
                n == input.shape@.len(),
                insertions_fit(n, sorted),
                shape@ == insert_ones(input.shape@, sorted.take(k as int)),
                shape@.len() == n + k,
            decreases axes@.len() - k,
        {
            assert(sorted.take(k + 1).drop_last() =~= sorted.take(k as int));
            assert(sorted[k as int] <= n + k);
            shape.insert(axes[k], 1);
            k = k + 1;
        }
        proof {
            assert(sorted.take(k as int) =~= sorted);
            lemma_insert_ones(input.shape@, sorted);
        }
        let data = vstd::slice::slice_to_vec(input.data.as_slice());
        Tensor { shape, data }
    }
}

/// Inserting no axes changes nothing: the shape stays as it is.
pub proof fn law_unsqueeze_no_axes(shape: Seq<usize>)
    ensures
        sorted_axes(Seq::<usize>::empty()) == Seq::<usize>::empty(),
        insert_ones(shape, sorted_axes(Seq::<usize>::empty())) == shape,
{
    broadcast use vstd::seq_lib::group_to_multiset_ensures;

    let e = Seq::<usize>::empty();
    e.lemma_sort_by_ensures(axis_order());
    assert(e.to_multiset().len() == 0);
    assert(sorted_axes(e).len() == 0);
    assert(sorted_axes(e) =~= e);
}

} // verus!
