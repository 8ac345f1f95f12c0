//! The order in which the nodes of a graph run, and when each blob can be
//! let go: the decisions of a forward pass, apart from the layers' work.
use vstd::prelude::*;

use crate::graph::{
    consumers, lemma_consumers_count, lemma_occ_pos, lemma_occ_take, nodes_of_kind, occ, GraphPlan,
    NodeKind,
};
use std::collections::{HashMap, HashSet};

verus! {

broadcast use vstd::std_specs::hash::group_hash_axioms;

/// The blobs a node of kind `kind` with output list `outs` writes when it
/// runs: an attribute writes only its first output, an output node none.
pub open spec fn writes(kind: NodeKind, outs: Seq<usize>) -> Seq<usize> {
    match kind {
        NodeKind::Input => outs,
        NodeKind::Attribute => outs.take(1),
        NodeKind::Op => outs,
        NodeKind::Output => Seq::empty(),
    }
}

/// How many of the entries of `s` are not in `p`.
pub open spec fn unproduced(s: Seq<usize>, p: Set<usize>) -> nat
    decreases s.len(),
{
    if s.len() == 0 {
        0
    } else {
        unproduced(s.drop_last(), p) + if p.contains(s.last()) {
            0nat
        } else {
            1nat
        }
    }
}

/// How many reads of blob `b` the first `n` nodes that are not in `done`
/// still make.
pub open spec fn uses(inputs: Seq<Seq<usize>>, done: Set<usize>, n: nat, b: usize) -> nat
    decreases n,
{
    if n == 0 {
        0
    } else {
        let i = (n - 1) as nat;
        uses(inputs, done, i, b) + if done.contains(i as usize) {
            0nat
        } else {
            occ(inputs[i as int], b)
        }
    }
}

/// Telling each of the readers `cs` in turn that one of its inputs is
/// there: a waiting reader counts down, and joins the ready queue when
/// nothing more is missing.
pub open spec fn notify(pending: Map<usize, usize>, ready: Seq<usize>, cs: Seq<usize>) -> (
    Map<usize, usize>,
    Seq<usize>,
)
    decreases cs.len(),
{
    if cs.len() == 0 {
        (pending, ready)
    } else {
        let (p, r) = notify(pending, ready, cs.drop_last());
        let c = cs.last();
        if p.contains_key(c) {
            let v = (p[c] - 1) as usize;
            (
                p.insert(c, v),
                if v == 0 {
                    r.push(c)
                } else {
                    r
                },
            )
        } else {
            (p, r)
        }
    }
}

/// Counting down the remaining reads of each of the blobs `bs` in turn; a
/// stored blob whose last read this was is let go.
pub open spec fn consume(remaining: Map<usize, usize>, stored: Set<usize>, bs: Seq<usize>) -> (
    Map<usize, usize>,
    Set<usize>,
    Seq<usize>,
)
    decreases bs.len(),
{
    if bs.len() == 0 {
        (remaining, stored, Seq::empty())
    } else {
        let (m, s, rel) = consume(remaining, stored, bs.drop_last());
        let b = bs.last();
        if m.contains_key(b) {
            let v = (m[b] - 1) as usize;
            if v == 0 && s.contains(b) {
                (m.insert(b, v), s.remove(b), rel.push(b))
            } else {
                (m.insert(b, v), s, rel)
            }
        } else {
            (m, s, rel)
        }
    }
}

/// No entry of `s` occurs twice.
pub open spec fn distinct(s: Seq<usize>) -> bool {
    forall|i: int, j: int| 0 <= i < j < s.len() ==> s[i] != s[j]
}

pub proof fn lemma_unproduced_empty(s: Seq<usize>)
    ensures
        unproduced(s, Set::empty()) == s.len(),
    decreases s.len(),
{
    if s.len() > 0 {
        lemma_unproduced_empty(s.drop_last());
    }
}

/// Producing a blob that was missing leaves as many entries missing as
/// there were, less the entries that name it.
pub proof fn lemma_unproduced_insert(s: Seq<usize>, p: Set<usize>, b: usize)
    requires
        !p.contains(b),
    ensures
        unproduced(s, p) >= occ(s, b),
        unproduced(s, p.insert(b)) == unproduced(s, p) - occ(s, b),
    decreases s.len(),
{
    if s.len() > 0 {
        lemma_unproduced_insert(s.drop_last(), p, b);
    }
}

/// When nothing is missing, every entry is there.
pub proof fn lemma_unproduced_zero(s: Seq<usize>, p: Set<usize>)
    requires
        unproduced(s, p) == 0,
    ensures
        forall|k: int| 0 <= k < s.len() ==> p.contains(#[trigger] s[k]),
    decreases s.len(),
{
    if s.len() > 0 {
        lemma_unproduced_zero(s.drop_last(), p);
        assert forall|k: int| 0 <= k < s.len() implies p.contains(#[trigger] s[k]) by {
            if k < s.len() - 1 {
                assert(s[k] == s.drop_last()[k]);
            }
        }
    }
}

/// When every entry is there, nothing is missing.
pub proof fn lemma_unproduced_all(s: Seq<usize>, p: Set<usize>)
    requires
        forall|k: int| 0 <= k < s.len() ==> p.contains(#[trigger] s[k]),
    ensures
        unproduced(s, p) == 0,
    decreases s.len(),
{
    if s.len() > 0 {
        assert forall|k: int| 0 <= k < s.drop_last().len() implies p.contains(
            #[trigger] s.drop_last()[k],
        ) by {
            assert(s.drop_last()[k] == s[k]);
        }
        lemma_unproduced_all(s.drop_last(), p);
    }
}

/// Counting the reads of every node is counting the readers.
pub proof fn lemma_uses_consumers(inputs: Seq<Seq<usize>>, n: nat, b: usize)
    requires
        n <= usize::MAX + 1,
    ensures
        uses(inputs, Set::empty(), n, b) == consumers(inputs, n, b).len(),
    decreases n,
{
    if n > 0 {
        lemma_uses_consumers(inputs, (n - 1) as nat, b);
    }
}

/// The reads left by node `c` are among the reads left; once it is done,
/// they are no longer counted.
pub proof fn lemma_uses_done(inputs: Seq<Seq<usize>>, done: Set<usize>, n: nat, b: usize, c: usize)
    requires
        c < n <= usize::MAX + 1,
        !done.contains(c),
    ensures
        uses(inputs, done, n, b) >= occ(inputs[c as int], b),
        uses(inputs, done.insert(c), n, b) == uses(inputs, done, n, b) - occ(inputs[c as int], b),
    decreases n,
{
    let i = (n - 1) as nat;
    if i == c {
        lemma_uses_same(inputs, done, done.insert(c), i, b);
    } else {
        lemma_uses_done(inputs, done, i, b, c);
        assert((i as usize == c) == (i == c));
    }
}

/// Sets of done nodes that agree on the first `n` nodes leave the same
/// reads.
pub proof fn lemma_uses_same(inputs: Seq<Seq<usize>>, d1: Set<usize>, d2: Set<usize>, n: nat, b: usize)
    requires
        n <= usize::MAX + 1,
        forall|c: usize| c < n ==> (d1.contains(c) <==> d2.contains(c)),
    ensures
        uses(inputs, d1, n, b) == uses(inputs, d2, n, b),
    decreases n,
{
    if n > 0 {
        lemma_uses_same(inputs, d1, d2, (n - 1) as nat, b);
    }
}

/// What telling the readers `cs` does: each waiting reader counts down by
/// the number of times it is told, and the readers that reach zero are
/// queued once each, after what was queued.
pub proof fn lemma_notify(pending: Map<usize, usize>, ready: Seq<usize>, cs: Seq<usize>)
    requires
        forall|c: usize| #[trigger] pending.contains_key(c) ==> occ(cs, c) <= pending[c],
    ensures
        ({
            let (p, r) = notify(pending, ready, cs);
            &&& p.dom() == pending.dom()
            &&& forall|c: usize| #[trigger] p.contains_key(c) ==> p[c] == pending[c] - occ(cs, c)
            &&& r.len() >= ready.len()
            &&& r.take(ready.len() as int) == ready
            &&& forall|k: int|
                ready.len() <= k < r.len() ==> {
                    &&& pending.contains_key(#[trigger] r[k])
                    &&& pending[r[k]] > 0
                    &&& p[r[k]] == 0
                }
            &&& forall|k1: int, k2: int|
                ready.len() <= k1 < k2 < r.len() ==> #[trigger] r[k1] != #[trigger] r[k2]
            &&& forall|c: usize|
                #[trigger] pending.contains_key(c) && pending[c] > 0 && p[c] == 0 ==> exists|k: int|
                    ready.len() <= k < r.len() && r[k] == c
        }),
    decreases cs.len(),
{
    if cs.len() > 0 {
        let rest = cs.drop_last();
        let c = cs.last();
        assert forall|x: usize| #[trigger] pending.contains_key(x) implies occ(rest, x)
            <= pending[x] by {
            assert(occ(cs, x) == occ(rest, x) + if c == x {
                1nat
            } else {
                0nat
            });
        }
        lemma_notify(pending, ready, rest);
        let (p, r) = notify(pending, ready, rest);
        assert(occ(cs, c) == occ(rest, c) + 1);
        if p.contains_key(c) {
            let v = (p[c] - 1) as usize;
            let p2 = p.insert(c, v);
            let r2 = if v == 0 {
                r.push(c)
            } else {
                r
            };
            assert(notify(pending, ready, cs) == (p2, r2));
            assert(p2.dom() =~= pending.dom());
            if v == 0 {
                assert(r2.take(ready.len() as int) =~= r.take(ready.len() as int));
                assert forall|k1: int, k2: int|
                    ready.len() <= k1 < k2 < r2.len() implies #[trigger] r2[k1] != #[trigger] r2[k2] by {
                    if k2 == r2.len() - 1 {
                        assert(p[r[k1]] == 0);
                    }
                }
            }
            assert forall|x: usize|
                #[trigger] pending.contains_key(x) && pending[x] > 0 && p2[x] == 0 implies exists|k: int|
                    ready.len() <= k < r2.len() && r2[k] == x by {
                if x == c && v == 0 {
                    assert(r2[r2.len() - 1] == x);
                } else {
                    assert(p[x] == 0);
                    let k = choose|k: int| ready.len() <= k < r.len() && r[k] == x;
                    assert(r2[k] == x);
                }
            }
        }
    }
}

/// What counting down the reads `bs` does: each blob counts down by the
/// number of times it is read, and the blobs let go are those stored
/// whose count reaches zero, once each.
pub proof fn lemma_consume(remaining: Map<usize, usize>, stored: Set<usize>, bs: Seq<usize>)
    requires
        forall|b: usize| #[trigger] remaining.contains_key(b) ==> occ(bs, b) <= remaining[b],
    ensures
        ({
            let (m, s, rel) = consume(remaining, stored, bs);
            &&& m.dom() == remaining.dom()
            &&& forall|b: usize| #[trigger] m.contains_key(b) ==> m[b] == remaining[b] - occ(bs, b)
            &&& forall|b: usize|
                #[trigger] s.contains(b) <==> stored.contains(b) && !(remaining.contains_key(b) && m[b]
                    == 0 && occ(bs, b) > 0)
        }),
    decreases bs.len(),
{
    if bs.len() > 0 {
        let rest = bs.drop_last();
        let b0 = bs.last();
        assert forall|x: usize| #[trigger] remaining.contains_key(x) implies occ(rest, x)
            <= remaining[x] by {
            assert(occ(bs, x) == occ(rest, x) + if b0 == x {
                1nat
            } else {
                0nat
            });
        }
        lemma_consume(remaining, stored, rest);
        let (m, s, rel) = consume(remaining, stored, rest);
        assert(occ(bs, b0) == occ(rest, b0) + 1);
        if m.contains_key(b0) {
            let v = (m[b0] - 1) as usize;
            let m2 = m.insert(b0, v);
            assert(m2.dom() =~= remaining.dom());
            if v == 0 && s.contains(b0) {
                assert(consume(remaining, stored, bs) == (m2, s.remove(b0), rel.push(b0)));
            } else {
                assert(consume(remaining, stored, bs) == (m2, s, rel));
            }
        }
    }
}

/// The nodes of a kind are nodes of that kind, in increasing order, and
/// every node of that kind is among them.
pub proof fn lemma_nodes_of_kind(kinds: Seq<NodeKind>, n: nat, kind: NodeKind)
    requires
        n <= kinds.len(),
        n <= usize::MAX + 1,
    ensures
        forall|k: int|
            0 <= k < nodes_of_kind(kinds, n, kind).len() ==> {
                &&& #[trigger] nodes_of_kind(kinds, n, kind)[k] < n
                &&& kinds[nodes_of_kind(kinds, n, kind)[k] as int] == kind
            },
        forall|k1: int, k2: int|
            0 <= k1 < k2 < nodes_of_kind(kinds, n, kind).len() ==> #[trigger] nodes_of_kind(
                kinds,
                n,
                kind,
            )[k1] < #[trigger] nodes_of_kind(kinds, n, kind)[k2],
        forall|c: usize| c < n && kinds[c as int] == kind ==> nodes_of_kind(kinds, n, kind).contains(c),
    decreases n,
{
    if n > 0 {
        let i = (n - 1) as nat;
        lemma_nodes_of_kind(kinds, i, kind);
        let prev = nodes_of_kind(kinds, i, kind);
        if kinds[i as int] == kind {
            let cur = prev.push(i as usize);
            assert(nodes_of_kind(kinds, n, kind) == cur);
            assert forall|c: usize| c < n && kinds[c as int] == kind implies cur.contains(c) by {
                if c == i {
                    assert(cur[cur.len() - 1] == c);
                } else {
                    let k = choose|k: int| 0 <= k < prev.len() && prev[k] == c;
                    assert(cur[k] == c);
                }
            }
        } else {
            assert forall|c: usize| c < n && kinds[c as int] == kind implies prev.contains(c) by {
                assert(c != i);
            }
        }
    }
}


/// The blobs node `i` of the plan writes when it runs.
pub open spec fn writes_of(plan: &GraphPlan, i: int) -> Seq<usize> {
    writes(plan.kinds@[i], plan.outputs@[i]@)
}

/// No blob that some node reads is written twice: not by two nodes, nor
/// twice by one node. A blob that nobody reads may be written again; the
/// later write replaces the earlier one.
pub open spec fn single_writers(plan: &GraphPlan) -> bool {
    forall|i: int, j: int, k: int, l: int|
        #![trigger writes_of(plan, i)[k], writes_of(plan, j)[l]]
        0 <= i < plan.len() && 0 <= j < plan.len() && 0 <= k < writes_of(plan, i).len() && 0 <= l
            < writes_of(plan, j).len() && (i != j || k != l) && writes_of(plan, i)[k] == writes_of(
            plan,
            j,
        )[l] ==> !plan.consumed_by@.contains_key(writes_of(plan, i)[k])
}

/// The plan can be run: it is well formed, every blob that is read has one
/// writer, and
/// every attribute node has an output to write its tensor to.
pub open spec fn runnable(plan: &GraphPlan) -> bool {
    &&& plan.wf()
    &&& single_writers(plan)
    &&& forall|i: int|
        0 <= i < plan.len() && plan.kinds@[i] == NodeKind::Attribute ==> #[trigger] plan.outputs@[i]@.len()
            >= 1
}

/// The blobs written by the nodes in `fired`.
pub open spec fn written_by(plan: &GraphPlan, fired: Set<usize>) -> Set<usize> {
    Set::new(
        |b: usize|
            exists|i: int, k: int|
                #![trigger writes_of(plan, i)[k], fired.contains(i as usize)]
                0 <= i < plan.len() && fired.contains(i as usize) && 0 <= k < writes_of(plan, i).len()
                    && writes_of(plan, i)[k] == b,
    )
}

/// The first `k` blobs node `i` writes.
pub open spec fn written_prefix(plan: &GraphPlan, i: int, k: int) -> Set<usize> {
    Set::new(|b: usize| exists|l: int| 0 <= l < k && #[trigger] writes_of(plan, i)[l] == b)
}

/// Telling, for each blob of `bs` in turn, the readers of that blob.
pub open spec fn notify_blobs(
    cb: Map<usize, Vec<usize>>,
    pending: Map<usize, usize>,
    ready: Seq<usize>,
    bs: Seq<usize>,
) -> (Map<usize, usize>, Seq<usize>)
    decreases bs.len(),
{
    if bs.len() == 0 {
        (pending, ready)
    } else {
        let (p, r) = notify_blobs(cb, pending, ready, bs.drop_last());
        let b = bs.last();
        if cb.contains_key(b) {
            notify(p, r, cb[b]@)
        } else {
            (p, r)
        }
    }
}

/// The blobs read by the nodes `nodes`, one list after the other.
pub open spec fn reads_of(inputs: Seq<Seq<usize>>, nodes: Seq<usize>) -> Seq<usize>
    decreases nodes.len(),
{
    if nodes.len() == 0 {
        Seq::empty()
    } else {
        reads_of(inputs, nodes.drop_last()) + inputs[nodes.last() as int]
    }
}

/// The entries of `bs` that are in `s`, in order.
pub open spec fn kept(bs: Seq<usize>, s: Set<usize>) -> Seq<usize>
    decreases bs.len(),
{
    if bs.len() == 0 {
        Seq::empty()
    } else if s.contains(bs.last()) {
        kept(bs.drop_last(), s).push(bs.last())
    } else {
        kept(bs.drop_last(), s)
    }
}

/// What the engine does next.
#[derive(Debug, Clone, PartialEq, Eq)]
pub enum Step {
    /// No node is ready: the pass is over.
    Done,
    /// An output node: the blobs it reads are results.
    Collect { node: usize },
    /// Run the layer of `node` on the blobs it reads; after reading them,
    /// let go of the blobs in `release`, which no later node reads.
    Run { node: usize, release: Vec<usize> },
}

/// The state of a forward pass: how many inputs each node still waits
/// for, how many reads each blob still has ahead, which blobs are held,
/// which nodes are ready to run, and which have run.
pub struct Scheduler {
    pub pending: HashMap<usize, usize>,
    pub remaining: HashMap<usize, usize>,
    pub stored: HashSet<usize>,
    pub ready: Vec<usize>,
    pub computed: HashSet<usize>,
    /// The layer node handed out and not yet completed.
    pub running: Option<usize>,
    /// The blobs written so far.
    pub produced: Ghost<Set<usize>>,
}

/// Node `c` waits for its inputs: it is a layer or an output node.
pub open spec fn waits(plan: &GraphPlan, c: usize) -> bool {
    &&& c < plan.len()
    &&& (plan.kinds@[c as int] == NodeKind::Op || plan.kinds@[c as int] == NodeKind::Output)
}

impl Scheduler {
    /// The layer nodes that have run.
    pub open spec fn done_ops(&self, plan: &GraphPlan) -> Set<usize> {
        Set::new(
            |c: usize|
                self.computed@.contains(c) && c < plan.len() && plan.kinds@[c as int] == NodeKind::Op,
        )
    }

    /// The nodes whose blobs have been written: the input and attribute
    /// nodes, and the layer nodes that have run and completed.
    pub open spec fn fired(&self, plan: &GraphPlan) -> Set<usize> {
        Set::new(
            |c: usize|
                c < plan.len() && (plan.kinds@[c as int] == NodeKind::Input || plan.kinds@[c as int]
                    == NodeKind::Attribute || (plan.kinds@[c as int] == NodeKind::Op
                    && self.computed@.contains(c) && self.running != Some(c))),
        )
    }

    /// What holds of the state at every step but the last of writing a
    /// node's blobs.
    pub open spec fn inv_core(&self, plan: &GraphPlan) -> bool {
        let iv = plan.inputs_view();
        let n = plan.len();
        let p = self.produced@;
        &&& forall|c: usize| #[trigger] self.pending@.contains_key(c) <==> waits(plan, c)
        &&& forall|c: usize|
            #[trigger] self.pending@.contains_key(c) ==> self.pending@[c] == unproduced(
                iv[c as int],
                p,
            )
        &&& forall|b: usize|
            #[trigger] self.remaining@.contains_key(b) <==> plan.consumed_by@.contains_key(b)
        &&& forall|b: usize|
            #[trigger] self.remaining@.contains_key(b) ==> self.remaining@[b] == uses(
                iv,
                self.done_ops(plan),
                n,
                b,
            )
        &&& forall|b: usize|
            #[trigger] p.contains(b) && !(self.remaining@.contains_key(b) && self.remaining@[b] == 0)
                ==> self.stored@.contains(b)
        &&& distinct(self.ready@)
        &&& forall|k: int|
            0 <= k < self.ready@.len() ==> {
                &&& self.pending@.contains_key(#[trigger] self.ready@[k])
                &&& self.pending@[self.ready@[k]] == 0
                &&& !self.computed@.contains(self.ready@[k])
            }
        &&& forall|c: usize|
            #[trigger] self.computed@.contains(c) ==> self.pending@.contains_key(c)
                && self.pending@[c] == 0
        &&& forall|c: usize|
            #[trigger] self.pending@.contains_key(c) && self.pending@[c] == 0
                && plan.inputs@[c as int]@.len() > 0 && !self.computed@.contains(c)
                ==> self.ready@.contains(c)
        &&& match self.running {
            Some(r) => self.computed@.contains(r) && r < n && plan.kinds@[r as int] == NodeKind::Op,
            None => true,
        }
    }

    /// The state of a forward pass over `plan`.
    pub open spec fn inv(&self, plan: &GraphPlan) -> bool {
        &&& self.inv_core(plan)
        &&& self.produced@ == written_by(plan, self.fired(plan))
    }
}

impl Scheduler {
    /// Blob `b` is written: it is held, and its readers are told.
    fn produce(&mut self, plan: &GraphPlan, b: usize)
        requires
            old(self).inv_core(plan),
            plan.wf(),
            !old(self).produced@.contains(b) || !plan.consumed_by@.contains_key(b),
        ensures
            final(self).inv_core(plan),
            final(self).produced@ == old(self).produced@.insert(b),
            final(self).stored@ == old(self).stored@.insert(b),
            (final(self).pending@, final(self).ready@) == (if plan.consumed_by@.contains_key(b) {
                notify(old(self).pending@, old(self).ready@, plan.consumed_by@[b]@)
            } else {
                (old(self).pending@, old(self).ready@)
            }),
            final(self).remaining@ == old(self).remaining@,
            final(self).computed@ == old(self).computed@,
            final(self).running == old(self).running,
    {
        let ghost iv = plan.inputs_view();
        let ghost n = plan.len();
        let ghost p0 = self.pending@;
        let ghost r0 = self.ready@;
        let ghost old_produced = self.produced@;
        let ghost cs = consumers(iv, n, b);
        proof {
            assert forall|c: usize| #[trigger] p0.contains_key(c) implies occ(cs, c) <= p0[c]
                && p0[c] - occ(cs, c) == unproduced(iv[c as int], old_produced.insert(b)) by {
                lemma_consumers_count(iv, n, b, c);
                if old_produced.contains(b) {
                    assert(old_produced.insert(b) =~= old_produced);
                    assert(cs.len() == 0);
                } else {
                    lemma_unproduced_insert(iv[c as int], old_produced, b);
                }
            }
            lemma_notify(p0, r0, cs);
        }
        self.stored.insert(b);
        self.produced = Ghost(self.produced@.insert(b));
        let ghost st1 = self.stored@;
        let ghost pr1 = self.produced@;
        let ghost cm1 = self.computed@;
        let ghost rm1 = self.remaining@;
        let ghost rn1 = self.running;
        match plan.consumed_by.get(&b) {
            Some(list) => {
                assert(list@ == cs);
                let mut k: usize = 0;
                while k < list.len()
                    invariant
                        k <= list@.len(),
                        list@ == cs,
                        (self.pending@, self.ready@) == notify(p0, r0, cs.take(k as int)),
                        self.stored@ == st1,
                        self.produced@ == pr1,
                        self.computed@ == cm1,
                        self.remaining@ == rm1,
                        self.running == rn1,
                        forall|c: usize| #[trigger] p0.contains_key(c) ==> occ(cs, c) <= p0[c],
                    decreases list@.len() - k,
                {
                    let c = list[k];
                    proof {
                        assert(cs.take(k + 1).drop_last() =~= cs.take(k as int));
                        assert(cs.take(k + 1).last() == c);
                        assert forall|x: usize| #[trigger] p0.contains_key(x) implies occ(
                            cs.take(k + 1),
                            x,
                        ) <= p0[x] by {
                            assert(cs =~= cs.take(k + 1) + cs.skip(k + 1));
                            crate::graph::lemma_occ_concat(cs.take(k + 1), cs.skip(k + 1), x);
                        }
                        lemma_notify(p0, r0, cs.take(k as int));
                        lemma_occ_take(cs, k as int, c);
                    }
                    match self.pending.get(&c) {
                        Some(v) => {
                            let v = *v;
                            let nv = v - 1;
                            self.pending.insert(c, nv);
                            if nv == 0 {
                                self.ready.push(c);
                            }
                        },
                        None => {},
                    }
                    k = k + 1;
                }
                assert(cs.take(cs.len() as int) =~= cs);
            },
            None => {
                proof {
                    assert forall|c: usize| #[trigger] p0.contains_key(c) implies occ(cs, c) == 0 by {
                        assert(cs.len() == 0);
                    }
                }
            },
        }
        proof {
            let (p, r) = notify(p0, r0, cs);
            if plan.consumed_by@.contains_key(b) {
                assert(self.pending@ == p && self.ready@ == r);
            } else {
                assert(cs.len() == 0);
                assert(cs =~= Seq::<usize>::empty());
                assert(p == p0 && r == r0);
            }
            let pn = self.pending@;
            let rn = self.ready@;
            assert forall|c: usize| #[trigger] pn.contains_key(c) implies pn[c] == unproduced(
                iv[c as int],
                self.produced@,
            ) by {
                assert(p.contains_key(c));
                assert(p[c] == p0[c] - occ(cs, c));
                assert(p0.contains_key(c));
            }
            assert forall|k: int| 0 <= k < rn.len() implies {
                &&& pn.contains_key(#[trigger] rn[k])
                &&& pn[rn[k]] == 0
                &&& !self.computed@.contains(rn[k])
            } by {
                assert(rn[k] == r[k]);
                if k < r0.len() {
                    assert(rn[k] == rn.take(r0.len() as int)[k]);
                    assert(rn[k] == r0[k]);
                    let c = rn[k];
                    assert(p0.contains_key(c) && p0[c] == 0);
                    assert(p.contains_key(c));
                    assert(p[c] == p0[c] - occ(cs, c));
                } else {
                    let c = rn[k];
                    assert(p0.contains_key(c) && p0[c] > 0 && p[c] == 0);
                    if self.computed@.contains(c) {
                        assert(p0[c] == 0);
                    }
                }
            }
            assert forall|i: int, j: int| 0 <= i < j < rn.len() implies rn[i] != rn[j] by {
                if j < r0.len() {
                    assert(rn[i] == rn.take(r0.len() as int)[i]);
                    assert(rn[j] == rn.take(r0.len() as int)[j]);
                } else if i < r0.len() {
                    assert(rn[i] == rn.take(r0.len() as int)[i]);
                    assert(p0[rn[i]] == 0);
                    assert(rn[j] == r[j]);
                    assert(p0[rn[j]] > 0);
                }
            }
            assert forall|c: usize| #[trigger] self.computed@.contains(c) implies pn.contains_key(c)
                && pn[c] == 0 by {
                assert(p0.contains_key(c));
                assert(p.contains_key(c));
                assert(p[c] == p0[c] - occ(cs, c));
            }
            assert forall|x: usize| #[trigger] self.produced@.contains(x) && !(
            self.remaining@.contains_key(x) && self.remaining@[x] == 0) implies self.stored@.contains(
                x,
            ) by {
                if x != b {
                    assert(old_produced.contains(x));
                }
            }
        }
    }
}

/// The first output of each of the nodes, in order.
pub open spec fn firsts_of(outputs: Seq<Seq<usize>>, nodes: Seq<usize>) -> Seq<usize>
    decreases nodes.len(),
{
    if nodes.len() == 0 {
        Seq::empty()
    } else {
        firsts_of(outputs, nodes.drop_last()).push(outputs[nodes.last() as int][0])
    }
}

/// The blobs written before any layer runs: the outputs of the input
/// nodes, then the first output of each attribute node.
pub open spec fn initial_writes(plan: &GraphPlan) -> Seq<usize> {
    reads_of(plan.outputs_view(), plan.input_nodes@) + firsts_of(
        plan.outputs_view(),
        plan.attribute_nodes@,
    )
}

/// Before anything is written, each waiting node waits for all its reads.
pub open spec fn initial_pending(plan: &GraphPlan) -> Map<usize, usize> {
    Map::new(|c: usize| waits(plan, c), |c: usize| plan.inputs@[c as int]@.len() as usize)
}

/// Before any layer runs, each read blob has all its reads ahead.
pub open spec fn initial_remaining(plan: &GraphPlan) -> Map<usize, usize> {
    Map::new(
        |b: usize| plan.consumed_by@.contains_key(b),
        |b: usize| plan.consumed_by@[b]@.len() as usize,
    )
}

/// A blob a node writes that some node reads is not among those already
/// written by other nodes, nor among those it wrote before.
pub proof fn lemma_fresh_write(plan: &GraphPlan, f: Set<usize>, i: int, k: int)
    requires
        single_writers(plan),
        plan.len() <= usize::MAX,
        0 <= i < plan.len(),
        !f.contains(i as usize),
        0 <= k < writes_of(plan, i).len(),
        plan.consumed_by@.contains_key(writes_of(plan, i)[k]),
    ensures
        !written_by(plan, f).contains(writes_of(plan, i)[k]),
        !written_prefix(plan, i, k).contains(writes_of(plan, i)[k]),
{
    let b = writes_of(plan, i)[k];
    if written_by(plan, f).contains(b) {
        let (j, l) = choose|j: int, l: int|
            #![trigger writes_of(plan, j)[l], f.contains(j as usize)]
            0 <= j < plan.len() && f.contains(j as usize) && 0 <= l < writes_of(plan, j).len()
                && writes_of(plan, j)[l] == b;
        assert(j != i);
        assert(writes_of(plan, i)[k] != writes_of(plan, j)[l]);
    }
    if written_prefix(plan, i, k).contains(b) {
        let l = choose|l: int| 0 <= l < k && #[trigger] writes_of(plan, i)[l] == b;
        assert(writes_of(plan, i)[k] != writes_of(plan, i)[l]);
    }
}

/// Writing the next blob of a node adds it to what the node wrote.
pub proof fn lemma_written_prefix_step(plan: &GraphPlan, i: int, k: int)
    requires
        0 <= k < writes_of(plan, i).len(),
    ensures
        written_prefix(plan, i, k + 1) == written_prefix(plan, i, k).insert(writes_of(plan, i)[k]),
{
    assert(written_prefix(plan, i, k + 1) =~= written_prefix(plan, i, k).insert(
        writes_of(plan, i)[k],
    ));
}

/// What a set of nodes and one more node write.
pub proof fn lemma_written_by_insert(plan: &GraphPlan, f: Set<usize>, i: int)
    requires
        0 <= i < plan.len() <= usize::MAX,
    ensures
        written_by(plan, f.insert(i as usize)) == written_by(plan, f) + written_prefix(
            plan,
            i,
            writes_of(plan, i).len() as int,
        ),
{
    let lhs = written_by(plan, f.insert(i as usize));
    let rhs = written_by(plan, f) + written_prefix(plan, i, writes_of(plan, i).len() as int);
    assert forall|b: usize| lhs.contains(b) <==> rhs.contains(b) by {
        if lhs.contains(b) {
            let (j, l) = choose|j: int, l: int|
                #![trigger writes_of(plan, j)[l], f.insert(i as usize).contains(j as usize)]
                0 <= j < plan.len() && f.insert(i as usize).contains(j as usize) && 0 <= l
                    < writes_of(plan, j).len() && writes_of(plan, j)[l] == b;
            if j != i {
                assert(f.contains(j as usize));
                assert(written_by(plan, f).contains(b));
            } else {
                assert(written_prefix(plan, i, writes_of(plan, i).len() as int).contains(b));
            }
        }
        if rhs.contains(b) {
            if written_by(plan, f).contains(b) {
                let (j, l) = choose|j: int, l: int|
                    #![trigger writes_of(plan, j)[l], f.contains(j as usize)]
                    0 <= j < plan.len() && f.contains(j as usize) && 0 <= l < writes_of(plan, j).len()
                        && writes_of(plan, j)[l] == b;
                assert(f.insert(i as usize).contains(j as usize));
            } else {
                let l = choose|l: int|
                    0 <= l < writes_of(plan, i).len() && #[trigger] writes_of(plan, i)[l] == b;
                assert(f.insert(i as usize).contains(i as usize));
            }
        }
    }
    assert(lhs =~= rhs);
}

/// Sets of nodes that agree on the nodes of the plan write the same blobs.
pub proof fn lemma_written_by_same(plan: &GraphPlan, f1: Set<usize>, f2: Set<usize>)
    requires
        plan.len() <= usize::MAX,
        forall|c: usize| c < plan.len() ==> (f1.contains(c) <==> f2.contains(c)),
    ensures
        written_by(plan, f1) == written_by(plan, f2),
{
    assert forall|b: usize| written_by(plan, f1).contains(b) <==> written_by(plan, f2).contains(b) by {
        if written_by(plan, f1).contains(b) {
            let (j, l) = choose|j: int, l: int|
                #![trigger writes_of(plan, j)[l], f1.contains(j as usize)]
                0 <= j < plan.len() && f1.contains(j as usize) && 0 <= l < writes_of(plan, j).len()
                    && writes_of(plan, j)[l] == b;
            assert(f2.contains(j as usize));
        }
        if written_by(plan, f2).contains(b) {
            let (j, l) = choose|j: int, l: int|
                #![trigger writes_of(plan, j)[l], f2.contains(j as usize)]
                0 <= j < plan.len() && f2.contains(j as usize) && 0 <= l < writes_of(plan, j).len()
                    && writes_of(plan, j)[l] == b;
            assert(f1.contains(j as usize));
        }
    }
    assert(written_by(plan, f1) =~= written_by(plan, f2));
}

impl Scheduler {
    /// The state before any layer runs: the counters are set, and the
    /// tensors of the input nodes and of the attribute nodes are written.
    pub fn new(plan: &GraphPlan) -> (r: Scheduler)
        requires
            runnable(plan),
        ensures
            r.inv(plan),
            r.running is None,
            r.computed@ == Set::<usize>::empty(),
            r.remaining@ == initial_remaining(plan),
            r.stored@ == r.produced@,
            (r.pending@, r.ready@) == notify_blobs(
                plan.consumed_by@,
                initial_pending(plan),
                Seq::empty(),
                initial_writes(plan),
            ),
    {
        let n = plan.kinds.len();
        let ghost iv = plan.inputs_view();
        let ghost ov = plan.outputs_view();
        let ghost cb = plan.consumed_by@;
        let mut pending: HashMap<usize, usize> = HashMap::new();
        let mut c: usize = 0;
        while c < n
            invariant
                c <= n,
                n == plan.len(),
                runnable(plan),
                forall|x: usize| #[trigger] pending@.contains_key(x) <==> (x < c && waits(plan, x)),
                forall|x: usize|
                    #[trigger] pending@.contains_key(x) ==> pending@[x] == plan.inputs@[x as int]@.len(),
            decreases n - c,
        {
            match plan.kinds[c] {
                NodeKind::Op | NodeKind::Output => {
                    pending.insert(c, plan.inputs[c].len());
                },
                _ => {},
            }
            c = c + 1;
        }
        assert(pending@ =~= initial_pending(plan));
        let mut remaining: HashMap<usize, usize> = HashMap::new();
        let mut i: usize = 0;
        while i < n
            invariant
                i <= n,
                n == plan.len(),
                runnable(plan),
                iv == plan.inputs_view(),
                cb == plan.consumed_by@,
                forall|b: usize|
                    #[trigger] remaining@.contains_key(b) <==> consumers(iv, i as nat, b).len() > 0,
                forall|b: usize|
                    #[trigger] remaining@.contains_key(b) ==> remaining@[b] == consumers(
                        iv,
                        i as nat,
                        b,
                    ).len(),
            decreases n - i,
        {
            let list = &plan.inputs[i];
            assert(iv[i as int] == list@);
            let mut k: usize = 0;
            while k < list.len()
                invariant
                    k <= list@.len(),
                    i < n,
                    n == plan.len(),
                    runnable(plan),
                    iv == plan.inputs_view(),
                    cb == plan.consumed_by@,
                    iv[i as int] == list@,
                    forall|b: usize|
                        #[trigger] remaining@.contains_key(b) <==> consumers(iv, i as nat, b).len()
                            + occ(list@.take(k as int), b) > 0,
                    forall|b: usize|
                        #[trigger] remaining@.contains_key(b) ==> remaining@[b] == consumers(
                            iv,
                            i as nat,
                            b,
                        ).len() + occ(list@.take(k as int), b),
                decreases list@.len() - k,
            {
                let b = list[k];
                proof {
                    assert forall|x: usize| #[trigger] occ(list@.take(k + 1), x) == occ(
                        list@.take(k as int),
                        x,
                    ) + if x == b {
                        1nat
                    } else {
                        0nat
                    } by {
                        lemma_occ_take(list@, k as int, x);
                    }
                    lemma_consumers_count(iv, n as nat, b, i);
                    assert(list@ =~= list@.take(k + 1) + list@.skip(k + 1));
                    crate::graph::lemma_occ_concat(list@.take(k + 1), list@.skip(k + 1), b);
                    lemma_consumers_prefix(iv, i as nat, n as nat, b);
                    lemma_uses_consumers(iv, n as nat, b);
                }
                let total = match plan.consumed_by.get(&b) {
                    Some(l) => l.len(),
                    None => 0,
                };
                let v = match remaining.get(&b) {
                    Some(v) => *v,
                    None => 0,
                };
                proof {
                    assert(consumers(iv, (i + 1) as nat, b).len() == consumers(iv, i as nat, b).len()
                        + occ(iv[i as int], b));
                    assert(cb.contains_key(b));
                }
                remaining.insert(b, v + 1);
                k = k + 1;
            }
            proof {
                assert(list@.take(k as int) =~= list@);
                assert forall|b: usize| #[trigger] remaining@.contains_key(b) <==> consumers(
                    iv,
                    (i + 1) as nat,
                    b,
                ).len() > 0 by {
                    assert(consumers(iv, (i + 1) as nat, b).len() == consumers(iv, i as nat, b).len()
                        + occ(iv[i as int], b));
                }
                assert forall|b: usize| #[trigger] remaining@.contains_key(b) implies remaining@[b]
                    == consumers(iv, (i + 1) as nat, b).len() by {
                    assert(consumers(iv, (i + 1) as nat, b).len() == consumers(iv, i as nat, b).len()
                        + occ(iv[i as int], b));
                }
            }
            i = i + 1;
        }
        proof {
            assert forall|b: usize| #[trigger] remaining@.contains_key(b) implies remaining@[b]
                == initial_remaining(plan)[b] by {
                assert(plan.consumed_by@.contains_key(b));
                assert(cb[b]@ == consumers(iv, n as nat, b));
            }
        }
        assert(remaining@ =~= initial_remaining(plan));
        let mut s = Scheduler {
            pending,
            remaining,
            stored: HashSet::new(),
            ready: Vec::new(),
            computed: HashSet::new(),
            running: None,
            produced: Ghost(Set::empty()),
        };
        proof {
            assert(s.done_ops(plan) =~= Set::<usize>::empty());
            assert forall|b: usize| #[trigger] s.remaining@.contains_key(b) implies s.remaining@[b]
                == uses(iv, s.done_ops(plan), n as nat, b) by {
                lemma_uses_consumers(iv, n as nat, b);
            }
            assert forall|x: usize| #[trigger] s.pending@.contains_key(x) implies s.pending@[x]
                == unproduced(iv[x as int], s.produced@) by {
                lemma_unproduced_empty(iv[x as int]);
            }
            assert(written_by(plan, Set::empty()) =~= Set::<usize>::empty());
            lemma_nodes_of_kind(plan.kinds@, n as nat, NodeKind::Input);
            lemma_nodes_of_kind(plan.kinds@, n as nat, NodeKind::Attribute);
        }
        let ghost p0 = s.pending@;
        let ghost r0 = s.remaining@;
        let ghost inodes = plan.input_nodes@;
        let ghost anodes = plan.attribute_nodes@;
        let ghost mut f: Set<usize> = Set::empty();
        let mut p: usize = 0;
        while p < plan.input_nodes.len()
            invariant
                p <= inodes.len(),
                n == plan.len(),
                runnable(plan),
                inodes == plan.input_nodes@,
                ov == plan.outputs_view(),
                s.inv_core(plan),
                s.produced@ == written_by(plan, f),
                s.stored@ == s.produced@,
                s.computed@ == Set::<usize>::empty(),
                s.running is None,
                s.remaining@ == r0,
                forall|x: usize| #[trigger] f.contains(x) <==> exists|q: int| 0 <= q < p && inodes[q] == x,
                (s.pending@, s.ready@) == notify_blobs(
                    plan.consumed_by@,
                    p0,
                    Seq::empty(),
                    reads_of(ov, inodes.take(p as int)),
                ),
                forall|k: int|
                    0 <= k < inodes.len() ==> {
                        &&& #[trigger] inodes[k] < n
                        &&& plan.kinds@[inodes[k] as int] == NodeKind::Input
                    },
                forall|k1: int, k2: int|
                    0 <= k1 < k2 < inodes.len() ==> #[trigger] inodes[k1] < #[trigger] inodes[k2],
            decreases inodes.len() - p,
        {
            let i = plan.input_nodes[p];
            let outs = &plan.outputs[i];
            assert(ov[i as int] == outs@);
            assert(writes_of(plan, i as int) == outs@);
            assert(!f.contains(i)) by {
                if f.contains(i) {
                    let q = choose|q: int| 0 <= q < p && inodes[q] == i;
                    assert(inodes[q] < inodes[p as int]);
                }
            }
            let ghost w = reads_of(ov, inodes.take(p as int));
            proof {
                assert(written_prefix(plan, i as int, 0) =~= Set::<usize>::empty());
                assert(written_by(plan, f) + written_prefix(plan, i as int, 0) =~= written_by(plan, f));
                assert(outs@.take(0) =~= Seq::<usize>::empty());
                assert(w + outs@.take(0) =~= w);
            }
            let mut k: usize = 0;
            while k < outs.len()
                invariant
                    k <= outs@.len(),
                    i < n,
                    n == plan.len(),
                    runnable(plan),
                    writes_of(plan, i as int) == outs@,
                    !f.contains(i),
                    s.inv_core(plan),
                    s.produced@ == written_by(plan, f) + written_prefix(plan, i as int, k as int),
                    s.stored@ == s.produced@,
                    s.computed@ == Set::<usize>::empty(),
                    s.running is None,
                    s.remaining@ == r0,
                    (s.pending@, s.ready@) == notify_blobs(
                        plan.consumed_by@,
                        p0,
                        Seq::empty(),
                        w + outs@.take(k as int),
                    ),
                decreases outs@.len() - k,
            {
                let b = outs[k];
                proof {
                    if plan.consumed_by@.contains_key(b) {
                    lemma_fresh_write(plan, f, i as int, k as int);
                }
                    lemma_written_prefix_step(plan, i as int, k as int);
                    assert((w + outs@.take(k + 1)).drop_last() =~= w + outs@.take(k as int));
                    assert((w + outs@.take(k + 1)).last() == b);
                }
                s.produce(plan, b);
                proof {
                    assert(s.produced@ =~= written_by(plan, f) + written_prefix(plan, i as int, k + 1));
                }
                k = k + 1;
            }
            proof {
                lemma_written_by_insert(plan, f, i as int);
                f = f.insert(i);
                assert(outs@.take(k as int) =~= outs@);
                assert(inodes.take(p + 1).drop_last() =~= inodes.take(p as int));
                assert(inodes.take(p + 1).last() == i);
                assert forall|x: usize| #[trigger] f.contains(x) <==> exists|q: int|
                    0 <= q < p + 1 && inodes[q] == x by {
                    if x == i {
                        assert(inodes[p as int] == x);
                    }
                }
            }
            p = p + 1;
        }
        proof {
            assert(inodes.take(inodes.len() as int) =~= inodes);
        }
        let ghost w = reads_of(ov, inodes);
        let mut p: usize = 0;
        while p < plan.attribute_nodes.len()
            invariant
                p <= anodes.len(),
                n == plan.len(),
                runnable(plan),
                inodes == plan.input_nodes@,
                anodes == plan.attribute_nodes@,
                ov == plan.outputs_view(),
                w == reads_of(ov, inodes),
                s.inv_core(plan),
                s.produced@ == written_by(plan, f),
                s.stored@ == s.produced@,
                s.computed@ == Set::<usize>::empty(),
                s.running is None,
                s.remaining@ == r0,
                forall|x: usize| #[trigger]
                    f.contains(x) <==> (inodes.contains(x) || exists|q: int|
                        0 <= q < p && anodes[q] == x),
                (s.pending@, s.ready@) == notify_blobs(
                    plan.consumed_by@,
                    p0,
                    Seq::empty(),
                    w + firsts_of(ov, anodes.take(p as int)),
                ),
                forall|k: int|
                    0 <= k < anodes.len() ==> {
                        &&& #[trigger] anodes[k] < n
                        &&& plan.kinds@[anodes[k] as int] == NodeKind::Attribute
                    },
                forall|k: int|
                    0 <= k < inodes.len() ==> plan.kinds@[#[trigger] inodes[k] as int] == NodeKind::Input,
                forall|k1: int, k2: int|
                    0 <= k1 < k2 < anodes.len() ==> #[trigger] anodes[k1] < #[trigger] anodes[k2],
            decreases anodes.len() - p,
        {
            let i = plan.attribute_nodes[p];
            let outs = &plan.outputs[i];
            assert(ov[i as int] == outs@);
            assert(outs@.len() >= 1);
            assert(writes_of(plan, i as int) == outs@.take(1));
            assert(!f.contains(i)) by {
                if f.contains(i) {
                    if inodes.contains(i) {
                        let q = choose|q: int| 0 <= q < inodes.len() && inodes[q] == i;
                        assert(plan.kinds@[inodes[q] as int] == NodeKind::Input);
                    } else {
                        let q = choose|q: int| 0 <= q < p && anodes[q] == i;
                        assert(anodes[q] < anodes[p as int]);
                    }
                }
            }
            let b = outs[0];
            let ghost wp = w + firsts_of(ov, anodes.take(p as int));
            proof {
                if plan.consumed_by@.contains_key(b) {
                    lemma_fresh_write(plan, f, i as int, 0);
                }
                lemma_written_prefix_step(plan, i as int, 0);
                assert(written_prefix(plan, i as int, 0) =~= Set::<usize>::empty());
                assert(anodes.take(p + 1).drop_last() =~= anodes.take(p as int));
                assert(anodes.take(p + 1).last() == i);
                assert((w + firsts_of(ov, anodes.take(p + 1))).drop_last() =~= wp);
                assert((w + firsts_of(ov, anodes.take(p + 1))).last() == b);
            }
            s.produce(plan, b);
            proof {
                lemma_written_by_insert(plan, f, i as int);
                assert(s.produced@ =~= written_by(plan, f.insert(i)));
                f = f.insert(i);
                assert forall|x: usize| #[trigger] f.contains(x) <==> (inodes.contains(x) || exists|q: int|
                    0 <= q < p + 1 && anodes[q] == x) by {
                    if x == i {
                        assert(anodes[p as int] == x);
                    }
                }
            }
            p = p + 1;
        }
        proof {
            assert(anodes.take(anodes.len() as int) =~= anodes);
            assert forall|x: usize| x < n implies (f.contains(x) <==> s.fired(plan).contains(x)) by {
                if plan.kinds@[x as int] == NodeKind::Input {
                    assert(inodes.contains(x));
                }
                if plan.kinds@[x as int] == NodeKind::Attribute {
                    assert(anodes.contains(x));
                    let q = choose|q: int| 0 <= q < anodes.len() && anodes[q] == x;
                }
                if inodes.contains(x) {
                    let q = choose|q: int| 0 <= q < inodes.len() && inodes[q] == x;
                    assert(plan.kinds@[inodes[q] as int] == NodeKind::Input);
                }
            }
            lemma_written_by_same(plan, f, s.fired(plan));
        }
        s
    }
}

/// Among the first `m` nodes there are no more readers of `b` than among
/// the first `n`, when `m <= n`; node `m` adds its reads.
pub proof fn lemma_consumers_prefix(inputs: Seq<Seq<usize>>, m: nat, n: nat, b: usize)
    requires
        m < n,
    ensures
        consumers(inputs, m, b).len() + occ(inputs[m as int], b) <= consumers(inputs, n, b).len(),
    decreases n,
{
    if m + 1 < n {
        lemma_consumers_prefix(inputs, m, (n - 1) as nat, b);
    }
}

/// Every layer node in the ready queue finds all the blobs it reads held:
/// they have all been written, and none has been let go, since the node
/// itself still has to read them.
pub proof fn lemma_ready_inputs_held(s: &Scheduler, plan: &GraphPlan, k: int)
    requires
        s.inv_core(plan),
        plan.wf(),
        0 <= k < s.ready@.len(),
        plan.kinds@[s.ready@[k] as int] == NodeKind::Op,
    ensures
        forall|j: int|
            0 <= j < plan.inputs@[s.ready@[k] as int]@.len() ==> s.stored@.contains(
                #[trigger] plan.inputs@[s.ready@[k] as int]@[j],
            ),
{
    let c = s.ready@[k];
    let iv = plan.inputs_view();
    let n = plan.len();
    assert(s.pending@.contains_key(c));
    assert(c < n);
    lemma_unproduced_zero(iv[c as int], s.produced@);
    assert forall|j: int| 0 <= j < plan.inputs@[c as int]@.len() implies s.stored@.contains(
        #[trigger] plan.inputs@[c as int]@[j],
    ) by {
        let b = iv[c as int][j];
        assert(iv[c as int] == plan.inputs@[c as int]@);
        lemma_occ_pos(iv[c as int], b);
        assert(!s.done_ops(plan).contains(c));
        lemma_uses_done(iv, s.done_ops(plan), n, b, c);
        lemma_uses_done(iv, Set::empty(), n, b, c);
        lemma_uses_consumers(iv, n, b);
        assert(plan.consumed_by@.contains_key(b));
        assert(s.remaining@.contains_key(b));
        assert(s.produced@.contains(b));
    }
}

impl Scheduler {
    /// Takes the next node off the ready queue. An output node is marked
    /// as run; a layer node is handed out to run, and the reads it makes
    /// are counted down, letting go of the blobs that no other node reads.
    pub fn next(&mut self, plan: &GraphPlan) -> (step: Step)
        requires
            old(self).inv(plan),
            runnable(plan),
            old(self).running is None,
        ensures
            final(self).inv(plan),
            final(self).pending@ == old(self).pending@,
            final(self).produced@ == old(self).produced@,
            old(self).ready@.len() == 0 ==> {
                &&& step == Step::Done
                &&& forall|c: usize|
                    #[trigger] waits(plan, c) && plan.inputs@[c as int]@.len() > 0 && (forall|j: int|
                        0 <= j < plan.inputs@[c as int]@.len() ==> final(self).produced@.contains(
                            plan.inputs@[c as int]@[j],
                        )) ==> final(self).computed@.contains(c)
                &&& final(self).ready@ == old(self).ready@
                &&& final(self).computed@ == old(self).computed@
                &&& final(self).stored@ == old(self).stored@
                &&& final(self).remaining@ == old(self).remaining@
                &&& final(self).running is None
            },
            old(self).ready@.len() > 0 ==> {
                let c = old(self).ready@[0];
                &&& final(self).ready@ == old(self).ready@.drop_first()
                &&& !old(self).computed@.contains(c)
                &&& final(self).computed@ == old(self).computed@.insert(c)
                &&& match step {
                    Step::Collect { node } => {
                        &&& node == c
                        &&& plan.kinds@[c as int] == NodeKind::Output
                        &&& final(self).stored@ == old(self).stored@
                        &&& final(self).remaining@ == old(self).remaining@
                        &&& final(self).running is None
                    },
                    Step::Run { node, release } => {
                        &&& node == c
                        &&& plan.kinds@[c as int] == NodeKind::Op
                        &&& forall|j: int|
                            0 <= j < plan.inputs@[c as int]@.len() ==> old(self).stored@.contains(
                                #[trigger] plan.inputs@[c as int]@[j],
                            )
                        &&& (final(self).remaining@, final(self).stored@, release@) == consume(
                            old(self).remaining@,
                            old(self).stored@,
                            plan.inputs@[c as int]@,
                        )
                        &&& final(self).running == Some(c)
                    },
                    Step::Done => false,
                }
            },
    {
        if self.ready.len() == 0 {
            proof {
                assert forall|c: usize|
                    #[trigger] waits(plan, c) && plan.inputs@[c as int]@.len() > 0 && (forall|j: int|
                        0 <= j < plan.inputs@[c as int]@.len() ==> self.produced@.contains(
                            plan.inputs@[c as int]@[j],
                        )) implies self.computed@.contains(c) by {
                    assert(plan.inputs_view()[c as int] == plan.inputs@[c as int]@);
                    lemma_unproduced_all(plan.inputs@[c as int]@, self.produced@);
                    assert(self.pending@.contains_key(c));
                    if !self.computed@.contains(c) {
                        assert(self.ready@.contains(c));
                    }
                }
            }
            return Step::Done;
        }
        let ghost iv = plan.inputs_view();
        let ghost n = plan.len();
        let ghost old_self = *self;
        let c = self.ready.remove(0);
        assert(c == old_self.ready@[0]);
        assert(old_self.pending@.contains_key(c));
        let ghost d0 = old_self.done_ops(plan);
        match plan.kinds[c] {
            NodeKind::Output => {
                self.computed.insert(c);
                proof {
                    assert(self.done_ops(plan) =~= d0);
                    assert(self.fired(plan) =~= old_self.fired(plan));
                    assert forall|k: int| 0 <= k < self.ready@.len() implies {
                        &&& self.pending@.contains_key(#[trigger] self.ready@[k])
                        &&& self.pending@[self.ready@[k]] == 0
                        &&& !self.computed@.contains(self.ready@[k])
                    } by {
                        assert(self.ready@[k] == old_self.ready@[k + 1]);
                        assert(old_self.ready@[0] != old_self.ready@[k + 1]);
                    }
                    assert forall|x: usize|
                        #[trigger] self.pending@.contains_key(x) && self.pending@[x] == 0
                            && plan.inputs@[x as int]@.len() > 0 && !self.computed@.contains(x)
                        implies self.ready@.contains(x) by {
                        assert(old_self.ready@.contains(x));
                        let k = choose|k: int| 0 <= k < old_self.ready@.len() && old_self.ready@[k] == x;
                        assert(k != 0);
                        assert(self.ready@[k - 1] == x);
                    }
                }
                Step::Collect { node: c }
            },
            NodeKind::Op => {
                proof {
                    lemma_ready_inputs_held(&old_self, plan, 0);
                }
                self.computed.insert(c);
                self.running = Some(c);
                let list = &plan.inputs[c];
                assert(iv[c as int] == list@);
                let ghost rm0 = self.remaining@;
                let ghost st0 = self.stored@;
                proof {
                    assert(!d0.contains(c));
                    assert forall|b: usize| #[trigger] rm0.contains_key(b) implies occ(list@, b)
                        <= rm0[b] by {
                        lemma_uses_done(iv, d0, n, b, c);
                    }
                    lemma_consume(rm0, st0, list@);
                }
                let ghost pd1 = self.pending@;
                let ghost cm1 = self.computed@;
                let ghost rd1 = self.ready@;
                let mut release: Vec<usize> = Vec::new();
                let mut k: usize = 0;
                while k < list.len()
                    invariant
                        k <= list@.len(),
                        (self.remaining@, self.stored@, release@) == consume(
                            rm0,
                            st0,
                            list@.take(k as int),
                        ),
                        forall|b: usize| #[trigger] rm0.contains_key(b) ==> occ(list@, b) <= rm0[b],
                        self.pending@ == pd1,
                        self.computed@ == cm1,
                        self.ready@ == rd1,
                        self.running == Some(c),
                        self.produced@ == old_self.produced@,
                    decreases list@.len() - k,
                {
                    let b = list[k];
                    proof {
                        assert(list@.take(k + 1).drop_last() =~= list@.take(k as int));
                        assert(list@.take(k + 1).last() == b);
                        assert forall|x: usize| #[trigger] rm0.contains_key(x) implies occ(
                            list@.take(k + 1),
                            x,
                        ) <= rm0[x] by {
                            assert(list@ =~= list@.take(k + 1) + list@.skip(k + 1));
                            crate::graph::lemma_occ_concat(list@.take(k + 1), list@.skip(k + 1), x);
                        }
                        lemma_consume(rm0, st0, list@.take(k as int));
                        lemma_occ_take(list@, k as int, b);
                    }
                    match self.remaining.get(&b) {
                        Some(v) => {
                            let nv = *v - 1;
                            self.remaining.insert(b, nv);
                            if nv == 0 && self.stored.contains(&b) {
                                self.stored.remove(&b);
                                release.push(b);
                            }
                        },
                        None => {},
                    }
                    k = k + 1;
                }
                proof {
                    assert(list@.take(k as int) =~= list@);
                    assert(self.done_ops(plan) =~= d0.insert(c));
                    assert(self.fired(plan) =~= old_self.fired(plan));
                    assert forall|b: usize| #[trigger] self.remaining@.contains_key(b) implies self.remaining@[b]
                        == uses(iv, self.done_ops(plan), n, b) by {
                        lemma_uses_done(iv, d0, n, b, c);
                    }
                    assert forall|b: usize| #[trigger] self.produced@.contains(b) && !(
                    self.remaining@.contains_key(b) && self.remaining@[b] == 0) implies self.stored@.contains(
                        b,
                    ) by {
                        lemma_consume(rm0, st0, list@);
                        let (m2, s2, rel2) = consume(rm0, st0, list@);
                        assert(self.stored@ == s2 && self.remaining@ == m2);
                        assert(old_self.produced@.contains(b));
                        if rm0.contains_key(b) {
                            assert(m2[b] == rm0[b] - occ(list@, b));
                            assert(rm0[b] != 0);
                            assert(st0.contains(b));
                        } else {
                            assert(st0.contains(b));
                        }
                        assert(s2.contains(b));
                    }
                    assert forall|k: int| 0 <= k < self.ready@.len() implies {
                        &&& self.pending@.contains_key(#[trigger] self.ready@[k])
                        &&& self.pending@[self.ready@[k]] == 0
                        &&& !self.computed@.contains(self.ready@[k])
                    } by {
                        assert(self.ready@[k] == old_self.ready@[k + 1]);
                        assert(old_self.ready@[0] != old_self.ready@[k + 1]);
                    }
                    assert forall|x: usize|
                        #[trigger] self.pending@.contains_key(x) && self.pending@[x] == 0
                            && plan.inputs@[x as int]@.len() > 0 && !self.computed@.contains(x)
                        implies self.ready@.contains(x) by {
                        assert(old_self.ready@.contains(x));
                        let k = choose|k: int| 0 <= k < old_self.ready@.len() && old_self.ready@[k] == x;
                        assert(k != 0);
                        assert(self.ready@[k - 1] == x);
                    }
                }
                Step::Run { node: c, release }
            },
            _ => {
                proof {
                    assert(waits(plan, c));
                }
                Step::Done
            },
        }
    }

    /// The layer node handed out has run: the blobs it writes are held, and
    /// their readers are told.
    pub fn complete(&mut self, plan: &GraphPlan)
        requires
            old(self).inv(plan),
            runnable(plan),
            old(self).running is Some,
        ensures
            final(self).inv(plan),
            final(self).running is None,
            final(self).computed@ == old(self).computed@,
            final(self).remaining@ == old(self).remaining@,
            final(self).stored@ == old(self).stored@ + plan.outputs@[old(self).running->Some_0 as int]@.to_set(),
            (final(self).pending@, final(self).ready@) == notify_blobs(
                plan.consumed_by@,
                old(self).pending@,
                old(self).ready@,
                plan.outputs@[old(self).running->Some_0 as int]@,
            ),
    {
        let ghost old_self = *self;
        let r = match self.running {
            Some(r) => r,
            None => {
                return;
            },
        };
        let ghost f = old_self.fired(plan);
        let outs = &plan.outputs[r];
        assert(writes_of(plan, r as int) == outs@);
        assert(!f.contains(r));
        proof {
            assert(written_prefix(plan, r as int, 0) =~= Set::<usize>::empty());
            assert(written_by(plan, f) + written_prefix(plan, r as int, 0) =~= written_by(plan, f));
            assert(outs@.take(0) =~= Seq::<usize>::empty());
            assert(outs@.take(0).to_set() =~= Set::<usize>::empty());
            assert(old_self.stored@ + outs@.take(0).to_set() =~= old_self.stored@);
        }
        let mut k: usize = 0;
        while k < outs.len()
            invariant
                k <= outs@.len(),
                r < plan.len(),
                runnable(plan),
                writes_of(plan, r as int) == outs@,
                !f.contains(r),
                self.inv_core(plan),
                self.running == Some(r),
                self.produced@ == written_by(plan, f) + written_prefix(plan, r as int, k as int),
                self.stored@ == old_self.stored@ + outs@.take(k as int).to_set(),
                self.computed@ == old_self.computed@,
                self.remaining@ == old_self.remaining@,
                (self.pending@, self.ready@) == notify_blobs(
                    plan.consumed_by@,
                    old_self.pending@,
                    old_self.ready@,
                    outs@.take(k as int),
                ),
            decreases outs@.len() - k,
        {
            let b = outs[k];
            proof {
                if plan.consumed_by@.contains_key(b) {
                    lemma_fresh_write(plan, f, r as int, k as int);
                }
                lemma_written_prefix_step(plan, r as int, k as int);
                assert(outs@.take(k + 1).drop_last() =~= outs@.take(k as int));
                assert(outs@.take(k + 1).last() == b);
                assert(outs@.take(k + 1).to_set() =~= outs@.take(k as int).to_set().insert(b)) by {
                    assert(outs@.take(k + 1) =~= outs@.take(k as int).push(b));
                    vstd::seq_lib::seq_to_set_distributes_over_add(
                        outs@.take(k as int),
                        seq![b],
                    );
                    assert(outs@.take(k as int).push(b) =~= outs@.take(k as int) + seq![b]);
                    assert(seq![b].to_set() =~= set![b]);
                }
            }
            self.produce(plan, b);
            proof {
                assert(self.produced@ =~= written_by(plan, f) + written_prefix(plan, r as int, k + 1));
                assert(self.stored@ =~= old_self.stored@ + outs@.take(k + 1).to_set());
            }
            k = k + 1;
        }
        self.running = None;
        proof {
            assert(outs@.take(k as int) =~= outs@);
            lemma_written_by_insert(plan, f, r as int);
            lemma_written_by_same(plan, f.insert(r), self.fired(plan));
        }
    }

    /// The blobs read by the output nodes that are held, in the order of
    /// the output nodes and of their reads: the results of the pass.
    pub fn result_blobs(&self, plan: &GraphPlan) -> (r: Vec<usize>)
        requires
            plan.wf(),
        ensures
            r@ == kept(reads_of(plan.inputs_view(), plan.output_nodes@), self.stored@),
    {
        let ghost iv = plan.inputs_view();
        let ghost onodes = plan.output_nodes@;
        let mut out: Vec<usize> = Vec::new();
        proof {
            lemma_nodes_of_kind(plan.kinds@, plan.len(), NodeKind::Output);
        }
        let mut p: usize = 0;
        while p < plan.output_nodes.len()
            invariant
                p <= onodes.len(),
                plan.wf(),
                onodes == plan.output_nodes@,
                iv == plan.inputs_view(),
                out@ == kept(reads_of(iv, onodes.take(p as int)), self.stored@),
                forall|k: int| 0 <= k < onodes.len() ==> #[trigger] onodes[k] < plan.len(),
            decreases onodes.len() - p,
        {
            let node = plan.output_nodes[p];
            let list = &plan.inputs[node];
            assert(iv[node as int] == list@);
            let ghost w = reads_of(iv, onodes.take(p as int));
            proof {
                assert(w + list@.take(0) =~= w);
            }
            let mut k: usize = 0;
            while k < list.len()
                invariant
                    k <= list@.len(),
                    out@ == kept(w + list@.take(k as int), self.stored@),
                decreases list@.len() - k,
            {
                let b = list[k];
                proof {
                    assert((w + list@.take(k + 1)).drop_last() =~= w + list@.take(k as int));
                    assert((w + list@.take(k + 1)).last() == b);
                }
                if self.stored.contains(&b) {
                    out.push(b);
                }
                k = k + 1;
            }
            proof {
                assert(list@.take(k as int) =~= list@);
                assert(onodes.take(p + 1).drop_last() =~= onodes.take(p as int));
                assert(onodes.take(p + 1).last() == node);
            }
            p = p + 1;
        }
        assert(onodes.take(onodes.len() as int) =~= onodes);
        out
    }
}

/// Position `l` of the blobs node `j` writes comes before position `k` of
/// node `i`.
pub open spec fn write_before(plan: &GraphPlan, i: int, k: int, j: int, l: int) -> bool {
    &&& 0 <= j < plan.len()
    &&& 0 <= l < writes_of(plan, j).len()
    &&& (j < i || (j == i && l < k))
}

/// Whether the plan can be run: every attribute node has an output, and
/// no blob that some node reads is written twice.
pub fn is_runnable(plan: &GraphPlan) -> (r: bool)
    requires
        plan.wf(),
    ensures
        r == runnable(plan),
{
    let n = plan.kinds.len();
    let mut i: usize = 0;
    while i < n
        invariant
            i <= n,
            n == plan.len(),
            plan.wf(),
            forall|j: int|
                0 <= j < i && plan.kinds@[j] == NodeKind::Attribute ==> #[trigger] plan.outputs@[j]@.len()
                    >= 1,
        decreases n - i,
    {
        if plan.kinds[i] == NodeKind::Attribute && plan.outputs[i].len() == 0 {
            return false;
        }
        i = i + 1;
    }
    let mut seen: HashSet<usize> = HashSet::new();
    let mut i: usize = 0;
    while i < n
        invariant
            i <= n,
            n == plan.len(),
            plan.wf(),
            forall|j: int|
                0 <= j < n && plan.kinds@[j] == NodeKind::Attribute ==> #[trigger] plan.outputs@[j]@.len()
                    >= 1,
            forall|b: usize|
                #[trigger] seen@.contains(b) <==> exists|j: int, l: int|
                    #![trigger writes_of(plan, j)[l]]
                    write_before(plan, i as int, 0, j, l) && writes_of(plan, j)[l] == b,
            forall|j: int, l: int, j2: int, l2: int|
                #![trigger writes_of(plan, j)[l], writes_of(plan, j2)[l2]]
                write_before(plan, i as int, 0, j, l) && write_before(plan, i as int, 0, j2, l2) && (j
                    != j2 || l != l2) && writes_of(plan, j)[l] == writes_of(plan, j2)[l2]
                    ==> !plan.consumed_by@.contains_key(writes_of(plan, j)[l]),
        decreases n - i,
    {
        let outs = &plan.outputs[i];
        let wlen = match plan.kinds[i] {
            NodeKind::Output => 0,
            NodeKind::Attribute => 1,
            _ => outs.len(),
        };
        assert(writes_of(plan, i as int).len() == wlen);
        assert(forall|l: int| 0 <= l < wlen ==> writes_of(plan, i as int)[l] == outs@[l]);
        let mut k: usize = 0;
        while k < wlen
            invariant
                k <= wlen,
                i < n,
                n == plan.len(),
                plan.wf(),
                wlen == writes_of(plan, i as int).len(),
                wlen <= outs@.len(),
                outs@ == plan.outputs@[i as int]@,
                forall|l: int| 0 <= l < wlen ==> writes_of(plan, i as int)[l] == outs@[l],
                forall|b: usize|
                    #[trigger] seen@.contains(b) <==> exists|j: int, l: int|
                        #![trigger writes_of(plan, j)[l]]
                        write_before(plan, i as int, k as int, j, l) && writes_of(plan, j)[l] == b,
                forall|j: int, l: int, j2: int, l2: int|
                    #![trigger writes_of(plan, j)[l], writes_of(plan, j2)[l2]]
                    write_before(plan, i as int, k as int, j, l) && write_before(
                        plan,
                        i as int,
                        k as int,
                        j2,
                        l2,
                    ) && (j != j2 || l != l2) && writes_of(plan, j)[l] == writes_of(plan, j2)[l2]
                        ==> !plan.consumed_by@.contains_key(writes_of(plan, j)[l]),
            decreases wlen - k,
        {
            let b = outs[k];
            assert(writes_of(plan, i as int)[k as int] == b);
            let ghost seen0 = seen@;
            if seen.contains(&b) && plan.consumed_by.contains_key(&b) {
                proof {
                    let (j, l) = choose|j: int, l: int|
                        #![trigger writes_of(plan, j)[l]]
                        write_before(plan, i as int, k as int, j, l) && writes_of(plan, j)[l] == b;
                    assert(writes_of(plan, i as int)[k as int] == writes_of(plan, j)[l]);
                    assert(!single_writers(plan));
                }
                return false;
            }
            seen.insert(b);
            proof {
                assert forall|x: usize| #[trigger] seen@.contains(x) <==> exists|j: int, l: int|
                    #![trigger writes_of(plan, j)[l]]
                    write_before(plan, i as int, k + 1, j, l) && writes_of(plan, j)[l] == x by {
                    if x == b {
                        assert(write_before(plan, i as int, k + 1, i as int, k as int));
                        assert(writes_of(plan, i as int)[k as int] == x);
                    }
                    if exists|j: int, l: int|
                        #![trigger writes_of(plan, j)[l]]
                        write_before(plan, i as int, k + 1, j, l) && writes_of(plan, j)[l] == x {
                        let (j, l) = choose|j: int, l: int|
                            #![trigger writes_of(plan, j)[l]]
                            write_before(plan, i as int, k + 1, j, l) && writes_of(plan, j)[l] == x;
                        if !(j == i && l == k) {
                            assert(write_before(plan, i as int, k as int, j, l));
                        }
                    }
                }
                assert forall|j: int, l: int, j2: int, l2: int|
                    #![trigger writes_of(plan, j)[l], writes_of(plan, j2)[l2]]
                    write_before(plan, i as int, k + 1, j, l) && write_before(
                        plan,
                        i as int,
                        k + 1,
                        j2,
                        l2,
                    ) && (j != j2 || l != l2) && writes_of(plan, j)[l] == writes_of(plan, j2)[l2]
                    implies !plan.consumed_by@.contains_key(writes_of(plan, j)[l]) by {
                    if j == i && l == k {
                        assert(write_before(plan, i as int, k as int, j2, l2));
                        assert(seen0.contains(writes_of(plan, j2)[l2]));
                    } else if j2 == i && l2 == k {
                        assert(write_before(plan, i as int, k as int, j, l));
                        assert(seen0.contains(writes_of(plan, j)[l]));
                    }
                }
            }
            k = k + 1;
        }
        proof {
            assert forall|b: usize| #[trigger] seen@.contains(b) <==> exists|j: int, l: int|
                #![trigger writes_of(plan, j)[l]]
                write_before(plan, (i + 1) as int, 0, j, l) && writes_of(plan, j)[l] == b by {
                if exists|j: int, l: int|
                    #![trigger writes_of(plan, j)[l]]
                    write_before(plan, (i + 1) as int, 0, j, l) && writes_of(plan, j)[l] == b {
                    let (j, l) = choose|j: int, l: int|
                        #![trigger writes_of(plan, j)[l]]
                        write_before(plan, (i + 1) as int, 0, j, l) && writes_of(plan, j)[l] == b;
                    assert(write_before(plan, i as int, k as int, j, l));
                }
                if seen@.contains(b) {
                    let (j, l) = choose|j: int, l: int|
                        #![trigger writes_of(plan, j)[l]]
                        write_before(plan, i as int, k as int, j, l) && writes_of(plan, j)[l] == b;
                    assert(write_before(plan, (i + 1) as int, 0, j, l));
                }
            }
            assert forall|j: int, l: int, j2: int, l2: int|
                #![trigger writes_of(plan, j)[l], writes_of(plan, j2)[l2]]
                write_before(plan, (i + 1) as int, 0, j, l) && write_before(
                    plan,
                    (i + 1) as int,
                    0,
                    j2,
                    l2,
                ) && (j != j2 || l != l2) && writes_of(plan, j)[l] == writes_of(plan, j2)[l2]
                implies !plan.consumed_by@.contains_key(writes_of(plan, j)[l]) by {
                assert(write_before(plan, i as int, k as int, j, l));
                assert(write_before(plan, i as int, k as int, j2, l2));
            }
        }
        i = i + 1;
    }
    proof {
        assert forall|i: int, j: int, k: int, l: int|
            #![trigger writes_of(plan, i)[k], writes_of(plan, j)[l]]
            0 <= i < plan.len() && 0 <= j < plan.len() && 0 <= k < writes_of(plan, i).len() && 0 <= l
                < writes_of(plan, j).len() && (i != j || k != l) && writes_of(plan, i)[k] == writes_of(
                plan,
                j,
            )[l] implies !plan.consumed_by@.contains_key(writes_of(plan, i)[k]) by {
            assert(write_before(plan, n as int, 0, i, k));
            assert(write_before(plan, n as int, 0, j, l));
        }
    }
    true
}


/// `rank` places every node above the writers of the blobs it reads.
pub open spec fn ranks(plan: &GraphPlan, rank: spec_fn(int) -> nat) -> bool {
    forall|c: int, j: int, i: int, k: int|
        #![trigger plan.inputs@[c]@[j], writes_of(plan, i)[k]]
        0 <= c < plan.len() && 0 <= j < plan.inputs@[c]@.len() && 0 <= i < plan.len() && 0 <= k
            < writes_of(plan, i).len() && writes_of(plan, i)[k] == plan.inputs@[c]@[j] ==> rank(i)
            < rank(c)
}

/// The plan has no cycle: its nodes can be ranked so that each one comes
/// after the writers of what it reads.
pub open spec fn acyclic(plan: &GraphPlan) -> bool {
    exists|rank: spec_fn(int) -> nat| #[trigger] ranks(plan, rank)
}

/// Every blob that some node reads is written by some node.
pub open spec fn reads_are_written(plan: &GraphPlan) -> bool {
    forall|c: int, j: int|
        #![trigger plan.inputs@[c]@[j]]
        0 <= c < plan.len() && 0 <= j < plan.inputs@[c]@.len() ==> exists|i: int, k: int|
            #![trigger writes_of(plan, i)[k]]
            0 <= i < plan.len() && 0 <= k < writes_of(plan, i).len() && writes_of(plan, i)[k]
                == plan.inputs@[c]@[j]
}

/// Every layer node reads at least one blob.
pub open spec fn layers_read(plan: &GraphPlan) -> bool {
    forall|c: int|
        0 <= c < plan.len() && plan.kinds@[c] == NodeKind::Op ==> #[trigger] plan.inputs@[c]@.len() > 0
}

/// At the end of a pass, every node ranked below `m` that waits for
/// inputs and reads something has run.
proof fn lemma_ran_below(plan: &GraphPlan, s: &Scheduler, rank: spec_fn(int) -> nat, m: nat)
    requires
        runnable(plan),
        s.inv(plan),
        s.ready@.len() == 0,
        s.running is None,
        ranks(plan, rank),
        reads_are_written(plan),
        layers_read(plan),
    ensures
        forall|c: usize|
            #[trigger] waits(plan, c) && plan.inputs@[c as int]@.len() > 0 && rank(c as int) < m
                ==> s.computed@.contains(c),
    decreases m,
{
    if m > 0 {
        lemma_ran_below(plan, s, rank, (m - 1) as nat);
        let iv = plan.inputs_view();
        assert forall|c: usize|
            #[trigger] waits(plan, c) && plan.inputs@[c as int]@.len() > 0 && rank(c as int)
                < m implies s.computed@.contains(c) by {
            assert(iv[c as int] == plan.inputs@[c as int]@);
            assert forall|j: int| 0 <= j < iv[c as int].len() implies s.produced@.contains(
                #[trigger] iv[c as int][j],
            ) by {
                let b = plan.inputs@[c as int]@[j];
                let (i, k) = choose|i: int, k: int|
                    #![trigger writes_of(plan, i)[k]]
                    0 <= i < plan.len() && 0 <= k < writes_of(plan, i).len() && writes_of(plan, i)[k]
                        == b;
                assert(rank(i) < rank(c as int));
                if plan.kinds@[i] == NodeKind::Op {
                    assert(plan.inputs@[i]@.len() > 0);
                    assert(waits(plan, i as usize));
                    assert(s.computed@.contains(i as usize));
                } else if plan.kinds@[i] == NodeKind::Output {
                    assert(writes_of(plan, i).len() == 0);
                }
                assert(s.fired(plan).contains(i as usize));
                assert(written_by(plan, s.fired(plan)).contains(b));
            }
            lemma_unproduced_all(iv[c as int], s.produced@);
            assert(s.pending@.contains_key(c));
            if !s.computed@.contains(c) {
                assert(s.ready@.contains(c));
            }
        }
    }
}

/// Appending entries that are all in `s` keeps them all.
proof fn lemma_kept_append_held(a: Seq<usize>, t: Seq<usize>, s: Set<usize>)
    requires
        forall|k: int| 0 <= k < t.len() ==> s.contains(#[trigger] t[k]),
    ensures
        kept(a + t, s) == kept(a, s) + t,
    decreases t.len(),
{
    if t.len() == 0 {
        assert(a + t =~= a);
        assert(kept(a, s) + t =~= kept(a, s));
    } else {
        lemma_kept_append_held(a, t.drop_last(), s);
        assert((a + t).drop_last() =~= a + t.drop_last());
        assert((a + t).last() == t.last());
        assert(s.contains(t[t.len() - 1]));
        assert(kept(a, s) + t =~= (kept(a, s) + t.drop_last()).push(t.last()));
    }
}

/// An output node that has run finds every blob it reads still held.
proof fn lemma_output_inputs_held(plan: &GraphPlan, s: &Scheduler, o: usize)
    requires
        s.inv_core(plan),
        plan.wf(),
        o < plan.len(),
        plan.kinds@[o as int] == NodeKind::Output,
        s.computed@.contains(o),
    ensures
        forall|j: int|
            0 <= j < plan.inputs@[o as int]@.len() ==> s.stored@.contains(
                #[trigger] plan.inputs@[o as int]@[j],
            ),
{
    let iv = plan.inputs_view();
    let n = plan.len();
    assert(s.pending@.contains_key(o));
    lemma_unproduced_zero(iv[o as int], s.produced@);
    assert forall|j: int| 0 <= j < plan.inputs@[o as int]@.len() implies s.stored@.contains(
        #[trigger] plan.inputs@[o as int]@[j],
    ) by {
        let b = iv[o as int][j];
        assert(iv[o as int] == plan.inputs@[o as int]@);
        lemma_occ_pos(iv[o as int], b);
        assert(!s.done_ops(plan).contains(o));
        lemma_uses_done(iv, s.done_ops(plan), n, b, o);
        lemma_uses_done(iv, Set::empty(), n, b, o);
        lemma_uses_consumers(iv, n, b);
        assert(plan.consumed_by@.contains_key(b));
        assert(s.remaining@.contains_key(b));
        assert(s.produced@.contains(b));
    }
}

/// The blobs that the output nodes `nodes` read are all held once each of
/// them has run.
proof fn lemma_results_held(plan: &GraphPlan, s: &Scheduler, nodes: Seq<usize>)
    requires
        s.inv_core(plan),
        plan.wf(),
        forall|q: int|
            0 <= q < nodes.len() ==> {
                &&& #[trigger] nodes[q] < plan.len()
                &&& plan.kinds@[nodes[q] as int] == NodeKind::Output
                &&& (plan.inputs@[nodes[q] as int]@.len() > 0 ==> s.computed@.contains(nodes[q]))
            },
    ensures
        kept(reads_of(plan.inputs_view(), nodes), s.stored@) == reads_of(plan.inputs_view(), nodes),
    decreases nodes.len(),
{
    let iv = plan.inputs_view();
    if nodes.len() == 0 {
        assert(kept(Seq::<usize>::empty(), s.stored@) =~= Seq::<usize>::empty());
    } else {
        let o = nodes.last();
        assert(nodes[nodes.len() - 1] == o);
        assert forall|q: int| 0 <= q < nodes.drop_last().len() implies {
            &&& #[trigger] nodes.drop_last()[q] < plan.len()
            &&& plan.kinds@[nodes.drop_last()[q] as int] == NodeKind::Output
            &&& (plan.inputs@[nodes.drop_last()[q] as int]@.len() > 0 ==> s.computed@.contains(
                nodes.drop_last()[q],
            ))
        } by {
            assert(nodes.drop_last()[q] == nodes[q]);
        }
        lemma_results_held(plan, s, nodes.drop_last());
        assert(iv[o as int] == plan.inputs@[o as int]@);
        if plan.inputs@[o as int]@.len() > 0 {
            lemma_output_inputs_held(plan, s, o);
        }
        lemma_kept_append_held(reads_of(iv, nodes.drop_last()), iv[o as int], s.stored@);
    }
}

/// A forward pass runs every node it should, once, and keeps the results.
/// Once nothing is ready and nothing is running, on a plan without cycles
/// whose read blobs all have a writer and whose layer nodes all read
/// something: every layer and output node that reads a blob has run; no
/// input or attribute node is ever run; and every blob an output node reads is held, so
/// `result_blobs` gives exactly the blobs the output nodes read. (That no
/// node runs twice is the step's own contract: `next` hands out only a node
/// that has not run, and marks it as run.)
pub proof fn law_pass_complete(plan: &GraphPlan, s: &Scheduler)
    requires
        runnable(plan),
        s.inv(plan),
        s.ready@.len() == 0,
        s.running is None,
        acyclic(plan),
        reads_are_written(plan),
        layers_read(plan),
    ensures
        forall|c: usize|
            #[trigger] waits(plan, c) && plan.inputs@[c as int]@.len() > 0 ==> s.computed@.contains(c),
        forall|c: usize| #[trigger] s.computed@.contains(c) ==> waits(plan, c),
        kept(reads_of(plan.inputs_view(), plan.output_nodes@), s.stored@) == reads_of(
            plan.inputs_view(),
            plan.output_nodes@,
        ),
{
    let rank = choose|rank: spec_fn(int) -> nat| ranks(plan, rank);
    assert forall|c: usize|
        #[trigger] waits(plan, c) && plan.inputs@[c as int]@.len() > 0 implies s.computed@.contains(c) by {
        lemma_ran_below(plan, s, rank, rank(c as int) + 1);
    }
    assert forall|c: usize| #[trigger] s.computed@.contains(c) implies waits(plan, c) by {
        assert(s.pending@.contains_key(c));
    }
    lemma_nodes_of_kind(plan.kinds@, plan.len(), NodeKind::Output);
    let onodes = plan.output_nodes@;
    assert forall|q: int| 0 <= q < onodes.len() implies {
        &&& #[trigger] onodes[q] < plan.len()
        &&& plan.kinds@[onodes[q] as int] == NodeKind::Output
        &&& (plan.inputs@[onodes[q] as int]@.len() > 0 ==> s.computed@.contains(onodes[q]))
    } by {
        assert(onodes[q] < plan.len() && plan.kinds@[onodes[q] as int] == NodeKind::Output);
        assert(waits(plan, onodes[q]));
    }
    lemma_results_held(plan, s, onodes);
}


/// `list` names, in increasing order, exactly the nodes of the plan of
/// kind `kind`.
pub open spec fn lists_kind(plan: &GraphPlan, list: Seq<usize>, kind: NodeKind) -> bool {
    &&& forall|k: int|
        0 <= k < list.len() ==> #[trigger] list[k] < plan.len() && plan.kinds@[list[k] as int] == kind
    &&& forall|k1: int, k2: int| 0 <= k1 < k2 < list.len() ==> #[trigger] list[k1] < #[trigger] list[k2]
    &&& forall|c: usize| c < plan.len() && plan.kinds@[c as int] == kind ==> #[trigger] list.contains(c)
}

/// The readers of `b` among the first `n` nodes come in increasing order.
proof fn lemma_consumers_sorted(inputs: Seq<Seq<usize>>, n: nat, b: usize)
    requires
        n <= usize::MAX + 1,
    ensures
        forall|k: int| 0 <= k < consumers(inputs, n, b).len() ==> #[trigger] consumers(inputs, n, b)[k] < n,
        forall|k1: int, k2: int|
            0 <= k1 <= k2 < consumers(inputs, n, b).len() ==> #[trigger] consumers(inputs, n, b)[k1]
                <= #[trigger] consumers(inputs, n, b)[k2],
    decreases n,
{
    if n > 0 {
        let i = (n - 1) as nat;
        lemma_consumers_sorted(inputs, i, b);
        let pre = consumers(inputs, i, b);
        let cs = consumers(inputs, n, b);
        assert forall|k: int| 0 <= k < cs.len() implies #[trigger] cs[k] == if k < pre.len() {
            pre[k]
        } else {
            i as usize
        } by {}
    }
}

/// How a plan indexes its nodes and blobs: the input, output and attribute
/// nodes are listed in increasing order, each node of that kind once; a
/// blob has an entry in `consumed_by` exactly when some node reads it, and
/// that entry lists its readers in increasing order, each as many times as
/// it reads the blob.
pub proof fn law_plan_indexes(plan: &GraphPlan)
    requires
        plan.wf(),
    ensures
        lists_kind(plan, plan.input_nodes@, NodeKind::Input),
        lists_kind(plan, plan.output_nodes@, NodeKind::Output),
        lists_kind(plan, plan.attribute_nodes@, NodeKind::Attribute),
        forall|b: usize|
            #[trigger] plan.consumed_by@.contains_key(b) <==> exists|c: int, j: int|
                0 <= c < plan.len() && 0 <= j < plan.inputs@[c]@.len() && #[trigger] plan.inputs@[c]@[j]
                    == b,
        forall|b: usize, c: usize|
            plan.consumed_by@.contains_key(b) ==> #[trigger] occ(plan.consumed_by@[b]@, c) == if c
                < plan.len() {
                occ(plan.inputs@[c as int]@, b)
            } else {
                0
            },
        forall|b: usize, k1: int, k2: int|
            plan.consumed_by@.contains_key(b) && 0 <= k1 <= k2 < plan.consumed_by@[b]@.len()
                ==> #[trigger] plan.consumed_by@[b]@[k1] <= #[trigger] plan.consumed_by@[b]@[k2],
{
    let n = plan.len();
    let iv = plan.inputs_view();
    lemma_nodes_of_kind(plan.kinds@, n, NodeKind::Input);
    lemma_nodes_of_kind(plan.kinds@, n, NodeKind::Output);
    lemma_nodes_of_kind(plan.kinds@, n, NodeKind::Attribute);
    assert forall|b: usize| #[trigger] plan.consumed_by@.contains_key(b) <==> exists|c: int, j: int|
        0 <= c < plan.len() && 0 <= j < plan.inputs@[c]@.len() && #[trigger] plan.inputs@[c]@[j]
            == b by {
        let cs = consumers(iv, n, b);
        if cs.len() > 0 {
            let c = cs[0];
            lemma_consumers_sorted(iv, n, b);
            lemma_occ_pos(cs, c);
            lemma_consumers_count(iv, n, b, c);
            assert(iv[c as int] == plan.inputs@[c as int]@);
            lemma_occ_pos(iv[c as int], b);
            let j = choose|j: int| 0 <= j < iv[c as int].len() && iv[c as int][j] == b;
            assert(plan.inputs@[c as int]@[j] == b);
        }
        if exists|c: int, j: int|
            0 <= c < plan.len() && 0 <= j < plan.inputs@[c]@.len() && #[trigger] plan.inputs@[c]@[j]
                == b {
            let (c, j) = choose|c: int, j: int|
                0 <= c < plan.len() && 0 <= j < plan.inputs@[c]@.len() && #[trigger] plan.inputs@[c]@[j]
                    == b;
            assert(iv[c] == plan.inputs@[c]@);
            lemma_occ_pos(iv[c], b);
            lemma_consumers_count(iv, n, b, c as usize);
            lemma_occ_pos(cs, c as usize);
        }
    }
    assert forall|b: usize, c: usize| plan.consumed_by@.contains_key(b) implies #[trigger] occ(
        plan.consumed_by@[b]@,
        c,
    ) == if c < plan.len() {
        occ(plan.inputs@[c as int]@, b)
    } else {
        0
    } by {
        lemma_consumers_count(iv, n, b, c);
        if c < n {
            assert(iv[c as int] == plan.inputs@[c as int]@);
        }
    }
    assert forall|b: usize, k1: int, k2: int|
        plan.consumed_by@.contains_key(b) && 0 <= k1 <= k2 < plan.consumed_by@[b]@.len()
            implies #[trigger] plan.consumed_by@[b]@[k1] <= #[trigger] plan.consumed_by@[b]@[k2] by {
        lemma_consumers_sorted(iv, n, b);
    }
}

} // verus!
