//! The computation graph of a model: which node reads and writes which
//! blobs, and the order in which the nodes run.
use vstd::prelude::*;

use crate::node::{spec_describe, DescribeError, LayerDesc, LayerDescOf};
use crate::pnnx_reader::PNNXLine;
use std::collections::HashMap;

verus! {

broadcast use vstd::std_specs::hash::group_hash_axioms;

/// What a node of the graph does.
#[derive(Debug, Clone, Copy, PartialEq, Eq, Structural)]
pub enum NodeKind {
    /// Takes one of the tensors handed to the model.
    Input,
    /// Marks the blobs it reads as results of the model.
    Output,
    /// Holds a constant tensor.
    Attribute,
    /// Runs a layer.
    Op,
}

/// The kind of node a layer description makes.
pub open spec fn spec_kind_of(d: LayerDescOf<Seq<char>, Seq<usize>>) -> NodeKind {
    match d {
        LayerDescOf::Input => NodeKind::Input,
        LayerDescOf::Output => NodeKind::Output,
        LayerDescOf::Attribute { .. } => NodeKind::Attribute,
        _ => NodeKind::Op,
    }
}

pub fn kind_of(d: &LayerDesc) -> (r: NodeKind)
    ensures
        r == spec_kind_of(d@),
{
    match d {
        LayerDescOf::Input => NodeKind::Input,
        LayerDescOf::Output => NodeKind::Output,
        LayerDescOf::Attribute { .. } => NodeKind::Attribute,
        _ => NodeKind::Op,
    }
}

/// How many times `b` occurs in `s`.
pub open spec fn occ(s: Seq<usize>, b: usize) -> nat
    decreases s.len(),
{
    if s.len() == 0 {
        0
    } else {
        occ(s.drop_last(), b) + if s.last() == b {
            1nat
        } else {
            0nat
        }
    }
}

/// The nodes among the first `n` that read blob `b`, in node order, each
/// once per time it reads `b`.
pub open spec fn consumers(inputs: Seq<Seq<usize>>, n: nat, b: usize) -> Seq<usize>
    decreases n,
{
    if n == 0 {
        Seq::empty()
    } else {
        let i = (n - 1) as nat;
        consumers(inputs, i, b) + Seq::new(occ(inputs[i as int], b), |k: int| i as usize)
    }
}

/// The nodes of kind `k` among the first `n`, in order.
pub open spec fn nodes_of_kind(kinds: Seq<NodeKind>, n: nat, k: NodeKind) -> Seq<usize>
    decreases n,
{
    if n == 0 {
        Seq::empty()
    } else {
        let i = (n - 1) as nat;
        if kinds[i as int] == k {
            nodes_of_kind(kinds, i, k).push(i as usize)
        } else {
            nodes_of_kind(kinds, i, k)
        }
    }
}

pub proof fn lemma_occ_concat(s: Seq<usize>, t: Seq<usize>, b: usize)
    ensures
        occ(s + t, b) == occ(s, b) + occ(t, b),
    decreases t.len(),
{
    if t.len() == 0 {
        assert(s + t =~= s);
    } else {
        lemma_occ_concat(s, t.drop_last(), b);
        assert((s + t).drop_last() =~= s + t.drop_last());
        assert((s + t).last() == t.last());
    }
}

pub proof fn lemma_occ_repeat(k: nat, x: usize, b: usize)
    ensures
        occ(Seq::new(k, |j: int| x), b) == if x == b {
            k
        } else {
            0
        },
    decreases k,
{
    if k > 0 {
        lemma_occ_repeat((k - 1) as nat, x, b);
        assert(Seq::new(k, |j: int| x).drop_last() =~= Seq::new((k - 1) as nat, |j: int| x));
    }
}

/// Adding one more element to a prefix adds its occurrence.
pub proof fn lemma_occ_take(s: Seq<usize>, k: int, b: usize)
    requires
        0 <= k < s.len(),
    ensures
        occ(s.take(k + 1), b) == occ(s.take(k), b) + if s[k] == b {
            1nat
        } else {
            0nat
        },
{
    assert(s.take(k + 1).drop_last() =~= s.take(k));
}

/// An element that occurs in `s` is at some position of it.
pub proof fn lemma_occ_pos(s: Seq<usize>, b: usize)
    ensures
        occ(s, b) > 0 <==> exists|k: int| 0 <= k < s.len() && s[k] == b,
    decreases s.len(),
{
    if s.len() > 0 {
        lemma_occ_pos(s.drop_last(), b);
        if occ(s.drop_last(), b) > 0 {
            let k = choose|k: int| 0 <= k < s.drop_last().len() && s.drop_last()[k] == b;
            assert(s[k] == b);
        }
        if exists|k: int| 0 <= k < s.len() && s[k] == b {
            let k = choose|k: int| 0 <= k < s.len() && s[k] == b;
            if k < s.len() - 1 {
                assert(s.drop_last()[k] == b);
            }
        }
    }
}

/// Node `c` occurs in the consumers of `b` as often as it reads `b`.
pub proof fn lemma_consumers_count(inputs: Seq<Seq<usize>>, n: nat, b: usize, c: usize)
    requires
        n <= usize::MAX + 1,
    ensures
        occ(consumers(inputs, n, b), c) == if c < n {
            occ(inputs[c as int], b)
        } else {
            0
        },
    decreases n,
{
    if n > 0 {
        let i = (n - 1) as nat;
        lemma_consumers_count(inputs, i, b, c);
        lemma_occ_concat(
            consumers(inputs, i, b),
            Seq::new(occ(inputs[i as int], b), |k: int| i as usize),
            c,
        );
        lemma_occ_repeat(occ(inputs[i as int], b), i as usize, c);
        assert((i as usize == c) == (i == c));
    }
}

/// The nodes, the blobs each reads and writes, and who reads each blob.
pub struct GraphPlan {
    pub kinds: Vec<NodeKind>,
    pub inputs: Vec<Vec<usize>>,
    pub outputs: Vec<Vec<usize>>,
    pub input_nodes: Vec<usize>,
    pub output_nodes: Vec<usize>,
    pub attribute_nodes: Vec<usize>,
    pub consumed_by: HashMap<usize, Vec<usize>>,
}

/// Why a graph could not be built from a model.
#[derive(Debug, Clone, Copy, PartialEq, Eq, Structural)]
pub enum GraphError {
    /// A layer line could not be turned into a layer.
    Describe(DescribeError),
}

impl GraphPlan {
    /// The number of nodes.
    pub open spec fn len(&self) -> nat {
        self.kinds@.len()
    }

    pub open spec fn inputs_view(&self) -> Seq<Seq<usize>> {
        self.inputs@.map_values(|v: Vec<usize>| v@)
    }

    pub open spec fn outputs_view(&self) -> Seq<Seq<usize>> {
        self.outputs@.map_values(|v: Vec<usize>| v@)
    }

    /// The plan is the one its nodes determine: the lists of nodes by kind
    /// and the readers of each blob.
    pub open spec fn wf(&self) -> bool {
        let n = self.len();
        &&& n <= usize::MAX
        &&& self.inputs@.len() == n
        &&& self.outputs@.len() == n
        &&& self.input_nodes@ == nodes_of_kind(self.kinds@, n, NodeKind::Input)
        &&& self.output_nodes@ == nodes_of_kind(self.kinds@, n, NodeKind::Output)
        &&& self.attribute_nodes@ == nodes_of_kind(self.kinds@, n, NodeKind::Attribute)
        &&& forall|b: usize|
            #[trigger] self.consumed_by@.contains_key(b) <==> consumers(self.inputs_view(), n, b).len()
                > 0
        &&& forall|b: usize|
            #[trigger] self.consumed_by@.contains_key(b) ==> self.consumed_by@[b]@ == consumers(
                self.inputs_view(),
                n,
                b,
            )
    }

    /// The plan of the nodes of the given kinds, reading and writing the
    /// given blobs.
    pub fn new(kinds: Vec<NodeKind>, inputs: Vec<Vec<usize>>, outputs: Vec<Vec<usize>>) -> (r: GraphPlan)
        requires
            inputs@.len() == kinds@.len(),
            outputs@.len() == kinds@.len(),
        ensures
            r.wf(),
            r.kinds@ == kinds@,
            r.inputs@ == inputs@,
            r.outputs@ == outputs@,
    {
        let n = kinds.len();
        let ghost iv = inputs@.map_values(|v: Vec<usize>| v@);
        let mut input_nodes: Vec<usize> = Vec::new();
        let mut output_nodes: Vec<usize> = Vec::new();
        let mut attribute_nodes: Vec<usize> = Vec::new();
        let mut consumed_by: HashMap<usize, Vec<usize>> = HashMap::new();
        let mut i: usize = 0;
        while i < n
            invariant
                i <= n,
                n == kinds@.len(),
                inputs@.len() == n,
                iv == inputs@.map_values(|v: Vec<usize>| v@),
                input_nodes@ == nodes_of_kind(kinds@, i as nat, NodeKind::Input),
                output_nodes@ == nodes_of_kind(kinds@, i as nat, NodeKind::Output),
                attribute_nodes@ == nodes_of_kind(kinds@, i as nat, NodeKind::Attribute),
                forall|b: usize|
                    #[trigger] consumed_by@.contains_key(b) <==> consumers(iv, i as nat, b).len() > 0,
                forall|b: usize|
                    #[trigger] consumed_by@.contains_key(b) ==> consumed_by@[b]@ == consumers(
                        iv,
                        i as nat,
                        b,
                    ),
            decreases n - i,
        {
            match kinds[i] {
                NodeKind::Input => input_nodes.push(i),
                NodeKind::Output => output_nodes.push(i),
                NodeKind::Attribute => attribute_nodes.push(i),
                NodeKind::Op => {},
            }
            let list = &inputs[i];
            assert(iv[i as int] == list@);
            let mut k: usize = 0;
            while k < list.len()
                invariant
                    k <= list@.len(),
                    i < n,
                    n == kinds@.len(),
                    inputs@.len() == n,
                    iv == inputs@.map_values(|v: Vec<usize>| v@),
                    iv[i as int] == list@,
                    forall|b: usize|
                        #[trigger] consumed_by@.contains_key(b) <==> consumers(iv, i as nat, b).len()
                            + occ(list@.take(k as int), b) > 0,
                    forall|b: usize|
                        #[trigger] consumed_by@.contains_key(b) ==> consumed_by@[b]@ == consumers(
                            iv,
                            i as nat,
                            b,
                        ) + Seq::new(occ(list@.take(k as int), b), |q: int| i),
                decreases list@.len() - k,
            {
                let b = list[k];
                proof {
                    assert forall|x: usize| #[trigger] occ(list@.take(k + 1), x) == occ(
                        list@.take(k as int),
                        x,
                    ) + if x == b {
                        1nat
                    } else {
                        0nat
                    } by {
                        lemma_occ_take(list@, k as int, x);
                    }
                }
                let ghost old_map = consumed_by@;
                let prev = consumed_by.remove(&b);
                let mut v = match prev {
                    Some(v) => v,
                    None => Vec::new(),
                };
                proof {
                    if !old_map.contains_key(b) {
                        assert(consumers(iv, i as nat, b).len() + occ(list@.take(k as int), b) == 0);
                        assert(Seq::new(occ(list@.take(k as int), b), |q: int| i) =~= Seq::<
                            usize,
                        >::empty());
                        assert(consumers(iv, i as nat, b) =~= Seq::<usize>::empty());
                    }
                }
                v.push(i);
                consumed_by.insert(b, v);
                proof {
                    assert forall|x: usize| #[trigger] consumed_by@.contains_key(x) ==> consumed_by@[x]@
                        == consumers(iv, i as nat, x) + Seq::new(
                        occ(list@.take(k + 1), x),
                        |q: int| i,
                    ) by {
                        if x == b && consumed_by@.contains_key(x) {
                            assert(Seq::new(occ(list@.take(k as int), b), |q: int| i).push(i)
                                =~= Seq::new(occ(list@.take(k + 1), b), |q: int| i));
                        }
                    }
                }
                k = k + 1;
            }
            proof {
                assert(list@.take(k as int) =~= list@);
                assert forall|b: usize| #[trigger] consumed_by@.contains_key(b) <==> consumers(
                    iv,
                    (i + 1) as nat,
                    b,
                ).len() > 0 by {
                    assert(consumers(iv, (i + 1) as nat, b) == consumers(iv, i as nat, b) + Seq::new(
                        occ(iv[i as int], b),
                        |q: int| i,
                    ));
                }
                assert forall|b: usize| #[trigger] consumed_by@.contains_key(b) implies consumed_by@[b]@
                    == consumers(iv, (i + 1) as nat, b) by {
                    assert(consumers(iv, (i + 1) as nat, b) == consumers(iv, i as nat, b) + Seq::new(
                        occ(iv[i as int], b),
                        |q: int| i,
                    ));
                    assert(Seq::new(occ(iv[i as int], b), |q: int| i as usize) =~= Seq::new(
                        occ(iv[i as int], b),
                        |q: int| i,
                    ));
                }
            }
            i = i + 1;
        }
        GraphPlan { kinds, inputs, outputs, input_nodes, output_nodes, attribute_nodes, consumed_by }
    }

    /// The plan of a model's layer lines: each line becomes a node, and
    /// the line's description tells its kind.
    pub fn from_lines(lines: &Vec<PNNXLine>) -> (r: Result<(GraphPlan, Vec<LayerDesc>), GraphError>)
        ensures
            match r {
                Ok((plan, descs)) => {
                    &&& plan.wf()
                    &&& plan.len() == lines@.len()
                    &&& descs@.len() == lines@.len()
                    &&& forall|i: int|
                        0 <= i < lines@.len() ==> {
                            &&& spec_describe(#[trigger] lines@[i]@) == Ok::<
                                LayerDescOf<Seq<char>, Seq<usize>>,
                                DescribeError,
                            >(descs@[i]@)
                            &&& plan.kinds@[i] == spec_kind_of(descs@[i]@)
                            &&& plan.inputs@[i]@ == lines@[i]@.inputs
                            &&& plan.outputs@[i]@ == lines@[i]@.outputs
                        }
                },
                Err(GraphError::Describe(e)) => exists|i: int|
                    0 <= i < lines@.len() && spec_describe(#[trigger] lines@[i]@) == Err::<
                        LayerDescOf<Seq<char>, Seq<usize>>,
                        DescribeError,
                    >(e) && forall|q: int| 0 <= q < i ==> spec_describe(#[trigger] lines@[q]@) is Ok,
            },
    {
        let mut kinds: Vec<NodeKind> = Vec::new();
        let mut inputs: Vec<Vec<usize>> = Vec::new();
        let mut outputs: Vec<Vec<usize>> = Vec::new();
        let mut descs: Vec<LayerDesc> = Vec::new();
        let mut i: usize = 0;
        while i < lines.len()
            invariant
                i <= lines@.len(),
                kinds@.len() == i,
                inputs@.len() == i,
                outputs@.len() == i,
                descs@.len() == i,
                forall|q: int|
                    0 <= q < i ==> {
                        &&& spec_describe(#[trigger] lines@[q]@) == Ok::<
                            LayerDescOf<Seq<char>, Seq<usize>>,
                            DescribeError,
                        >(descs@[q]@)
                        &&& kinds@[q] == spec_kind_of(descs@[q]@)
                        &&& inputs@[q]@ == lines@[q]@.inputs
                        &&& outputs@[q]@ == lines@[q]@.outputs
                    },
            decreases lines@.len() - i,
        {
            let line = &lines[i];
            let d = match LayerDescOf::<String, Vec<usize>>::from_line(line) {
                Ok(d) => d,
                Err(e) => {
                    proof {
                        assert(spec_describe(lines@[i as int]@) == Err::<
                            LayerDescOf<Seq<char>, Seq<usize>>,
                            DescribeError,
                        >(e));
                        assert forall|q: int| 0 <= q < i implies spec_describe(
                            #[trigger] lines@[q]@,
                        ) is Ok by {}
                    }
                    return Err(GraphError::Describe(e));
                },
            };
            kinds.push(kind_of(&d));
            inputs.push(vstd::slice::slice_to_vec(line.input_idx_list.as_slice()));
            outputs.push(vstd::slice::slice_to_vec(line.output_idx_list.as_slice()));
            descs.push(d);
            i = i + 1;
        }
        let plan = GraphPlan::new(kinds, inputs, outputs);
        Ok((plan, descs))
    }
}

} // verus!
