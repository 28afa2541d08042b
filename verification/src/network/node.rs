use crate::network::NetworkConfig;
use crate::network::functions::Operation;
use crate::network::functions::answers_all;
use crate::network::functions::combines_to;
use crate::network::value::Value;
use vstd::prelude::*;

verus! {

/// One incoming edge of a node: the node of the preceding layer that it reads
/// and the weight it gives to what it reads.
///
/// A node is named by its place in its layer. Layers keep the nodes they were
/// made with, so the place of a node never changes: it names the same node
/// whatever edges are created or removed, and wherever the network is stored.
#[derive(Debug, Clone, Copy, PartialEq, Eq, Structural)]
pub struct NodeInput {
    pub node_index: usize,
    pub weight: Value,
}

/// A node of a compute layer: its incoming edges, oldest first.
#[derive(Debug, PartialEq, Eq)]
pub struct Node {
    pub inputs: Vec<NodeInput>,
}

impl View for Node {
    type V = Seq<NodeInput>;

    open spec fn view(&self) -> Seq<NodeInput> {
        self.inputs@
    }
}

/// Whether every edge reads a node among the first `height` of the preceding
/// layer.
pub open spec fn sources_within(edges: Seq<NodeInput>, height: int) -> bool {
    forall|e: int| 0 <= e < edges.len() ==> (#[trigger] edges[e]).node_index < height
}

/// Whether no two edges read the same node.
pub open spec fn sources_distinct(edges: Seq<NodeInput>) -> bool {
    forall|e: int, f: int|
        0 <= e < f < edges.len() ==> (#[trigger] edges[e]).node_index != (
        #[trigger] edges[f]).node_index
}

/// Whether some edge reads the node at `source`.
pub open spec fn reads_source(edges: Seq<NodeInput>, source: usize) -> bool {
    exists|e: int| 0 <= e < edges.len() && (#[trigger] edges[e]).node_index == source
}

/// Whether `out` is a value that `arith` can give for what `edge` contributes
/// when the preceding layer put out `inputs`.
pub open spec fn edge_yields<A: Fn(Operation) -> Value>(
    arith: &A,
    config: NetworkConfig,
    edge: NodeInput,
    inputs: Seq<Value>,
    out: Value,
) -> bool {
    arith.ensures(
        (
            Operation::Weigh {
                activator: config.activator,
                input: inputs[edge.node_index as int],
                weight: edge.weight,
            },
        ),
        out,
    )
}

/// Whether `parts` holds, edge by edge, a value that `arith` can give for that
/// edge's contribution.
pub open spec fn edges_yield<A: Fn(Operation) -> Value>(
    arith: &A,
    config: NetworkConfig,
    edges: Seq<NodeInput>,
    inputs: Seq<Value>,
    parts: Seq<Value>,
) -> bool {
    &&& parts.len() == edges.len()
    &&& forall|e: int|
        0 <= e < edges.len() ==> edge_yields(arith, config, edges[e], inputs, #[trigger] parts[e])
}

/// Whether `out` is a value that `arith` can give for a node with the given
/// edges when the preceding layer put out `inputs`: the contributions of its
/// edges, folded with the combinator in edge order; the combinator's neutral
/// element without edges.
pub open spec fn node_yields<A: Fn(Operation) -> Value>(
    arith: &A,
    config: NetworkConfig,
    edges: Seq<NodeInput>,
    inputs: Seq<Value>,
    out: Value,
) -> bool {
    exists|parts: Seq<Value>|
        #[trigger] edges_yield(arith, config, edges, inputs, parts) && combines_to(
            arith,
            config.combinator,
            parts,
            out,
        )
}

impl Clone for Node {
    fn clone(&self) -> (copy: Node)
        ensures
            copy@ == self@,
    {
        Node { inputs: self.inputs.clone() }
    }
}

impl Default for Node {
    fn default() -> (node: Node)
        ensures
            node@.len() == 0,
    {
        Node { inputs: Vec::new() }
    }
}

impl NodeInput {
    /// What this edge contributes when the preceding layer put out
    /// `input_values`.
    pub fn compute<A: Fn(Operation) -> Value>(
        &self,
        config: &NetworkConfig,
        input_values: &Vec<Value>,
        arith: &A,
    ) -> (out: Value)
        requires
            answers_all(arith),
            self.node_index < input_values@.len(),
        ensures
            edge_yields(arith, *config, *self, input_values@, out),
    {
        let input_value = input_values[self.node_index];
        config.activator.activate(input_value, self.weight, arith)
    }
}

impl Node {
    /// Whether every edge reads a node among the first `height` of the
    /// preceding layer.
    pub fn reads_within(&self, height: usize) -> (ok: bool)
        ensures
            ok == sources_within(self@, height as int),
    {
        let mut e: usize = 0;
        while e < self.inputs.len()
            invariant
                e <= self@.len(),
                forall|i: int| 0 <= i < e ==> (#[trigger] self@[i]).node_index < height,
            decreases self@.len() - e,
        {
            if self.inputs[e].node_index >= height {
                return false;
            }
            e += 1;
        }
        true
    }

    /// Whether no two edges read the same node.
    pub fn reads_each_source_once(&self) -> (ok: bool)
        ensures
            ok == sources_distinct(self@),
    {
        let mut f: usize = 0;
        while f < self.inputs.len()
            invariant
                f <= self@.len(),
                forall|i: int, j: int|
                    0 <= i < j < f ==> (#[trigger] self@[i]).node_index != (
                    #[trigger] self@[j]).node_index,
            decreases self@.len() - f,
        {
            let mut e: usize = 0;
            while e < f
                invariant
                    e <= f < self@.len(),
                    forall|i: int| 0 <= i < e ==> (#[trigger] self@[i]).node_index != self@[f as int].node_index,
                decreases f - e,
            {
                if self.inputs[e].node_index == self.inputs[f].node_index {
                    return false;
                }
                e += 1;
            }
            f += 1;
        }
        true
    }

    /// The value of this node when the preceding layer put out `input_values`.
    pub fn compute<A: Fn(Operation) -> Value>(
        &self,
        config: &NetworkConfig,
        input_values: &Vec<Value>,
        arith: &A,
    ) -> (out: Value)
        requires
            answers_all(arith),
            sources_within(self@, input_values@.len() as int),
        ensures
            node_yields(arith, *config, self@, input_values@, out),
    {
        let mut folded: Option<Value> = None;
        let ghost mut parts: Seq<Value> = Seq::empty();
        let mut e: usize = 0;
        while e < self.inputs.len()
            invariant
                answers_all(arith),
                sources_within(self@, input_values@.len() as int),
                e <= self@.len(),
                edges_yield(arith, *config, self@.take(e as int), input_values@, parts),
                e == 0 ==> folded is None,
                e > 0 ==> folded is Some && combines_to(
                    arith,
                    config.combinator,
                    parts,
                    folded.unwrap(),
                ),
            decreases self@.len() - e,
        {
            let part = self.inputs[e].compute(config, input_values, arith);
            let next = match folded {
                None => part,
                Some(so_far) => config.combinator.combine(so_far, part, arith),
            };
            proof {
                let longer = parts.push(part);
                assert(longer.drop_last() =~= parts);
                assert(edges_yield(
                    arith,
                    *config,
                    self@.take(e + 1),
                    input_values@,
                    longer,
                )) by {
                    assert forall|i: int| 0 <= i < e + 1 implies edge_yields(
                        arith,
                        *config,
                        self@.take(e + 1)[i],
                        input_values@,
                        #[trigger] longer[i],
                    ) by {
                        if i < e {
                            assert(self@.take(e as int)[i] == self@[i]);
                            assert(longer[i] == parts[i]);
                        }
                    }
                }
                if e == 0 {
                    assert(longer.len() == 1 && longer[0] == part);
                    assert(next == part);
                    assert(combines_to(arith, config.combinator, longer, next));
                } else {
                    assert(longer.len() >= 2 && longer.last() == part);
                    assert(combines_to(
                        arith,
                        config.combinator,
                        longer.drop_last(),
                        folded.unwrap(),
                    ));
                    assert(arith.ensures(
                        (
                            Operation::Combine {
                                combinator: config.combinator,
                                left: folded.unwrap(),
                                right: longer.last(),
                            },
                        ),
                        next,
                    ));
                    assert(combines_to(arith, config.combinator, longer, next));
                }
                parts = longer;
            }
            folded = Some(next);
            e += 1;
        }
        proof {
            assert(self@.take(e as int) =~= self@);
        }
        match folded {
            Some(value) => value,
            None => config.combinator.neutral(),
        }
    }
}

} // verus!
