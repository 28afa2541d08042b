use crate::network::NetworkConfig;
use crate::network::functions::Operation;
use crate::network::functions::answers_all;
use crate::network::layer::input::node_indices;
use crate::network::node::Node;
use crate::network::node::NodeInput;
use crate::network::node::node_yields;
use crate::network::node::sources_distinct;
use crate::network::node::sources_within;
use crate::network::value::Value;
use vstd::prelude::*;

verus! {

/// A layer whose nodes compute: a hidden layer or the output layer.
#[derive(Debug, PartialEq, Eq)]
pub struct ComputeLayer {
    pub nodes: Vec<Node>,
}

impl View for ComputeLayer {
    type V = Seq<Seq<NodeInput>>;

    open spec fn view(&self) -> Seq<Seq<NodeInput>> {
        Seq::new(self.nodes@.len(), |n: int| self.nodes@[n]@)
    }
}

/// Whether every edge of the layer reads a node among the first `height` of the
/// preceding layer.
pub open spec fn layer_sources_within(layer: Seq<Seq<NodeInput>>, height: int) -> bool {
    forall|n: int| 0 <= n < layer.len() ==> sources_within(#[trigger] layer[n], height)
}

/// Whether `outputs` holds, node by node, a value that `arith` can give for
/// that node when the preceding layer put out `inputs`.
pub open spec fn layer_yields<A: Fn(Operation) -> Value>(
    arith: &A,
    config: NetworkConfig,
    layer: Seq<Seq<NodeInput>>,
    inputs: Seq<Value>,
    outputs: Seq<Value>,
) -> bool {
    &&& outputs.len() == layer.len()
    &&& forall|n: int|
        0 <= n < layer.len() ==> node_yields(arith, config, layer[n], inputs, #[trigger] outputs[n])
}

impl Clone for ComputeLayer {
    fn clone(&self) -> (copy: ComputeLayer)
        ensures
            copy@ == self@,
    {
        let mut nodes: Vec<Node> = Vec::new();
        let mut n: usize = 0;
        while n < self.nodes.len()
            invariant
                n <= self.nodes@.len(),
                nodes@.len() == n,
                forall|i: int| 0 <= i < n ==> (#[trigger] nodes@[i])@ == self.nodes@[i]@,
            decreases self.nodes@.len() - n,
        {
            nodes.push(self.nodes[n].clone());
            n += 1;
        }
        let copy = ComputeLayer { nodes };
        proof {
            assert(copy@ =~= self@);
        }
        copy
    }
}

impl ComputeLayer {
    /// A layer of `count` nodes without edges.
    pub fn default_n_nodes(count: usize) -> (layer: ComputeLayer)
        ensures
            layer@.len() == count,
            forall|n: int| 0 <= n < count ==> (#[trigger] layer@[n]).len() == 0,
    {
        let mut nodes: Vec<Node> = Vec::new();
        let mut n: usize = 0;
        while n < count
            invariant
                n <= count,
                nodes@.len() == n,
                forall|i: int| 0 <= i < n ==> (#[trigger] nodes@[i])@.len() == 0,
            decreases count - n,
        {
            nodes.push(Node::default());
            n += 1;
        }
        ComputeLayer { nodes }
    }

    /// Whether every edge of the layer reads a node among the first `height`
    /// of the preceding layer.
    pub fn reads_within(&self, height: usize) -> (ok: bool)
        ensures
            ok == layer_sources_within(self@, height as int),
    {
        let mut n: usize = 0;
        while n < self.nodes.len()
            invariant
                n <= self.nodes@.len(),
                forall|m: int| 0 <= m < n ==> sources_within(#[trigger] self@[m], height as int),
            decreases self.nodes@.len() - n,
        {
            if !self.nodes[n].reads_within(height) {
                proof {
                    assert(!sources_within(self@[n as int], height as int));
                }
                return false;
            }
            n += 1;
        }
        true
    }

    /// Whether no node of the layer has two edges that read the same node.
    pub fn reads_each_source_once(&self) -> (ok: bool)
        ensures
            ok == (forall|m: int| 0 <= m < self@.len() ==> sources_distinct(#[trigger] self@[m])),
    {
        let mut n: usize = 0;
        while n < self.nodes.len()
            invariant
                n <= self.nodes@.len(),
                forall|m: int| 0 <= m < n ==> sources_distinct(#[trigger] self@[m]),
            decreases self.nodes@.len() - n,
        {
            if !self.nodes[n].reads_each_source_once() {
                proof {
                    assert(!sources_distinct(self@[n as int]));
                }
                return false;
            }
            n += 1;
        }
        true
    }

    /// The value of each node when the preceding layer put out `inputs`.
    pub fn get_outputs<A: Fn(Operation) -> Value>(
        &self,
        config: &NetworkConfig,
        inputs: Option<Vec<Value>>,
        arith: &A,
    ) -> (outputs: Vec<Value>)
        requires
            answers_all(arith),
            inputs is Some,
            layer_sources_within(self@, inputs.unwrap()@.len() as int),
        ensures
            layer_yields(arith, *config, self@, inputs.unwrap()@, outputs@),
    {
        let inputs = inputs.unwrap();
        let mut outputs: Vec<Value> = Vec::new();
        let mut n: usize = 0;
        while n < self.nodes.len()
            invariant
                answers_all(arith),
                layer_sources_within(self@, inputs@.len() as int),
                n <= self.nodes@.len(),
                outputs@.len() == n,
                forall|i: int|
                    0 <= i < n ==> node_yields(
                        arith,
                        *config,
                        self@[i],
                        inputs@,
                        #[trigger] outputs@[i],
                    ),
            decreases self.nodes@.len() - n,
        {
            proof {
                assert(sources_within(self@[n as int], inputs@.len() as int));
            }
            let value = self.nodes[n].compute(config, &inputs, arith);
            outputs.push(value);
            n += 1;
        }
        outputs
    }

    /// The place of each node in the layer, in order.
    pub fn output_node_indices(&self) -> (indices: Vec<usize>)
        ensures
            indices@ == Seq::new(self@.len(), |i: int| i as usize),
    {
        node_indices(self.nodes.len())
    }
}

} // verus!
