//! A network as plain numbers, for storing it and reading it back.

use crate::network::layer::compute::ComputeLayer;
use crate::network::layer::input::InputLayer;
use crate::network::node::Node;
use crate::network::node::NodeInput;
use crate::network::value::Value;
use crate::network::Edges;
use crate::network::Network;
use crate::network::NetworkConfig;
use vstd::prelude::*;

verus! {

/// The edges of a network as plain numbers: for each compute layer, for each
/// of its nodes, for each edge of the node the place of its source and the
/// bits of its weight.
pub type PlainEdges = Vec<Vec<Vec<(usize, u32)>>>;

/// The edge that a pair of plain numbers stands for.
pub open spec fn edge_of(plain: (usize, u32)) -> NodeInput {
    NodeInput { node_index: plain.0, weight: Value { bits: plain.1 } }
}

/// The pair of plain numbers that stands for an edge.
pub open spec fn plain_of(edge: NodeInput) -> (usize, u32) {
    (edge.node_index, edge.weight.bits)
}

/// The edges that nested plain numbers stand for.
pub open spec fn edges_of(plain: PlainEdges) -> Edges {
    Seq::new(
        plain@.len(),
        |l: int|
            Seq::new(
                plain@[l]@.len(),
                |n: int| Seq::new(plain@[l]@[n]@.len(), |e: int| edge_of(plain@[l]@[n]@[e])),
            ),
    )
}

/// The values that plain bits stand for.
pub open spec fn values_of(bits: Seq<u32>) -> Seq<Value> {
    Seq::new(bits.len(), |i: int| Value { bits: bits[i] })
}

/// An edge written as plain numbers and read back is the same edge, with the
/// same source and the same weight to the bit.
pub proof fn lemma_edge_round_trip(edge: NodeInput)
    ensures
        edge_of(plain_of(edge)) == edge,
{
}

impl Network {
    /// The values of the input layer and the edges, as plain numbers.
    pub fn to_plain(&self) -> (plain: (Vec<u32>, PlainEdges))
        ensures
            values_of(plain.0@) == self.inputs(),
            edges_of(plain.1) == self.edges(),
    {
        let held = self.input_layer.get_outputs(&self.config, None);
        let mut inputs: Vec<u32> = Vec::new();
        let mut i: usize = 0;
        while i < held.len()
            invariant
                i <= held@.len(),
                inputs@.len() == i,
                forall|k: int| 0 <= k < i ==> #[trigger] inputs@[k] == held@[k].bits,
            decreases held@.len() - i,
        {
            inputs.push(held[i].bits);
            i += 1;
        }
        let mut layers: PlainEdges = Vec::new();
        let mut l: usize = 0;
        while l < self.compute_layers.len()
            invariant
                l <= self.compute_layers@.len(),
                layers@.len() == l,
                forall|k: int|
                    0 <= k < l ==> (#[trigger] edges_of(layers)[k]) == self.compute_layers@[k]@,
            decreases self.compute_layers@.len() - l,
        {
            let layer = &self.compute_layers[l];
            let mut nodes: Vec<Vec<(usize, u32)>> = Vec::new();
            let mut n: usize = 0;
            while n < layer.nodes.len()
                invariant
                    n <= layer.nodes@.len(),
                    nodes@.len() == n,
                    forall|m: int|
                        0 <= m < n ==> (#[trigger] nodes@[m])@.len() == layer.nodes@[m]@.len(),
                    forall|m: int, e: int|
                        0 <= m < n && 0 <= e < nodes@[m]@.len() ==> edge_of(
                            #[trigger] nodes@[m]@[e],
                        ) == layer.nodes@[m]@[e],
                decreases layer.nodes@.len() - n,
            {
                let node = &layer.nodes[n];
                let mut edges: Vec<(usize, u32)> = Vec::new();
                let mut e: usize = 0;
                while e < node.inputs.len()
                    invariant
                        e <= node.inputs@.len(),
                        edges@.len() == e,
                        forall|k: int|
                            0 <= k < e ==> edge_of(#[trigger] edges@[k]) == node.inputs@[k],
                    decreases node.inputs@.len() - e,
                {
                    edges.push((node.inputs[e].node_index, node.inputs[e].weight.bits));
                    e += 1;
                }
                nodes.push(edges);
                n += 1;
            }
            let ghost before = layers;
            layers.push(nodes);
            proof {
                assert forall|k: int| 0 <= k < l + 1 implies (#[trigger] edges_of(layers)[k])
                    == self.compute_layers@[k]@ by {
                    if k < l {
                        assert(layers@[k] == before@[k]);
                        assert(edges_of(layers)[k] =~~= edges_of(before)[k]);
                    } else {
                        assert(edges_of(layers)[k] =~~= layer@);
                    }
                }
            }
            l += 1;
        }
        proof {
            assert(values_of(inputs@) =~= self.inputs());
            assert(edges_of(layers) =~= self.edges());
        }
        (inputs, layers)
    }

    /// The network with the given functions whose input layer holds the given
    /// values and whose edges are the given ones.
    pub fn from_plain(config: NetworkConfig, inputs: &Vec<u32>, layers: &PlainEdges) -> (network:
        Network)
        ensures
            network.config == config,
            network.inputs() == values_of(inputs@),
            network.edges() == edges_of(*layers),
    {
        let mut values: Vec<Value> = Vec::new();
        let mut i: usize = 0;
        while i < inputs.len()
            invariant
                i <= inputs@.len(),
                values@.len() == i,
                forall|k: int| 0 <= k < i ==> (#[trigger] values@[k]).bits == inputs@[k],
            decreases inputs@.len() - i,
        {
            values.push(Value { bits: inputs[i] });
            i += 1;
        }
        let mut compute_layers: Vec<ComputeLayer> = Vec::new();
        let mut l: usize = 0;
        while l < layers.len()
            invariant
                l <= layers@.len(),
                compute_layers@.len() == l,
                forall|k: int|
                    0 <= k < l ==> (#[trigger] compute_layers@[k])@ == edges_of(*layers)[k],
            decreases layers@.len() - l,
        {
            let plain_nodes = &layers[l];
            let mut nodes: Vec<Node> = Vec::new();
            let mut n: usize = 0;
            while n < plain_nodes.len()
                invariant
                    n <= plain_nodes@.len(),
                    l < layers@.len(),
                    *plain_nodes == layers@[l as int],
                    nodes@.len() == n,
                    forall|m: int|
                        0 <= m < n ==> (#[trigger] nodes@[m])@ == edges_of(*layers)[l as int][m],
                decreases plain_nodes@.len() - n,
            {
                let plain_edges = &plain_nodes[n];
                let mut edges: Vec<NodeInput> = Vec::new();
                let mut e: usize = 0;
                while e < plain_edges.len()
                    invariant
                        e <= plain_edges@.len(),
                        edges@.len() == e,
                        forall|k: int|
                            0 <= k < e ==> #[trigger] edges@[k] == edge_of(plain_edges@[k]),
                    decreases plain_edges@.len() - e,
                {
                    edges.push(
                        NodeInput {
                            node_index: plain_edges[e].0,
                            weight: Value { bits: plain_edges[e].1 },
                        },
                    );
                    e += 1;
                }
                let node = Node { inputs: edges };
                proof {
                    assert(node@ =~= edges_of(*layers)[l as int][n as int]);
                }
                nodes.push(node);
                n += 1;
            }
            let layer = ComputeLayer { nodes };
            proof {
                assert(layer@ =~= edges_of(*layers)[l as int]);
            }
            compute_layers.push(layer);
            l += 1;
        }
        let network = Network {
            config,
            input_layer: InputLayer::with_values(values),
            compute_layers,
        };
        proof {
            assert(network.inputs() =~= values_of(inputs@));
            assert(network.edges() =~= edges_of(*layers));
        }
        network
    }
}

/// A network written as plain numbers and read back is the same network: it
/// has the same functions, the same input values and the same edges, every
/// source and every weight to the bit.
pub proof fn lemma_plain_round_trip(
    network: &Network,
    plain: (Vec<u32>, PlainEdges),
    read_back: &Network,
)
    requires
        values_of(plain.0@) == network.inputs(),
        edges_of(plain.1) == network.edges(),
        read_back.config == network.config,
        read_back.inputs() == values_of(plain.0@),
        read_back.edges() == edges_of(plain.1),
    ensures
        read_back.config == network.config,
        read_back.inputs() == network.inputs(),
        read_back.edges() == network.edges(),
        read_back.well_formed() == network.well_formed(),
        read_back.free_of_duplicates() == network.free_of_duplicates(),
{
}

} // verus!
