use crate::network::functions::Activator;
use crate::network::functions::Combinator;
use crate::network::functions::Operation;
use crate::network::functions::answers_all;
use crate::network::layer::Layer;
use crate::network::layer::compute::ComputeLayer;
use crate::network::layer::compute::layer_sources_within;
use crate::network::layer::compute::layer_yields;
use crate::network::layer::input::InputLayer;
use crate::network::node::NodeInput;
use crate::network::node::sources_distinct;
use crate::network::value::Value;
use vstd::prelude::*;

pub mod deterministic;
pub mod functions;
pub mod harness;
pub mod layer;
pub mod node;
pub mod plain;
pub mod value;
pub mod zero;

verus! {

/// The two functions that a network computes with.
#[derive(Debug, Clone, Copy, PartialEq, Eq, Structural)]
pub struct NetworkConfig {
    pub activator: Activator,
    pub combinator: Combinator,
}

impl Default for NetworkConfig {
    fn default() -> (config: NetworkConfig)
        ensures
            config.activator == Activator::Tanh,
            config.combinator == Combinator::Add,
    {
        NetworkConfig { activator: Activator::Tanh, combinator: Combinator::Add }
    }
}

/// The edges of a network: for each compute layer, for each of its nodes, the
/// node's incoming edges.
pub type Edges = Seq<Seq<Seq<NodeInput>>>;

/// The number of nodes in the layer that feeds compute layer `l`: the input
/// layer for the first, the compute layer before it for the others.
pub open spec fn height_before(edges: Edges, input_height: int, l: int) -> int {
    if l == 0 {
        input_height
    } else {
        edges[l - 1].len() as int
    }
}

/// The edges with those of node `n` of compute layer `l` replaced.
pub open spec fn with_node(edges: Edges, l: int, n: int, node: Seq<NodeInput>) -> Edges {
    edges.update(l, edges[l].update(n, node))
}

/// Whether every edge reads a node of the layer immediately before its own.
pub open spec fn edges_resolve(edges: Edges, input_height: int) -> bool {
    forall|l: int|
        0 <= l < edges.len() ==> layer_sources_within(
            edges[l],
            #[trigger] height_before(edges, input_height, l),
        )
}

/// Whether no node has two edges that read the same node.
pub open spec fn edges_distinct(edges: Edges) -> bool {
    forall|l: int, n: int|
        0 <= l < edges.len() && 0 <= n < edges[l].len() ==> sources_distinct(
            #[trigger] edges[l][n],
        )
}

/// Whether two edge sets have the same number of layers and, layer by layer,
/// the same number of nodes.
pub open spec fn same_heights(a: Edges, b: Edges) -> bool {
    &&& a.len() == b.len()
    &&& forall|l: int| 0 <= l < a.len() ==> (#[trigger] a[l]).len() == b[l].len()
}

/// Whether `outputs` is what `arith` can give for the last of the given compute
/// layers when the input layer put out `inputs` and each layer feeds the next.
/// Without compute layers that is `inputs` itself.
pub open spec fn layers_yield<A: Fn(Operation) -> Value>(
    arith: &A,
    config: NetworkConfig,
    edges: Edges,
    inputs: Seq<Value>,
    outputs: Seq<Value>,
) -> bool
    decreases edges.len(),
{
    if edges.len() == 0 {
        outputs == inputs
    } else {
        exists|fed: Seq<Value>|
            layers_yield(arith, config, edges.drop_last(), inputs, fed) && #[trigger] layer_yields(
                arith,
                config,
                edges.last(),
                fed,
                outputs,
            )
    }
}

/// A strictly layered feed-forward network: an input layer, then one or more
/// compute layers, the last of which is the output layer.
#[derive(Debug, PartialEq, Eq)]
pub struct Network {
    pub config: NetworkConfig,
    pub input_layer: InputLayer,
    pub compute_layers: Vec<ComputeLayer>,
}

impl Clone for Network {
    fn clone(&self) -> (copy: Network)
        ensures
            copy.config == self.config,
            copy.inputs() == self.inputs(),
            copy.edges() == self.edges(),
    {
        let mut compute_layers: Vec<ComputeLayer> = Vec::new();
        let mut l: usize = 0;
        while l < self.compute_layers.len()
            invariant
                l <= self.compute_layers@.len(),
                compute_layers@.len() == l,
                forall|i: int| 0 <= i < l ==> (#[trigger] compute_layers@[i])@ == self.compute_layers@[i]@,
            decreases self.compute_layers@.len() - l,
        {
            compute_layers.push(self.compute_layers[l].clone());
            l += 1;
        }
        let copy = Network {
            config: self.config,
            input_layer: self.input_layer.clone(),
            compute_layers,
        };
        proof {
            assert(copy.edges() =~= self.edges());
        }
        copy
    }
}

impl Network {
    /// The edges of the network, compute layer by compute layer.
    pub open spec fn edges(&self) -> Edges {
        Seq::new(self.compute_layers@.len(), |l: int| self.compute_layers@[l]@)
    }

    /// The values that the input layer holds.
    pub open spec fn inputs(&self) -> Seq<Value> {
        self.input_layer@
    }

    /// Every edge reads a node of the layer immediately before its own: no edge
    /// dangles.
    pub open spec fn well_formed(&self) -> bool {
        edges_resolve(self.edges(), self.inputs().len() as int)
    }

    /// No node has two edges from the same source.
    pub open spec fn free_of_duplicates(&self) -> bool {
        edges_distinct(self.edges())
    }

    /// Whether `other` has the same layers with the same numbers of nodes.
    pub open spec fn same_shape(&self, other: &Network) -> bool {
        &&& self.inputs().len() == other.inputs().len()
        &&& same_heights(self.edges(), other.edges())
    }

    /// Whether `outputs` is what `arith` can give for the output layer with the
    /// inputs that the network now holds.
    pub open spec fn yields<A: Fn(Operation) -> Value>(&self, arith: &A, outputs: Seq<Value>) -> bool {
        layers_yield(arith, self.config, self.edges(), self.inputs(), outputs)
    }

    /// A network without edges: an input layer of `input_layer_height` nodes
    /// that hold zero, `hidden_layer_count` hidden layers of
    /// `hidden_layer_height` nodes each, and an output layer of
    /// `output_layer_height` nodes.
    pub fn new(
        config: NetworkConfig,
        input_layer_height: usize,
        hidden_layer_count: usize,
        hidden_layer_height: usize,
        output_layer_height: usize,
    ) -> (network: Network)
        ensures
            network.config == config,
            network.inputs().len() == input_layer_height,
            forall|i: int| 0 <= i < input_layer_height ==> (#[trigger] network.inputs()[i]).bits == 0,
            network.edges().len() == hidden_layer_count + 1,
            forall|l: int|
                0 <= l < hidden_layer_count ==> (#[trigger] network.edges()[l]).len()
                    == hidden_layer_height,
            network.edges()[hidden_layer_count as int].len() == output_layer_height,
            forall|l: int, n: int|
                0 <= l < network.edges().len() && 0 <= n < network.edges()[l].len() ==> (
                #[trigger] network.edges()[l][n]).len() == 0,
            network.well_formed(),
            network.free_of_duplicates(),
    {
        let input_layer = InputLayer::new(input_layer_height);
        let mut compute_layers: Vec<ComputeLayer> = Vec::new();
        let mut l: usize = 0;
        while l < hidden_layer_count
            invariant
                l <= hidden_layer_count,
                compute_layers@.len() == l,
                forall|i: int| 0 <= i < l ==> (#[trigger] compute_layers@[i])@.len() == hidden_layer_height,
                forall|i: int, n: int|
                    0 <= i < l && 0 <= n < compute_layers@[i]@.len() ==> (
                    #[trigger] compute_layers@[i]@[n]).len() == 0,
            decreases hidden_layer_count - l,
        {
            compute_layers.push(ComputeLayer::default_n_nodes(hidden_layer_height));
            l += 1;
        }
        compute_layers.push(ComputeLayer::default_n_nodes(output_layer_height));
        Network { config, input_layer, compute_layers }
    }

    /// Whether every edge reads a node of the layer immediately before its
    /// own.
    pub fn is_well_formed(&self) -> (ok: bool)
        ensures
            ok == self.well_formed(),
    {
        let mut before: usize = self.input_layer.height();
        let mut l: usize = 0;
        while l < self.compute_layers.len()
            invariant
                l <= self.compute_layers@.len(),
                before == height_before(self.edges(), self.inputs().len() as int, l as int),
                forall|k: int|
                    0 <= k < l ==> layer_sources_within(
                        self.edges()[k],
                        #[trigger] height_before(self.edges(), self.inputs().len() as int, k),
                    ),
            decreases self.compute_layers@.len() - l,
        {
            if !self.compute_layers[l].reads_within(before) {
                proof {
                    assert(!layer_sources_within(
                        self.edges()[l as int],
                        height_before(self.edges(), self.inputs().len() as int, l as int),
                    ));
                }
                return false;
            }
            before = self.compute_layers[l].nodes.len();
            l += 1;
        }
        true
    }

    /// Whether no node has two edges from the same source.
    pub fn is_free_of_duplicates(&self) -> (ok: bool)
        ensures
            ok == self.free_of_duplicates(),
    {
        let mut l: usize = 0;
        while l < self.compute_layers.len()
            invariant
                l <= self.compute_layers@.len(),
                forall|k: int, m: int|
                    0 <= k < l && 0 <= m < self.edges()[k].len() ==> sources_distinct(
                        #[trigger] self.edges()[k][m],
                    ),
            decreases self.compute_layers@.len() - l,
        {
            if !self.compute_layers[l].reads_each_source_once() {
                proof {
                    let m = choose|m: int|
                        0 <= m < self.edges()[l as int].len() && !sources_distinct(
                            #[trigger] self.edges()[l as int][m],
                        );
                    assert(!sources_distinct(self.edges()[l as int][m]));
                }
                return false;
            }
            l += 1;
        }
        true
    }

    /// The number of nodes in the input layer.
    pub fn input_height(&self) -> (height: usize)
        ensures
            height == self.inputs().len(),
    {
        self.input_layer.height()
    }

    /// The number of nodes in the output layer; in a network without compute
    /// layers, in the input layer.
    pub fn output_height(&self) -> (height: usize)
        ensures
            height == height_before(
                self.edges(),
                self.inputs().len() as int,
                self.edges().len() as int,
            ),
    {
        let layer_count: usize = self.compute_layers.len();
        if layer_count == 0 {
            self.input_layer.height()
        } else {
            self.compute_layers[layer_count - 1].nodes.len()
        }
    }

    /// The values of the output layer for the inputs that the network now
    /// holds, each layer fed with what the layer before it put out.
    pub fn compute<A: Fn(Operation) -> Value>(&self, arith: &A) -> (outputs: Vec<Value>)
        requires
            self.well_formed(),
            answers_all(arith),
        ensures
            self.yields(arith, outputs@),
            outputs@.len() == height_before(
                self.edges(),
                self.inputs().len() as int,
                self.edges().len() as int,
            ),
    {
        let mut values = self.input_layer.get_outputs(&self.config, None);
        let mut l: usize = 0;
        proof {
            assert(self.edges().take(0) =~= Seq::<Seq<Seq<NodeInput>>>::empty());
        }
        while l < self.compute_layers.len()
            invariant
                self.well_formed(),
                answers_all(arith),
                l <= self.compute_layers@.len(),
                values@.len() == height_before(self.edges(), self.inputs().len() as int, l as int),
                layers_yield(arith, self.config, self.edges().take(l as int), self.inputs(), values@),
            decreases self.compute_layers@.len() - l,
        {
            let ghost fed = values@;
            proof {
                assert(layer_sources_within(
                    self.edges()[l as int],
                    height_before(self.edges(), self.inputs().len() as int, l as int),
                ));
            }
            values = self.compute_layers[l].get_outputs(&self.config, Some(values), arith);
            proof {
                let longer = self.edges().take(l + 1);
                assert(longer.drop_last() =~= self.edges().take(l as int));
                assert(longer.last() == self.edges()[l as int]);
                assert(layer_yields(arith, self.config, longer.last(), fed, values@));
            }
            l += 1;
        }
        proof {
            assert(self.edges().take(l as int) =~= self.edges());
        }
        values
    }

    /// Every layer of the network, the input layer first.
    pub fn layers(&self) -> (layers: Vec<Layer<'_>>)
        ensures
            layers@.len() == self.edges().len() + 1,
            layers@[0] == Layer::Input(&self.input_layer),
            forall|l: int|
                0 <= l < self.edges().len() ==> #[trigger] layers@[l + 1] == Layer::Compute(
                    &self.compute_layers@[l],
                ),
    {
        let mut layers: Vec<Layer<'_>> = Vec::new();
        layers.push(Layer::Input(&self.input_layer));
        let mut l: usize = 0;
        while l < self.compute_layers.len()
            invariant
                l <= self.compute_layers@.len(),
                layers@.len() == l + 1,
                layers@[0] == Layer::Input(&self.input_layer),
                forall|i: int|
                    0 <= i < l ==> #[trigger] layers@[i + 1] == Layer::Compute(
                        &self.compute_layers@[i],
                    ),
            decreases self.compute_layers@.len() - l,
        {
            layers.push(Layer::Compute(&self.compute_layers[l]));
            l += 1;
        }
        layers
    }

    /// The layer at `index`, counting the input layer as the first; nothing
    /// beyond the output layer.
    pub fn layer(&self, index: usize) -> (layer: Option<Layer<'_>>)
        ensures
            index == 0 ==> layer == Some(Layer::Input(&self.input_layer)),
            0 < index <= self.edges().len() ==> layer == Some(
                Layer::Compute(&self.compute_layers@[index - 1]),
            ),
            index > self.edges().len() ==> layer is None,
    {
        if index == 0 {
            Some(Layer::Input(&self.input_layer))
        } else if index <= self.compute_layers.len() {
            Some(Layer::Compute(&self.compute_layers[index - 1]))
        } else {
            None
        }
    }
}

} // verus!
