use crate::network::Edges;
use crate::network::Network;
use crate::network::edges_distinct;
use crate::network::edges_resolve;
use crate::network::functions::Combinator;
use crate::network::functions::Operation;
use crate::network::functions::answers_all;
use crate::network::height_before;
use crate::network::layer::compute::layer_sources_within;
use crate::network::node::NodeInput;
use crate::network::node::reads_source;
use crate::network::node::sources_distinct;
use crate::network::node::sources_within;
use crate::network::same_heights;
use crate::network::value::INFINITY_BITS;
use crate::network::value::Value;
use crate::network::with_node;
use crate::random::choose_index;
use crate::random::random_below;
use vstd::prelude::*;

verus! {

/// A random number that the mutation engine asks of its caller.
#[derive(Debug, Clone, Copy, PartialEq, Eq, Structural)]
pub enum Draw {
    /// An adjustment for an edge of the given weight: drawn evenly between
    /// minus `m` and `m`, where `m` is half the weight's magnitude, or a
    /// hundredth where that is more.
    Adjustment { weight: Value },
    /// The weight of a new edge: drawn evenly between minus two and two.
    Weight,
}

/// The bit pattern of two, the greatest magnitude of a new weight.
pub const TWO_BITS: u32 = 0x4000_0000;

/// The bit pattern of a hundredth, the least bound of an adjustment.
pub const HUNDREDTH_BITS: u32 = 0x3C23_D70A;

/// What halves a number when it is taken from its magnitude bits: one step of
/// the exponent.
pub const EXPONENT_STEP: u32 = 0x0080_0000;

/// The magnitude bits that no adjustment of an edge of the given weight
/// exceeds: those of half the weight's magnitude, or of a hundredth where that
/// is more.
pub open spec fn adjustment_bound(weight: Value) -> int {
    if weight.magnitude() - EXPONENT_STEP >= HUNDREDTH_BITS {
        weight.magnitude() - EXPONENT_STEP
    } else {
        HUNDREDTH_BITS as int
    }
}

/// Whether `drawn` lies in the range of the request: an adjustment has at
/// most the magnitude of half the weight's, or of a hundredth where that is
/// more; a new weight lies between minus two and two. Either is a number.
pub open spec fn in_range(request: Draw, drawn: Value) -> bool {
    match request {
        Draw::Adjustment { weight } => drawn.magnitude() <= adjustment_bound(weight),
        Draw::Weight => drawn.magnitude() <= TWO_BITS,
    }
}

/// Whether `draw` answers every request, and each with a number in the range
/// of the request.
pub open spec fn draws_all<D: Fn(Draw) -> Value>(draw: &D) -> bool {
    &&& forall|request: Draw| #[trigger] draw.requires((request,))
    &&& forall|request: Draw, drawn: Value|
        #[trigger] draw.ensures((request,), drawn) ==> in_range(request, drawn)
}

/// A number in the range of a request is a number: no draw that is in range
/// is not-a-number or infinite.
pub proof fn lemma_in_range_is_finite(request: Draw, drawn: Value)
    requires
        in_range(request, drawn),
    ensures
        !drawn.is_nan(),
        drawn.magnitude() < INFINITY_BITS,
{
}

/// The three kinds of elementary edit.
#[derive(Debug, Clone, Copy, PartialEq, Eq, Structural)]
pub enum MutationKind {
    AdjustWeight,
    InputCreation,
    InputDeletion,
}

/// One proposed edit of a network's edges. It names the node it edits by the
/// place of its compute layer and its place in that layer.
#[derive(Debug, Clone, Copy, PartialEq, Eq, Structural)]
pub enum Mutation {
    /// Adds `adjustment` to the weight of the edge at `input`.
    AdjustWeight { layer: usize, node: usize, input: usize, adjustment: Value },
    /// Appends an edge that reads node `src_node_index` of the preceding layer.
    InputCreation { layer: usize, node: usize, src_node_index: usize, weight: Value },
    /// Removes the edge at `input_index`.
    InputDeletion { layer: usize, node: usize, input_index: usize },
}

impl Mutation {
    /// The kind of this edit.
    pub open spec fn kind(&self) -> MutationKind {
        match self {
            Mutation::AdjustWeight { .. } => MutationKind::AdjustWeight,
            Mutation::InputCreation { .. } => MutationKind::InputCreation,
            Mutation::InputDeletion { .. } => MutationKind::InputDeletion,
        }
    }

    /// The place of the compute layer that the edit touches.
    pub open spec fn layer(&self) -> int {
        match self {
            Mutation::AdjustWeight { layer, .. } => *layer as int,
            Mutation::InputCreation { layer, .. } => *layer as int,
            Mutation::InputDeletion { layer, .. } => *layer as int,
        }
    }

    /// The place, in its layer, of the node that the edit touches.
    pub open spec fn node(&self) -> int {
        match self {
            Mutation::AdjustWeight { node, .. } => *node as int,
            Mutation::InputCreation { node, .. } => *node as int,
            Mutation::InputDeletion { node, .. } => *node as int,
        }
    }

    /// Whether the edit can be made on the given edges: its node exists; an
    /// edge it adjusts or removes exists; an edge it creates reads a node of
    /// the layer immediately before, from which the node has no edge yet.
    pub open spec fn applies_to(&self, edges: Edges, input_height: int) -> bool {
        &&& 0 <= self.layer() < edges.len()
        &&& 0 <= self.node() < edges[self.layer()].len()
        &&& match self {
            Mutation::AdjustWeight { input, .. } => *input < edges[self.layer()][self.node()].len(),
            Mutation::InputCreation { src_node_index, .. } => {
                &&& *src_node_index < height_before(edges, input_height, self.layer())
                &&& !reads_source(edges[self.layer()][self.node()], *src_node_index)
            },
            Mutation::InputDeletion { input_index, .. } => *input_index
                < edges[self.layer()][self.node()].len(),
        }
    }

    /// Whether the random part of the edit is one that `draw` can give for the
    /// given edges, and lies in its range: an adjustment within half the
    /// magnitude of the weight it adjusts, or a hundredth where that is more;
    /// a new weight between minus two and two.
    pub open spec fn drawn_by<D: Fn(Draw) -> Value>(&self, draw: &D, edges: Edges) -> bool {
        match self {
            Mutation::AdjustWeight { input, adjustment, .. } => {
                let request = Draw::Adjustment {
                    weight: edges[self.layer()][self.node()][*input as int].weight,
                };
                draw.ensures((request,), *adjustment) && in_range(request, *adjustment)
            },
            Mutation::InputCreation { weight, .. } => draw.ensures((Draw::Weight,), *weight)
                && in_range(Draw::Weight, *weight),
            Mutation::InputDeletion { .. } => true,
        }
    }

    /// Whether the edit turns the edges `before` into the edges `after`. Only
    /// the edges of its node change: an adjusted edge keeps its source and
    /// gets a weight that `arith` can give for the sum of its weight and the
    /// adjustment; a created edge comes last; a removed edge leaves the others
    /// in their order.
    pub open spec fn yields<A: Fn(Operation) -> Value>(&self, arith: &A, before: Edges, after: Edges) -> bool {
        let l = self.layer();
        let n = self.node();
        match self {
            Mutation::AdjustWeight { input, adjustment, .. } => {
                &&& after == with_node(
                    before,
                    l,
                    n,
                    before[l][n].update(
                        *input as int,
                        NodeInput {
                            node_index: before[l][n][*input as int].node_index,
                            weight: after[l][n][*input as int].weight,
                        },
                    ),
                )
                &&& arith.ensures(
                    (
                        Operation::Combine {
                            combinator: Combinator::Add,
                            left: before[l][n][*input as int].weight,
                            right: *adjustment,
                        },
                    ),
                    after[l][n][*input as int].weight,
                )
            },
            Mutation::InputCreation { src_node_index, weight, .. } => after == with_node(
                before,
                l,
                n,
                before[l][n].push(NodeInput { node_index: *src_node_index, weight: *weight }),
            ),
            Mutation::InputDeletion { input_index, .. } => after == with_node(
                before,
                l,
                n,
                before[l][n].remove(*input_index as int),
            ),
        }
    }

    /// Makes the edit on `network`.
    pub fn apply<A: Fn(Operation) -> Value>(self, network: &mut Network, arith: &A)
        requires
            self.applies_to(old(network).edges(), old(network).inputs().len() as int),
            answers_all(arith),
        ensures
            final(network).config == old(network).config,
            final(network).input_layer == old(network).input_layer,
            self.yields(arith, old(network).edges(), final(network).edges()),
    {
        match self {
            Mutation::AdjustWeight { layer, node, input, adjustment } => {
                let weight = network.compute_layers[layer].nodes[node].inputs[input].weight;
                let adjusted = Combinator::Add.combine(weight, adjustment, arith);
                network.compute_layers[layer].nodes[node].inputs[input].weight = adjusted;
                proof {
                    let before = old(network).edges();
                    assert(network.edges() =~~= with_node(
                        before,
                        layer as int,
                        node as int,
                        before[layer as int][node as int].update(
                            input as int,
                            NodeInput {
                                node_index: before[layer as int][node as int][input as int].node_index,
                                weight: adjusted,
                            },
                        ),
                    ));
                }
            },
            Mutation::InputCreation { layer, node, src_node_index, weight } => {
                network.compute_layers[layer].nodes[node].inputs.push(
                    NodeInput { node_index: src_node_index, weight },
                );
                proof {
                    let before = old(network).edges();
                    assert(network.edges() =~~= with_node(
                        before,
                        layer as int,
                        node as int,
                        before[layer as int][node as int].push(
                            NodeInput { node_index: src_node_index, weight },
                        ),
                    ));
                }
            },
            Mutation::InputDeletion { layer, node, input_index } => {
                network.compute_layers[layer].nodes[node].inputs.remove(input_index);
                proof {
                    let before = old(network).edges();
                    assert(network.edges() =~~= with_node(
                        before,
                        layer as int,
                        node as int,
                        before[layer as int][node as int].remove(input_index as int),
                    ));
                }
            },
        }
    }
}

/// An edit that can be made leaves every layer with the nodes it had, and
/// leaves no edge dangling: if every edge read a node of the layer immediately
/// before its own, every edge still does.
pub proof fn lemma_mutation_keeps_sources<A: Fn(Operation) -> Value>(
    arith: &A,
    mutation: Mutation,
    before: Edges,
    after: Edges,
    input_height: int,
)
    requires
        mutation.applies_to(before, input_height),
        mutation.yields(arith, before, after),
        edges_resolve(before, input_height),
    ensures
        same_heights(before, after),
        edges_resolve(after, input_height),
{
    let l = mutation.layer();
    let n = mutation.node();
    assert(same_heights(before, after));
    assert forall|k: int| 0 <= k < after.len() implies layer_sources_within(
        after[k],
        #[trigger] height_before(after, input_height, k),
    ) by {
        assert(layer_sources_within(
            before[k],
            height_before(before, input_height, k),
        ));
        assert(height_before(after, input_height, k) == height_before(before, input_height, k));
        assert forall|m: int| 0 <= m < after[k].len() implies sources_within(
            #[trigger] after[k][m],
            height_before(after, input_height, k),
        ) by {
            assert(sources_within(
                before[k][m],
                height_before(before, input_height, k),
            ));
            if k == l && m == n {
                match mutation {
                    Mutation::AdjustWeight { .. } => {},
                    Mutation::InputCreation { .. } => {},
                    Mutation::InputDeletion { input_index, .. } => {
                        assert forall|e: int| 0 <= e < after[k][m].len() implies (
                        #[trigger] after[k][m][e]).node_index < height_before(
                            after,
                            input_height,
                            k,
                        ) by {
                            if e < input_index {
                                assert(after[k][m][e] == before[k][m][e]);
                            } else {
                                assert(after[k][m][e] == before[k][m][e + 1]);
                            }
                        }
                    },
                }
            }
        }
    }
}

/// An edit that can be made creates no duplicate: if no node had two edges
/// from the same source, none has afterwards.
pub proof fn lemma_mutation_keeps_distinct<A: Fn(Operation) -> Value>(
    arith: &A,
    mutation: Mutation,
    before: Edges,
    after: Edges,
    input_height: int,
)
    requires
        mutation.applies_to(before, input_height),
        mutation.yields(arith, before, after),
        edges_distinct(before),
    ensures
        edges_distinct(after),
{
    let l = mutation.layer();
    let n = mutation.node();
    assert forall|k: int, m: int| 0 <= k < after.len() && 0 <= m < after[k].len() implies sources_distinct(
        #[trigger] after[k][m],
    ) by {
        assert(sources_distinct(before[k][m]));
        if k == l && m == n {
            match mutation {
                Mutation::AdjustWeight { .. } => {},
                Mutation::InputCreation { src_node_index, .. } => {
                    assert forall|e: int, f: int| 0 <= e < f < after[k][m].len() implies (
                    #[trigger] after[k][m][e]).node_index != (
                    #[trigger] after[k][m][f]).node_index by {
                        if f == before[k][m].len() {
                            assert(before[k][m][e].node_index != src_node_index);
                        }
                    }
                },
                Mutation::InputDeletion { input_index, .. } => {
                    assert forall|e: int, f: int| 0 <= e < f < after[k][m].len() implies (
                    #[trigger] after[k][m][e]).node_index != (
                    #[trigger] after[k][m][f]).node_index by {
                        let e0 = if e < input_index {
                            e
                        } else {
                            e + 1
                        };
                        let f0 = if f < input_index {
                            f
                        } else {
                            f + 1
                        };
                        assert(after[k][m][e] == before[k][m][e0]);
                        assert(after[k][m][f] == before[k][m][f0]);
                    }
                },
            }
        }
    }
}

/// Whether there is a compute layer, every compute layer has a node, and every
/// node has an edge: whichever node is drawn, it has an edge to adjust or to
/// remove.
pub open spec fn every_node_has_an_edge(edges: Edges) -> bool {
    &&& edges.len() > 0
    &&& forall|l: int| 0 <= l < edges.len() ==> (#[trigger] edges[l]).len() > 0
    &&& forall|l: int, n: int|
        0 <= l < edges.len() && 0 <= n < edges[l].len() ==> (#[trigger] edges[l][n]).len() > 0
}

/// Whether there is a compute layer, every layer has a node, and no node has
/// an edge: whichever node and source are drawn, the edge can be created.
pub open spec fn no_node_has_an_edge(edges: Edges, input_height: int) -> bool {
    &&& edges.len() > 0
    &&& input_height > 0
    &&& forall|l: int| 0 <= l < edges.len() ==> (#[trigger] edges[l]).len() > 0
    &&& forall|l: int, n: int|
        0 <= l < edges.len() && 0 <= n < edges[l].len() ==> (#[trigger] edges[l][n]).len() == 0
}

/// Proposes to adjust the weight of an edge of the given node, drawn at
/// random; nothing if the node has no edge.
pub fn weight_adjustment_at<D: Fn(Draw) -> Value>(
    network: &Network,
    layer: usize,
    node: usize,
    draw: &D,
) -> (proposal: Option<Mutation>)
    requires
        layer < network.edges().len(),
        node < network.edges()[layer as int].len(),
        draws_all(draw),
    ensures
        proposal is None <==> network.edges()[layer as int][node as int].len() == 0,
        proposal matches Some(mutation) ==> {
            &&& mutation matches Mutation::AdjustWeight { layer: l, node: n, .. } && l == layer && n
                == node
            &&& mutation.applies_to(network.edges(), network.inputs().len() as int)
            &&& mutation.drawn_by(draw, network.edges())
        },
{
    let inputs = &network.compute_layers[layer].nodes[node].inputs;
    match choose_index(inputs.len()) {
        Some(input) => {
            let adjustment = draw(Draw::Adjustment { weight: inputs[input].weight });
            Some(Mutation::AdjustWeight { layer, node, input, adjustment })
        },
        None => None,
    }
}

/// Proposes a new edge from node `src_node_index` of the preceding layer to
/// the given node, with a weight drawn at random; nothing if the node already
/// has an edge from that source.
pub fn input_creation_at<D: Fn(Draw) -> Value>(
    network: &Network,
    layer: usize,
    node: usize,
    src_node_index: usize,
    draw: &D,
) -> (proposal: Option<Mutation>)
    requires
        layer < network.edges().len(),
        node < network.edges()[layer as int].len(),
        src_node_index < height_before(network.edges(), network.inputs().len() as int, layer as int),
        draws_all(draw),
    ensures
        proposal is None <==> reads_source(
            network.edges()[layer as int][node as int],
            src_node_index,
        ),
        proposal matches Some(mutation) ==> {
            &&& mutation matches Mutation::InputCreation { layer: l, node: n, src_node_index: s, .. }
                && l == layer && n == node && s == src_node_index
            &&& mutation.applies_to(network.edges(), network.inputs().len() as int)
            &&& mutation.drawn_by(draw, network.edges())
        },
{
    let inputs = &network.compute_layers[layer].nodes[node].inputs;
    let mut e: usize = 0;
    while e < inputs.len()
        invariant
            e <= inputs@.len(),
            inputs@ == network.edges()[layer as int][node as int],
            forall|i: int| 0 <= i < e ==> (#[trigger] inputs@[i]).node_index != src_node_index,
        decreases inputs@.len() - e,
    {
        if inputs[e].node_index == src_node_index {
            return None;
        }
        e += 1;
    }
    let weight = draw(Draw::Weight);
    Some(Mutation::InputCreation { layer, node, src_node_index, weight })
}

/// Proposes to remove an edge of the given node, drawn at random; nothing if
/// the node has no edge.
pub fn input_deletion_at(network: &Network, layer: usize, node: usize) -> (proposal: Option<Mutation>)
    requires
        layer < network.edges().len(),
        node < network.edges()[layer as int].len(),
    ensures
        proposal is None <==> network.edges()[layer as int][node as int].len() == 0,
        proposal matches Some(mutation) ==> {
            &&& mutation matches Mutation::InputDeletion { layer: l, node: n, .. } && l == layer && n
                == node
            &&& mutation.applies_to(network.edges(), network.inputs().len() as int)
        },
{
    let input_count: usize = network.compute_layers[layer].nodes[node].inputs.len();
    if input_count > 0 {
        let input_index: usize = random_below(input_count);
        Some(Mutation::InputDeletion { layer, node, input_index })
    } else {
        None
    }
}

/// Proposes to adjust the weight of an edge: of a compute layer, a node of it
/// and an edge of that node, each drawn at random. Nothing if there is no
/// layer, the layer has no node or the node no edge.
pub fn weight_adjustment<D: Fn(Draw) -> Value>(network: &Network, draw: &D) -> (proposal: Option<
    Mutation,
>)
    requires
        draws_all(draw),
    ensures
        proposal matches Some(mutation) ==> {
            &&& mutation.kind() == MutationKind::AdjustWeight
            &&& mutation.applies_to(network.edges(), network.inputs().len() as int)
            &&& mutation.drawn_by(draw, network.edges())
        },
        every_node_has_an_edge(network.edges()) ==> proposal is Some,
{
    match choose_index(network.compute_layers.len()) {
        Some(layer) => match choose_index(network.compute_layers[layer].nodes.len()) {
            Some(node) => weight_adjustment_at(network, layer, node, draw),
            None => None,
        },
        None => None,
    }
}

/// Proposes a new edge: into a node, drawn at random, of a compute layer drawn
/// at random, from a node, drawn at random, of the layer immediately before.
/// Nothing if there is no compute layer, either layer has no node, or the node
/// already has an edge from that source.
pub fn input_creation<D: Fn(Draw) -> Value>(network: &Network, draw: &D) -> (proposal: Option<
    Mutation,
>)
    requires
        draws_all(draw),
    ensures
        proposal matches Some(mutation) ==> {
            &&& mutation.kind() == MutationKind::InputCreation
            &&& mutation.applies_to(network.edges(), network.inputs().len() as int)
            &&& mutation.drawn_by(draw, network.edges())
        },
        no_node_has_an_edge(network.edges(), network.inputs().len() as int) ==> proposal is Some,
{
    let comp_layer_count: usize = network.compute_layers.len();
    if comp_layer_count == 0 {
        return None;
    }
    let comp_layer_index: usize = random_below(comp_layer_count);
    // The compute layer's place among the compute layers is the place of the
    // layer before it among all layers, which begin with the input layer.
    let prev_layer_index: usize = comp_layer_index;
    let prev_layer_node_indices = match network.layer(prev_layer_index) {
        Some(prev_layer) => prev_layer.output_node_indices(),
        None => {
            return None;
        },
    };
    proof {
        if comp_layer_index > 0 {
            assert(network.edges()[comp_layer_index - 1].len() == network.compute_layers@[
                comp_layer_index - 1
            ]@.len());
        }
        assert(prev_layer_node_indices@.len() == height_before(
            network.edges(),
            network.inputs().len() as int,
            comp_layer_index as int,
        ));
    }
    let src_node_index: usize = match choose_index(prev_layer_node_indices.len()) {
        Some(chosen) => prev_layer_node_indices[chosen],
        None => {
            return None;
        },
    };
    match choose_index(network.compute_layers[comp_layer_index].nodes.len()) {
        Some(node) => input_creation_at(network, comp_layer_index, node, src_node_index, draw),
        None => None,
    }
}

/// Proposes to remove an edge: of a compute layer, a node of it and an edge of
/// that node, each drawn at random. Nothing if there is no layer, the layer has
/// no node or the node no edge.
pub fn input_deletion(network: &Network) -> (proposal: Option<Mutation>)
    ensures
        proposal matches Some(mutation) ==> {
            &&& mutation.kind() == MutationKind::InputDeletion
            &&& mutation.applies_to(network.edges(), network.inputs().len() as int)
        },
        every_node_has_an_edge(network.edges()) ==> proposal is Some,
{
    match choose_index(network.compute_layers.len()) {
        Some(layer) => match choose_index(network.compute_layers[layer].nodes.len()) {
            Some(node) => input_deletion_at(network, layer, node),
            None => None,
        },
        None => None,
    }
}

} // verus!
