//! What a network of zero weights makes of zero inputs.

use crate::network::Edges;
use crate::network::NetworkConfig;
use crate::network::edges_resolve;
use crate::network::functions::Combinator;
use crate::network::functions::Operation;
use crate::network::functions::combines_to;
use crate::network::height_before;
use crate::network::layer::compute::layer_sources_within;
use crate::network::layer::compute::layer_yields;
use crate::network::layers_yield;
use crate::network::node::NodeInput;
use crate::network::node::edge_yields;
use crate::network::node::edges_yield;
use crate::network::node::node_yields;
use crate::network::node::sources_within;
use crate::network::value::Value;
use vstd::prelude::*;

verus! {

/// Whether every value has magnitude zero.
pub open spec fn all_zero(values: Seq<Value>) -> bool {
    forall|i: int| 0 <= i < values.len() ==> (#[trigger] values[i]).magnitude() == 0
}

/// Whether every edge of the layer has a weight of magnitude zero.
pub open spec fn zero_weights(layer: Seq<Seq<NodeInput>>) -> bool {
    forall|n: int, e: int|
        0 <= n < layer.len() && 0 <= e < layer[n].len() ==> (
        #[trigger] layer[n][e]).weight.magnitude() == 0
}

/// Whether zero is what a node of the layer computes to without edges: the
/// combinator is addition, whose neutral element is zero, or every node of the
/// layer has an edge.
pub open spec fn zero_is_neutral(config: NetworkConfig, layer: Seq<Seq<NodeInput>>) -> bool {
    config.combinator == Combinator::Add || forall|n: int|
        0 <= n < layer.len() ==> (#[trigger] layer[n]).len() > 0
}

/// Whether `arith` keeps zero at zero under the network's two functions: what
/// it gives for an input of magnitude zero under a weight of magnitude zero
/// has magnitude zero, and so has what it gives for the combination of two
/// values of magnitude zero.
pub open spec fn keeps_zero<A: Fn(Operation) -> Value>(arith: &A, config: NetworkConfig) -> bool {
    &&& forall|input: Value, weight: Value, out: Value|
        input.magnitude() == 0 && weight.magnitude() == 0 && #[trigger] arith.ensures(
            (Operation::Weigh { activator: config.activator, input, weight },),
            out,
        ) ==> out.magnitude() == 0
    &&& forall|left: Value, right: Value, out: Value|
        left.magnitude() == 0 && right.magnitude() == 0 && #[trigger] arith.ensures(
            (Operation::Combine { combinator: config.combinator, left, right },),
            out,
        ) ==> out.magnitude() == 0
}

/// Values of magnitude zero combine to a value of magnitude zero; so do no
/// values at all under addition, whose neutral element is zero.
pub proof fn lemma_zeros_combine_to_zero<A: Fn(Operation) -> Value>(
    arith: &A,
    config: NetworkConfig,
    items: Seq<Value>,
    out: Value,
)
    requires
        keeps_zero(arith, config),
        all_zero(items),
        config.combinator == Combinator::Add || items.len() > 0,
        combines_to(arith, config.combinator, items, out),
    ensures
        out.magnitude() == 0,
    decreases items.len(),
{
    if items.len() >= 2 {
        let folded = choose|folded: Value|
            combines_to(arith, config.combinator, items.drop_last(), folded)
                && #[trigger] arith.ensures(
                (
                    Operation::Combine {
                        combinator: config.combinator,
                        left: folded,
                        right: items.last(),
                    },
                ),
                out,
            );
        assert forall|i: int| 0 <= i < items.drop_last().len() implies (
        #[trigger] items.drop_last()[i]).magnitude() == 0 by {
            assert(items.drop_last()[i] == items[i]);
        }
        lemma_zeros_combine_to_zero(arith, config, items.drop_last(), folded);
        assert(items.last() == items[items.len() - 1]);
    } else if items.len() == 1 {
        assert(out == items[0]);
    }
}

/// A layer whose weights all have magnitude zero makes, of inputs that all
/// have magnitude zero, a value of magnitude zero at every node, where the
/// combinator is addition or every node has an edge.
pub proof fn lemma_zero_layer_yields_zero<A: Fn(Operation) -> Value>(
    arith: &A,
    config: NetworkConfig,
    layer: Seq<Seq<NodeInput>>,
    inputs: Seq<Value>,
    outputs: Seq<Value>,
)
    requires
        keeps_zero(arith, config),
        all_zero(inputs),
        zero_weights(layer),
        zero_is_neutral(config, layer),
        layer_sources_within(layer, inputs.len() as int),
        layer_yields(arith, config, layer, inputs, outputs),
    ensures
        all_zero(outputs),
{
    assert forall|n: int| 0 <= n < outputs.len() implies (#[trigger] outputs[n]).magnitude()
        == 0 by {
        assert(node_yields(arith, config, layer[n], inputs, outputs[n]));
        let parts = choose|parts: Seq<Value>|
            #[trigger] edges_yield(arith, config, layer[n], inputs, parts) && combines_to(
                arith,
                config.combinator,
                parts,
                outputs[n],
            );
        assert forall|e: int| 0 <= e < parts.len() implies (#[trigger] parts[e]).magnitude()
            == 0 by {
            assert(layer[n][e].weight.magnitude() == 0);
            assert(sources_within(layer[n], inputs.len() as int));
            assert(inputs[layer[n][e].node_index as int].magnitude() == 0);
            assert(edge_yields(arith, config, layer[n][e], inputs, parts[e]));
        }
        lemma_zeros_combine_to_zero(arith, config, parts, outputs[n]);
    }
}

/// A network whose weights all have magnitude zero makes, of inputs that all
/// have magnitude zero, a value of magnitude zero at every node of every
/// layer, and so at every output, where the combinator is addition or every
/// node has an edge.
pub proof fn lemma_zero_network_yields_zero<A: Fn(Operation) -> Value>(
    arith: &A,
    config: NetworkConfig,
    edges: Edges,
    inputs: Seq<Value>,
    outputs: Seq<Value>,
)
    requires
        keeps_zero(arith, config),
        all_zero(inputs),
        forall|l: int| 0 <= l < edges.len() ==> zero_weights(#[trigger] edges[l]),
        forall|l: int| 0 <= l < edges.len() ==> zero_is_neutral(config, #[trigger] edges[l]),
        edges_resolve(edges, inputs.len() as int),
        layers_yield(arith, config, edges, inputs, outputs),
    ensures
        all_zero(outputs),
        outputs.len() == height_before(
            edges,
            inputs.len() as int,
            edges.len() as int,
        ),
    decreases edges.len(),
{
    if edges.len() > 0 {
        let fed = choose|fed: Seq<Value>|
            layers_yield(arith, config, edges.drop_last(), inputs, fed) && #[trigger] layer_yields(
                arith,
                config,
                edges.last(),
                fed,
                outputs,
            );
        let earlier = edges.drop_last();
        assert forall|l: int| 0 <= l < earlier.len() implies zero_weights(#[trigger] earlier[l]) by {
            assert(earlier[l] == edges[l]);
        }
        assert forall|l: int| 0 <= l < earlier.len() implies layer_sources_within(
            earlier[l],
            #[trigger] height_before(earlier, inputs.len() as int, l),
        ) by {
            assert(earlier[l] == edges[l]);
            assert(layer_sources_within(
                edges[l],
                height_before(edges, inputs.len() as int, l),
            ));
            if l > 0 {
                assert(earlier[l - 1] == edges[l - 1]);
            }
        }
        lemma_zero_network_yields_zero(arith, config, earlier, inputs, fed);
        let last = edges.len() - 1;
        assert(edges.last() == edges[last]);
        assert(zero_weights(edges[last]));
        assert(layer_sources_within(
            edges[last],
            height_before(edges, inputs.len() as int, last),
        ));
        if last > 0 {
            assert(earlier[last - 1] == edges[last - 1]);
        }
        lemma_zero_layer_yields_zero(arith, config, edges.last(), fed, outputs);
    }
}

} // verus!
