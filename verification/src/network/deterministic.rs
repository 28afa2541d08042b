//! With arithmetic that gives one answer to each operation, a network gives one
//! output for each input.

use crate::network::Edges;
use crate::network::NetworkConfig;
use crate::network::functions::Combinator;
use crate::network::functions::Operation;
use crate::network::functions::combines_to;
use crate::network::layer::compute::layer_yields;
use crate::network::layers_yield;
use crate::network::node::NodeInput;
use crate::network::node::edge_yields;
use crate::network::node::edges_yield;
use crate::network::node::node_yields;
use crate::network::value::Value;
use vstd::prelude::*;

verus! {

/// Whether `arith` gives one answer to each operation.
pub open spec fn deterministic<A: Fn(Operation) -> Value>(arith: &A) -> bool {
    forall|operation: Operation, one: Value, other: Value|
        #[trigger] arith.ensures((operation,), one) && #[trigger] arith.ensures(
            (operation,),
            other,
        ) ==> one == other
}

/// The same items combine to one value.
pub proof fn lemma_one_combination<A: Fn(Operation) -> Value>(
    arith: &A,
    combinator: Combinator,
    items: Seq<Value>,
    one: Value,
    other: Value,
)
    requires
        deterministic(arith),
        combines_to(arith, combinator, items, one),
        combines_to(arith, combinator, items, other),
    ensures
        one == other,
    decreases items.len(),
{
    if items.len() >= 2 {
        let a = choose|folded: Value|
            combines_to(arith, combinator, items.drop_last(), folded) && #[trigger] arith.ensures(
                (Operation::Combine { combinator, left: folded, right: items.last() },),
                one,
            );
        let b = choose|folded: Value|
            combines_to(arith, combinator, items.drop_last(), folded) && #[trigger] arith.ensures(
                (Operation::Combine { combinator, left: folded, right: items.last() },),
                other,
            );
        lemma_one_combination(arith, combinator, items.drop_last(), a, b);
    }
}

/// A node has one value for the same inputs.
pub proof fn lemma_one_node_value<A: Fn(Operation) -> Value>(
    arith: &A,
    config: NetworkConfig,
    edges: Seq<NodeInput>,
    inputs: Seq<Value>,
    one: Value,
    other: Value,
)
    requires
        deterministic(arith),
        node_yields(arith, config, edges, inputs, one),
        node_yields(arith, config, edges, inputs, other),
    ensures
        one == other,
{
    let a = choose|parts: Seq<Value>|
        #[trigger] edges_yield(arith, config, edges, inputs, parts) && combines_to(
            arith,
            config.combinator,
            parts,
            one,
        );
    let b = choose|parts: Seq<Value>|
        #[trigger] edges_yield(arith, config, edges, inputs, parts) && combines_to(
            arith,
            config.combinator,
            parts,
            other,
        );
    assert forall|e: int| 0 <= e < a.len() implies a[e] == b[e] by {
        assert(edge_yields(arith, config, edges[e], inputs, a[e]));
        assert(edge_yields(arith, config, edges[e], inputs, b[e]));
    }
    assert(a =~= b);
    lemma_one_combination(arith, config.combinator, a, one, other);
}

/// A layer puts out one sequence of values for the same inputs.
pub proof fn lemma_one_layer_output<A: Fn(Operation) -> Value>(
    arith: &A,
    config: NetworkConfig,
    layer: Seq<Seq<NodeInput>>,
    inputs: Seq<Value>,
    one: Seq<Value>,
    other: Seq<Value>,
)
    requires
        deterministic(arith),
        layer_yields(arith, config, layer, inputs, one),
        layer_yields(arith, config, layer, inputs, other),
    ensures
        one == other,
{
    assert forall|n: int| 0 <= n < one.len() implies one[n] == other[n] by {
        assert(node_yields(arith, config, layer[n], inputs, one[n]));
        assert(node_yields(arith, config, layer[n], inputs, other[n]));
        lemma_one_node_value(arith, config, layer[n], inputs, one[n], other[n]);
    }
    assert(one =~= other);
}

/// A network puts out one sequence of values for the same inputs: whether an
/// output is computed or remembered makes no difference.
pub proof fn lemma_one_output<A: Fn(Operation) -> Value>(
    arith: &A,
    config: NetworkConfig,
    edges: Edges,
    inputs: Seq<Value>,
    one: Seq<Value>,
    other: Seq<Value>,
)
    requires
        deterministic(arith),
        layers_yield(arith, config, edges, inputs, one),
        layers_yield(arith, config, edges, inputs, other),
    ensures
        one == other,
    decreases edges.len(),
{
    if edges.len() > 0 {
        let a = choose|fed: Seq<Value>|
            layers_yield(arith, config, edges.drop_last(), inputs, fed) && #[trigger] layer_yields(
                arith,
                config,
                edges.last(),
                fed,
                one,
            );
        let b = choose|fed: Seq<Value>|
            layers_yield(arith, config, edges.drop_last(), inputs, fed) && #[trigger] layer_yields(
                arith,
                config,
                edges.last(),
                fed,
                other,
            );
        lemma_one_output(arith, config, edges.drop_last(), inputs, a, b);
        lemma_one_layer_output(arith, config, edges.last(), a, one, other);
    }
}

} // verus!
