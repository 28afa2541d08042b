use crate::network::Edges;
use crate::network::Network;
use crate::network::edges_distinct;
use crate::network::edges_resolve;
use crate::network::functions::Operation;
use crate::network::functions::answers_all;
use crate::network::same_heights;
use crate::network::value::Value;
use crate::random::weight_sum;
use crate::network::node::reads_source;
use crate::trainer::mutation::Draw;
use crate::trainer::mutation::in_range;
use crate::trainer::mutation::Mutation;
use crate::trainer::mutation::MutationKind;
use crate::trainer::mutation::draws_all;
use crate::trainer::mutation::every_node_has_an_edge;
use crate::trainer::mutation::input_creation;
use crate::trainer::mutation::input_deletion;
use crate::trainer::mutation::lemma_mutation_keeps_distinct;
use crate::trainer::mutation::lemma_mutation_keeps_sources;
use crate::trainer::mutation::no_node_has_an_edge;
use crate::trainer::mutation::weight_adjustment;
use vstd::prelude::*;

verus! {

/// The order in which the three kinds of edit are attempted, for each of the
/// three choices.
pub open spec fn priority_order(choice: int) -> Seq<MutationKind> {
    if choice == 1 {
        seq![MutationKind::InputCreation, MutationKind::AdjustWeight, MutationKind::InputDeletion]
    } else if choice == 2 {
        seq![MutationKind::InputDeletion, MutationKind::AdjustWeight, MutationKind::InputCreation]
    } else {
        seq![MutationKind::AdjustWeight, MutationKind::InputCreation, MutationKind::InputDeletion]
    }
}

/// Whether an edit of the given kind, one that can be made and whose random
/// part `draw` can give, turns the edges `before` into the edges `after`.
pub open spec fn edit_made<OP: Fn(Operation) -> Value, D: Fn(Draw) -> Value>(
    arith: &OP,
    draw: &D,
    kind: MutationKind,
    input_height: int,
    before: Edges,
    after: Edges,
) -> bool {
    exists|mutation: Mutation|
        {
            &&& mutation.kind() == kind
            &&& mutation.applies_to(before, input_height)
            &&& mutation.drawn_by(draw, before)
            &&& #[trigger] mutation.yields(arith, before, after)
        }
}

/// Whether an edit of the given kind is feasible whatever is drawn: to adjust
/// or to remove, when every node has an edge; to create, when no node has one.
pub open spec fn edit_owed(kind: MutationKind, edges: Edges, input_height: int) -> bool {
    match kind {
        MutationKind::AdjustWeight => every_node_has_an_edge(edges),
        MutationKind::InputCreation => no_node_has_an_edge(edges, input_height),
        MutationKind::InputDeletion => every_node_has_an_edge(edges),
    }
}

/// Whether an attempt at an edit of the given kind can turn the edges `before`
/// into the edges `after`: an edit of that kind was made, or nothing changed.
/// Nothing changes only where the edit is not feasible: where an edit is
/// feasible whatever is drawn, one is made.
pub open spec fn edit_step<OP: Fn(Operation) -> Value, D: Fn(Draw) -> Value>(
    arith: &OP,
    draw: &D,
    kind: MutationKind,
    input_height: int,
    before: Edges,
    after: Edges,
) -> bool {
    ||| edit_made(arith, draw, kind, input_height, before, after)
    ||| after == before && !edit_owed(kind, before, input_height)
}

/// Whether one batch mutation can turn the edges `before` into the edges
/// `after`: the three kinds of edit, attempted one after the other in one of
/// the three priority orders.
pub open spec fn batch_step<OP: Fn(Operation) -> Value, D: Fn(Draw) -> Value>(
    arith: &OP,
    draw: &D,
    input_height: int,
    before: Edges,
    after: Edges,
) -> bool {
    exists|choice: int, first: Edges, second: Edges|
        {
            &&& 0 <= choice < 3
            &&& #[trigger] edit_step(
                arith,
                draw,
                priority_order(choice)[0],
                input_height,
                before,
                first,
            )
            &&& #[trigger] edit_step(
                arith,
                draw,
                priority_order(choice)[1],
                input_height,
                first,
                second,
            )
            &&& #[trigger] edit_step(
                arith,
                draw,
                priority_order(choice)[2],
                input_height,
                second,
                after,
            )
        }
}

/// Whether `steps` batch mutations, one after the other, can turn the edges
/// `before` into the edges `after`.
pub open spec fn evolved<OP: Fn(Operation) -> Value, D: Fn(Draw) -> Value>(
    arith: &OP,
    draw: &D,
    input_height: int,
    before: Edges,
    after: Edges,
    steps: nat,
) -> bool
    decreases steps,
{
    if steps == 0 {
        after == before
    } else {
        exists|previous: Edges|
            evolved(arith, draw, input_height, before, previous, (steps - 1) as nat)
                && #[trigger] batch_step(arith, draw, input_height, previous, after)
    }
}

/// An attempted edit leaves every layer with the nodes it had, leaves no edge
/// dangling, and creates no duplicate edge.
pub proof fn lemma_edit_step_keeps_invariants<OP: Fn(Operation) -> Value, D: Fn(Draw) -> Value>(
    arith: &OP,
    draw: &D,
    kind: MutationKind,
    input_height: int,
    before: Edges,
    after: Edges,
)
    requires
        edit_step(arith, draw, kind, input_height, before, after),
        edges_resolve(before, input_height),
    ensures
        same_heights(before, after),
        edges_resolve(after, input_height),
        edges_distinct(before) ==> edges_distinct(after),
{
    if after != before {
        let mutation = choose|mutation: Mutation|
            {
                &&& mutation.kind() == kind
                &&& mutation.applies_to(before, input_height)
                &&& mutation.drawn_by(draw, before)
                &&& #[trigger] mutation.yields(arith, before, after)
            };
        lemma_mutation_keeps_sources(arith, mutation, before, after, input_height);
        if edges_distinct(before) {
            lemma_mutation_keeps_distinct(arith, mutation, before, after, input_height);
        }
    }
}

/// A batch mutation leaves every layer with the nodes it had, leaves no edge
/// dangling, and creates no duplicate edge.
pub proof fn lemma_batch_step_keeps_invariants<OP: Fn(Operation) -> Value, D: Fn(Draw) -> Value>(
    arith: &OP,
    draw: &D,
    input_height: int,
    before: Edges,
    after: Edges,
)
    requires
        batch_step(arith, draw, input_height, before, after),
        edges_resolve(before, input_height),
    ensures
        same_heights(before, after),
        edges_resolve(after, input_height),
        edges_distinct(before) ==> edges_distinct(after),
{
    let (choice, first, second) = choose|choice: int, first: Edges, second: Edges|
        {
            &&& 0 <= choice < 3
            &&& #[trigger] edit_step(
                arith,
                draw,
                priority_order(choice)[0],
                input_height,
                before,
                first,
            )
            &&& #[trigger] edit_step(
                arith,
                draw,
                priority_order(choice)[1],
                input_height,
                first,
                second,
            )
            &&& #[trigger] edit_step(
                arith,
                draw,
                priority_order(choice)[2],
                input_height,
                second,
                after,
            )
        };
    lemma_edit_step_keeps_invariants(
        arith,
        draw,
        priority_order(choice)[0],
        input_height,
        before,
        first,
    );
    lemma_edit_step_keeps_invariants(
        arith,
        draw,
        priority_order(choice)[1],
        input_height,
        first,
        second,
    );
    lemma_edit_step_keeps_invariants(
        arith,
        draw,
        priority_order(choice)[2],
        input_height,
        second,
        after,
    );
}

/// After any number of batch mutations every layer has the nodes it had, every
/// edge reads a node of the layer immediately before its own, and no node has
/// two edges from the same source, if that was so before.
pub proof fn lemma_evolved_keeps_invariants<OP: Fn(Operation) -> Value, D: Fn(Draw) -> Value>(
    arith: &OP,
    draw: &D,
    input_height: int,
    before: Edges,
    after: Edges,
    steps: nat,
)
    requires
        evolved(arith, draw, input_height, before, after, steps),
        edges_resolve(before, input_height),
    ensures
        same_heights(before, after),
        edges_resolve(after, input_height),
        edges_distinct(before) ==> edges_distinct(after),
    decreases steps,
{
    if steps > 0 {
        let previous = choose|previous: Edges|
            evolved(arith, draw, input_height, before, previous, (steps - 1) as nat)
                && #[trigger] batch_step(arith, draw, input_height, previous, after);
        lemma_evolved_keeps_invariants(
            arith,
            draw,
            input_height,
            before,
            previous,
            (steps - 1) as nat,
        );
        lemma_batch_step_keeps_invariants(arith, draw, input_height, previous, after);
    }
}

/// Whether the edges are those of a network of one compute layer with one
/// node that has `count` edges, none or one, the one from the first node of
/// the layer before.
pub open spec fn lone_node(edges: Edges, count: int) -> bool {
    &&& edges.len() == 1
    &&& edges[0].len() == 1
    &&& edges[0][0].len() == count
    &&& count == 1 ==> edges[0][0][0].node_index == 0
}

/// What an attempted edit makes of a lone node that can read one node only.
/// With an edge, its weight is adjusted, nothing can be created, and the edge
/// is removed; without one, nothing can be adjusted or removed, and an edge
/// with a weight between minus two and two is created.
pub proof fn lemma_lone_node_step<OP: Fn(Operation) -> Value, D: Fn(Draw) -> Value>(
    arith: &OP,
    draw: &D,
    kind: MutationKind,
    before: Edges,
    after: Edges,
)
    requires
        lone_node(before, 0) || lone_node(before, 1),
        edit_step(arith, draw, kind, 1, before, after),
    ensures
        match kind {
            MutationKind::AdjustWeight => if lone_node(before, 1) {
                lone_node(after, 1)
            } else {
                after == before
            },
            MutationKind::InputCreation => if lone_node(before, 1) {
                after == before
            } else {
                lone_node(after, 1) && in_range(Draw::Weight, after[0][0][0].weight)
            },
            MutationKind::InputDeletion => if lone_node(before, 1) {
                lone_node(after, 0)
            } else {
                after == before
            },
        },
{
    if edit_made(arith, draw, kind, 1, before, after) {
        let mutation = choose|mutation: Mutation|
            {
                &&& mutation.kind() == kind
                &&& mutation.applies_to(before, 1)
                &&& mutation.drawn_by(draw, before)
                &&& #[trigger] mutation.yields(arith, before, after)
            };
        assert(mutation.layer() == 0 && mutation.node() == 0);
        match mutation {
            Mutation::AdjustWeight { input, .. } => {
                assert(lone_node(before, 1));
                assert(input == 0);
            },
            Mutation::InputCreation { src_node_index, weight, .. } => {
                assert(src_node_index == 0);
                if lone_node(before, 1) {
                    assert(before[0][0][0].node_index == src_node_index);
                    assert(reads_source(before[0][0], src_node_index));
                }
                assert(after[0][0][0].weight == weight);
            },
            Mutation::InputDeletion { input_index, .. } => {
                assert(lone_node(before, 1));
                assert(input_index == 0);
            },
        }
    } else {
        assert(after == before && !edit_owed(kind, before, 1));
        if lone_node(before, 1) {
            assert(every_node_has_an_edge(before));
        } else {
            assert(no_node_has_an_edge(before, 1));
        }
    }
}

/// One batch mutation never keeps the only edge of a lone node that can read
/// one node only: the edge is removed in every priority order, so afterwards
/// the node has no edge, or one new edge with a weight between minus two and
/// two.
pub proof fn lemma_only_edge_goes<OP: Fn(Operation) -> Value, D: Fn(Draw) -> Value>(
    arith: &OP,
    draw: &D,
    before: Edges,
    after: Edges,
)
    requires
        lone_node(before, 1),
        batch_step(arith, draw, 1, before, after),
    ensures
        lone_node(after, 0) || (lone_node(after, 1) && in_range(
            Draw::Weight,
            after[0][0][0].weight,
        )),
{
    let (choice, first, second) = choose|choice: int, first: Edges, second: Edges|
        {
            &&& 0 <= choice < 3
            &&& #[trigger] edit_step(arith, draw, priority_order(choice)[0], 1, before, first)
            &&& #[trigger] edit_step(arith, draw, priority_order(choice)[1], 1, first, second)
            &&& #[trigger] edit_step(arith, draw, priority_order(choice)[2], 1, second, after)
        };
    lemma_lone_node_step(arith, draw, priority_order(choice)[0], before, first);
    lemma_lone_node_step(arith, draw, priority_order(choice)[1], first, second);
    lemma_lone_node_step(arith, draw, priority_order(choice)[2], second, after);
}

/// The three choices of priority order, each with its weight: seven for the
/// first, one for the second, two for the third.
pub open spec fn order_table() -> Seq<(usize, usize)> {
    seq![(0usize, 7usize), (1usize, 1usize), (2usize, 2usize)]
}

/// The weights of the three choices add up to ten.
pub proof fn lemma_order_weights_sum()
    ensures
        weight_sum(order_table()) == 10,
        order_table().len() == 3,
        forall|entry: (usize, usize)| order_table().contains(entry) ==> entry.0 < 3,
{
    let table = order_table();
    let two = table.drop_last();
    let one = two.drop_last();
    let none = one.drop_last();
    assert(none.len() == 0);
    assert(weight_sum(none) == 0);
    assert(one.last() == (0usize, 7usize));
    assert(weight_sum(one) == 7);
    assert(two.last() == (1usize, 1usize));
    assert(weight_sum(two) == 8);
    assert(table.last() == (2usize, 2usize));
    assert forall|entry: (usize, usize)| table.contains(entry) implies entry.0 < 3 by {
        let i = choose|i: int| 0 <= i < table.len() && table[i] == entry;
        assert(i == 0 || i == 1 || i == 2);
    }
}

/// The three choices of priority order, each with its weight.
pub fn order_weights() -> (weights: Vec<(usize, usize)>)
    ensures
        weights@ == order_table(),
{
    let mut weights: Vec<(usize, usize)> = Vec::new();
    weights.push((0, 7));
    weights.push((1, 1));
    weights.push((2, 2));
    proof {
        assert(weights@ =~= order_table());
    }
    weights
}

/// The order in which the three kinds of edit are attempted for a choice.
pub fn preferred_order(choice: usize) -> (order: [MutationKind; 3])
    ensures
        order@ == priority_order(choice as int),
{
    let order = if choice == 1 {
        [MutationKind::InputCreation, MutationKind::AdjustWeight, MutationKind::InputDeletion]
    } else if choice == 2 {
        [MutationKind::InputDeletion, MutationKind::AdjustWeight, MutationKind::InputCreation]
    } else {
        [MutationKind::AdjustWeight, MutationKind::InputCreation, MutationKind::InputDeletion]
    };
    proof {
        assert(order@ =~= priority_order(choice as int));
    }
    order
}

/// Attempts one edit of the given kind on `network`: proposes one and, if one
/// is feasible, makes it.
pub fn attempt<OP: Fn(Operation) -> Value, D: Fn(Draw) -> Value>(
    kind: MutationKind,
    network: &mut Network,
    arith: &OP,
    draw: &D,
)
    requires
        old(network).well_formed(),
        answers_all(arith),
        draws_all(draw),
    ensures
        final(network).config == old(network).config,
        final(network).input_layer == old(network).input_layer,
        edit_step(
            arith,
            draw,
            kind,
            old(network).inputs().len() as int,
            old(network).edges(),
            final(network).edges(),
        ),
        edit_owed(kind, old(network).edges(), old(network).inputs().len() as int) ==> edit_made(
            arith,
            draw,
            kind,
            old(network).inputs().len() as int,
            old(network).edges(),
            final(network).edges(),
        ),
        final(network).well_formed(),
        final(network).same_shape(old(network)),
        old(network).free_of_duplicates() ==> final(network).free_of_duplicates(),
{
    let proposal = match kind {
        MutationKind::AdjustWeight => weight_adjustment(network, draw),
        MutationKind::InputCreation => input_creation(network, draw),
        MutationKind::InputDeletion => input_deletion(network),
    };
    match proposal {
        Some(mutation) => {
            mutation.apply(network, arith);
        },
        None => {},
    }
    proof {
        lemma_edit_step_keeps_invariants(
            arith,
            draw,
            kind,
            old(network).inputs().len() as int,
            old(network).edges(),
            network.edges(),
        );
    }
}

} // verus!
