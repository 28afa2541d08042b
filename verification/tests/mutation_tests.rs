use ml_life_killer::adapter::TrainerAdapter;
use ml_life_killer::adapter::TrainerAdapterFactory;
use ml_life_killer::network::Network;
use ml_life_killer::network::NetworkConfig;
use ml_life_killer::network::functions::Activator;
use ml_life_killer::network::functions::Combinator;
use ml_life_killer::network::functions::Operation;
use ml_life_killer::network::node::NodeInput;
use ml_life_killer::network::value::Value;
use ml_life_killer::trainer::Trainer;
use ml_life_killer::trainer::TrainerConfig;
use ml_life_killer::trainer::batch::attempt;
use ml_life_killer::trainer::mutation::Draw;
use ml_life_killer::trainer::mutation::Mutation;
use ml_life_killer::trainer::mutation::MutationKind;
use ml_life_killer::trainer::mutation::input_creation;
use ml_life_killer::trainer::mutation::input_creation_at;
use ml_life_killer::trainer::mutation::input_deletion;
use ml_life_killer::trainer::mutation::input_deletion_at;
use ml_life_killer::trainer::mutation::weight_adjustment;
use ml_life_killer::trainer::mutation::weight_adjustment_at;

fn mv(number: f32) -> Value {
    Value { bits: number.to_bits() }
}

fn mn(value: Value) -> f32 {
    f32::from_bits(value.bits)
}

fn mutation_arith(operation: Operation) -> Value {
    match operation {
        Operation::Weigh { activator, input, weight } => {
            let weighted = mn(input) * mn(weight);
            mv(match activator {
                Activator::Binary => {
                    if weighted > 0.5 {
                        1.0
                    } else {
                        0.0
                    }
                }
                Activator::ReLU => weighted.max(0.0),
                Activator::Tanh => weighted.tanh(),
            })
        }
        Operation::Combine { combinator, left, right } => mv(match combinator {
            Combinator::Add => mn(left) + mn(right),
            Combinator::Mul => mn(left) * mn(right),
        }),
    }
}

/// Draws the upper end of each range: the adjustment is the full magnitude,
/// the new weight is two.
fn upper_draw(request: Draw) -> Value {
    match request {
        Draw::Adjustment { weight } => mv((mn(weight).abs() / 2.0).max(0.01)),
        Draw::Weight => mv(2.0),
    }
}

struct NoAdapter;

impl<OP: Fn(Operation) -> Value> TrainerAdapter<OP> for NoAdapter {
    fn accepts(&self, _network: &Network) -> bool {
        true
    }

    fn fitness_limit(&self) -> isize {
        0
    }

    fn can_score(&self, _arith: &OP, _network: &Network, fitness: isize) -> bool {
        fitness == 0
    }

    fn try_out(&self, _network: &mut Network, _arith: &OP) -> isize {
        0
    }
}

struct NoFactory;

impl<OP: Fn(Operation) -> Value> TrainerAdapterFactory<OP, NoAdapter> for NoFactory {
    fn ready(&self) -> bool {
        true
    }

    fn accepts(&self, _network: &Network) -> bool {
        true
    }

    fn fitness_limit(&self) -> isize {
        0
    }

    fn makes(&self, _adapter: &NoAdapter) -> bool {
        true
    }

    fn create_adapter(&self) -> NoAdapter {
        NoAdapter
    }
}

fn trainer() -> Trainer<NoAdapter, NoFactory> {
    Trainer::new(
        TrainerConfig {
            generation_contenders: 1,
            generation_mutations: 1,
            generation_mutations_jitter: 0,
            generation_iterations: 1,
        },
        NoFactory,
    )
}

fn network(inputs: usize, hidden_layers: usize, hidden: usize, outputs: usize) -> Network {
    Network::new(NetworkConfig::default(), inputs, hidden_layers, hidden, outputs)
}

fn edge(node_index: usize, weight: f32) -> NodeInput {
    NodeInput { node_index, weight: mv(weight) }
}

fn edge_count(network: &Network) -> usize {
    network
        .compute_layers
        .iter()
        .map(|layer| layer.nodes.iter().map(|node| node.inputs.len()).sum::<usize>())
        .sum()
}

fn heights(network: &Network) -> Vec<usize> {
    let mut heights = vec![network.input_height()];
    heights.extend(network.compute_layers.iter().map(|layer| layer.nodes.len()));
    heights
}

fn no_edge_dangles(network: &Network) -> bool {
    let heights = heights(network);
    network.compute_layers.iter().enumerate().all(|(index, layer)| {
        layer
            .nodes
            .iter()
            .all(|node| node.inputs.iter().all(|input| input.node_index < heights[index]))
    })
}

fn no_duplicate_sources(network: &Network) -> bool {
    network.compute_layers.iter().all(|layer| {
        layer.nodes.iter().all(|node| {
            let mut sources: Vec<usize> = node.inputs.iter().map(|input| input.node_index).collect();
            sources.sort();
            sources.windows(2).all(|pair| pair[0] != pair[1])
        })
    })
}

#[test]
fn input_deletion_on_a_node_without_edges_is_infeasible() {
    let subject = network(3, 1, 2, 2);
    for layer in 0..2 {
        for node in 0..2 {
            assert_eq!(input_deletion_at(&subject, layer, node), None);
        }
    }
    for _ in 0..50 {
        assert_eq!(input_deletion(&subject), None);
    }
}

#[test]
fn input_deletion_names_an_edge_of_the_node() {
    let mut subject = network(3, 0, 0, 2);
    subject.compute_layers[0].nodes[1].inputs = vec![edge(0, 1.0), edge(2, 1.0), edge(1, 1.0)];
    let mut seen = [false; 3];
    for _ in 0..100 {
        match input_deletion_at(&subject, 0, 1) {
            Some(Mutation::InputDeletion { layer: 0, node: 1, input_index }) => {
                seen[input_index] = true;
            }
            other => panic!("{other:?}"),
        }
    }
    assert_eq!(seen, [true; 3]);
    assert_eq!(input_deletion_at(&subject, 0, 0), None);
}

#[test]
fn input_deletion_removes_the_edge_and_keeps_the_order() {
    let mut subject = network(3, 0, 0, 1);
    subject.compute_layers[0].nodes[0].inputs = vec![edge(0, 1.0), edge(2, 2.0), edge(1, 3.0)];
    Mutation::InputDeletion { layer: 0, node: 0, input_index: 1 }
        .apply(&mut subject, &mutation_arith);
    assert_eq!(subject.compute_layers[0].nodes[0].inputs, vec![edge(0, 1.0), edge(1, 3.0)]);
}

#[test]
fn input_creation_refuses_a_source_already_read() {
    let mut subject = network(3, 0, 0, 2);
    subject.compute_layers[0].nodes[0].inputs = vec![edge(1, 0.5)];
    assert_eq!(input_creation_at(&subject, 0, 0, 1, &upper_draw), None);
    assert_eq!(
        input_creation_at(&subject, 0, 0, 2, &upper_draw),
        Some(Mutation::InputCreation { layer: 0, node: 0, src_node_index: 2, weight: mv(2.0) })
    );
    assert_eq!(
        input_creation_at(&subject, 0, 1, 1, &upper_draw),
        Some(Mutation::InputCreation { layer: 0, node: 1, src_node_index: 1, weight: mv(2.0) })
    );
}

#[test]
fn input_creation_appends_the_edge() {
    let mut subject = network(3, 0, 0, 1);
    subject.compute_layers[0].nodes[0].inputs = vec![edge(1, 0.5)];
    Mutation::InputCreation { layer: 0, node: 0, src_node_index: 2, weight: mv(-1.25) }
        .apply(&mut subject, &mutation_arith);
    assert_eq!(subject.compute_layers[0].nodes[0].inputs, vec![edge(1, 0.5), edge(2, -1.25)]);
}

#[test]
fn input_creation_reads_the_layer_immediately_before() {
    let subject = network(5, 1, 2, 3);
    for _ in 0..200 {
        match input_creation(&subject, &upper_draw) {
            Some(Mutation::InputCreation { layer, node, src_node_index, weight }) => {
                assert_eq!(weight, mv(2.0));
                if layer == 0 {
                    assert!(node < 2 && src_node_index < 5);
                } else {
                    assert_eq!(layer, 1);
                    assert!(node < 3 && src_node_index < 2);
                }
            }
            other => panic!("{other:?}"),
        }
    }
}

#[test]
fn input_creation_without_nodes_is_infeasible() {
    assert_eq!(input_creation(&network(0, 0, 0, 2), &upper_draw), None);
    assert_eq!(input_creation(&network(3, 0, 0, 0), &upper_draw), None);
    let mut bare = network(3, 0, 0, 2);
    bare.compute_layers.clear();
    assert_eq!(input_creation(&bare, &upper_draw), None);
    assert_eq!(weight_adjustment(&bare, &upper_draw), None);
    assert_eq!(input_deletion(&bare), None);
}

#[test]
fn weight_adjustment_needs_an_edge() {
    let mut subject = network(2, 0, 0, 2);
    assert_eq!(weight_adjustment_at(&subject, 0, 0, &upper_draw), None);
    for _ in 0..50 {
        assert_eq!(weight_adjustment(&subject, &upper_draw), None);
    }
    subject.compute_layers[0].nodes[0].inputs = vec![edge(1, -3.0)];
    assert_eq!(
        weight_adjustment_at(&subject, 0, 0, &upper_draw),
        Some(Mutation::AdjustWeight { layer: 0, node: 0, input: 0, adjustment: mv(1.5) })
    );
    assert_eq!(weight_adjustment_at(&subject, 0, 1, &upper_draw), None);
}

#[test]
fn weight_adjustment_has_a_floor_for_small_weights() {
    let mut subject = network(2, 0, 0, 1);
    subject.compute_layers[0].nodes[0].inputs = vec![edge(0, 0.0)];
    assert_eq!(
        weight_adjustment_at(&subject, 0, 0, &upper_draw),
        Some(Mutation::AdjustWeight { layer: 0, node: 0, input: 0, adjustment: mv(0.01) })
    );
}

#[test]
fn adjust_weight_adds_the_adjustment() {
    let mut subject = network(2, 0, 0, 1);
    subject.compute_layers[0].nodes[0].inputs = vec![edge(0, 1.0), edge(1, -3.0)];
    Mutation::AdjustWeight { layer: 0, node: 0, input: 1, adjustment: mv(0.5) }
        .apply(&mut subject, &mutation_arith);
    assert_eq!(subject.compute_layers[0].nodes[0].inputs, vec![edge(0, 1.0), edge(1, -2.5)]);
}

#[test]
fn attempt_skips_what_is_infeasible() {
    let mut subject = network(2, 0, 0, 1);
    let untouched = subject.clone();
    attempt(MutationKind::AdjustWeight, &mut subject, &mutation_arith, &upper_draw);
    attempt(MutationKind::InputDeletion, &mut subject, &mutation_arith, &upper_draw);
    assert_eq!(subject, untouched);
    attempt(MutationKind::InputCreation, &mut subject, &mutation_arith, &upper_draw);
    assert_eq!(edge_count(&subject), 1);
    attempt(MutationKind::AdjustWeight, &mut subject, &mutation_arith, &upper_draw);
    assert_eq!(subject.compute_layers[0].nodes[0].inputs[0].weight, mv(3.0));
    attempt(MutationKind::InputDeletion, &mut subject, &mutation_arith, &upper_draw);
    assert_eq!(subject, untouched);
}

#[test]
fn mutate_attempts_the_edits_in_one_of_three_orders() {
    // One input and one output node: creating is feasible only while the node
    // has no edge, and a created edge is the only one to adjust or remove.
    // Adjusting first or creating first ends without an edge; removing first
    // ends with one new edge of weight two.
    let mut kept = 0;
    let mut removed = 0;
    for _ in 0..300 {
        let mutated = trainer().mutate(network(1, 0, 0, 1), &mutation_arith, &upper_draw);
        match edge_count(&mutated) {
            0 => removed += 1,
            1 => {
                assert_eq!(mutated.compute_layers[0].nodes[0].inputs, vec![edge(0, 2.0)]);
                kept += 1;
            }
            count => panic!("{count} edges"),
        }
    }
    // Removing first is drawn two times in ten.
    assert!(kept >= 20 && kept <= 120, "{kept}");
    assert!(removed > kept);
}

#[test]
fn mutate_on_a_full_node_adjusts_then_removes() {
    // The single node reads its single source already: nothing can be
    // created. Whatever the order, the weight is adjusted and the edge then
    // removed, or the edge is removed first and nothing is left to adjust.
    for _ in 0..50 {
        let mut subject = network(1, 0, 0, 1);
        subject.compute_layers[0].nodes[0].inputs = vec![edge(0, 1.0)];
        let mutated = trainer().mutate(subject, &mutation_arith, &upper_draw);
        match edge_count(&mutated) {
            0 => {}
            1 => assert_eq!(mutated.compute_layers[0].nodes[0].inputs, vec![edge(0, 2.0)]),
            count => panic!("{count} edges"),
        }
    }
}

#[test]
fn mutations_never_leave_an_edge_dangling() {
    let mut subject = network(4, 2, 3, 2);
    let shape = heights(&subject);
    for round in 0..400 {
        subject = trainer().mutate(subject, &mutation_arith, &upper_draw);
        assert!(no_edge_dangles(&subject), "round {round}");
        assert_eq!(heights(&subject), shape);
    }
    assert!(edge_count(&subject) <= 4 * 3 + 3 * 3 + 3 * 2);
}

#[test]
fn input_creation_never_duplicates_a_source() {
    let mut subject = network(3, 1, 2, 2);
    for _ in 0..500 {
        attempt(MutationKind::InputCreation, &mut subject, &mutation_arith, &upper_draw);
        assert!(no_duplicate_sources(&subject));
        assert!(no_edge_dangles(&subject));
    }
    // Every node ends up reading every node of the layer before it.
    assert_eq!(edge_count(&subject), 3 * 2 + 2 * 2);
    let full = subject.clone();
    attempt(MutationKind::InputCreation, &mut subject, &mutation_arith, &upper_draw);
    assert_eq!(subject, full);
}

#[test]
fn mutated_contender_leaves_its_base_alone() {
    let mut base = network(3, 1, 2, 2);
    base.compute_layers[0].nodes[0].inputs.push(edge(2, 0.5));
    let before = base.clone();
    let contender = trainer().mutated_contender(&base, &mutation_arith, &upper_draw);
    assert_eq!(base, before);
    assert_eq!(heights(&contender), heights(&base));
    assert!(no_edge_dangles(&contender));
    assert!(no_duplicate_sources(&contender));
}

#[test]
fn mutate_never_keeps_the_only_edge_of_a_single_node() {
    // Removing is feasible whatever is drawn and is attempted in every order,
    // so the edge of weight eight goes; what may come instead is a new edge
    // with a weight between minus two and two.
    for _ in 0..100 {
        let mut subject = network(1, 0, 0, 1);
        subject.compute_layers[0].nodes[0].inputs = vec![edge(0, 8.0)];
        let mutated = trainer().mutate(subject, &mutation_arith, &upper_draw);
        let inputs = &mutated.compute_layers[0].nodes[0].inputs;
        assert!(inputs.len() <= 1);
        for input in inputs {
            assert_eq!(input.node_index, 0);
            assert!((-2.0..=2.0).contains(&mn(input.weight)));
        }
    }
}

#[test]
fn attempt_makes_an_edit_where_one_is_owed() {
    let mut full = network(2, 0, 0, 2);
    for node in full.compute_layers[0].nodes.iter_mut() {
        node.inputs = vec![edge(0, 1.0), edge(1, 1.0)];
    }
    for _ in 0..50 {
        let mut subject = full.clone();
        attempt(MutationKind::InputDeletion, &mut subject, &mutation_arith, &upper_draw);
        assert_eq!(edge_count(&subject), 3);
        let mut subject = full.clone();
        attempt(MutationKind::AdjustWeight, &mut subject, &mutation_arith, &upper_draw);
        assert_eq!(edge_count(&subject), 4);
        assert_ne!(subject, full);
        let mut subject = network(2, 0, 0, 2);
        attempt(MutationKind::InputCreation, &mut subject, &mutation_arith, &upper_draw);
        assert_eq!(edge_count(&subject), 1);
    }
}
