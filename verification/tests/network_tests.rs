use ml_life_killer::network::Network;
use ml_life_killer::network::NetworkConfig;
use ml_life_killer::network::functions::Activator;
use ml_life_killer::network::functions::Combinator;
use ml_life_killer::network::functions::Operation;
use ml_life_killer::network::harness::InputProvider;
use ml_life_killer::network::harness::NetworkHarness;
use ml_life_killer::network::layer::Layer;
use ml_life_killer::network::layer::compute::ComputeLayer;
use ml_life_killer::network::layer::input::InputLayer;
use ml_life_killer::network::layer::input::node_indices;
use ml_life_killer::network::node::Node;
use ml_life_killer::network::node::NodeInput;
use ml_life_killer::network::value::Value;

fn val(number: f32) -> Value {
    Value { bits: number.to_bits() }
}

fn num(value: Value) -> f32 {
    f32::from_bits(value.bits)
}

fn nums(values: &[Value]) -> Vec<f32> {
    values.iter().map(|value| num(*value)).collect()
}

fn network_arith(operation: Operation) -> Value {
    match operation {
        Operation::Weigh { activator, input, weight } => {
            let weighted = num(input) * num(weight);
            val(match activator {
                Activator::Binary => {
                    if weighted > 0.5 {
                        1.0
                    } else {
                        0.0
                    }
                }
                Activator::ReLU => weighted.max(0.0),
                Activator::Tanh => weighted.tanh(),
            })
        }
        Operation::Combine { combinator, left, right } => val(match combinator {
            Combinator::Add => num(left) + num(right),
            Combinator::Mul => num(left) * num(right),
        }),
    }
}

fn edge(node_index: usize, weight: f32) -> NodeInput {
    NodeInput { node_index, weight: val(weight) }
}

fn config(activator: Activator, combinator: Combinator) -> NetworkConfig {
    NetworkConfig { activator, combinator }
}

/// Reads one number of a slice of numbers.
struct Pick {
    index: usize,
}

impl InputProvider<Vec<f32>> for Pick {
    fn accepts(&self, state: &Vec<f32>) -> bool {
        self.index < state.len()
    }

    fn provided(&self, state: &Vec<f32>) -> Value {
        val(state[self.index])
    }

    fn provide(&self, state: &Vec<f32>) -> Value {
        val(state[self.index])
    }
}

#[test]
fn default_config_is_tanh_and_add() {
    let default = NetworkConfig::default();
    assert_eq!(default.activator, Activator::Tanh);
    assert_eq!(default.combinator, Combinator::Add);
}

#[test]
fn new_network_has_the_shape_asked_for() {
    let network = Network::new(NetworkConfig::default(), 25, 3, 16, 2);
    assert_eq!(network.input_height(), 25);
    assert_eq!(network.output_height(), 2);
    assert_eq!(network.compute_layers.len(), 4);
    for layer in &network.compute_layers[..3] {
        assert_eq!(layer.nodes.len(), 16);
    }
    assert_eq!(network.compute_layers[3].nodes.len(), 2);
    assert!(network
        .compute_layers
        .iter()
        .all(|layer| layer.nodes.iter().all(|node| node.inputs.is_empty())));
    let outputs = network.input_layer.get_outputs(&network.config, None);
    assert_eq!(outputs, vec![Value { bits: 0 }; 25]);
}

#[test]
fn network_without_hidden_layers_has_one_compute_layer() {
    let network = Network::new(NetworkConfig::default(), 2, 0, 9, 3);
    assert_eq!(network.compute_layers.len(), 1);
    assert_eq!(network.output_height(), 3);
}

#[test]
fn layers_begin_with_the_input_layer() {
    let network = Network::new(NetworkConfig::default(), 4, 2, 3, 2);
    let layers = network.layers();
    assert_eq!(layers.len(), 4);
    assert!(matches!(layers[0], Layer::Input(_)));
    assert!(matches!(layers[1], Layer::Compute(_)));
    assert_eq!(layers[0].output_node_indices(), vec![0, 1, 2, 3]);
    assert_eq!(layers[1].output_node_indices(), vec![0, 1, 2]);
    assert_eq!(layers[3].output_node_indices(), vec![0, 1]);
    assert!(matches!(network.layer(0), Some(Layer::Input(_))));
    assert_eq!(network.layer(3).unwrap().output_node_indices(), vec![0, 1]);
    assert!(network.layer(4).is_none());
    assert_eq!(node_indices(0), Vec::<usize>::new());
}

#[test]
fn input_layer_update_supplies_every_node() {
    let mut layer = InputLayer::new(4);
    assert_eq!(layer.height(), 4);
    layer.update(&vec![val(1.0), val(2.0), val(-3.0), val(0.5)]);
    let outputs = layer.get_outputs(&NetworkConfig::default(), None);
    assert_eq!(nums(&outputs), vec![1.0, 2.0, -3.0, 0.5]);
    layer.update(&vec![val(9.0), val(8.0), val(7.0), val(6.0)]);
    let outputs = layer.get_outputs(&NetworkConfig::default(), Some(vec![val(5.0)]));
    assert_eq!(nums(&outputs), vec![9.0, 8.0, 7.0, 6.0]);
    assert_eq!(layer.height(), 4);
    assert_eq!(layer.output_node_indices(), vec![0, 1, 2, 3]);
    let mut none = InputLayer::new(0);
    none.update(&Vec::new());
    assert_eq!(none.height(), 0);
    assert_eq!(num(InputLayer::with_values(vec![val(3.0)]).get_outputs(&NetworkConfig::default(), None)[0]), 3.0);
}

#[test]
fn node_without_edges_is_the_neutral_element() {
    let node = Node::default();
    let sum = node.compute(&config(Activator::ReLU, Combinator::Add), &vec![val(3.0)], &network_arith);
    assert_eq!(sum.bits, 0);
    assert_eq!(num(sum), 0.0);
    let product =
        node.compute(&config(Activator::ReLU, Combinator::Mul), &vec![val(3.0)], &network_arith);
    assert_eq!(num(product), 1.0);
    assert_eq!(Combinator::Add.neutral(), val(0.0));
    assert_eq!(Combinator::Mul.neutral(), val(1.0));
    // The neutral element changes nothing when it is combined with a value.
    for number in [0.0f32, -2.5, 7.0] {
        for combinator in [Combinator::Add, Combinator::Mul] {
            let combined = combinator.combine(combinator.neutral(), val(number), &network_arith);
            assert_eq!(num(combined), number);
        }
    }
}

#[test]
fn edgeless_network_puts_out_the_neutral_element() {
    let mut adding = Network::new(config(Activator::Tanh, Combinator::Add), 2, 1, 3, 2);
    adding.input_layer.update(&vec![val(4.0), val(-4.0)]);
    assert_eq!(nums(&adding.compute(&network_arith)), vec![0.0, 0.0]);
    let mut multiplying = Network::new(config(Activator::Tanh, Combinator::Mul), 2, 1, 3, 2);
    multiplying.input_layer.update(&vec![val(4.0), val(-4.0)]);
    assert_eq!(nums(&multiplying.compute(&network_arith)), vec![1.0, 1.0]);
}

#[test]
fn edge_activates_the_weighted_input() {
    let inputs = vec![val(0.5), val(-2.0)];
    let tanh = edge(0, 0.5).compute(&config(Activator::Tanh, Combinator::Add), &inputs, &network_arith);
    assert_eq!(num(tanh), 0.25f32.tanh());
    let relu = edge(1, 3.0).compute(&config(Activator::ReLU, Combinator::Add), &inputs, &network_arith);
    assert_eq!(num(relu), 0.0);
    let relu = edge(1, -3.0).compute(&config(Activator::ReLU, Combinator::Add), &inputs, &network_arith);
    assert_eq!(num(relu), 6.0);
    let binary = edge(0, 1.0).compute(&config(Activator::Binary, Combinator::Add), &inputs, &network_arith);
    assert_eq!(num(binary), 0.0);
    let binary = edge(0, 1.5).compute(&config(Activator::Binary, Combinator::Add), &inputs, &network_arith);
    assert_eq!(num(binary), 1.0);
}

#[test]
fn node_folds_contributions_in_edge_order() {
    let inputs = vec![val(1.0), val(2.0), val(3.0)];
    let node = Node { inputs: vec![edge(0, 2.0), edge(2, 0.5), edge(1, -1.0)] };
    let sum = node.compute(&config(Activator::ReLU, Combinator::Add), &inputs, &network_arith);
    assert_eq!(num(sum), 2.0 + 1.5 + 0.0);
    let product = node.compute(&config(Activator::ReLU, Combinator::Mul), &inputs, &network_arith);
    assert_eq!(num(product), 0.0);
    let node = Node { inputs: vec![edge(0, 2.0), edge(2, 0.5)] };
    let product = node.compute(&config(Activator::ReLU, Combinator::Mul), &inputs, &network_arith);
    assert_eq!(num(product), 3.0);
    let tanh_sum = node.compute(&config(Activator::Tanh, Combinator::Add), &inputs, &network_arith);
    assert_eq!(num(tanh_sum), 2.0f32.tanh() + 1.5f32.tanh());
    let single = Node { inputs: vec![edge(1, 4.0)] };
    let alone = single.compute(&config(Activator::ReLU, Combinator::Mul), &inputs, &network_arith);
    assert_eq!(num(alone), 8.0);
}

#[test]
fn combinator_and_activator_ask_the_arithmetic() {
    assert_eq!(num(Combinator::Add.combine(val(1.5), val(2.0), &network_arith)), 3.5);
    assert_eq!(num(Combinator::Mul.combine(val(1.5), val(2.0), &network_arith)), 3.0);
    assert_eq!(num(Activator::ReLU.activate(val(2.0), val(-1.0), &network_arith)), 0.0);
    assert_eq!(num(Activator::Tanh.activate(val(2.0), val(0.25), &network_arith)), 0.5f32.tanh());
    assert_eq!(num(Activator::Binary.activate(val(2.0), val(0.25), &network_arith)), 0.0);
    assert_eq!(num(Activator::Binary.activate(val(2.0), val(0.3), &network_arith)), 1.0);
}

#[test]
fn compute_layer_computes_every_node() {
    let layer = ComputeLayer {
        nodes: vec![
            Node { inputs: vec![edge(0, 1.0)] },
            Node::default(),
            Node { inputs: vec![edge(1, 1.0), edge(0, 1.0)] },
        ],
    };
    let outputs = layer.get_outputs(
        &config(Activator::ReLU, Combinator::Add),
        Some(vec![val(2.0), val(5.0)]),
        &network_arith,
    );
    assert_eq!(nums(&outputs), vec![2.0, 0.0, 7.0]);
    assert_eq!(layer.output_node_indices(), vec![0, 1, 2]);
    assert_eq!(ComputeLayer::default_n_nodes(3).nodes.len(), 3);
}

#[test]
fn network_feeds_each_layer_with_the_one_before() {
    let mut network = Network::new(config(Activator::ReLU, Combinator::Add), 2, 1, 2, 1);
    network.input_layer.update(&vec![val(1.0), val(2.0)]);
    network.compute_layers[0].nodes[0].inputs = vec![edge(0, 1.0), edge(1, 1.0)];
    network.compute_layers[0].nodes[1].inputs = vec![edge(1, -1.0)];
    network.compute_layers[1].nodes[0].inputs = vec![edge(0, 2.0), edge(1, 5.0)];
    let outputs = network.compute(&network_arith);
    assert_eq!(nums(&outputs), vec![6.0]);
    let layers = network.layers();
    let hidden = layers[1].get_outputs(
        &network.config,
        Some(layers[0].get_outputs(&network.config, None, &network_arith)),
        &network_arith,
    );
    assert_eq!(nums(&hidden), vec![3.0, 0.0]);
}

#[test]
fn zero_inputs_and_zero_weights_give_zero_everywhere() {
    for activator in [Activator::Binary, Activator::ReLU, Activator::Tanh] {
        for combinator in [Combinator::Add, Combinator::Mul] {
            let mut network = Network::new(config(activator, combinator), 3, 1, 4, 2);
            network.input_layer.update(&vec![val(0.0), val(-0.0), val(0.0)]);
            for node in network.compute_layers[0].nodes.iter_mut() {
                node.inputs = vec![edge(0, 0.0), edge(1, -0.0), edge(2, 0.0)];
            }
            for node in network.compute_layers[1].nodes.iter_mut() {
                node.inputs = vec![edge(0, 0.0), edge(3, 0.0)];
            }
            let hidden = network.compute_layers[0].get_outputs(
                &network.config,
                Some(network.input_layer.get_outputs(&network.config, None)),
                &network_arith,
            );
            assert!(hidden.iter().all(|value| num(*value) == 0.0));
            let outputs = network.compute(&network_arith);
            assert_eq!(outputs.len(), 2);
            assert!(outputs.iter().all(|value| num(*value) == 0.0));
        }
    }
}

#[test]
fn network_clone_is_equal_and_independent() {
    let mut network = Network::new(NetworkConfig::default(), 2, 1, 2, 2);
    network.compute_layers[0].nodes[1].inputs.push(edge(1, 0.75));
    let mut copy = network.clone();
    assert_eq!(copy, network);
    copy.compute_layers[0].nodes[1].inputs.push(edge(0, 0.5));
    assert_ne!(copy, network);
    assert_eq!(network.compute_layers[0].nodes[1].inputs.len(), 1);
}

#[test]
fn harness_refreshes_inputs_then_computes() {
    let mut network = Network::new(config(Activator::ReLU, Combinator::Add), 3, 0, 0, 2);
    network.input_layer.update(&vec![val(7.0), val(7.0), val(7.0)]);
    network.compute_layers[0].nodes[0].inputs = vec![edge(0, 1.0), edge(1, 1.0), edge(2, 1.0)];
    network.compute_layers[0].nodes[1].inputs = vec![edge(1, 2.0)];
    let harness = NetworkHarness::new()
        .with_input(Pick { index: 1 })
        .with_inputs(vec![Pick { index: 0 }, Pick { index: 1 }]);
    let outputs = harness.compute(&mut network, &vec![10.0, 20.0], &network_arith);
    assert_eq!(nums(&outputs), vec![50.0, 20.0]);
    let held = network.input_layer.get_outputs(&network.config, None);
    assert_eq!(nums(&held), vec![20.0, 10.0, 20.0]);
    let again = harness.compute(&mut network, &vec![1.0, 2.0], &network_arith);
    assert_eq!(nums(&again), vec![5.0, 2.0]);
}

#[test]
fn harness_registers_providers_in_order() {
    let mut harness = NetworkHarness::new();
    harness.add_input(Pick { index: 4 });
    harness.add_boxed_input(Box::new(Pick { index: 2 }));
    harness.add_inputs(vec![Pick { index: 9 }, Pick { index: 1 }]);
    let order: Vec<usize> = harness.input_providers.iter().map(|pick| pick.index).collect();
    assert_eq!(order, vec![4, 2, 9, 1]);
}

#[test]
fn plain_form_holds_sources_and_weight_bits() {
    let mut network = Network::new(config(Activator::ReLU, Combinator::Mul), 2, 1, 2, 1);
    network.input_layer.update(&vec![val(0.5), val(-0.0)]);
    network.compute_layers[0].nodes[1].inputs = vec![edge(1, 0.75), edge(0, -2.0)];
    network.compute_layers[1].nodes[0].inputs = vec![edge(1, f32::NAN)];
    let (inputs, layers) = network.to_plain();
    assert_eq!(inputs, vec![0.5f32.to_bits(), (-0.0f32).to_bits()]);
    assert_eq!(
        layers,
        vec![
            vec![vec![], vec![(1, 0.75f32.to_bits()), (0, (-2.0f32).to_bits())]],
            vec![vec![(1, f32::NAN.to_bits())]],
        ]
    );
}

#[test]
fn plain_form_reads_back_the_same_network() {
    let mut network = Network::new(config(Activator::Binary, Combinator::Add), 3, 2, 3, 2);
    network.input_layer.update(&vec![val(1.0), val(-1.0), val(-0.0)]);
    let weights = [0.1f32, -7.25, f32::MIN_POSITIVE, 1.0e-40, f32::INFINITY, -0.0];
    for (index, weight) in weights.iter().enumerate() {
        let layer = index % 3;
        let node = index % network.compute_layers[layer].nodes.len();
        network.compute_layers[layer].nodes[node].inputs.push(edge(index % 3, *weight));
    }
    let (inputs, layers) = network.to_plain();
    let read_back = Network::from_plain(network.config, &inputs, &layers);
    assert_eq!(read_back, network);
    assert_eq!(read_back.to_plain(), (inputs, layers));
    let empty = Network::from_plain(NetworkConfig::default(), &Vec::new(), &Vec::new());
    assert_eq!(empty.input_height(), 0);
    assert!(empty.compute_layers.is_empty());
}
