use ml_life_killer::adapter::game::GameTrainerAdapterConfig;
use ml_life_killer::game::board::GameBoard;
use ml_life_killer::game::board::TileState;
use ml_life_killer::network::node::Node;
use ml_life_killer::network::node::NodeInput;
use ml_life_killer::network::value::Value;
use ml_life_killer::network::Network;
use ml_life_killer::network::NetworkConfig;
use ml_life_killer::player::NetworkPlayer;
use ml_life_killer::player::NetworkPlayerConfig;
use ml_life_killer::random::choose_index;
use ml_life_killer::random::random_below;
use ml_life_killer::random::random_offset;
use ml_life_killer::trainer::score::try_aggregate;
use ml_life_killer::trainer::TrainerConfig;

fn link(node_index: usize) -> NodeInput {
    NodeInput { node_index, weight: Value { bits: 0 } }
}

fn adapter_config() -> GameTrainerAdapterConfig {
    GameTrainerAdapterConfig {
        width: 16,
        height: 16,
        alive_cells: 128,
        block_size: 1,
        max_rounds: 128,
        disable_nature: false,
        evil: true,
    }
}

#[test]
fn board_is_well_formed_when_tiles_fill_the_grid() {
    assert!(GameBoard::new(3, 4).is_well_formed());
    assert!(GameBoard::new(0, 9).is_well_formed());
    assert!(!GameBoard::with_tiles(3, 4, vec![TileState::Dead; 11]).is_well_formed());
    assert!(!GameBoard::with_tiles(3, 4, vec![TileState::Dead; 13]).is_well_formed());
    assert!(!GameBoard::with_tiles(usize::MAX, 2, Vec::new()).is_well_formed());
    assert!(GameBoard::with_tiles(usize::MAX, 0, Vec::new()).is_well_formed());
}

#[test]
fn network_is_well_formed_when_no_edge_dangles() {
    let mut network = Network::new(NetworkConfig::default(), 3, 1, 2, 2);
    assert!(network.is_well_formed());
    network.compute_layers[0].nodes[1].inputs.push(link(2));
    network.compute_layers[1].nodes[0].inputs.push(link(1));
    assert!(network.is_well_formed());
    // The hidden layer has two nodes only.
    network.compute_layers[1].nodes[1].inputs.push(link(2));
    assert!(!network.is_well_formed());
    network.compute_layers[1].nodes[1].inputs.clear();
    network.compute_layers[0].nodes[0].inputs.push(link(3));
    assert!(!network.is_well_formed());
}

#[test]
fn network_is_free_of_duplicates_when_sources_differ() {
    let mut network = Network::new(NetworkConfig::default(), 3, 0, 0, 2);
    assert!(network.is_free_of_duplicates());
    network.compute_layers[0].nodes[0].inputs = vec![link(0), link(2), link(1)];
    network.compute_layers[0].nodes[1].inputs = vec![link(0)];
    assert!(network.is_free_of_duplicates());
    network.compute_layers[0].nodes[1].inputs.push(link(0));
    assert!(!network.is_free_of_duplicates());
    assert!(Node { inputs: vec![link(4), link(5)] }.reads_each_source_once());
    assert!(!Node { inputs: vec![link(4), link(5), link(4)] }.reads_each_source_once());
    assert!(Node { inputs: vec![link(4), link(5)] }.reads_within(6));
    assert!(!Node { inputs: vec![link(4), link(5)] }.reads_within(5));
    assert!(Node::default().reads_within(0));
}

#[test]
fn player_config_is_valid_while_the_kernel_can_be_counted() {
    assert!(NetworkPlayerConfig { kernel_diameter: 0, use_kernel_cache: false }.is_valid());
    assert!(NetworkPlayerConfig { kernel_diameter: 5, use_kernel_cache: true }.is_valid());
    assert!(NetworkPlayerConfig { kernel_diameter: 100_000, use_kernel_cache: true }.is_valid());
    assert!(!NetworkPlayerConfig { kernel_diameter: usize::MAX, use_kernel_cache: false }.is_valid());
    assert!(
        !NetworkPlayerConfig { kernel_diameter: usize::MAX / 2, use_kernel_cache: false }.is_valid()
    );
}

#[test]
fn player_accepts_networks_that_fit_its_kernel() {
    let player = NetworkPlayer::new(NetworkPlayerConfig { kernel_diameter: 3, use_kernel_cache: false });
    assert!(player.accepts(&Network::new(NetworkConfig::default(), 9, 2, 5, 2)));
    assert!(player.accepts(&Network::new(NetworkConfig::default(), 9, 0, 0, 3)));
    assert!(!player.accepts(&Network::new(NetworkConfig::default(), 8, 2, 5, 2)));
    assert!(!player.accepts(&Network::new(NetworkConfig::default(), 9, 2, 5, 1)));
    let mut dangling = Network::new(NetworkConfig::default(), 9, 0, 0, 2);
    dangling.compute_layers[0].nodes[0].inputs.push(link(9));
    assert!(!player.accepts(&dangling));
}

#[test]
fn trainer_config_is_valid_with_contenders_and_iterations() {
    let valid = TrainerConfig {
        generation_contenders: 16,
        generation_mutations: 4,
        generation_mutations_jitter: 3,
        generation_iterations: 20,
    };
    assert!(valid.is_valid());
    assert!(TrainerConfig { generation_mutations: 0, generation_mutations_jitter: 0, ..valid }
        .is_valid());
    assert!(!TrainerConfig { generation_contenders: 0, ..valid }.is_valid());
    assert!(!TrainerConfig { generation_iterations: 0, ..valid }.is_valid());
    assert!(!TrainerConfig { generation_mutations: 1 << 31, ..valid }.is_valid());
    assert!(!TrainerConfig { generation_mutations_jitter: 1 << 31, ..valid }.is_valid());
    assert!(TrainerConfig { generation_mutations_jitter: (1 << 31) - 1, ..valid }.is_valid());
}

#[test]
fn adapter_config_is_valid_when_the_cells_fit() {
    let valid = adapter_config();
    assert!(valid.is_valid());
    assert!(GameTrainerAdapterConfig { alive_cells: 256, ..valid }.is_valid());
    assert!(!GameTrainerAdapterConfig { alive_cells: 257, ..valid }.is_valid());
    assert!(GameTrainerAdapterConfig { alive_cells: 225, block_size: 2, ..valid }.is_valid());
    assert!(!GameTrainerAdapterConfig { alive_cells: 226, block_size: 2, ..valid }.is_valid());
    assert!(!GameTrainerAdapterConfig { block_size: 17, alive_cells: 0, ..valid }.is_valid());
    assert!(GameTrainerAdapterConfig { block_size: 16, alive_cells: 1, ..valid }.is_valid());
    assert!(!GameTrainerAdapterConfig { max_rounds: 0, ..valid }.is_valid());
    assert!(!GameTrainerAdapterConfig { width: usize::MAX, ..valid }.is_valid());
    assert!(!GameTrainerAdapterConfig { max_rounds: usize::MAX, ..valid }.is_valid());
    assert!(
        GameTrainerAdapterConfig { width: 0, height: 0, block_size: 0, alive_cells: 1, ..valid }
            .is_valid()
    );
}

#[test]
fn try_aggregate_refuses_what_aggregate_cannot_take() {
    assert_eq!(try_aggregate(&Vec::new()), None);
    assert_eq!(try_aggregate(&vec![1, 2, 4]), Some(23));
    assert_eq!(try_aggregate(&vec![-5, 4]), Some(-5));
    assert_eq!(try_aggregate(&vec![isize::MAX / 10]), Some(isize::MAX / 10 * 10));
    assert_eq!(try_aggregate(&vec![isize::MAX / 10 + 1]), None);
    assert_eq!(try_aggregate(&vec![isize::MAX, isize::MAX]), None);
    // The scaled sum of the first two cannot be held, though that of all can.
    assert_eq!(try_aggregate(&vec![isize::MAX / 10, 1, -1]), None);
    assert_eq!(try_aggregate(&vec![isize::MIN / 10, 0]), Some(isize::MIN / 10 * 10 / 2));
}

#[test]
fn draws_stay_in_range() {
    let mut seen = [false; 5];
    for _ in 0..300 {
        seen[random_below(5)] = true;
        let offset = random_offset(3);
        assert!((-3..3).contains(&offset));
        assert_eq!(random_below(1), 0);
        assert!(choose_index(4).is_some_and(|index| index < 4));
    }
    assert_eq!(seen, [true; 5]);
    assert_eq!(choose_index(0), None);
    assert_eq!(choose_index(1), Some(0));
}
