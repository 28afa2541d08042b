use ml_life_killer::adapter::TrainerAdapter;
use ml_life_killer::adapter::TrainerAdapterFactory;
use ml_life_killer::adapter::game::GameTrainerAdapter;
use ml_life_killer::adapter::game::GameTrainerAdapterConfig;
use ml_life_killer::adapter::game::GameTrainerAdapterFactory;
use ml_life_killer::adapter::game::cells_turned_reward;
use ml_life_killer::adapter::game::punishment;
use ml_life_killer::game::Game;
use ml_life_killer::game::board::GameBoard;
use ml_life_killer::game::board::TileState;
use ml_life_killer::game::pos::Position;
use ml_life_killer::game::rule::Rule;
use ml_life_killer::network::Network;
use ml_life_killer::network::NetworkConfig;
use ml_life_killer::network::functions::Activator;
use ml_life_killer::network::functions::Combinator;
use ml_life_killer::network::functions::Operation;
use ml_life_killer::network::node::NodeInput;
use ml_life_killer::network::value::Value;
use ml_life_killer::player::NetworkPlayerConfig;
use ml_life_killer::trainer::Trainer;
use ml_life_killer::trainer::TrainerConfig;
use ml_life_killer::trainer::mutation::Draw;

fn av(number: f32) -> Value {
    Value { bits: number.to_bits() }
}

fn an(value: Value) -> f32 {
    f32::from_bits(value.bits)
}

fn adapter_arith(operation: Operation) -> Value {
    match operation {
        Operation::Weigh { activator, input, weight } => {
            let weighted = an(input) * an(weight);
            av(match activator {
                Activator::Binary => {
                    if weighted > 0.5 {
                        1.0
                    } else {
                        0.0
                    }
                }
                Activator::ReLU => weighted.max(0.0),
                Activator::Tanh => weighted.tanh(),
            })
        }
        Operation::Combine { combinator, left, right } => av(match combinator {
            Combinator::Add => an(left) + an(right),
            Combinator::Mul => an(left) * an(right),
        }),
    }
}

fn adapter_draw(request: Draw) -> Value {
    match request {
        Draw::Adjustment { weight } => av((an(weight).abs() / 2.0).max(0.01) / 4.0),
        Draw::Weight => av(-0.75),
    }
}

fn config(disable_nature: bool, evil: bool, max_rounds: usize) -> GameTrainerAdapterConfig {
    GameTrainerAdapterConfig {
        width: 4,
        height: 4,
        alive_cells: 5,
        block_size: 1,
        max_rounds,
        disable_nature,
        evil,
    }
}

fn one_cell_player() -> NetworkPlayerConfig {
    NetworkPlayerConfig { kernel_diameter: 1, use_kernel_cache: false }
}

/// A network on one-cell kernels that prefers live cells and kills them.
fn killer() -> Network {
    let mut network = Network::new(NetworkConfig::default(), 1, 0, 0, 2);
    network.compute_layers[0].nodes[0].inputs.push(NodeInput { node_index: 0, weight: av(1.0) });
    network.compute_layers[0].nodes[1].inputs.push(NodeInput { node_index: 0, weight: av(-2.0) });
    network
}

/// A network on one-cell kernels that never asks for a change.
fn idler() -> Network {
    Network::new(NetworkConfig::default(), 1, 0, 0, 2)
}

fn adapter_on(board: GameBoard, config: GameTrainerAdapterConfig) -> GameTrainerAdapter {
    GameTrainerAdapter {
        config,
        player_config: one_cell_player(),
        game_template: Game::new(board, Rule::default()),
    }
}

fn scattered_board() -> GameBoard {
    // Four cells of which no two are neighbours: all die in the first tick.
    let mut board = GameBoard::new(4, 4);
    for (x, y) in [(0, 0), (2, 0), (0, 2), (2, 2)] {
        board.set_tile(Position { x, y }, TileState::Alive);
    }
    board
}

fn block_board() -> GameBoard {
    let mut board = GameBoard::new(4, 4);
    for (x, y) in [(1, 1), (2, 1), (1, 2), (2, 2)] {
        board.set_tile(Position { x, y }, TileState::Alive);
    }
    board
}

#[test]
fn reward_counts_cells_killed_or_raised() {
    assert_eq!(cells_turned_reward(true, 10, 4), 6);
    assert_eq!(cells_turned_reward(true, 4, 10), -6);
    assert_eq!(cells_turned_reward(false, 10, 4), -6);
    assert_eq!(cells_turned_reward(false, 4, 10), 6);
    assert_eq!(cells_turned_reward(true, 0, 0), 0);
}

#[test]
fn punishment_halves_rounds_left_and_fifths_skipped_turns() {
    assert_eq!(punishment(128, 128, 0), 0);
    assert_eq!(punishment(128, 1, 0), 63);
    assert_eq!(punishment(128, 1, 1), 63);
    assert_eq!(punishment(20, 10, 10), 5 + 2);
    assert_eq!(punishment(20, 17, 4), 1);
    assert_eq!(punishment(20, 17, 5), 2);
    assert_eq!(punishment(1, 1, 1), 0);
}

#[test]
fn new_randomized_sets_up_the_configured_game() {
    let adapter = GameTrainerAdapter::new_randomized(config(false, true, 8), one_cell_player());
    assert_eq!(adapter.config, config(false, true, 8));
    assert_eq!(adapter.player_config, one_cell_player());
    assert_eq!(adapter.game_template.board.width, 4);
    assert_eq!(adapter.game_template.board.height, 4);
    assert_eq!(adapter.game_template.count_cells(TileState::Alive), 5);
    assert_eq!(adapter.game_template.rule, Rule::default());
}

#[test]
fn factory_makes_fresh_episodes() {
    let factory =
        GameTrainerAdapterFactory { config: config(false, true, 8), player_config: one_cell_player() };
    let make = || {
        TrainerAdapterFactory::<fn(Operation) -> Value, GameTrainerAdapter>::create_adapter(&factory)
    };
    let first = make();
    assert_eq!(first.config, factory.config);
    assert_eq!(first.player_config, factory.player_config);
    assert_eq!(first.game_template.count_cells(TileState::Alive), 5);
    let differs = (0..40).any(|_| make().game_template != first.game_template);
    assert!(differs);
}

#[test]
fn reference_score_is_what_nature_does_alone() {
    let evil = adapter_on(scattered_board(), config(false, true, 3));
    assert_eq!(evil.get_reference_score(&evil.game_template), 4);
    let kind = adapter_on(scattered_board(), config(false, false, 3));
    assert_eq!(kind.get_reference_score(&kind.game_template), -4);
    let stable = adapter_on(block_board(), config(false, true, 5));
    assert_eq!(stable.get_reference_score(&stable.game_template), 0);
    let still = adapter_on(scattered_board(), config(true, true, 3));
    assert_eq!(still.get_reference_score(&still.game_template), 0);
}

#[test]
fn network_score_of_a_killer_on_a_still_board() {
    // Four live cells, one killed a round: the game ends after four rounds.
    let adapter = adapter_on(block_board(), config(true, true, 10));
    let mut network = killer();
    let scores =
        adapter.get_network_score(adapter.game_template.clone(), &mut network, &adapter_arith);
    assert_eq!(scores, (4, (10 - 4) / 2));
    assert_eq!(adapter.try_out(&mut network, &adapter_arith), 4 - 0 - 3);
    assert_eq!(network.compute_layers, killer().compute_layers);
}

#[test]
fn network_score_of_a_killer_that_runs_out_of_rounds() {
    let adapter = adapter_on(block_board(), config(true, true, 3));
    let mut network = killer();
    let scores =
        adapter.get_network_score(adapter.game_template.clone(), &mut network, &adapter_arith);
    assert_eq!(scores, (3, 0));
    let kind = adapter_on(block_board(), config(true, false, 3));
    assert_eq!(kind.try_out(&mut network, &adapter_arith), -3);
}

#[test]
fn network_score_of_an_idler_counts_skipped_turns() {
    let adapter = adapter_on(block_board(), config(true, true, 12));
    let mut network = idler();
    let scores =
        adapter.get_network_score(adapter.game_template.clone(), &mut network, &adapter_arith);
    assert_eq!(scores, (0, 12 / 5));
    assert_eq!(adapter.try_out(&mut network, &adapter_arith), -2);
}

#[test]
fn try_out_subtracts_what_nature_does_alone() {
    // Nature kills the four scattered cells in the first tick; an idle
    // network gains nothing over that and pays for the rounds left.
    let adapter = adapter_on(scattered_board(), config(false, true, 9));
    let mut network = idler();
    assert_eq!(adapter.get_reference_score(&adapter.game_template), 4);
    assert_eq!(adapter.try_out(&mut network, &adapter_arith), 4 - 4 - (9 - 1) / 2);
}

#[test]
fn try_out_plays_a_copy_of_the_game() {
    let adapter = adapter_on(block_board(), config(false, true, 6));
    let template = adapter.game_template.clone();
    let mut network = killer();
    let first = adapter.try_out(&mut network, &adapter_arith);
    assert_eq!(adapter.game_template, template);
    let limit = 2 * 16 + 6;
    assert!(-limit <= first && first <= limit);
}

#[test]
fn generation_with_game_episodes_keeps_the_network_sound() {
    let trainer = Trainer::new(
        TrainerConfig {
            generation_contenders: 5,
            generation_mutations: 3,
            generation_mutations_jitter: 2,
            generation_iterations: 3,
        },
        GameTrainerAdapterFactory {
            config: GameTrainerAdapterConfig {
                width: 5,
                height: 5,
                alive_cells: 3,
                block_size: 2,
                max_rounds: 6,
                disable_nature: false,
                evil: true,
            },
            player_config: NetworkPlayerConfig { kernel_diameter: 3, use_kernel_cache: true },
        },
    );
    let mut network = Network::new(
        NetworkConfig { activator: Activator::ReLU, combinator: Combinator::Mul },
        9,
        2,
        4,
        2,
    );
    for _ in 0..5 {
        let (winner, score) = trainer.train_generation(network, &adapter_arith, &adapter_draw);
        let limit = 10 * (2 * 25 + 6);
        assert!(-limit <= score && score <= limit);
        assert_eq!(winner.input_height(), 9);
        assert_eq!(winner.output_height(), 2);
        assert_eq!(winner.compute_layers.len(), 3);
        assert_eq!(winner.config.activator, Activator::ReLU);
        let mut before = 9;
        for layer in &winner.compute_layers {
            for node in &layer.nodes {
                let mut sources: Vec<usize> =
                    node.inputs.iter().map(|input| input.node_index).collect();
                assert!(sources.iter().all(|source| *source < before));
                sources.sort();
                assert!(sources.windows(2).all(|pair| pair[0] != pair[1]));
            }
            before = layer.nodes.len();
        }
        network = winner;
    }
}

#[test]
fn new_randomized_spawns_exactly_the_configured_cells() {
    for alive_cells in [0, 1, 7, 16] {
        let adapter = GameTrainerAdapter::new_randomized(
            GameTrainerAdapterConfig { alive_cells, ..config(false, true, 8) },
            one_cell_player(),
        );
        assert_eq!(adapter.game_template.count_cells(TileState::Alive), alive_cells);
        assert_eq!(adapter.game_template.board.tiles.len(), 16);
    }
    let blocks = GameTrainerAdapter::new_randomized(
        GameTrainerAdapterConfig { alive_cells: 1, block_size: 3, ..config(false, true, 8) },
        one_cell_player(),
    );
    assert_eq!(blocks.game_template.count_cells(TileState::Alive), 9);
}
