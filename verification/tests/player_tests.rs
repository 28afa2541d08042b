use ml_life_killer::game::Game;
use ml_life_killer::game::board::GameBoard;
use ml_life_killer::game::board::TileState;
use ml_life_killer::game::pos::Position;
use ml_life_killer::game::rule::Rule;
use ml_life_killer::network::Network;
use ml_life_killer::network::NetworkConfig;
use ml_life_killer::network::functions::Activator;
use ml_life_killer::network::functions::Combinator;
use ml_life_killer::network::functions::Operation;
use ml_life_killer::network::harness::InputProvider;
use ml_life_killer::network::node::NodeInput;
use ml_life_killer::network::value::Value;
use ml_life_killer::player::KernelOutput;
use ml_life_killer::player::NetworkPlayer;
use ml_life_killer::player::NetworkPlayerConfig;
use ml_life_killer::player::NetworkPlayerMove;
use ml_life_killer::player::apply_choice;
use ml_life_killer::player::kernel::Kernel;
use ml_life_killer::player::kernel::KernelInput;
use ml_life_killer::player::select_best;
use ml_life_killer::player::wanted_state;
use std::cell::Cell;

fn pv(number: f32) -> Value {
    Value { bits: number.to_bits() }
}

fn pn(value: Value) -> f32 {
    f32::from_bits(value.bits)
}

fn player_arith(operation: Operation) -> Value {
    match operation {
        Operation::Weigh { activator, input, weight } => {
            let weighted = pn(input) * pn(weight);
            pv(match activator {
                Activator::Binary => {
                    if weighted > 0.5 {
                        1.0
                    } else {
                        0.0
                    }
                }
                Activator::ReLU => weighted.max(0.0),
                Activator::Tanh => weighted.tanh(),
            })
        }
        Operation::Combine { combinator, left, right } => pv(match combinator {
            Combinator::Add => pn(left) + pn(right),
            Combinator::Mul => pn(left) * pn(right),
        }),
    }
}

fn scored(score: f32) -> (Position, KernelOutput) {
    (Position { x: 0, y: 0 }, KernelOutput { score: pv(score), state: pv(0.0) })
}

fn board_with(width: usize, height: usize, alive: &[(usize, usize)]) -> GameBoard {
    let mut board = GameBoard::new(width, height);
    for (x, y) in alive {
        board.set_tile(Position { x: *x, y: *y }, TileState::Alive);
    }
    board
}

fn player(kernel_diameter: usize, use_kernel_cache: bool) -> NetworkPlayer {
    NetworkPlayer::new(NetworkPlayerConfig { kernel_diameter, use_kernel_cache })
}

/// A network on one-cell kernels whose score is the cell itself, so that a
/// live cell is preferred, and whose state output is `state_weight` times the
/// cell.
fn one_cell_network(state_weight: f32) -> Network {
    let mut network = Network::new(
        NetworkConfig { activator: Activator::Tanh, combinator: Combinator::Add },
        1,
        0,
        0,
        2,
    );
    network.compute_layers[0].nodes[0].inputs.push(NodeInput { node_index: 0, weight: pv(1.0) });
    network.compute_layers[0].nodes[1]
        .inputs
        .push(NodeInput { node_index: 0, weight: pv(state_weight) });
    network
}

#[test]
fn kernel_cells_are_encoded_apart() {
    let kernel = Kernel { tiles: vec![Some(TileState::Alive), None, Some(TileState::Dead)] };
    let alive = Kernel::input_provider(0, &kernel);
    let outside = Kernel::input_provider(1, &kernel);
    let dead = Kernel::input_provider(2, &kernel);
    assert_eq!(pn(alive), 1.0);
    assert_eq!(pn(dead), -1.0);
    assert_eq!(pn(outside), 0.0);
    assert!(pn(outside).is_sign_negative());
    assert_ne!(outside, dead);
    assert_ne!(outside, alive);
    assert_ne!(pn(outside), pn(dead));
    assert_eq!(KernelInput { tile_index: 2 }.provide(&kernel), dead);
}

#[test]
fn input_providers_cover_the_kernel_in_order() {
    let providers = Kernel::input_providers(3);
    let order: Vec<usize> = providers.iter().map(|provider| provider.tile_index).collect();
    assert_eq!(order, (0..9).collect::<Vec<usize>>());
    assert!(Kernel::input_providers(0).is_empty());
}

#[test]
fn kernel_is_centred_and_marks_cells_off_the_board() {
    let game = Game::new(board_with(3, 3, &[(0, 0), (1, 1)]), Rule::default());
    let kernel = player(3, false).get_kernel(&game, Position { x: 0, y: 0 });
    // Column after column: x from -1 to 1, and within each y from -1 to 1.
    assert_eq!(
        kernel.tiles,
        vec![
            None,
            None,
            None,
            None,
            Some(TileState::Alive),
            Some(TileState::Dead),
            None,
            Some(TileState::Dead),
            Some(TileState::Alive),
        ]
    );
    let corner = player(3, false).get_kernel(&game, Position { x: 2, y: 2 });
    assert_eq!(
        corner.tiles,
        vec![
            Some(TileState::Alive),
            Some(TileState::Dead),
            None,
            Some(TileState::Dead),
            Some(TileState::Dead),
            None,
            None,
            None,
            None,
        ]
    );
}

#[test]
fn kernel_of_diameter_one_is_the_cell() {
    let game = Game::new(board_with(2, 2, &[(1, 0)]), Rule::default());
    assert_eq!(
        player(1, false).get_kernel(&game, Position { x: 1, y: 0 }).tiles,
        vec![Some(TileState::Alive)]
    );
    assert_eq!(
        player(1, false).get_kernel(&game, Position { x: 0, y: 0 }).tiles,
        vec![Some(TileState::Dead)]
    );
    assert_eq!(player(1, false).get_kernel(&game, Position { x: 2, y: 0 }).tiles, vec![None]);
}

#[test]
fn kernel_of_even_diameter_covers_the_next_odd_square() {
    let game = Game::new(board_with(4, 4, &[]), Rule::default());
    assert_eq!(player(2, false).get_kernel(&game, Position { x: 1, y: 1 }).tiles.len(), 9);
    assert_eq!(player(4, false).get_kernel(&game, Position { x: 1, y: 1 }).tiles.len(), 25);
    assert_eq!(player(5, false).get_kernel(&game, Position { x: 1, y: 1 }).tiles.len(), 25);
}

#[test]
fn same_tiles_compares_cell_by_cell() {
    let a = Kernel { tiles: vec![None, Some(TileState::Dead)] };
    let b = Kernel { tiles: vec![None, Some(TileState::Dead)] };
    let c = Kernel { tiles: vec![None, Some(TileState::Alive)] };
    let d = Kernel { tiles: vec![None] };
    assert!(a.same_tiles(&b));
    assert!(!a.same_tiles(&c));
    assert!(!a.same_tiles(&d));
    assert!(a.clone().same_tiles(&a));
}

#[test]
fn select_best_takes_the_greatest_score() {
    assert_eq!(select_best(&vec![scored(0.1), scored(0.9), scored(-0.5)]), Some(1));
    assert_eq!(select_best(&vec![scored(-3.0), scored(-2.0), scored(-7.0)]), Some(1));
    assert_eq!(select_best(&vec![scored(f32::NEG_INFINITY)]), Some(0));
    assert_eq!(select_best(&Vec::new()), None);
}

#[test]
fn select_best_takes_the_last_of_equals() {
    assert_eq!(select_best(&vec![scored(0.5), scored(0.5), scored(0.5)]), Some(2));
    assert_eq!(select_best(&vec![scored(0.0), scored(-0.0), scored(-1.0)]), Some(1));
    assert_eq!(select_best(&vec![scored(2.0), scored(1.0), scored(2.0), scored(1.0)]), Some(2));
}

#[test]
fn select_best_passes_over_what_is_no_number() {
    assert_eq!(select_best(&vec![scored(f32::NAN), scored(-4.0), scored(f32::NAN)]), Some(1));
    assert_eq!(select_best(&vec![scored(1.0), scored(f32::NAN)]), Some(0));
    assert_eq!(select_best(&vec![scored(f32::NAN), scored(f32::NAN)]), None);
}

#[test]
fn wanted_state_thresholds_at_one_half() {
    assert_eq!(wanted_state(pv(-0.5)), Some(TileState::Dead));
    assert_eq!(wanted_state(pv(-0.50000006)), Some(TileState::Dead));
    assert_eq!(wanted_state(pv(-1.0)), Some(TileState::Dead));
    assert_eq!(wanted_state(pv(f32::NEG_INFINITY)), Some(TileState::Dead));
    assert_eq!(wanted_state(pv(-0.49999997)), None);
    assert_eq!(wanted_state(pv(0.0)), None);
    assert_eq!(wanted_state(pv(-0.0)), None);
    assert_eq!(wanted_state(pv(0.49999997)), None);
    assert_eq!(wanted_state(pv(f32::NAN)), None);
    assert_eq!(wanted_state(pv(0.5)), Some(TileState::Alive));
    assert_eq!(wanted_state(pv(3.0)), Some(TileState::Alive));
    assert_eq!(wanted_state(pv(f32::INFINITY)), Some(TileState::Alive));
}

#[test]
fn apply_choice_changes_the_cell_or_nothing() {
    let mut game = Game::new(board_with(2, 2, &[(1, 0)]), Rule::default());
    let kill = Some((Position { x: 1, y: 0 }, KernelOutput { score: pv(1.0), state: pv(-0.9) }));
    assert_eq!(
        apply_choice(&mut game, kill),
        Some(NetworkPlayerMove {
            position: Position { x: 1, y: 0 },
            old_state: TileState::Alive,
            new_state: TileState::Dead,
        })
    );
    assert_eq!(game.count_cells(TileState::Alive), 0);
    // The cell is dead already.
    assert_eq!(apply_choice(&mut game, kill), None);
    let undecided = Some((Position { x: 0, y: 1 }, KernelOutput { score: pv(1.0), state: pv(0.2) }));
    assert_eq!(apply_choice(&mut game, undecided), None);
    assert_eq!(apply_choice(&mut game, None), None);
    assert_eq!(game.count_cells(TileState::Alive), 0);
    let raise = Some((Position { x: 0, y: 1 }, KernelOutput { score: pv(0.0), state: pv(0.5) }));
    assert_eq!(
        apply_choice(&mut game, raise),
        Some(NetworkPlayerMove {
            position: Position { x: 0, y: 1 },
            old_state: TileState::Dead,
            new_state: TileState::Alive,
        })
    );
    assert_eq!(game.board.tile(Position { x: 0, y: 1 }), Some(&TileState::Alive));
}

#[test]
fn play_step_kills_the_preferred_live_cell() {
    // State is tanh(-2 * cell): about -0.96 for a live cell.
    let mut network = one_cell_network(-2.0);
    let mut game = Game::new(board_with(3, 2, &[(2, 1)]), Rule::default());
    let mut playing = player(1, false);
    let made = playing.play_step(&mut network, &mut game, &player_arith);
    assert_eq!(
        made,
        Some(NetworkPlayerMove {
            position: Position { x: 2, y: 1 },
            old_state: TileState::Alive,
            new_state: TileState::Dead,
        })
    );
    assert_eq!(game.count_cells(TileState::Alive), 0);
    // Only dead cells are left, and the network wants them alive.
    let made = playing.play_step(&mut network, &mut game, &player_arith).unwrap();
    assert_eq!(made.old_state, TileState::Dead);
    assert_eq!(made.new_state, TileState::Alive);
    assert!(made.position.x < 3 && made.position.y < 2);
    assert_eq!(game.board.tile(made.position), Some(&TileState::Alive));
    assert_eq!(game.count_cells(TileState::Alive), 1);
}

#[test]
fn play_step_makes_no_move_between_the_thresholds() {
    // State is tanh(0.3 * cell): within a half of zero either way.
    let mut network = one_cell_network(0.3);
    let mut game = Game::new(board_with(3, 3, &[(0, 0), (1, 2)]), Rule::default());
    let before = game.clone();
    let made = player(1, false).play_step(&mut network, &mut game, &player_arith);
    assert_eq!(made, None);
    assert_eq!(game, before);
}

#[test]
fn play_step_on_an_empty_board_makes_no_move() {
    let mut network = one_cell_network(-2.0);
    let mut game = Game::new(GameBoard::new(0, 0), Rule::default());
    assert_eq!(player(1, true).play_step(&mut network, &mut game, &player_arith), None);
}

#[test]
fn play_step_never_leaves_the_board() {
    let mut network = Network::new(NetworkConfig::default(), 9, 1, 3, 2);
    for (index, node) in network.compute_layers[0].nodes.iter_mut().enumerate() {
        for source in 0..9 {
            node.inputs.push(NodeInput {
                node_index: source,
                weight: pv(((index + source) % 5) as f32 - 2.0),
            });
        }
    }
    for node in network.compute_layers[1].nodes.iter_mut() {
        for source in 0..3 {
            node.inputs.push(NodeInput { node_index: source, weight: pv(1.5 - source as f32) });
        }
    }
    let mut game = Game::new(GameBoard::new_random(5, 4, 9, 1), Rule::default());
    let mut playing = player(3, false);
    for _ in 0..25 {
        let before = game.board.clone();
        if let Some(made) = playing.play_step(&mut network, &mut game, &player_arith) {
            assert!(made.position.x < 5 && made.position.y < 4);
            assert_eq!(before.tile(made.position), Some(&made.old_state));
            assert_eq!(game.board.tile(made.position), Some(&made.new_state));
            assert_ne!(made.old_state, made.new_state);
            let changed = before
                .tiles
                .iter()
                .zip(game.board.tiles.iter())
                .filter(|(old, new)| old != new)
                .count();
            assert_eq!(changed, 1);
        } else {
            assert_eq!(game.board, before);
        }
        game.tick();
    }
}

#[test]
fn play_step_evaluates_in_a_random_order() {
    // Every cell scores the same, so the cell evaluated last is preferred:
    // with the order drawn at random, different cells come to life.
    let mut network = one_cell_network(-2.0);
    let mut first_moves = Vec::new();
    for _ in 0..40 {
        let mut game = Game::new(GameBoard::new(4, 4), Rule::default());
        let made = player(1, false).play_step(&mut network, &mut game, &player_arith).unwrap();
        assert_eq!(made.new_state, TileState::Alive);
        first_moves.push((made.position.x, made.position.y));
    }
    first_moves.sort();
    first_moves.dedup();
    assert!(first_moves.len() >= 2);
}

#[test]
fn kernel_cache_answers_seen_neighbourhoods_without_the_network() {
    let calls = Cell::new(0usize);
    let counting = |operation: Operation| {
        calls.set(calls.get() + 1);
        player_arith(operation)
    };
    let mut network = one_cell_network(0.3);
    let game = Game::new(board_with(4, 4, &[(1, 1), (2, 3)]), Rule::default());

    let mut uncached = player(1, false);
    let chosen_uncached = uncached.compute(&mut network, &game, &counting);
    // Sixteen cells, two edges each: every cell runs the network.
    assert_eq!(calls.get(), 32);
    assert!(uncached.kernel_cache.is_none());

    calls.set(0);
    let mut cached = player(1, true);
    let chosen_cached = cached.compute(&mut network, &game, &counting);
    // Two kinds of neighbourhood only: a live cell and a dead cell.
    assert_eq!(calls.get(), 4);
    assert_eq!(cached.kernel_cache.as_ref().unwrap().len(), 2);
    cached.compute(&mut network, &game, &counting);
    assert_eq!(calls.get(), 4);

    // The preferred cell is a live one either way, with the same output.
    let (position, output) = chosen_uncached.unwrap();
    let (cached_position, cached_output) = chosen_cached.unwrap();
    assert_eq!(game.board.tile(position), Some(&TileState::Alive));
    assert_eq!(game.board.tile(cached_position), Some(&TileState::Alive));
    assert_eq!(output, cached_output);
    assert_eq!(pn(output.score), 1.0f32.tanh());
}

#[test]
fn compute_pos_reads_score_then_state() {
    let mut network = one_cell_network(-2.0);
    let game = Game::new(board_with(2, 1, &[(0, 0)]), Rule::default());
    let mut playing = player(1, false);
    let alive = playing.compute_pos(&mut network, &game, Position { x: 0, y: 0 }, &player_arith);
    assert_eq!(pn(alive.score), 1.0f32.tanh());
    assert_eq!(pn(alive.state), (-2.0f32).tanh());
    let dead = playing.compute_pos(&mut network, &game, Position { x: 1, y: 0 }, &player_arith);
    assert_eq!(pn(dead.score), (-1.0f32).tanh());
    assert_eq!(pn(dead.state), 2.0f32.tanh());
    let outside = playing.compute_pos(&mut network, &game, Position { x: 5, y: 5 }, &player_arith);
    assert_eq!(pn(outside.score), 0.0);
    assert_eq!(pn(outside.state), 0.0);
}
