use crate::adapter::TrainerAdapter;
use crate::adapter::TrainerAdapterFactory;
use crate::adapter::output_height;
use crate::game::Game;
use crate::game::board::GameBoard;
use crate::game::board::TileState;
use crate::game::board::count_state;
use crate::game::pos::Position;
use crate::game::rule::Rule;
use crate::network::Network;
use crate::network::functions::Operation;
use crate::network::functions::answers_all;
use crate::network::value::Value;
use crate::player::KernelOutput;
use crate::player::NetworkPlayer;
use crate::player::NetworkPlayerConfig;
use crate::player::chosen_of;
use crate::player::evaluates;
use crate::player::move_of;
use crate::player::tiles_after;
use vstd::prelude::*;

verus! {

/// How the games of an episode are set up and scored.
#[derive(Debug, Clone, Copy, PartialEq, Eq, Structural)]
pub struct GameTrainerAdapterConfig {
    pub width: usize,
    pub height: usize,
    /// The number of blocks of live cells to spawn at the start of a game.
    pub alive_cells: usize,
    /// The side of a block of live cells: one spawns single cells.
    pub block_size: usize,
    /// The greatest number of rounds that a game is played for; a game whose
    /// cells are all dead stops earlier.
    pub max_rounds: usize,
    /// Whether the board stands still between the network's moves.
    pub disable_nature: bool,
    /// Whether cells killed are rewarded, rather than cells brought to life.
    pub evil: bool,
}

impl GameTrainerAdapterConfig {
    /// The blocks fit on the board, there are positions enough for them, there
    /// is at least one round, and the greatest fitness can be held.
    pub open spec fn valid(&self) -> bool {
        &&& self.block_size <= self.width
        &&& self.block_size <= self.height
        &&& (self.width - self.block_size + 1) * (self.height - self.block_size + 1) <= usize::MAX
        &&& self.alive_cells <= (self.width - self.block_size + 1) * (self.height - self.block_size
            + 1)
        &&& self.max_rounds >= 1
        &&& 2 * (self.width * self.height) + self.max_rounds <= isize::MAX
    }

    /// Whether the configuration is valid.
    pub fn is_valid(&self) -> (ok: bool)
        ensures
            ok == self.valid(),
    {
        if self.block_size > self.width || self.block_size > self.height || self.max_rounds < 1 {
            return false;
        }
        let cells: usize = match self.width.checked_mul(self.height) {
            Some(cells) => cells,
            None => {
                return false;
            },
        };
        let twice: usize = match cells.checked_mul(2) {
            Some(twice) => twice,
            None => {
                return false;
            },
        };
        let limit: usize = match twice.checked_add(self.max_rounds) {
            Some(limit) => limit,
            None => {
                return false;
            },
        };
        if limit > isize::MAX as usize {
            return false;
        }
        let columns: usize = self.width - self.block_size;
        let rows: usize = self.height - self.block_size;
        let across: usize = match columns.checked_add(1) {
            Some(across) => across,
            None => {
                proof {
                    assert((columns + 1) * (rows + 1) > usize::MAX) by (nonlinear_arith)
                        requires
                            columns + 1 > usize::MAX,
                            rows + 1 >= 1,
                    ;
                }
                return false;
            },
        };
        let down: usize = match rows.checked_add(1) {
            Some(down) => down,
            None => {
                proof {
                    assert((columns + 1) * (rows + 1) > usize::MAX) by (nonlinear_arith)
                        requires
                            rows + 1 > usize::MAX,
                            columns + 1 >= 1,
                    ;
                }
                return false;
            },
        };
        match across.checked_mul(down) {
            Some(positions) => self.alive_cells <= positions,
            None => false,
        }
    }

    /// A bound that the magnitude of no fitness exceeds: twice the number of
    /// cells, and the number of rounds.
    pub open spec fn fitness_limit(&self) -> int {
        2 * (self.width * self.height) + self.max_rounds
    }
}

/// What is rewarded for a game that began with `initial` live cells and ended
/// with `finished`: the cells killed in an evil game, else the cells brought to
/// life.
pub open spec fn reward_of(evil: bool, initial: int, finished: int) -> int {
    if evil {
        initial - finished
    } else {
        finished - initial
    }
}

/// What is deducted for a game of `rounds_taken` rounds in `skipped_turns` of
/// which the network made no move: half the rounds left unplayed and a fifth of
/// the turns skipped.
pub open spec fn punishment_of(max_rounds: int, rounds_taken: int, skipped_turns: int) -> int {
    (max_rounds - rounds_taken) / 2 + skipped_turns / 5
}

/// What is rewarded for a game.
pub fn cells_turned_reward(evil: bool, initial_cells_alive: usize, finished_cells_alive: usize) -> (reward:
    isize)
    requires
        initial_cells_alive <= isize::MAX,
        finished_cells_alive <= isize::MAX,
    ensures
        reward == reward_of(evil, initial_cells_alive as int, finished_cells_alive as int),
{
    if evil {
        initial_cells_alive as isize - finished_cells_alive as isize
    } else {
        finished_cells_alive as isize - initial_cells_alive as isize
    }
}

/// What is deducted for a game.
pub fn punishment(max_rounds: usize, rounds_taken: usize, skipped_turns: usize) -> (deducted: isize)
    requires
        rounds_taken <= max_rounds <= isize::MAX,
        skipped_turns <= rounds_taken,
    ensures
        deducted == punishment_of(max_rounds as int, rounds_taken as int, skipped_turns as int),
        0 <= deducted <= max_rounds,
{
    let taken_rounds_punishment: isize = (max_rounds - rounds_taken) as isize / 2;
    let skipped_turns_punishment: isize = (skipped_turns / 5) as isize;
    taken_rounds_punishment + skipped_turns_punishment
}

/// Makes episodes on boards drawn at random.
pub struct GameTrainerAdapterFactory {
    pub config: GameTrainerAdapterConfig,
    pub player_config: NetworkPlayerConfig,
}

/// An episode on one board: every network that is tried out plays a copy of
/// the same game.
pub struct GameTrainerAdapter {
    pub config: GameTrainerAdapterConfig,
    pub player_config: NetworkPlayerConfig,
    pub game_template: Game,
}

impl<OP: Fn(Operation) -> Value> TrainerAdapterFactory<OP, GameTrainerAdapter> for GameTrainerAdapterFactory {
    open spec fn ready(&self) -> bool {
        self.config.valid() && self.player_config.valid()
    }

    open spec fn accepts(&self, network: &Network) -> bool {
        network.inputs().len() == self.player_config.input_count() && output_height(network) >= 2
    }

    open spec fn fitness_limit(&self) -> isize {
        self.config.fitness_limit() as isize
    }

    open spec fn makes(&self, adapter: &GameTrainerAdapter) -> bool {
        &&& adapter.config == self.config
        &&& adapter.player_config == self.player_config
        &&& adapter.well_formed()
        &&& adapter.game_template.rule.is_classic()
        &&& adapter.game_template.board.seeded(
            self.config.alive_cells as int,
            self.config.block_size as int,
        )
    }

    fn create_adapter(&self) -> (adapter: GameTrainerAdapter) {
        GameTrainerAdapter::new_randomized(self.config, self.player_config)
    }
}

/// Whether one round can turn the game `before` into the game `after`: the
/// network evaluates the board and makes the move that follows, if one does,
/// and then the game advances by a generation unless nature is disabled.
/// `skipped` tells whether no move was made.
pub open spec fn round_plays<A: Fn(Operation) -> Value>(
    arith: &A,
    network: &Network,
    diameter: int,
    disable_nature: bool,
    before: &Game,
    after: &Game,
    skipped: bool,
) -> bool {
    exists|scored: Seq<(Position, KernelOutput)>, moved: Game|
        {
            &&& #[trigger] evaluates(arith, network, &before.board, diameter, scored)
            &&& skipped == (move_of(&before.board, chosen_of(scored)) is None)
            &&& moved.board.tiles@ == tiles_after(
                &before.board,
                move_of(&before.board, chosen_of(scored)),
            )
            &&& moved.board.width == before.board.width
            &&& moved.board.height == before.board.height
            &&& moved.rule.same_as(&before.rule)
            &&& #[trigger] moved.well_formed()
            &&& if disable_nature {
                moved.same_as(after)
            } else {
                moved.steps_to(after)
            }
        }
}

/// Whether `rounds` rounds, in `skipped` of which no move was made, can turn
/// the game `start` into the game `end`, with live cells left after every
/// round but the last.
pub open spec fn episode_plays<A: Fn(Operation) -> Value>(
    arith: &A,
    network: &Network,
    diameter: int,
    disable_nature: bool,
    start: &Game,
    end: &Game,
    rounds: int,
    skipped: int,
) -> bool
    decreases rounds,
{
    if rounds <= 0 {
        start.same_as(end) && skipped == 0
    } else {
        exists|previous: Game, was_skipped: bool|
            {
                &&& episode_plays(
                    arith,
                    network,
                    diameter,
                    disable_nature,
                    start,
                    &previous,
                    rounds - 1,
                    skipped - if was_skipped {
                        1int
                    } else {
                        0int
                    },
                )
                &&& rounds > 1 ==> count_state(previous.board.tiles@, TileState::Alive) > 0
                &&& #[trigger] round_plays(
                    arith,
                    network,
                    diameter,
                    disable_nature,
                    &previous,
                    end,
                    was_skipped,
                )
            }
    }
}

/// Whether `scores` can be the reward and the deduction for `network` on the
/// game `start`: the game is played for at least one round and at most all,
/// and to the last unless no cell is left alive; the reward is that for the
/// live cells at the start and at the end, the deduction that for the rounds
/// taken and the turns skipped.
pub open spec fn network_scores<A: Fn(Operation) -> Value>(
    arith: &A,
    network: &Network,
    diameter: int,
    config: GameTrainerAdapterConfig,
    start: &Game,
    scores: (isize, isize),
) -> bool {
    exists|end: Game, rounds_taken: int, skipped_turns: int|
        {
            &&& #[trigger] episode_plays(
                arith,
                network,
                diameter,
                config.disable_nature,
                start,
                &end,
                rounds_taken,
                skipped_turns,
            )
            &&& 1 <= rounds_taken <= config.max_rounds
            &&& 0 <= skipped_turns <= rounds_taken
            &&& rounds_taken == config.max_rounds || count_state(
                end.board.tiles@,
                TileState::Alive,
            ) == 0
            &&& scores.0 == reward_of(
                config.evil,
                count_state(start.board.tiles@, TileState::Alive) as int,
                count_state(end.board.tiles@, TileState::Alive) as int,
            )
            &&& scores.1 == punishment_of(config.max_rounds as int, rounds_taken, skipped_turns)
        }
}

impl GameTrainerAdapter {
    /// Whether `score` is what doing nothing scores on the episode's game:
    /// nothing where the board stands still, else the reward for letting the
    /// game run for all its rounds.
    pub open spec fn reference_score_is(&self, score: isize) -> bool {
        if self.config.disable_nature {
            score == 0
        } else {
            exists|finished: Game|
                #[trigger] self.game_template.runs_to(&finished, self.config.max_rounds as nat)
                    && score == reward_of(
                    self.config.evil,
                    count_state(self.game_template.board.tiles@, TileState::Alive) as int,
                    count_state(finished.board.tiles@, TileState::Alive) as int,
                )
        }
    }

    /// The game is on a board of the configured size, and both configurations
    /// are valid.
    pub open spec fn well_formed(&self) -> bool {
        &&& self.config.valid()
        &&& self.player_config.valid()
        &&& self.game_template.well_formed()
        &&& self.game_template.board.width == self.config.width
        &&& self.game_template.board.height == self.config.height
    }

    /// An episode under the classic rule on a board drawn at random: as many
    /// blocks of live cells as configured, of the configured side, no two at
    /// the same place, and every other cell dead.
    pub fn new_randomized(config: GameTrainerAdapterConfig, player_config: NetworkPlayerConfig) -> (adapter:
        GameTrainerAdapter)
        requires
            config.valid(),
            player_config.valid(),
        ensures
            adapter.config == config,
            adapter.player_config == player_config,
            adapter.well_formed(),
            adapter.game_template.rule.is_classic(),
            adapter.game_template.board.seeded(
                config.alive_cells as int,
                config.block_size as int,
            ),
            config.block_size == 1 ==> count_state(
                adapter.game_template.board.tiles@,
                TileState::Alive,
            ) == config.alive_cells,
    {
        let game_template = Game::new(
            GameBoard::new_random(config.width, config.height, config.alive_cells, config.block_size),
            Rule::default(),
        );
        GameTrainerAdapter { config, player_config, game_template }
    }

    /// What doing nothing scores on `game`: nothing where the board stands
    /// still, else the reward for letting the game run for all its rounds.
    pub fn get_reference_score(&self, game: &Game) -> (score: isize)
        requires
            self.config.valid(),
            game.well_formed(),
            game.board.width == self.config.width,
            game.board.height == self.config.height,
        ensures
            self.config.disable_nature ==> score == 0,
            !self.config.disable_nature ==> exists|finished: Game|
                #[trigger] game.runs_to(&finished, self.config.max_rounds as nat) && score
                    == reward_of(
                    self.config.evil,
                    count_state(game.board.tiles@, TileState::Alive) as int,
                    count_state(finished.board.tiles@, TileState::Alive) as int,
                ),
            -(self.config.width * self.config.height) <= score <= self.config.width
                * self.config.height,
    {
        if self.config.disable_nature {
            proof {
                assert(self.config.width * self.config.height >= 0) by (nonlinear_arith);
            }
            0
        } else {
            let mut running = game.clone();
            let ghost start = running;
            let initial_cells_alive = running.count_cells(TileState::Alive);
            let mut round: usize = 0;
            while round < self.config.max_rounds
                invariant
                    round <= self.config.max_rounds,
                    running.well_formed(),
                    running.board.width == self.config.width,
                    running.board.height == self.config.height,
                    start.runs_to(&running, round as nat),
                decreases self.config.max_rounds - round,
            {
                let ghost previous = running;
                running.tick();
                proof {
                    assert(previous.steps_to(&running));
                }
                round += 1;
            }
            let finished_cells_alive = running.count_cells(TileState::Alive);
            proof {
                lemma_same_start(&start, game, &running, self.config.max_rounds as nat);
            }
            cells_turned_reward(self.config.evil, initial_cells_alive, finished_cells_alive)
        }
    }

    /// What `network` scores on `game`, and what is deducted from it. The
    /// network makes one move a round, after which the game advances unless the
    /// board stands still, until the rounds are used up or no cell is alive.
    pub fn get_network_score<A: Fn(Operation) -> Value>(
        &self,
        game: Game,
        network: &mut Network,
        arith: &A,
    ) -> (scores: (isize, isize))
        requires
            self.config.valid(),
            self.player_config.valid(),
            game.well_formed(),
            game.board.width == self.config.width,
            game.board.height == self.config.height,
            old(network).well_formed(),
            old(network).inputs().len() == self.player_config.input_count(),
            output_height(old(network)) >= 2,
            answers_all(arith),
        ensures
            final(network).config == old(network).config,
            final(network).edges() == old(network).edges(),
            final(network).inputs().len() == old(network).inputs().len(),
            network_scores(
                arith,
                old(network),
                self.player_config.kernel_diameter as int,
                self.config,
                &game,
                scores,
            ),
            -(self.config.width * self.config.height) <= scores.0 <= self.config.width
                * self.config.height,
            0 <= scores.1 <= self.config.max_rounds,
    {
        let ghost start = game;
        let ghost diameter = self.player_config.kernel_diameter as int;
        let mut game = game;
        let mut network_player = NetworkPlayer::new(self.player_config);
        let initial_cells_alive = game.count_cells(TileState::Alive);
        let mut skipped_turns: usize = 0;
        let mut rounds_taken: usize = 0;
        let mut finished_cells_alive: usize = 0;
        loop
            invariant_except_break
                rounds_taken < self.config.max_rounds,
                rounds_taken > 0 ==> count_state(game.board.tiles@, TileState::Alive) > 0,
            invariant
                self.config.valid(),
                answers_all(arith),
                network_player.well_formed(),
                network_player.config == self.player_config,
                network_player.fits(network),
                network_player.remembers(arith, network),
                network.config == old(network).config,
                network.edges() == old(network).edges(),
                network.inputs().len() == old(network).inputs().len(),
                game.well_formed(),
                game.board.width == self.config.width,
                game.board.height == self.config.height,
                skipped_turns <= rounds_taken <= self.config.max_rounds,
                diameter == self.player_config.kernel_diameter,
                episode_plays(
                    arith,
                    old(network),
                    diameter,
                    self.config.disable_nature,
                    &start,
                    &game,
                    rounds_taken as int,
                    skipped_turns as int,
                ),
            ensures
                1 <= rounds_taken <= self.config.max_rounds,
                skipped_turns <= rounds_taken,
                finished_cells_alive <= self.config.width * self.config.height,
                finished_cells_alive == count_state(game.board.tiles@, TileState::Alive),
                rounds_taken == self.config.max_rounds || finished_cells_alive == 0,
            decreases self.config.max_rounds - rounds_taken,
        {
            let ghost previous = game;
            let ghost skipped_before = skipped_turns;
            let ghost network_before = *network;
            rounds_taken += 1;
            let network_move = network_player.play_step(network, &mut game, arith);
            let ghost moved = game;
            if network_move.is_none() {
                skipped_turns += 1;
            }
            if !self.config.disable_nature {
                game.tick();
            }
            proof {
                let scored = choose|scored: Seq<(Position, KernelOutput)>|
                    {
                        &&& #[trigger] evaluates(
                            arith,
                            &network_before,
                            &previous.board,
                            diameter,
                            scored,
                        )
                        &&& network_move == move_of(&previous.board, chosen_of(scored))
                    };
                assert(evaluates(arith, old(network), &previous.board, diameter, scored));
                assert(moved.well_formed());
                assert(round_plays(
                    arith,
                    old(network),
                    diameter,
                    self.config.disable_nature,
                    &previous,
                    &game,
                    network_move is None,
                ));
                assert(episode_plays(
                    arith,
                    old(network),
                    diameter,
                    self.config.disable_nature,
                    &start,
                    &game,
                    rounds_taken as int,
                    skipped_turns as int,
                ));
            }
            let alive_cells = game.count_cells(TileState::Alive);
            if rounds_taken >= self.config.max_rounds || alive_cells == 0 {
                finished_cells_alive = alive_cells;
                break;
            }
        }
        let reward = cells_turned_reward(self.config.evil, initial_cells_alive, finished_cells_alive);
        let deducted = punishment(self.config.max_rounds, rounds_taken, skipped_turns);
        (reward, deducted)
    }
}

impl<OP: Fn(Operation) -> Value> TrainerAdapter<OP> for GameTrainerAdapter {
    open spec fn accepts(&self, network: &Network) -> bool {
        &&& self.well_formed()
        &&& network.inputs().len() == self.player_config.input_count()
        &&& output_height(network) >= 2
    }

    open spec fn fitness_limit(&self) -> isize {
        self.config.fitness_limit() as isize
    }

    open spec fn can_score(&self, arith: &OP, network: &Network, fitness: isize) -> bool {
        exists|scores: (isize, isize), reference_score: isize|
            {
                &&& #[trigger] network_scores(
                    arith,
                    network,
                    self.player_config.kernel_diameter as int,
                    self.config,
                    &self.game_template,
                    scores,
                )
                &&& #[trigger] self.reference_score_is(reference_score)
                &&& fitness == scores.0 - reference_score - scores.1
            }
    }

    /// The fitness of `network` on a copy of the episode's game: what it
    /// scores beyond what doing nothing scores, less what is deducted.
    fn try_out(&self, network: &mut Network, arith: &OP) -> (fitness: isize)
    {
        let game = self.game_template.clone();
        let reference_score = self.get_reference_score(&game);
        let (network_score, network_punishment) = self.get_network_score(game, network, arith);
        proof {
            assert(self.reference_score_is(reference_score)) by {
                if !self.config.disable_nature {
                    let finished = choose|finished: Game|
                        #[trigger] game.runs_to(&finished, self.config.max_rounds as nat)
                            && reference_score == reward_of(
                            self.config.evil,
                            count_state(game.board.tiles@, TileState::Alive) as int,
                            count_state(finished.board.tiles@, TileState::Alive) as int,
                        );
                    lemma_same_start(
                        &game,
                        &self.game_template,
                        &finished,
                        self.config.max_rounds as nat,
                    );
                }
            }
            lemma_same_episode(
                arith,
                old(network),
                self.player_config.kernel_diameter as int,
                self.config,
                &game,
                &self.game_template,
                (network_score, network_punishment),
            );
        }
        let reward = network_score - reference_score;
        reward - network_punishment
    }
}

/// What a network can score on a game it can score on any game that has the
/// same board and rule.
pub proof fn lemma_same_episode<A: Fn(Operation) -> Value>(
    arith: &A,
    network: &Network,
    diameter: int,
    config: GameTrainerAdapterConfig,
    copy: &Game,
    model: &Game,
    scores: (isize, isize),
)
    requires
        copy.same_as(model),
        network_scores(arith, network, diameter, config, copy, scores),
    ensures
        network_scores(arith, network, diameter, config, model, scores),
{
    let (end, rounds_taken, skipped_turns) = choose|end: Game, rounds_taken: int, skipped_turns: int|
        {
            &&& #[trigger] episode_plays(
                arith,
                network,
                diameter,
                config.disable_nature,
                copy,
                &end,
                rounds_taken,
                skipped_turns,
            )
            &&& 1 <= rounds_taken <= config.max_rounds
            &&& 0 <= skipped_turns <= rounds_taken
            &&& rounds_taken == config.max_rounds || count_state(
                end.board.tiles@,
                TileState::Alive,
            ) == 0
            &&& scores.0 == reward_of(
                config.evil,
                count_state(copy.board.tiles@, TileState::Alive) as int,
                count_state(end.board.tiles@, TileState::Alive) as int,
            )
            &&& scores.1 == punishment_of(config.max_rounds as int, rounds_taken, skipped_turns)
        };
    lemma_same_episode_start(
        arith,
        network,
        diameter,
        config.disable_nature,
        copy,
        model,
        &end,
        rounds_taken,
        skipped_turns,
    );
}

/// Rounds that turn a game into another turn any game that has the same board
/// and rule into it.
pub proof fn lemma_same_episode_start<A: Fn(Operation) -> Value>(
    arith: &A,
    network: &Network,
    diameter: int,
    disable_nature: bool,
    copy: &Game,
    model: &Game,
    end: &Game,
    rounds: int,
    skipped: int,
)
    requires
        copy.same_as(model),
        episode_plays(arith, network, diameter, disable_nature, copy, end, rounds, skipped),
    ensures
        episode_plays(arith, network, diameter, disable_nature, model, end, rounds, skipped),
    decreases rounds,
{
    if rounds > 0 {
        let (previous, was_skipped) = choose|previous: Game, was_skipped: bool|
            {
                &&& episode_plays(
                    arith,
                    network,
                    diameter,
                    disable_nature,
                    copy,
                    &previous,
                    rounds - 1,
                    skipped - if was_skipped {
                        1int
                    } else {
                        0int
                    },
                )
                &&& rounds > 1 ==> count_state(previous.board.tiles@, TileState::Alive) > 0
                &&& #[trigger] round_plays(
                    arith,
                    network,
                    diameter,
                    disable_nature,
                    &previous,
                    end,
                    was_skipped,
                )
            };
        lemma_same_episode_start(
            arith,
            network,
            diameter,
            disable_nature,
            copy,
            model,
            &previous,
            rounds - 1,
            skipped - if was_skipped {
                1int
            } else {
                0int
            },
        );
    }
}

/// A game runs to the same games from any game that has its board and rule.
pub proof fn lemma_same_start(copy: &Game, model: &Game, end: &Game, generations: nat)
    requires
        copy.same_as(model),
        copy.runs_to(end, generations),
    ensures
        model.runs_to(end, generations),
    decreases generations,
{
    if generations > 0 {
        let previous = choose|previous: Game|
            copy.runs_to(&previous, (generations - 1) as nat) && #[trigger] previous.steps_to(end);
        lemma_same_start(copy, model, &previous, (generations - 1) as nat);
    }
}

} // verus!
