use crate::game::Game;
use crate::game::board::GameBoard;
use crate::game::board::TileState;
use crate::game::pos::Position;
use crate::game::pos::grid;
use crate::game::pos::grid_positions;
use crate::game::pos::lemma_grid;
use crate::network::Edges;
use crate::network::Network;
use crate::network::NetworkConfig;
use crate::network::deterministic::deterministic;
use crate::network::deterministic::lemma_one_output;
use crate::network::functions::Operation;
use crate::network::functions::answers_all;
use crate::network::harness::NetworkHarness;
use crate::network::height_before;
use crate::network::layers_yield;
use crate::network::value::Value;
use crate::player::kernel::Kernel;
use crate::player::kernel::KernelInput;
use crate::player::kernel::encode_tile;
use crate::player::kernel::kernel_side;
use crate::player::kernel::kernel_tiles;
use crate::random::shuffle;
use vstd::arithmetic::div_mod::lemma_fundamental_div_mod_converse;
use vstd::prelude::*;

pub mod kernel;

verus! {

/// How a player looks at the board.
#[derive(Debug, Clone, Copy, PartialEq, Eq, Structural)]
pub struct NetworkPlayerConfig {
    /// The diameter of the square neighbourhood that is shown to the network
    /// for each cell.
    pub kernel_diameter: usize,
    /// Whether to answer a neighbourhood that was seen before from memory
    /// instead of running the network again.
    pub use_kernel_cache: bool,
}

impl NetworkPlayerConfig {
    /// The kernel of this diameter, and the inputs read from it, can be
    /// counted.
    pub open spec fn valid(&self) -> bool {
        &&& self.kernel_diameter * self.kernel_diameter <= usize::MAX
        &&& kernel_side(self.kernel_diameter as int) * kernel_side(self.kernel_diameter as int)
            <= usize::MAX
    }

    /// Whether the configuration is valid.
    pub fn is_valid(&self) -> (ok: bool)
        ensures
            ok == self.valid(),
    {
        let side: usize = match (self.kernel_diameter / 2).checked_mul(2) {
            Some(twice) => match twice.checked_add(1) {
                Some(side) => side,
                None => {
                    proof {
                        let side = kernel_side(self.kernel_diameter as int);
                        assert(side * side > usize::MAX) by (nonlinear_arith)
                            requires
                                side > usize::MAX,
                        ;
                    }
                    return false;
                },
            },
            None => {
                proof {
                    let side = kernel_side(self.kernel_diameter as int);
                    assert(side * side > usize::MAX) by (nonlinear_arith)
                        requires
                            side > usize::MAX,
                    ;
                }
                return false;
            },
        };
        if side.checked_mul(side).is_none() {
            return false;
        }
        proof {
            let d = self.kernel_diameter as int;
            assert(d * d <= side * side) by (nonlinear_arith)
                requires
                    0 <= d <= side,
            ;
        }
        true
    }

    /// How many inputs a network of this player has.
    pub open spec fn input_count(&self) -> int {
        self.kernel_diameter * self.kernel_diameter
    }
}

/// A change that the player made to the board.
#[derive(Debug, Clone, Copy, PartialEq, Eq, Structural)]
pub struct NetworkPlayerMove {
    pub position: Position,
    pub old_state: TileState,
    pub new_state: TileState,
}

/// What the network says of one cell.
#[derive(Debug, Clone, Copy, PartialEq, Eq, Structural)]
pub struct KernelOutput {
    /// The score by which the cell is preferred over others.
    pub score: Value,
    /// How much the network wants the cell alive.
    pub state: Value,
}

/// The first `count` cells of a kernel, encoded for the network.
pub open spec fn kernel_inputs(tiles: Seq<Option<TileState>>, count: int) -> Seq<Value> {
    Seq::new(count as nat, |i: int| encode_tile(tiles[i]))
}

/// Whether `output` is made of the first two values that `arith` can give for
/// the output layer when the input layer holds the first `count` cells of the
/// kernel.
pub open spec fn tiles_yield<A: Fn(Operation) -> Value>(
    arith: &A,
    config: NetworkConfig,
    edges: Edges,
    tiles: Seq<Option<TileState>>,
    count: int,
    output: KernelOutput,
) -> bool {
    exists|outputs: Seq<Value>|
        #[trigger] layers_yield(arith, config, edges, kernel_inputs(tiles, count), outputs)
            && outputs.len() >= 2 && output.score == outputs[0] && output.state == outputs[1]
}

/// With arithmetic that gives one answer to each operation, the network says
/// one thing of a neighbourhood: an output that the player remembers is the
/// output that the network would give again.
pub proof fn lemma_one_kernel_output<A: Fn(Operation) -> Value>(
    arith: &A,
    config: NetworkConfig,
    edges: Edges,
    tiles: Seq<Option<TileState>>,
    count: int,
    one: KernelOutput,
    other: KernelOutput,
)
    requires
        deterministic(arith),
        tiles_yield(arith, config, edges, tiles, count, one),
        tiles_yield(arith, config, edges, tiles, count, other),
    ensures
        one == other,
{
    let a = choose|outputs: Seq<Value>|
        #[trigger] layers_yield(arith, config, edges, kernel_inputs(tiles, count), outputs)
            && outputs.len() >= 2 && one.score == outputs[0] && one.state == outputs[1];
    let b = choose|outputs: Seq<Value>|
        #[trigger] layers_yield(arith, config, edges, kernel_inputs(tiles, count), outputs)
            && outputs.len() >= 2 && other.score == outputs[0] && other.state == outputs[1];
    lemma_one_output(arith, config, edges, kernel_inputs(tiles, count), a, b);
}

/// The position, among those scored, that the player prefers: the one with the
/// greatest score that is a number, and of several such the one scored last.
/// None if no score is a number.
pub open spec fn best_index(scored: Seq<(Position, KernelOutput)>) -> Option<int>
    decreases scored.len(),
{
    if scored.len() == 0 {
        None
    } else {
        let earlier = best_index(scored.drop_last());
        let candidate = scored.last().1.score;
        if candidate.is_nan() {
            earlier
        } else {
            match earlier {
                Some(best) if scored[best].1.score.greater_than(candidate) => Some(best),
                _ => Some(scored.len() - 1),
            }
        }
    }
}

/// The scored position that the player prefers, with what the network said of
/// it.
pub open spec fn chosen_of(scored: Seq<(Position, KernelOutput)>) -> Option<
    (Position, KernelOutput),
> {
    match best_index(scored) {
        Some(best) => Some(scored[best]),
        None => None,
    }
}

/// The preferred position carries a score that is a number; no score that is a
/// number is greater; and every such score after it is smaller.
pub proof fn lemma_best_index(scored: Seq<(Position, KernelOutput)>)
    ensures
        match best_index(scored) {
            Some(best) => {
                &&& 0 <= best < scored.len()
                &&& !scored[best].1.score.is_nan()
                &&& forall|i: int|
                    0 <= i < scored.len() && !(#[trigger] scored[i]).1.score.is_nan()
                        ==> scored[i].1.score.order_key() <= scored[best].1.score.order_key()
                &&& forall|i: int|
                    best < i < scored.len() && !(#[trigger] scored[i]).1.score.is_nan()
                        ==> scored[i].1.score.order_key() < scored[best].1.score.order_key()
            },
            None => forall|i: int| 0 <= i < scored.len() ==> (#[trigger] scored[i]).1.score.is_nan(),
        },
    decreases scored.len(),
{
    if scored.len() > 0 {
        let shorter = scored.drop_last();
        lemma_best_index(shorter);
        assert forall|i: int| 0 <= i < shorter.len() implies shorter[i] == scored[i] by {}
    }
}

/// What the state value of the preferred cell asks for: at most minus one half
/// asks for a dead cell, at least one half for a live cell, anything between,
/// and what is no number, for nothing.
pub open spec fn wanted_state_of(state: Value) -> Option<TileState> {
    if state.at_most(Value { bits: 0xBF00_0000 }) {
        Some(TileState::Dead)
    } else if state.at_least(Value { bits: 0x3F00_0000 }) {
        Some(TileState::Alive)
    } else {
        None
    }
}

/// The move that follows from a choice on the board as it stood: none without
/// a choice, none if the chosen cell asks for nothing or is already in the
/// state asked for, else the change of that cell.
pub open spec fn move_of(board: &GameBoard, chosen: Option<(Position, KernelOutput)>) -> Option<
    NetworkPlayerMove,
> {
    match chosen {
        None => None,
        Some((position, output)) => {
            let current = board.cell(position.x as int, position.y as int);
            match wanted_state_of(output.state) {
                Some(wanted) if wanted != current => Some(
                    NetworkPlayerMove { position, old_state: current, new_state: wanted },
                ),
                _ => None,
            }
        },
    }
}

/// The tiles of a board after a move, or after none.
pub open spec fn tiles_after(board: &GameBoard, made: Option<NetworkPlayerMove>) -> Seq<TileState> {
    match made {
        None => board.tiles@,
        Some(m) => board.tiles@.update(m.position.x + m.position.y * board.width, m.new_state),
    }
}

/// The positions of what was scored, in scoring order.
pub open spec fn positions_of(scored: Seq<(Position, KernelOutput)>) -> Seq<Position> {
    Seq::new(scored.len(), |i: int| scored[i].0)
}

/// Whether `scored` is an evaluation of the whole board: it holds every
/// position of the board exactly once, in some order, each with an output that
/// the network can give for the kernel centred on it.
pub open spec fn evaluates<A: Fn(Operation) -> Value>(
    arith: &A,
    network: &Network,
    board: &GameBoard,
    diameter: int,
    scored: Seq<(Position, KernelOutput)>,
) -> bool {
    &&& positions_of(scored).to_multiset() == grid(
        board.width as int,
        board.height as int,
    ).to_multiset()
    &&& forall|i: int|
        0 <= i < scored.len() ==> tiles_yield(
            arith,
            network.config,
            network.edges(),
            kernel_tiles(board, (#[trigger] scored[i]).0, diameter),
            diameter * diameter,
            scored[i].1,
        )
}

/// Every position of an evaluation of the board lies on the board.
pub proof fn lemma_evaluated_positions_on_board<A: Fn(Operation) -> Value>(
    arith: &A,
    network: &Network,
    board: &GameBoard,
    diameter: int,
    scored: Seq<(Position, KernelOutput)>,
)
    requires
        evaluates(arith, network, board, diameter, scored),
    ensures
        forall|i: int|
            0 <= i < scored.len() ==> board.in_bounds(
                (#[trigger] scored[i]).0.x as int,
                scored[i].0.y as int,
            ),
{
    let positions = positions_of(scored);
    let all = grid(board.width as int, board.height as int);
    lemma_grid(board.width as int, board.height as int);
    positions.to_multiset_ensures();
    all.to_multiset_ensures();
    assert forall|i: int| 0 <= i < scored.len() implies board.in_bounds(
        (#[trigger] scored[i]).0.x as int,
        scored[i].0.y as int,
    ) by {
        assert(positions[i] == scored[i].0);
        assert(positions.contains(scored[i].0));
        assert(all.to_multiset().count(scored[i].0) > 0);
        assert(all.contains(scored[i].0));
        let j = choose|j: int| 0 <= j < all.len() && all[j] == scored[i].0;
        assert(all[j].x < board.width && all[j].y < board.height);
    }
}

/// What a memory holds for a neighbourhood with the given cells: the output of
/// its first entry with those cells, or nothing if it has none.
pub open spec fn recalled(
    remembered: Seq<(Seq<Option<TileState>>, KernelOutput)>,
    tiles: Seq<Option<TileState>>,
) -> Option<KernelOutput>
    decreases remembered.len(),
{
    if remembered.len() == 0 {
        None
    } else if remembered[0].0 == tiles {
        Some(remembered[0].1)
    } else {
        recalled(remembered.drop_first(), tiles)
    }
}

/// A memory in which no entry before the one at `place` has the given cells,
/// and that one has, holds the output of that entry for them.
pub proof fn lemma_recalled_first(
    remembered: Seq<(Seq<Option<TileState>>, KernelOutput)>,
    tiles: Seq<Option<TileState>>,
    place: int,
)
    requires
        0 <= place < remembered.len(),
        remembered[place].0 == tiles,
        forall|i: int| 0 <= i < place ==> (#[trigger] remembered[i]).0 != tiles,
    ensures
        recalled(remembered, tiles) == Some(remembered[place].1),
    decreases remembered.len(),
{
    if place > 0 {
        let rest = remembered.drop_first();
        assert(remembered[0].0 != tiles);
        assert forall|i: int| 0 <= i < place - 1 implies (#[trigger] rest[i]).0 != tiles by {
            assert(rest[i] == remembered[i + 1]);
        }
        assert(rest[place - 1] == remembered[place]);
        lemma_recalled_first(rest, tiles, place - 1);
    }
}

/// A memory holds nothing for cells that none of its entries has.
pub proof fn lemma_recalled_none(
    remembered: Seq<(Seq<Option<TileState>>, KernelOutput)>,
    tiles: Seq<Option<TileState>>,
)
    requires
        forall|i: int| 0 <= i < remembered.len() ==> (#[trigger] remembered[i]).0 != tiles,
    ensures
        recalled(remembered, tiles) is None,
    decreases remembered.len(),
{
    if remembered.len() > 0 {
        let rest = remembered.drop_first();
        assert(remembered[0].0 != tiles);
        assert forall|i: int| 0 <= i < rest.len() implies (#[trigger] rest[i]).0 != tiles by {
            assert(rest[i] == remembered[i + 1]);
        }
        lemma_recalled_none(rest, tiles);
    }
}

/// What a memory holds for a neighbourhood is the output of one of its entries
/// with the cells of that neighbourhood.
pub proof fn lemma_recalled_is_remembered(
    remembered: Seq<(Seq<Option<TileState>>, KernelOutput)>,
    tiles: Seq<Option<TileState>>,
)
    ensures
        recalled(remembered, tiles) matches Some(found) ==> exists|i: int|
            0 <= i < remembered.len() && (#[trigger] remembered[i]) == (tiles, found),
    decreases remembered.len(),
{
    if remembered.len() > 0 {
        if remembered[0].0 == tiles {
            assert(remembered[0] == (tiles, remembered[0].1));
        } else {
            let rest = remembered.drop_first();
            lemma_recalled_is_remembered(rest, tiles);
            if recalled(rest, tiles) is Some {
                let found = recalled(rest, tiles).unwrap();
                let i = choose|i: int| 0 <= i < rest.len() && (#[trigger] rest[i]) == (tiles, found);
                assert(remembered[i + 1] == rest[i]);
            }
        }
    }
}

/// Plays on a board with a network: shows the network the neighbourhood of
/// every cell and changes the cell that it prefers.
pub struct NetworkPlayer {
    pub config: NetworkPlayerConfig,
    pub network_harness: NetworkHarness<KernelInput>,
    /// What the player remembers, where it keeps a memory: neighbourhoods it
    /// has shown to the network, each with what the network said.
    pub kernel_cache: Option<Vec<(Kernel, KernelOutput)>>,
}

impl NetworkPlayer {
    /// The harness reads one input for each of the first cells of the kernel,
    /// as many as the diameter squared.
    pub open spec fn well_formed(&self) -> bool {
        &&& self.config.valid()
        &&& self.network_harness.input_providers@.len() == self.config.input_count()
        &&& forall|i: int|
            0 <= i < self.network_harness.input_providers@.len() ==> (
            #[trigger] self.network_harness.input_providers@[i]).tile_index == i
    }

    /// The neighbourhoods that the player remembers, each with the output it
    /// remembers for it.
    pub open spec fn remembered(&self) -> Seq<(Seq<Option<TileState>>, KernelOutput)> {
        match self.kernel_cache {
            Some(entries) => Seq::new(entries@.len(), |i: int| (entries@[i].0.tiles@, entries@[i].1)),
            None => Seq::empty(),
        }
    }

    /// Whether every remembered output is one that `network` can give for its
    /// neighbourhood.
    pub open spec fn remembers<A: Fn(Operation) -> Value>(&self, arith: &A, network: &Network) -> bool {
        forall|i: int|
            0 <= i < self.remembered().len() ==> tiles_yield(
                arith,
                network.config,
                network.edges(),
                (#[trigger] self.remembered()[i]).0,
                self.config.input_count(),
                self.remembered()[i].1,
            )
    }

    /// Whether `network` fits this player: as many inputs as the player reads
    /// from a kernel, and at least the two outputs it asks for.
    pub open spec fn fits(&self, network: &Network) -> bool {
        &&& network.well_formed()
        &&& network.inputs().len() == self.config.input_count()
        &&& height_before(
            network.edges(),
            network.inputs().len() as int,
            network.edges().len() as int,
        ) >= 2
    }

    /// Whether `network` fits this player.
    pub fn accepts(&self, network: &Network) -> (ok: bool)
        requires
            self.config.valid(),
        ensures
            ok == self.fits(network),
    {
        network.is_well_formed() && network.input_height() == self.config.kernel_diameter
            * self.config.kernel_diameter && network.output_height() >= 2
    }

    /// A player that remembers nothing yet.
    pub fn new(config: NetworkPlayerConfig) -> (player: NetworkPlayer)
        requires
            config.valid(),
        ensures
            player.config == config,
            player.well_formed(),
            player.remembered().len() == 0,
    {
        let network_harness = NetworkHarness::new().with_inputs(
            Kernel::input_providers(config.kernel_diameter),
        );
        let kernel_cache: Option<Vec<(Kernel, KernelOutput)>> = if config.use_kernel_cache {
            Some(Vec::new())
        } else {
            None
        };
        NetworkPlayer { config, network_harness, kernel_cache }
    }

    /// Plays one step: evaluates the whole board and, if the network asks for
    /// a change of the cell it prefers, makes it. Returns the change made.
    pub fn play_step<A: Fn(Operation) -> Value>(
        &mut self,
        network: &mut Network,
        game: &mut Game,
        arith: &A,
    ) -> (made: Option<NetworkPlayerMove>)
        requires
            old(self).well_formed(),
            old(self).fits(old(network)),
            old(self).remembers(arith, old(network)),
            old(game).well_formed(),
            answers_all(arith),
        ensures
            final(self).config == old(self).config,
            final(self).network_harness == old(self).network_harness,
            final(self).remembers(arith, final(network)),
            final(network).config == old(network).config,
            final(network).edges() == old(network).edges(),
            final(network).inputs().len() == old(network).inputs().len(),
            final(game).rule == old(game).rule,
            final(game).board.width == old(game).board.width,
            final(game).board.height == old(game).board.height,
            final(game).well_formed(),
            exists|scored: Seq<(Position, KernelOutput)>|
                {
                    &&& #[trigger] evaluates(
                        arith,
                        old(network),
                        &old(game).board,
                        old(self).config.kernel_diameter as int,
                        scored,
                    )
                    &&& made == move_of(&old(game).board, chosen_of(scored))
                },
            final(game).board.tiles@ == tiles_after(&old(game).board, made),
            made matches Some(m) ==> old(game).board.in_bounds(
                m.position.x as int,
                m.position.y as int,
            ),
    {
        let chosen = self.compute(network, game, arith);
        proof {
            let scored = choose|scored: Seq<(Position, KernelOutput)>|
                #[trigger] evaluates(
                    arith,
                    old(network),
                    &game.board,
                    self.config.kernel_diameter as int,
                    scored,
                ) && chosen == chosen_of(scored);
            lemma_evaluated_positions_on_board(
                arith,
                old(network),
                &game.board,
                self.config.kernel_diameter as int,
                scored,
            );
            lemma_best_index(scored);
        }
        apply_choice(game, chosen)
    }

    /// Evaluates every cell of the board, in an order drawn at random, and
    /// returns the preferred position with what the network said of it.
    pub fn compute<A: Fn(Operation) -> Value>(
        &mut self,
        network: &mut Network,
        game: &Game,
        arith: &A,
    ) -> (chosen: Option<(Position, KernelOutput)>)
        requires
            old(self).well_formed(),
            old(self).fits(old(network)),
            old(self).remembers(arith, old(network)),
            game.well_formed(),
            answers_all(arith),
        ensures
            final(self).config == old(self).config,
            final(self).network_harness == old(self).network_harness,
            final(self).remembers(arith, final(network)),
            final(network).config == old(network).config,
            final(network).edges() == old(network).edges(),
            final(network).inputs().len() == old(network).inputs().len(),
            exists|scored: Seq<(Position, KernelOutput)>|
                #[trigger] evaluates(
                    arith,
                    old(network),
                    &game.board,
                    old(self).config.kernel_diameter as int,
                    scored,
                ) && chosen == chosen_of(scored),
    {
        let total: usize = game.board.tiles.len();
        let mut positions = grid_positions(game.board.width, game.board.height);
        shuffle(&mut positions);
        let mut scored: Vec<(Position, KernelOutput)> = Vec::new();
        let mut index: usize = 0;
        while index < positions.len()
            invariant
                self.well_formed(),
                self.fits(network),
                self.remembers(arith, network),
                game.well_formed(),
                answers_all(arith),
                self.config == old(self).config,
                self.network_harness == old(self).network_harness,
                network.config == old(network).config,
                network.edges() == old(network).edges(),
                network.inputs().len() == old(network).inputs().len(),
                index <= positions@.len(),
                scored@.len() == index,
                forall|i: int| 0 <= i < index ==> (#[trigger] scored@[i]).0 == positions@[i],
                forall|i: int|
                    0 <= i < index ==> tiles_yield(
                        arith,
                        network.config,
                        network.edges(),
                        kernel_tiles(
                            &game.board,
                            (#[trigger] scored@[i]).0,
                            self.config.kernel_diameter as int,
                        ),
                        self.config.input_count(),
                        scored@[i].1,
                    ),
            decreases positions@.len() - index,
        {
            let pos = positions[index];
            let output = self.compute_pos(network, game, pos, arith);
            scored.push((pos, output));
            index += 1;
        }
        proof {
            assert(positions_of(scored@) =~= positions@);
            assert(evaluates(
                arith,
                old(network),
                &game.board,
                self.config.kernel_diameter as int,
                scored@,
            ));
        }
        match select_best(&scored) {
            Some(best) => Some(scored[best]),
            None => None,
        }
    }

    /// What the network says of the cell at `pos`: from memory if the player
    /// remembers the neighbourhood, else by running the network on it.
    pub fn compute_pos<A: Fn(Operation) -> Value>(
        &mut self,
        network: &mut Network,
        game: &Game,
        pos: Position,
        arith: &A,
    ) -> (output: KernelOutput)
        requires
            old(self).well_formed(),
            old(self).fits(old(network)),
            old(self).remembers(arith, old(network)),
            game.well_formed(),
            answers_all(arith),
        ensures
            final(self).config == old(self).config,
            final(self).network_harness == old(self).network_harness,
            final(self).remembers(arith, final(network)),
            final(network).config == old(network).config,
            final(network).edges() == old(network).edges(),
            final(network).inputs().len() == old(network).inputs().len(),
            tiles_yield(
                arith,
                old(network).config,
                old(network).edges(),
                kernel_tiles(&game.board, pos, old(self).config.kernel_diameter as int),
                old(self).config.input_count(),
                output,
            ),
    {
        let kernel = self.get_kernel(game, pos);
        match self.recall(&kernel) {
            Some(cached_output) => {
                proof {
                    lemma_recalled_is_remembered(self.remembered(), kernel.tiles@);
                }
                return cached_output;
            },
            None => {},
        }
        proof {
            let d = self.config.kernel_diameter as int;
            assert(kernel_side(d) >= d);
            assert(kernel_side(d) * kernel_side(d) >= d * d) by (nonlinear_arith)
                requires
                    kernel_side(d) >= d,
                    d >= 0,
            ;
        }
        let network_outputs = self.network_harness.compute(network, &kernel, arith);
        let output = KernelOutput { score: network_outputs[0], state: network_outputs[1] };
        proof {
            assert(network.inputs() =~= kernel_inputs(kernel.tiles@, self.config.input_count()));
            assert(layers_yield(
                arith,
                network.config,
                network.edges(),
                kernel_inputs(kernel.tiles@, self.config.input_count()),
                network_outputs@,
            ));
        }
        self.memorize(kernel, output, arith, network);
        output
    }

    /// The output remembered for the neighbourhood: that of the first entry of
    /// the memory with the same cells, or nothing if the memory has none.
    fn recall(&self, kernel: &Kernel) -> (output: Option<KernelOutput>)
        ensures
            output == recalled(self.remembered(), kernel.tiles@),
    {
        match &self.kernel_cache {
            Some(entries) => {
                let mut index: usize = 0;
                while index < entries.len()
                    invariant
                        index <= entries@.len(),
                        self.kernel_cache == Some(*entries),
                        forall|i: int|
                            0 <= i < index ==> (#[trigger] self.remembered()[i]).0
                                != kernel.tiles@,
                    decreases entries@.len() - index,
                {
                    if entries[index].0.same_tiles(kernel) {
                        proof {
                            assert(self.remembered()[index as int] == (
                                kernel.tiles@,
                                entries@[index as int].1,
                            ));
                            lemma_recalled_first(
                                self.remembered(),
                                kernel.tiles@,
                                index as int,
                            );
                        }
                        return Some(entries[index].1);
                    }
                    proof {
                        assert(self.remembered()[index as int].0 == entries@[index as int].0.tiles@);
                    }
                    index += 1;
                }
                proof {
                    lemma_recalled_none(self.remembered(), kernel.tiles@);
                }
                None
            },
            None => {
                proof {
                    lemma_recalled_none(self.remembered(), kernel.tiles@);
                }
                None
            },
        }
    }

    /// Remembers the output that `network` gave for the neighbourhood: a player
    /// that keeps a memory gains it as the last entry; one that keeps none
    /// stays as it is.
    fn memorize<A: Fn(Operation) -> Value>(
        &mut self,
        kernel: Kernel,
        output: KernelOutput,
        arith: &A,
        network: &Network,
    )
        requires
            old(self).remembers(arith, network),
            tiles_yield(
                arith,
                network.config,
                network.edges(),
                kernel.tiles@,
                old(self).config.input_count(),
                output,
            ),
        ensures
            final(self).config == old(self).config,
            final(self).network_harness == old(self).network_harness,
            final(self).kernel_cache is Some <==> old(self).kernel_cache is Some,
            final(self).remembered() == if old(self).kernel_cache is Some {
                old(self).remembered().push((kernel.tiles@, output))
            } else {
                old(self).remembered()
            },
            final(self).remembers(arith, network),
    {
        let ghost before = self.remembered();
        let ghost tiles = kernel.tiles@;
        match &mut self.kernel_cache {
            Some(entries) => {
                entries.push((kernel, output));
            },
            None => {},
        }
        proof {
            if old(self).kernel_cache is Some {
                assert(self.remembered() =~= before.push((tiles, output)));
            } else {
                assert(self.remembered() =~= before);
            }
            assert forall|i: int| 0 <= i < self.remembered().len() implies tiles_yield(
                arith,
                network.config,
                network.edges(),
                (#[trigger] self.remembered()[i]).0,
                self.config.input_count(),
                self.remembered()[i].1,
            ) by {
                if i < before.len() {
                    assert(self.remembered()[i] == before[i]);
                }
            }
        }
    }

    /// The neighbourhood of `center_pos` on the board of `game`.
    pub fn get_kernel(&self, game: &Game, center_pos: Position) -> (kernel: Kernel)
        requires
            self.config.valid(),
            game.well_formed(),
        ensures
            kernel.tiles@ == kernel_tiles(
                &game.board,
                center_pos,
                self.config.kernel_diameter as int,
            ),
    {
        let kernel_radius: usize = self.config.kernel_diameter / 2;
        proof {
            let side = kernel_side(self.config.kernel_diameter as int);
            assert(side <= usize::MAX) by (nonlinear_arith)
                requires
                    side * side <= usize::MAX,
                    side >= 1,
            ;
        }
        let side: usize = 2 * kernel_radius + 1;
        let mut tiles: Vec<Option<TileState>> = Vec::new();
        let mut rel_x: usize = 0;
        while rel_x < side
            invariant
                game.well_formed(),
                side == kernel_side(self.config.kernel_diameter as int),
                kernel_radius == self.config.kernel_diameter / 2,
                side * side <= usize::MAX,
                rel_x <= side,
                tiles@.len() == rel_x * side,
                forall|i: int|
                    0 <= i < tiles@.len() ==> #[trigger] tiles@[i] == game.board.read(
                        center_pos.x + i / (side as int) - kernel_radius,
                        center_pos.y + i % (side as int) - kernel_radius,
                    ),
            decreases side - rel_x,
        {
            let mut rel_y: usize = 0;
            while rel_y < side
                invariant
                    game.well_formed(),
                    side == kernel_side(self.config.kernel_diameter as int),
                    kernel_radius == self.config.kernel_diameter / 2,
                    side * side <= usize::MAX,
                    rel_x < side,
                    rel_y <= side,
                    tiles@.len() == rel_x * side + rel_y,
                    forall|i: int|
                        0 <= i < tiles@.len() ==> #[trigger] tiles@[i] == game.board.read(
                            center_pos.x + i / (side as int) - kernel_radius,
                            center_pos.y + i % (side as int) - kernel_radius,
                        ),
                decreases side - rel_y,
            {
                proof {
                    lemma_fundamental_div_mod_converse(
                        rel_x * side + rel_y,
                        side as int,
                        rel_x as int,
                        rel_y as int,
                    );
                }
                let tile = match relative(center_pos.x, rel_x, kernel_radius) {
                    Some(x) => match relative(center_pos.y, rel_y, kernel_radius) {
                        Some(y) => match game.board.tile(Position { x, y }) {
                            Some(state) => Some(*state),
                            None => None,
                        },
                        None => None,
                    },
                    None => None,
                };
                tiles.push(tile);
                rel_y += 1;
            }
            proof {
                assert(rel_x * side + side == (rel_x + 1) * side) by (nonlinear_arith);
            }
            rel_x += 1;
        }
        proof {
            assert(tiles@ =~= kernel_tiles(
                &game.board,
                center_pos,
                self.config.kernel_diameter as int,
            ));
        }
        Kernel { tiles }
    }
}

/// The coordinate `forward` steps after and `back` steps before `center`,
/// unless it is below zero or beyond the range of coordinates.
fn relative(center: usize, forward: usize, back: usize) -> (moved: Option<usize>)
    ensures
        moved is Some <==> 0 <= center + forward - back <= usize::MAX,
        moved matches Some(coordinate) ==> coordinate == center + forward - back,
{
    if forward >= back {
        let ahead: usize = forward - back;
        if center > usize::MAX - ahead {
            None
        } else {
            Some(center + ahead)
        }
    } else {
        let behind: usize = back - forward;
        if center < behind {
            None
        } else {
            Some(center - behind)
        }
    }
}

/// The index of the preferred position among those scored.
pub fn select_best(scored: &Vec<(Position, KernelOutput)>) -> (best: Option<usize>)
    ensures
        match best {
            Some(index) => best_index(scored@) == Some(index as int) && index < scored@.len(),
            None => best_index(scored@) is None,
        },
{
    let mut best: Option<usize> = None;
    let mut index: usize = 0;
    proof {
        assert(scored@.take(0) =~= Seq::<(Position, KernelOutput)>::empty());
    }
    while index < scored.len()
        invariant
            index <= scored@.len(),
            match best {
                Some(found) => best_index(scored@.take(index as int)) == Some(found as int) && found
                    < index,
                None => best_index(scored@.take(index as int)) is None,
            },
        decreases scored@.len() - index,
    {
        proof {
            assert(scored@.take(index + 1).drop_last() =~= scored@.take(index as int));
        }
        let candidate = scored[index].1.score;
        if !candidate.not_a_number() {
            let keep = match best {
                Some(found) => scored[found].1.score.exceeds(&candidate),
                None => false,
            };
            if !keep {
                best = Some(index);
            }
        }
        index += 1;
    }
    proof {
        assert(scored@.take(index as int) =~= scored@);
    }
    best
}

/// What the state value asks for.
pub fn wanted_state(state: Value) -> (wanted: Option<TileState>)
    ensures
        wanted == wanted_state_of(state),
{
    if state.stays_within(&Value::negative_half()) {
        Some(TileState::Dead)
    } else if state.reaches(&Value::half()) {
        Some(TileState::Alive)
    } else {
        None
    }
}

/// Makes the move that follows from the choice, if one does, and returns it.
pub fn apply_choice(game: &mut Game, chosen: Option<(Position, KernelOutput)>) -> (made: Option<
    NetworkPlayerMove,
>)
    requires
        old(game).well_formed(),
        chosen matches Some(choice) ==> old(game).board.in_bounds(
            choice.0.x as int,
            choice.0.y as int,
        ),
    ensures
        made == move_of(&old(game).board, chosen),
        final(game).board.tiles@ == tiles_after(&old(game).board, made),
        final(game).rule == old(game).rule,
        final(game).board.width == old(game).board.width,
        final(game).board.height == old(game).board.height,
        final(game).well_formed(),
{
    match chosen {
        Some((chosen_position, output)) => {
            let current_state = match game.board.tile(chosen_position) {
                Some(state) => *state,
                None => TileState::Dead,
            };
            match wanted_state(output.state) {
                Some(wanted) => {
                    if wanted != current_state {
                        game.board.set_tile(chosen_position, wanted);
                        Some(
                            NetworkPlayerMove {
                                position: chosen_position,
                                old_state: current_state,
                                new_state: wanted,
                            },
                        )
                    } else {
                        None
                    }
                },
                None => None,
            }
        },
        None => None,
    }
}

} // verus!
