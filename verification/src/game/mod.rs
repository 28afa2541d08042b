use crate::game::board::GameBoard;
use crate::game::board::TileState;
use crate::game::board::count_state;
use crate::game::pos::Position;
use crate::game::rule::Rule;
use crate::game::rule::lists_count;
use vstd::prelude::*;

pub mod board;
pub mod pos;
pub mod rule;

verus! {

/// The step from a cell to its `k`-th neighbour, as columns and rows: the eight
/// neighbours in the order left column, own column, right column, each from the
/// row above to the row below.
pub open spec fn neighbor_offset(k: int) -> (int, int) {
    if k == 0 {
        (-1, -1)
    } else if k == 1 {
        (-1, 0)
    } else if k == 2 {
        (-1, 1)
    } else if k == 3 {
        (0, -1)
    } else if k == 4 {
        (0, 1)
    } else if k == 5 {
        (1, -1)
    } else if k == 6 {
        (1, 0)
    } else {
        (1, 1)
    }
}

/// The states of those among the first `k` neighbours of column `x`, row `y`
/// that lie on the board, in neighbour order.
pub open spec fn neighbors_upto(board: &GameBoard, x: int, y: int, k: int) -> Seq<TileState>
    decreases k,
{
    if k <= 0 {
        Seq::empty()
    } else {
        let step = neighbor_offset(k - 1);
        let rest = neighbors_upto(board, x, y, k - 1);
        if board.in_bounds(x + step.0, y + step.1) {
            rest.push(board.cell(x + step.0, y + step.1))
        } else {
            rest
        }
    }
}

/// A board together with the rule that advances it.
#[derive(Debug, PartialEq, Eq)]
pub struct Game {
    pub board: GameBoard,
    pub rule: Rule,
}

impl Clone for Game {
    fn clone(&self) -> (copy: Game)
        ensures
            copy.board.width == self.board.width,
            copy.board.height == self.board.height,
            copy.board.tiles@ == self.board.tiles@,
            copy.rule.birth@ == self.rule.birth@,
            copy.rule.survive@ == self.rule.survive@,
    {
        Game { board: self.board.clone(), rule: self.rule.clone() }
    }
}

impl Game {
    /// The board holds one tile for each cell.
    pub open spec fn well_formed(&self) -> bool {
        self.board.well_formed()
    }

    /// The states of the neighbours of column `x`, row `y` that lie on the board.
    pub open spec fn neighbor_states(&self, x: int, y: int) -> Seq<TileState> {
        neighbors_upto(&self.board, x, y, 8)
    }

    /// How many neighbours of column `x`, row `y` are alive.
    pub open spec fn alive_neighbors(&self, x: int, y: int) -> nat {
        count_state(self.neighbor_states(x, y), TileState::Alive)
    }

    /// The state that the cell in column `x`, row `y` has after one generation.
    pub open spec fn next_state(&self, x: int, y: int) -> TileState {
        self.rule.next(self.board.cell(x, y), self.alive_neighbors(x, y))
    }

    /// Whether `next` is this game one generation later: the same rule on a
    /// board of the same size, on which every cell has the state that the rule
    /// gives it for its neighbours here.
    pub open spec fn steps_to(&self, next: &Game) -> bool {
        &&& next.well_formed()
        &&& next.board.width == self.board.width
        &&& next.board.height == self.board.height
        &&& next.rule.same_as(&self.rule)
        &&& forall|x: int, y: int|
            self.board.in_bounds(x, y) ==> #[trigger] next.board.cell(x, y) == self.next_state(x, y)
    }

    /// Whether `other` has the same board and the same rule.
    pub open spec fn same_as(&self, other: &Game) -> bool {
        &&& other.board.tiles@ == self.board.tiles@
        &&& other.board.width == self.board.width
        &&& other.board.height == self.board.height
        &&& other.rule.same_as(&self.rule)
    }

    /// Whether `end` is this game `generations` generations later.
    pub open spec fn runs_to(&self, end: &Game, generations: nat) -> bool
        decreases generations,
    {
        if generations == 0 {
            self.same_as(end)
        } else {
            exists|previous: Game|
                self.runs_to(&previous, (generations - 1) as nat) && #[trigger] previous.steps_to(end)
        }
    }

    /// A game on `board` under `rule`.
    pub fn new(board: GameBoard, rule: Rule) -> (game: Game)
        ensures
            game.board == board,
            game.rule == rule,
    {
        Game { board, rule }
    }

    /// Advances the board by one generation: every cell takes the state that the
    /// rule gives it for its neighbours before the step.
    pub fn tick(&mut self)
        requires
            old(self).well_formed(),
        ensures
            old(self).steps_to(final(self)),
    {
        let cells = self.board.enumerate_tiles();
        let mut next_tiles: Vec<TileState> = Vec::new();
        let mut index: usize = 0;
        while index < cells.len()
            invariant
                self.well_formed(),
                *self == *old(self),
                index <= cells@.len(),
                cells@.len() == self.board.tiles@.len(),
                next_tiles@.len() == index,
                forall|i: int|
                    0 <= i < cells@.len() ==> {
                        &&& (#[trigger] cells@[i]).1 == self.board.tiles@[i]
                        &&& self.board.in_bounds(cells@[i].0.x as int, cells@[i].0.y as int)
                        &&& i == cells@[i].0.x + cells@[i].0.y * self.board.width
                    },
                forall|i: int|
                    0 <= i < index ==> #[trigger] next_tiles@[i] == self.next_state(
                        cells@[i].0.x as int,
                        cells@[i].0.y as int,
                    ),
            decreases cells@.len() - index,
        {
            let (tile_pos, tile) = cells[index];
            let next = self.tick_tile(tile_pos, &tile);
            next_tiles.push(next);
            index += 1;
        }
        let ghost before = *self;
        self.board = GameBoard::with_tiles(self.board.width, self.board.height, next_tiles);
        proof {
            assert forall|x: int, y: int| before.board.in_bounds(x, y) implies #[trigger] self.board.cell(
                x,
                y,
            ) == before.next_state(x, y) by {
                before.board.lemma_cell_index(x, y);
                let i = x + y * before.board.width;
                assert(cells@[i].1 == before.board.tiles@[i]);
                before.board.lemma_cell_index(cells@[i].0.x as int, cells@[i].0.y as int);
            }
        }
    }

    /// The next state of a cell at `tile_pos` that is now in state `tile`.
    pub fn tick_tile(&self, tile_pos: Position, tile: &TileState) -> (next: TileState)
        requires
            self.well_formed(),
        ensures
            next == self.rule.next(*tile, self.alive_neighbors(tile_pos.x as int, tile_pos.y as int)),
    {
        let neighbors = self.tile_neighbors(tile_pos);
        let mut alive_neighbor_count: usize = 0;
        let mut index: usize = 0;
        while index < neighbors.len()
            invariant
                index <= neighbors@.len(),
                alive_neighbor_count <= index,
                alive_neighbor_count == count_state(
                    neighbors@.take(index as int),
                    TileState::Alive,
                ),
            decreases neighbors@.len() - index,
        {
            proof {
                assert(neighbors@.take(index + 1).drop_last() =~= neighbors@.take(index as int));
            }
            if neighbors[index] == TileState::Alive {
                alive_neighbor_count += 1;
            }
            index += 1;
        }
        proof {
            assert(neighbors@.take(index as int) =~= neighbors@);
        }
        let alive = match tile {
            TileState::Alive => lists_count(&self.rule.survive, alive_neighbor_count),
            TileState::Dead => lists_count(&self.rule.birth, alive_neighbor_count),
        };
        if alive {
            TileState::Alive
        } else {
            TileState::Dead
        }
    }

    /// The states of the neighbours of `tile_pos` that lie on the board, in
    /// neighbour order.
    pub fn tile_neighbors(&self, tile_pos: Position) -> (neighbors: Vec<TileState>)
        requires
            self.well_formed(),
        ensures
            neighbors@ == self.neighbor_states(tile_pos.x as int, tile_pos.y as int),
            neighbors@.len() <= 8,
    {
        let mut neighbors: Vec<TileState> = Vec::new();
        let mut k: usize = 0;
        while k < 8
            invariant
                self.well_formed(),
                k <= 8,
                neighbors@.len() <= k,
                neighbors@ == neighbors_upto(&self.board, tile_pos.x as int, tile_pos.y as int, k as int),
            decreases 8 - k,
        {
            let (step_x, step_y) = neighbor_step(k);
            let ghost x = tile_pos.x + neighbor_offset(k as int).0;
            let ghost y = tile_pos.y + neighbor_offset(k as int).1;
            match abs_pos(tile_pos.x, step_x) {
                Some(neighbor_x) => match abs_pos(tile_pos.y, step_y) {
                    Some(neighbor_y) => {
                        match self.board.tile(Position { x: neighbor_x, y: neighbor_y }) {
                            Some(state) => {
                                neighbors.push(*state);
                            },
                            None => {},
                        }
                    },
                    None => {
                        assert(!self.board.in_bounds(x, y));
                    },
                },
                None => {
                    assert(!self.board.in_bounds(x, y));
                },
            }
            k += 1;
        }
        neighbors
    }

    /// How many cells of the board are in `state`.
    pub fn count_cells(&self, state: TileState) -> (count: usize)
        ensures
            count == count_state(self.board.tiles@, state),
            count <= self.board.tiles@.len(),
    {
        self.board.count_cells(state)
    }
}

/// Among the first `k` neighbours of a cell on a board with at most one live
/// cell, at most one is alive.
pub proof fn lemma_few_live_neighbors(board: &GameBoard, x: int, y: int, k: int, lx: int, ly: int)
    requires
        board.well_formed(),
        0 <= k <= 8,
        forall|cx: int, cy: int|
            board.in_bounds(cx, cy) && !(cx == lx && cy == ly) ==> #[trigger] board.cell(cx, cy)
                == TileState::Dead,
    ensures
        count_state(neighbors_upto(board, x, y, k), TileState::Alive) <= 1,
        count_state(neighbors_upto(board, x, y, k), TileState::Alive) == 1 ==> exists|j: int|
            0 <= j < k && x + neighbor_offset(j).0 == lx && y + #[trigger] neighbor_offset(j).1
                == ly,
    decreases k,
{
    if k > 0 {
        lemma_few_live_neighbors(board, x, y, k - 1, lx, ly);
        let step = neighbor_offset(k - 1);
        let rest = neighbors_upto(board, x, y, k - 1);
        if board.in_bounds(x + step.0, y + step.1) {
            let longer = rest.push(board.cell(x + step.0, y + step.1));
            assert(longer.drop_last() =~= rest);
            if count_state(rest, TileState::Alive) == 1 {
                let j = choose|j: int|
                    0 <= j < k - 1 && x + neighbor_offset(j).0 == lx && y + #[trigger] neighbor_offset(
                        j,
                    ).1 == ly;
                assert(!(x + step.0 == lx && y + step.1 == ly));
            }
            if board.cell(x + step.0, y + step.1) == TileState::Alive {
                assert(x + neighbor_offset(k - 1).0 == lx && y + neighbor_offset(k - 1).1 == ly);
            }
        }
    }
}

/// Under the classic rule a board with at most one live cell is dead after one
/// generation: a cell with fewer than two live neighbours neither survives
/// nor is born.
pub proof fn lemma_lone_cell_dies(game: &Game, next: &Game, lx: int, ly: int)
    requires
        game.well_formed(),
        game.rule.is_classic(),
        forall|cx: int, cy: int|
            game.board.in_bounds(cx, cy) && !(cx == lx && cy == ly)
                ==> #[trigger] game.board.cell(cx, cy) == TileState::Dead,
        game.steps_to(next),
    ensures
        next.board.all_dead(),
{
    assert forall|i: int| 0 <= i < next.board.tiles@.len() implies next.board.tiles@[i]
        == TileState::Dead by {
        next.board.lemma_index_cell(i);
        let x = i % (next.board.width as int);
        let y = i / (next.board.width as int);
        lemma_few_live_neighbors(&game.board, x, y, 8, lx, ly);
        assert(next.board.cell(x, y) == game.next_state(x, y));
        let alive = game.alive_neighbors(x, y);
        assert(alive <= 1);
        assert(!game.rule.births(alive));
        assert(!game.rule.survives(alive));
    }
}

/// The step to the `k`-th neighbour, each component one of -1, 0 and 1.
fn neighbor_step(k: usize) -> (step: (i8, i8))
    requires
        k < 8,
    ensures
        step.0 == neighbor_offset(k as int).0,
        step.1 == neighbor_offset(k as int).1,
{
    if k == 0 {
        (-1, -1)
    } else if k == 1 {
        (-1, 0)
    } else if k == 2 {
        (-1, 1)
    } else if k == 3 {
        (0, -1)
    } else if k == 4 {
        (0, 1)
    } else if k == 5 {
        (1, -1)
    } else if k == 6 {
        (1, 0)
    } else {
        (1, 1)
    }
}

/// The coordinate one step from `center`, unless it would leave the range of
/// coordinates.
fn abs_pos(center: usize, step: i8) -> (moved: Option<usize>)
    requires
        -1 <= step <= 1,
    ensures
        moved is Some <==> 0 <= center + step <= usize::MAX,
        moved matches Some(coordinate) ==> coordinate == center + step,
{
    if step < 0 {
        if center == 0 {
            None
        } else {
            Some(center - 1)
        }
    } else if step > 0 {
        if center == usize::MAX {
            None
        } else {
            Some(center + 1)
        }
    } else {
        Some(center)
    }
}

} // verus!
