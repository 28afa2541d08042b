use crate::game::pos::Position;
use crate::game::pos::grid;
use crate::game::pos::grid_positions;
use crate::game::pos::lemma_grid;
use crate::random::random_below;
use vstd::arithmetic::div_mod::lemma_fundamental_div_mod;
use vstd::arithmetic::div_mod::lemma_fundamental_div_mod_converse;
use vstd::prelude::*;

verus! {

/// The state of one cell.
#[derive(Debug, Clone, Copy, PartialEq, Eq, Structural)]
pub enum TileState {
    Alive,
    Dead,
}

impl Default for TileState {
    fn default() -> (state: TileState)
        ensures
            state == TileState::Dead,
    {
        TileState::Dead
    }
}

/// How many of `tiles` are in `state`.
pub open spec fn count_state(tiles: Seq<TileState>, state: TileState) -> nat
    decreases tiles.len(),
{
    if tiles.len() == 0 {
        0
    } else {
        count_state(tiles.drop_last(), state) + if tiles.last() == state {
            1nat
        } else {
            0nat
        }
    }
}

/// Whether the block of side `block_size` rooted at `root` covers column `x`,
/// row `y`.
pub open spec fn block_covers(root: Position, block_size: int, x: int, y: int) -> bool {
    &&& root.x <= x < root.x + block_size
    &&& root.y <= y < root.y + block_size
}

/// Whether one of the blocks rooted at `roots` covers column `x`, row `y`.
pub open spec fn blocks_cover(roots: Seq<Position>, block_size: int, x: int, y: int) -> bool {
    exists|k: int| 0 <= k < roots.len() && block_covers(#[trigger] roots[k], block_size, x, y)
}

/// A `width` by `height` grid of cells, stored row after row.
#[derive(Debug, PartialEq, Eq)]
pub struct GameBoard {
    pub width: usize,
    pub height: usize,
    pub tiles: Vec<TileState>,
}

impl Clone for GameBoard {
    fn clone(&self) -> (copy: GameBoard)
        ensures
            copy.width == self.width,
            copy.height == self.height,
            copy.tiles@ == self.tiles@,
    {
        GameBoard { width: self.width, height: self.height, tiles: self.tiles.clone() }
    }
}

impl GameBoard {
    /// The board holds exactly one tile for each cell of the grid.
    pub open spec fn well_formed(&self) -> bool {
        self.tiles@.len() == self.width * self.height
    }

    /// Whether column `x`, row `y` lies on the board.
    pub open spec fn in_bounds(&self, x: int, y: int) -> bool {
        0 <= x < self.width && 0 <= y < self.height
    }

    /// The state of the cell in column `x`, row `y` of a well-formed board.
    pub open spec fn cell(&self, x: int, y: int) -> TileState
        recommends
            self.in_bounds(x, y),
    {
        self.tiles@[x + y * self.width]
    }

    /// What a read of column `x`, row `y` gives: the cell, or nothing outside
    /// the board.
    pub open spec fn read(&self, x: int, y: int) -> Option<TileState> {
        if self.in_bounds(x, y) {
            Some(self.cell(x, y))
        } else {
            None
        }
    }

    /// Whether the live cells of the board are those of the blocks of side
    /// `block_size` rooted at `roots`: no two blocks have the same root, every
    /// block lies on the board, and a cell is alive exactly if a block covers
    /// it.
    pub open spec fn seeded_by(&self, roots: Seq<Position>, block_size: int) -> bool {
        &&& roots.no_duplicates()
        &&& forall|k: int|
            0 <= k < roots.len() ==> (#[trigger] roots[k]).x + block_size <= self.width
                && roots[k].y + block_size <= self.height
        &&& forall|x: int, y: int|
            self.in_bounds(x, y) ==> (#[trigger] self.cell(x, y) == TileState::Alive
                <==> blocks_cover(roots, block_size, x, y))
    }

    /// Whether the board is one that `alive_cells` blocks of side `block_size`
    /// were spawned on, no two at the same place, and nothing else.
    pub open spec fn seeded(&self, alive_cells: int, block_size: int) -> bool {
        exists|roots: Seq<Position>|
            #[trigger] self.seeded_by(roots, block_size) && roots.len() == alive_cells
    }

    /// Every cell of the board is dead.
    pub open spec fn all_dead(&self) -> bool {
        forall|i: int| 0 <= i < self.tiles@.len() ==> self.tiles@[i] == TileState::Dead
    }

    /// A cell on the board has its tile inside the tile vector, and no other
    /// cell shares it.
    pub proof fn lemma_cell_index(&self, x: int, y: int)
        requires
            self.well_formed(),
            self.in_bounds(x, y),
        ensures
            0 <= y * self.width <= x + y * self.width < self.tiles@.len(),
            (x + y * self.width) % (self.width as int) == x,
            (x + y * self.width) / (self.width as int) == y,
    {
        let w = self.width as int;
        let h = self.height as int;
        assert(y * w + w <= h * w) by (nonlinear_arith)
            requires
                0 <= y < h,
                0 <= w,
        ;
        assert(0 <= y * w) by (nonlinear_arith)
            requires
                0 <= y,
                0 <= w,
        ;
        assert(h * w == w * h) by (nonlinear_arith);
        lemma_fundamental_div_mod_converse(x + y * w, w, y, x);
    }

    /// Every tile of a well-formed board belongs to exactly one cell on it.
    pub proof fn lemma_index_cell(&self, index: int)
        requires
            self.well_formed(),
            0 <= index < self.tiles@.len(),
        ensures
            self.width > 0,
            self.in_bounds(index % (self.width as int), index / (self.width as int)),
            index == index % (self.width as int) + (index / (self.width as int)) * self.width,
    {
        let w = self.width as int;
        let h = self.height as int;
        assert(w > 0) by (nonlinear_arith)
            requires
                0 <= w,
                0 <= index < w * h,
        ;
        lemma_fundamental_div_mod(index, w);
        let q = index / w;
        let r = index % w;
        assert(w * q == q * w) by (nonlinear_arith);
        assert(0 <= q < h) by (nonlinear_arith)
            requires
                index == q * w + r,
                0 <= r < w,
                0 <= index < w * h,
        ;
    }

    /// Whether the board holds exactly one tile for each cell of the grid.
    pub fn is_well_formed(&self) -> (ok: bool)
        ensures
            ok == self.well_formed(),
    {
        let held: usize = self.tiles.len();
        match self.width.checked_mul(self.height) {
            Some(total) => held == total,
            None => false,
        }
    }

    /// A board of dead cells.
    pub fn new(width: usize, height: usize) -> (board: GameBoard)
        requires
            width * height <= usize::MAX,
        ensures
            board.well_formed(),
            board.width == width,
            board.height == height,
            board.all_dead(),
    {
        let mut tiles: Vec<TileState> = Vec::new();
        let total: usize = width * height;
        let mut filled: usize = 0;
        while filled < total
            invariant
                filled <= total,
                tiles@.len() == filled,
                forall|i: int| 0 <= i < filled ==> tiles@[i] == TileState::Dead,
            decreases total - filled,
        {
            tiles.push(TileState::default());
            filled += 1;
        }
        GameBoard::with_tiles(width, height, tiles)
    }

    /// A board with the given tiles, row after row.
    pub fn with_tiles(width: usize, height: usize, tiles: Vec<TileState>) -> (board: GameBoard)
        ensures
            board.width == width,
            board.height == height,
            board.tiles == tiles,
    {
        GameBoard { width, height, tiles }
    }

    /// The index of the tile of `pos`, or nothing when `pos` is off the board.
    pub fn pos_to_index(&self, pos: Position) -> (index: Option<usize>)
        requires
            self.well_formed(),
        ensures
            index is Some <==> self.in_bounds(pos.x as int, pos.y as int),
            index matches Some(i) ==> i == pos.x + pos.y * self.width && i < self.tiles@.len(),
    {
        if pos.x >= self.width {
            return None;
        }
        if pos.y >= self.height {
            return None;
        }
        let total: usize = self.tiles.len();
        proof {
            self.lemma_cell_index(pos.x as int, pos.y as int);
            assert(pos.x + pos.y * self.width < total);
        }
        Some(pos.x + (pos.y * self.width))
    }

    /// The cell whose tile has the given index.
    pub fn index_to_pos(&self, index: usize) -> (pos: Position)
        requires
            self.well_formed(),
            index < self.tiles@.len(),
        ensures
            self.in_bounds(pos.x as int, pos.y as int),
            index == pos.x + pos.y * self.width,
    {
        proof {
            self.lemma_index_cell(index as int);
        }
        let y: usize = index / self.width;
        let x: usize = index % self.width;
        Position { x, y }
    }

    /// Reads the cell at `pos`; nothing when `pos` is off the board.
    pub fn tile(&self, pos: Position) -> (tile: Option<&TileState>)
        requires
            self.well_formed(),
        ensures
            match tile {
                Some(state) => self.read(pos.x as int, pos.y as int) == Some(*state),
                None => self.read(pos.x as int, pos.y as int) is None,
            },
    {
        match self.pos_to_index(pos) {
            Some(index) => Some(&self.tiles[index]),
            None => None,
        }
    }

    /// Lends the cell at `pos` for writing; nothing when `pos` is off the board.
    /// Whatever is written through the loan is that cell's new state, and no
    /// other cell changes.
    pub fn tile_mut(&mut self, pos: Position) -> (tile: Option<&mut TileState>)
        requires
            old(self).well_formed(),
        ensures
            match tile {
                Some(state) => {
                    &&& old(self).in_bounds(pos.x as int, pos.y as int)
                    &&& *state == old(self).cell(pos.x as int, pos.y as int)
                    &&& final(self).width == old(self).width
                    &&& final(self).height == old(self).height
                    &&& final(self).tiles@ == old(self).tiles@.update(
                        pos.x + pos.y * old(self).width,
                        *final(state),
                    )
                },
                None => {
                    &&& !old(self).in_bounds(pos.x as int, pos.y as int)
                    &&& *final(self) == *old(self)
                },
            },
    {
        match self.pos_to_index(pos) {
            Some(index) => Some(&mut self.tiles[index]),
            None => None,
        }
    }

    /// Writes `state` into the cell at `pos`; a position off the board changes
    /// nothing. Tells whether the position was on the board.
    pub fn set_tile(&mut self, pos: Position, state: TileState) -> (written: bool)
        requires
            old(self).well_formed(),
        ensures
            final(self).well_formed(),
            final(self).width == old(self).width,
            final(self).height == old(self).height,
            written == old(self).in_bounds(pos.x as int, pos.y as int),
            written ==> final(self).tiles@ == old(self).tiles@.update(
                pos.x + pos.y * old(self).width,
                state,
            ),
            !written ==> final(self).tiles@ == old(self).tiles@,
    {
        match self.pos_to_index(pos) {
            Some(index) => {
                self.tiles[index] = state;
                true
            },
            None => false,
        }
    }

    /// Every cell with its position, in tile order.
    pub fn enumerate_tiles(&self) -> (cells: Vec<(Position, TileState)>)
        requires
            self.well_formed(),
        ensures
            cells@.len() == self.tiles@.len(),
            forall|i: int|
                0 <= i < cells@.len() ==> {
                    &&& (#[trigger] cells@[i]).1 == self.tiles@[i]
                    &&& self.in_bounds(cells@[i].0.x as int, cells@[i].0.y as int)
                    &&& i == cells@[i].0.x + cells@[i].0.y * self.width
                },
    {
        let mut cells: Vec<(Position, TileState)> = Vec::new();
        let mut index: usize = 0;
        while index < self.tiles.len()
            invariant
                self.well_formed(),
                index <= self.tiles@.len(),
                cells@.len() == index,
                forall|i: int|
                    0 <= i < index ==> {
                        &&& (#[trigger] cells@[i]).1 == self.tiles@[i]
                        &&& self.in_bounds(cells@[i].0.x as int, cells@[i].0.y as int)
                        &&& i == cells@[i].0.x + cells@[i].0.y * self.width
                    },
            decreases self.tiles@.len() - index,
        {
            let pos = self.index_to_pos(index);
            cells.push((pos, self.tiles[index]));
            index += 1;
        }
        cells
    }

    /// How many cells are in `state`.
    pub fn count_cells(&self, state: TileState) -> (count: usize)
        ensures
            count == count_state(self.tiles@, state),
            count <= self.tiles@.len(),
    {
        let mut count: usize = 0;
        let mut index: usize = 0;
        while index < self.tiles.len()
            invariant
                index <= self.tiles@.len(),
                count <= index,
                count == count_state(self.tiles@.take(index as int), state),
            decreases self.tiles@.len() - index,
        {
            proof {
                assert(self.tiles@.take(index + 1).drop_last() =~= self.tiles@.take(index as int));
            }
            if self.tiles[index] == state {
                count += 1;
            }
            index += 1;
        }
        proof {
            assert(self.tiles@.take(index as int) =~= self.tiles@);
        }
        count
    }

    /// Brings every cell of the block of side `block_size` rooted at `root` to
    /// life and leaves the other cells as they are.
    pub fn spawn_block(&mut self, root: Position, block_size: usize)
        requires
            old(self).well_formed(),
            root.x + block_size <= old(self).width,
            root.y + block_size <= old(self).height,
        ensures
            final(self).well_formed(),
            final(self).width == old(self).width,
            final(self).height == old(self).height,
            forall|x: int, y: int|
                old(self).in_bounds(x, y) ==> #[trigger] final(self).cell(x, y) == if block_covers(
                    root,
                    block_size as int,
                    x,
                    y,
                ) {
                    TileState::Alive
                } else {
                    old(self).cell(x, y)
                },
    {
        let mut rel_x: usize = 0;
        while rel_x < block_size
            invariant
                self.well_formed(),
                self.width == old(self).width,
                self.height == old(self).height,
                root.x + block_size <= self.width,
                root.y + block_size <= self.height,
                rel_x <= block_size,
                forall|x: int, y: int|
                    self.in_bounds(x, y) ==> #[trigger] self.cell(x, y) == if block_covers(
                        root,
                        block_size as int,
                        x,
                        y,
                    ) && x < root.x + rel_x {
                        TileState::Alive
                    } else {
                        old(self).cell(x, y)
                    },
            decreases block_size - rel_x,
        {
            let mut rel_y: usize = 0;
            while rel_y < block_size
                invariant
                    self.well_formed(),
                    self.width == old(self).width,
                    self.height == old(self).height,
                    root.x + block_size <= self.width,
                    root.y + block_size <= self.height,
                    rel_x < block_size,
                    rel_y <= block_size,
                    forall|x: int, y: int|
                        self.in_bounds(x, y) ==> #[trigger] self.cell(x, y) == if block_covers(
                            root,
                            block_size as int,
                            x,
                            y,
                        ) && (x < root.x + rel_x || (x == root.x + rel_x && y < root.y + rel_y)) {
                            TileState::Alive
                        } else {
                            old(self).cell(x, y)
                        },
                decreases block_size - rel_y,
            {
                let tile_position = root + Position { x: rel_x, y: rel_y };
                let ghost before = *self;
                self.set_tile(tile_position, TileState::Alive);
                proof {
                    assert forall|x: int, y: int| self.in_bounds(x, y) implies #[trigger] self.cell(
                        x,
                        y,
                    ) == if x == tile_position.x && y == tile_position.y {
                        TileState::Alive
                    } else {
                        before.cell(x, y)
                    } by {
                        before.lemma_cell_index(x, y);
                        before.lemma_cell_index(tile_position.x as int, tile_position.y as int);
                    }
                }
                rel_y += 1;
            }
            rel_x += 1;
        }
    }

    /// A board on which `alive_cells` blocks of side `block_size` are alive, each
    /// rooted at a position drawn at random, no two at the same one, and every
    /// other cell is dead.
    pub fn new_random(width: usize, height: usize, alive_cells: usize, block_size: usize) -> (board:
        GameBoard)
        requires
            width * height <= usize::MAX,
            block_size <= width,
            block_size <= height,
            (width - block_size + 1) * (height - block_size + 1) <= usize::MAX,
            alive_cells <= (width - block_size + 1) * (height - block_size + 1),
        ensures
            board.well_formed(),
            board.width == width,
            board.height == height,
            board.seeded(alive_cells as int, block_size as int),
            block_size == 1 ==> count_state(board.tiles@, TileState::Alive) == alive_cells,
    {
        let mut board = GameBoard::new(width, height);
        let mut available = free_roots(width, height, block_size);
        let ghost mut roots: Seq<Position> = Seq::empty();
        proof {
            assert forall|x: int, y: int| board.in_bounds(x, y) implies (#[trigger] board.cell(x, y)
                == TileState::Alive <==> blocks_cover(roots, block_size as int, x, y)) by {
                board.lemma_cell_index(x, y);
            }
        }
        let mut placed: usize = 0;
        while placed < alive_cells
            invariant
                board.well_formed(),
                board.width == width,
                board.height == height,
                placed <= alive_cells,
                roots.len() == placed,
                available@.len() + placed == (width - block_size + 1) * (height - block_size + 1),
                alive_cells <= (width - block_size + 1) * (height - block_size + 1),
                available@.no_duplicates(),
                roots.no_duplicates(),
                forall|i: int, k: int|
                    0 <= i < available@.len() && 0 <= k < roots.len() ==> available@[i] != roots[k],
                forall|i: int|
                    0 <= i < available@.len() ==> (#[trigger] available@[i]).x + block_size <= width
                        && available@[i].y + block_size <= height,
                forall|k: int|
                    0 <= k < roots.len() ==> (#[trigger] roots[k]).x + block_size <= width
                        && roots[k].y + block_size <= height,
                forall|x: int, y: int|
                    board.in_bounds(x, y) ==> (#[trigger] board.cell(x, y) == TileState::Alive
                        <==> blocks_cover(roots, block_size as int, x, y)),
            decreases alive_cells - placed,
        {
            let chosen: usize = random_below(available.len());
            let ghost before_available = available@;
            let ghost before_roots = roots;
            let ghost before_board = board;
            let root = available.swap_remove(chosen);
            board.spawn_block(root, block_size);
            proof {
                roots = roots.push(root);
                assert forall|x: int, y: int| board.in_bounds(x, y) implies (#[trigger] board.cell(
                    x,
                    y,
                ) == TileState::Alive <==> blocks_cover(roots, block_size as int, x, y)) by {
                    if blocks_cover(roots, block_size as int, x, y) {
                        let k = choose|k: int|
                            0 <= k < roots.len() && block_covers(
                                #[trigger] roots[k],
                                block_size as int,
                                x,
                                y,
                            );
                        if k < before_roots.len() {
                            assert(block_covers(before_roots[k], block_size as int, x, y));
                        }
                    }
                    if blocks_cover(before_roots, block_size as int, x, y) {
                        let k = choose|k: int|
                            0 <= k < before_roots.len() && block_covers(
                                #[trigger] before_roots[k],
                                block_size as int,
                                x,
                                y,
                            );
                        assert(block_covers(roots[k], block_size as int, x, y));
                    }
                    if block_covers(root, block_size as int, x, y) {
                        assert(block_covers(roots[roots.len() - 1], block_size as int, x, y));
                    }
                    assert(before_board.in_bounds(x, y));
                }
            }
            placed += 1;
        }
        proof {
            assert(board.seeded_by(roots, block_size as int));
            if block_size == 1 {
                lemma_seeded_cells_count(&board, alive_cells as int);
            }
        }
        board
    }
}

/// Tiles of which exactly the marked ones are alive have as many live tiles
/// as there are marks, where no tile is marked twice.
pub proof fn lemma_count_marked(tiles: Seq<TileState>, marks: Seq<int>)
    requires
        marks.no_duplicates(),
        forall|k: int| 0 <= k < marks.len() ==> 0 <= #[trigger] marks[k] < tiles.len(),
        forall|i: int|
            0 <= i < tiles.len() ==> (#[trigger] tiles[i] == TileState::Alive <==> marks.contains(
                i,
            )),
    ensures
        count_state(tiles, TileState::Alive) == marks.len(),
    decreases tiles.len(),
{
    if tiles.len() == 0 {
        if marks.len() > 0 {
            assert(0 <= marks[0] < tiles.len());
        }
    } else {
        let last = tiles.len() - 1;
        let shorter = tiles.drop_last();
        if tiles[last] == TileState::Alive {
            assert(marks.contains(last));
            let k = choose|k: int| 0 <= k < marks.len() && marks[k] == last;
            let rest = marks.remove(k);
            assert forall|j: int| 0 <= j < rest.len() implies 0 <= #[trigger] rest[j]
                < shorter.len() by {
                let m = if j < k {
                    j
                } else {
                    j + 1
                };
                assert(rest[j] == marks[m]);
                assert(0 <= marks[m] < tiles.len());
                assert(marks[m] != marks[k]);
            }
            assert forall|a: int, b: int| 0 <= a < rest.len() && 0 <= b < rest.len() && a
                != b implies rest[a] != rest[b] by {
                let ma = if a < k {
                    a
                } else {
                    a + 1
                };
                let mb = if b < k {
                    b
                } else {
                    b + 1
                };
                assert(rest[a] == marks[ma] && rest[b] == marks[mb]);
            }
            assert forall|i: int| 0 <= i < shorter.len() implies (#[trigger] shorter[i]
                == TileState::Alive <==> rest.contains(i)) by {
                assert(shorter[i] == tiles[i]);
                if marks.contains(i) {
                    let m = choose|m: int| 0 <= m < marks.len() && marks[m] == i;
                    let j = if m < k {
                        m
                    } else {
                        m - 1
                    };
                    assert(rest[j] == marks[m]);
                    assert(rest.contains(i));
                }
                if rest.contains(i) {
                    let j = choose|j: int| 0 <= j < rest.len() && rest[j] == i;
                    let m = if j < k {
                        j
                    } else {
                        j + 1
                    };
                    assert(rest[j] == marks[m]);
                    assert(marks.contains(i));
                }
            }
            lemma_count_marked(shorter, rest);
        } else {
            assert forall|k: int| 0 <= k < marks.len() implies 0 <= #[trigger] marks[k]
                < shorter.len() by {
                assert(0 <= marks[k] < tiles.len());
                if marks[k] == last {
                    assert(marks.contains(last));
                }
            }
            assert forall|i: int| 0 <= i < shorter.len() implies (#[trigger] shorter[i]
                == TileState::Alive <==> marks.contains(i)) by {
                assert(shorter[i] == tiles[i]);
            }
            lemma_count_marked(shorter, marks);
        }
    }
}

/// A board that single cells were spawned on has exactly as many live cells as
/// were spawned.
pub proof fn lemma_seeded_cells_count(board: &GameBoard, alive_cells: int)
    requires
        board.well_formed(),
        board.seeded(alive_cells, 1),
    ensures
        count_state(board.tiles@, TileState::Alive) == alive_cells,
{
    let roots = choose|roots: Seq<Position>|
        #[trigger] board.seeded_by(roots, 1) && roots.len() == alive_cells;
    let w = board.width as int;
    let marks = Seq::new(roots.len(), |k: int| roots[k].x + roots[k].y * w);
    assert forall|k: int| 0 <= k < marks.len() implies 0 <= #[trigger] marks[k]
        < board.tiles@.len() by {
        assert(roots[k].x + 1 <= board.width);
        board.lemma_cell_index(roots[k].x as int, roots[k].y as int);
    }
    assert forall|a: int, b: int| 0 <= a < marks.len() && 0 <= b < marks.len() && a
        != b implies marks[a] != marks[b] by {
        assert(roots[a].x + 1 <= board.width && roots[b].x + 1 <= board.width);
        board.lemma_cell_index(roots[a].x as int, roots[a].y as int);
        board.lemma_cell_index(roots[b].x as int, roots[b].y as int);
        assert(roots[a] != roots[b]);
    }
    assert forall|i: int| 0 <= i < board.tiles@.len() implies (#[trigger] board.tiles@[i]
        == TileState::Alive <==> marks.contains(i)) by {
        board.lemma_index_cell(i);
        let x = i % w;
        let y = i / w;
        assert(board.cell(x, y) == board.tiles@[i]);
        if blocks_cover(roots, 1, x, y) {
            let k = choose|k: int| 0 <= k < roots.len() && block_covers(#[trigger] roots[k], 1, x, y);
            assert(marks[k] == i);
            assert(marks.contains(i));
        }
        if marks.contains(i) {
            let k = choose|k: int| 0 <= k < marks.len() && marks[k] == i;
            assert(roots[k].x + 1 <= board.width);
            board.lemma_cell_index(roots[k].x as int, roots[k].y as int);
            assert(block_covers(roots[k], 1, x, y));
        }
    }
    lemma_count_marked(board.tiles@, marks);
}

/// Every position at which a block of side `block_size` fits on a `width` by
/// `height` board, column after column, each once.
pub fn free_roots(width: usize, height: usize, block_size: usize) -> (roots: Vec<Position>)
    requires
        block_size <= width,
        block_size <= height,
        (width - block_size + 1) * (height - block_size + 1) <= usize::MAX,
    ensures
        roots@ == grid(width - block_size + 1, height - block_size + 1),
        roots@.len() == (width - block_size + 1) * (height - block_size + 1),
        roots@.no_duplicates(),
        forall|i: int|
            0 <= i < roots@.len() ==> (#[trigger] roots@[i]).x + block_size <= width
                && roots@[i].y + block_size <= height,
{
    proof {
        assert(width - block_size + 1 <= usize::MAX && height - block_size + 1 <= usize::MAX)
            by (nonlinear_arith)
            requires
                (width - block_size + 1) * (height - block_size + 1) <= usize::MAX,
                width - block_size + 1 >= 1,
                height - block_size + 1 >= 1,
        ;
        lemma_grid(width - block_size + 1, height - block_size + 1);
    }
    grid_positions(width - block_size + 1, height - block_size + 1)
}

} // verus!
