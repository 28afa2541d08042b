use vstd::arithmetic::div_mod::lemma_fundamental_div_mod;
use vstd::arithmetic::div_mod::lemma_fundamental_div_mod_converse;
use vstd::prelude::*;

verus! {

/// A cell coordinate: column `x`, row `y`.
#[derive(Debug, Clone, Copy, PartialEq, Eq, Structural)]
pub struct Position {
    pub x: usize,
    pub y: usize,
}

impl From<[usize; 2]> for Position {
    /// The position in column `value[0]`, row `value[1]`.
    fn from(value: [usize; 2]) -> (position: Position) {
        Position { x: value[0], y: value[1] }
    }
}

impl vstd::std_specs::convert::FromSpecImpl<[usize; 2]> for Position {
    open spec fn obeys_from_spec() -> bool {
        true
    }

    open spec fn from_spec(value: [usize; 2]) -> Position {
        Position { x: value[0], y: value[1] }
    }
}

impl std::ops::Add for Position {
    type Output = Position;

    /// The position as many columns to the right and rows down as `rhs` is
    /// from the first cell.
    fn add(self, rhs: Position) -> (sum: Position) {
        Position { x: self.x + rhs.x, y: self.y + rhs.y }
    }
}

impl vstd::std_specs::ops::AddSpecImpl for Position {
    open spec fn obeys_add_spec() -> bool {
        true
    }

    open spec fn add_req(self, rhs: Position) -> bool {
        self.x + rhs.x <= usize::MAX && self.y + rhs.y <= usize::MAX
    }

    open spec fn add_spec(self, rhs: Position) -> Position {
        Position { x: (self.x + rhs.x) as usize, y: (self.y + rhs.y) as usize }
    }
}

impl From<Position> for [usize; 2] {
    /// The column and the row of the position.
    fn from(value: Position) -> (pair: [usize; 2]) {
        [value.x, value.y]
    }
}

impl vstd::std_specs::convert::FromSpecImpl<Position> for [usize; 2] {
    open spec fn obeys_from_spec() -> bool {
        true
    }

    open spec fn from_spec(value: Position) -> [usize; 2] {
        [value.x, value.y]
    }
}

/// The positions of a grid of `columns` by `rows`, column after column from
/// left to right, each from top to bottom.
pub open spec fn grid(columns: int, rows: int) -> Seq<Position> {
    Seq::new(
        (columns * rows) as nat,
        |i: int| Position { x: (i / rows) as usize, y: (i % rows) as usize },
    )
}

/// A grid holds no position twice, and only positions whose column and row lie
/// within it.
pub proof fn lemma_grid(columns: int, rows: int)
    requires
        0 <= columns <= usize::MAX,
        0 <= rows <= usize::MAX,
    ensures
        grid(columns, rows).no_duplicates(),
        forall|i: int|
            0 <= i < grid(columns, rows).len() ==> (#[trigger] grid(columns, rows)[i]).x < columns
                && grid(columns, rows)[i].y < rows,
{
    let positions = grid(columns, rows);
    assert(columns * rows >= 0) by (nonlinear_arith)
        requires
            0 <= columns,
            0 <= rows,
    ;
    assert forall|i: int| 0 <= i < positions.len() implies 0 <= i / rows < columns && 0 <= i % rows
        < rows && i == rows * (i / rows) + i % rows && (#[trigger] positions[i]).x == i / rows
        && positions[i].y == i % rows by {
        assert(rows > 0) by (nonlinear_arith)
            requires
                0 <= i < columns * rows,
                0 <= rows,
        ;
        lemma_fundamental_div_mod(i, rows);
        let q = i / rows;
        assert(0 <= q < columns) by (nonlinear_arith)
            requires
                i == rows * q + i % rows,
                0 <= i % rows < rows,
                0 <= i < columns * rows,
        ;
    }
    assert forall|i: int, j: int|
        0 <= i < positions.len() && 0 <= j < positions.len() && i != j implies positions[i]
        != positions[j] by {
        assert(positions[i].x == i / rows && positions[j].x == j / rows);
        assert(i == rows * (i / rows) + i % rows);
        assert(j == rows * (j / rows) + j % rows);
    }
}

/// The positions of a grid of `columns` by `rows`, column after column.
pub fn grid_positions(columns: usize, rows: usize) -> (positions: Vec<Position>)
    requires
        columns * rows <= usize::MAX,
    ensures
        positions@ == grid(columns as int, rows as int),
{
    let mut positions: Vec<Position> = Vec::new();
    let mut x: usize = 0;
    while x < columns
        invariant
            columns * rows <= usize::MAX,
            x <= columns,
            positions@.len() == x * rows,
            forall|i: int|
                0 <= i < positions@.len() ==> (#[trigger] positions@[i]) == (Position {
                    x: (i / (rows as int)) as usize,
                    y: (i % (rows as int)) as usize,
                }),
        decreases columns - x,
    {
        let mut y: usize = 0;
        while y < rows
            invariant
                columns * rows <= usize::MAX,
                x < columns,
                y <= rows,
                positions@.len() == x * rows + y,
                forall|i: int|
                    0 <= i < positions@.len() ==> (#[trigger] positions@[i]) == (Position {
                        x: (i / (rows as int)) as usize,
                        y: (i % (rows as int)) as usize,
                    }),
            decreases rows - y,
        {
            proof {
                lemma_fundamental_div_mod_converse(x * rows + y, rows as int, x as int, y as int);
            }
            positions.push(Position { x, y });
            y += 1;
        }
        proof {
            assert(x * rows + rows == (x + 1) * rows) by (nonlinear_arith);
        }
        x += 1;
    }
    proof {
        assert(positions@ =~= grid(columns as int, rows as int));
    }
    positions
}

} // verus!
