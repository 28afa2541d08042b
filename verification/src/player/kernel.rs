use crate::game::board::GameBoard;
use crate::game::board::TileState;
use crate::game::pos::Position;
use crate::network::harness::InputProvider;
use crate::network::value::ONE_BITS;
use crate::network::value::SIGN_BIT;
use crate::network::value::Value;
use vstd::prelude::*;

verus! {

/// The neighbourhood of one cell: the cells of a square centred on it, column
/// after column, each alive, dead, or off the board.
#[derive(Debug, PartialEq, Eq)]
pub struct Kernel {
    pub tiles: Vec<Option<TileState>>,
}

/// The value that stands for a kernel cell in the network's input: one for a
/// live cell, minus one for a dead cell, and negative zero, which has no
/// magnitude, for a cell off the board.
pub open spec fn encode_tile(tile: Option<TileState>) -> Value {
    match tile {
        Some(TileState::Alive) => Value { bits: ONE_BITS },
        None => Value { bits: SIGN_BIT },
        Some(TileState::Dead) => Value { bits: (ONE_BITS + SIGN_BIT) as u32 },
    }
}

/// The three kinds of kernel cell have three different encodings: a cell off
/// the board is encoded with magnitude zero, a dead cell below zero and a live
/// cell above it.
pub proof fn lemma_encoding_tells_cells_apart()
    ensures
        encode_tile(None).magnitude() == 0,
        !encode_tile(None).is_nan(),
        !encode_tile(Some(TileState::Dead)).is_nan(),
        !encode_tile(Some(TileState::Alive)).is_nan(),
        encode_tile(Some(TileState::Dead)).order_key() < encode_tile(None).order_key(),
        encode_tile(None).order_key() < encode_tile(Some(TileState::Alive)).order_key(),
        encode_tile(None) != encode_tile(Some(TileState::Dead)),
        encode_tile(None) != encode_tile(Some(TileState::Alive)),
        encode_tile(Some(TileState::Dead)) != encode_tile(Some(TileState::Alive)),
{
}

/// The side of the square that a kernel of the given diameter covers: the
/// centre and the diameter's half on either side of it.
pub open spec fn kernel_side(diameter: int) -> int {
    2 * (diameter / 2) + 1
}

/// The cells of the kernel of the given diameter centred on `center`: column
/// after column from left to right, each from top to bottom.
pub open spec fn kernel_tiles(board: &GameBoard, center: Position, diameter: int) -> Seq<
    Option<TileState>,
> {
    let side = kernel_side(diameter);
    Seq::new(
        (side * side) as nat,
        |i: int| board.read(center.x + i / side - diameter / 2, center.y + i % side - diameter / 2),
    )
}

/// Supplies the `tile_index`-th cell of a kernel, encoded.
#[derive(Debug, Clone, Copy, PartialEq, Eq, Structural)]
pub struct KernelInput {
    pub tile_index: usize,
}

impl InputProvider<Kernel> for KernelInput {
    open spec fn accepts(&self, state: &Kernel) -> bool {
        self.tile_index < state.tiles@.len()
    }

    open spec fn provided(&self, state: &Kernel) -> Value {
        encode_tile(state.tiles@[self.tile_index as int])
    }

    fn provide(&self, state: &Kernel) -> (value: Value) {
        Kernel::input_provider(self.tile_index, state)
    }
}

impl Clone for Kernel {
    fn clone(&self) -> (copy: Kernel)
        ensures
            copy.tiles@ == self.tiles@,
    {
        let mut tiles: Vec<Option<TileState>> = Vec::new();
        let mut index: usize = 0;
        while index < self.tiles.len()
            invariant
                index <= self.tiles@.len(),
                tiles@ == self.tiles@.take(index as int),
            decreases self.tiles@.len() - index,
        {
            tiles.push(self.tiles[index]);
            proof {
                assert(tiles@ =~= self.tiles@.take(index + 1));
            }
            index += 1;
        }
        proof {
            assert(self.tiles@.take(index as int) =~= self.tiles@);
        }
        Kernel { tiles }
    }
}

impl Kernel {
    /// One provider for each of the first `kernel_diameter` squared cells of a
    /// kernel, in cell order.
    pub fn input_providers(kernel_diameter: usize) -> (providers: Vec<KernelInput>)
        requires
            kernel_diameter * kernel_diameter <= usize::MAX,
        ensures
            providers@.len() == kernel_diameter * kernel_diameter,
            forall|i: int| 0 <= i < providers@.len() ==> (#[trigger] providers@[i]).tile_index == i,
    {
        let tile_count: usize = kernel_diameter * kernel_diameter;
        let mut providers: Vec<KernelInput> = Vec::new();
        let mut tile_index: usize = 0;
        while tile_index < tile_count
            invariant
                tile_index <= tile_count,
                providers@.len() == tile_index,
                forall|i: int| 0 <= i < tile_index ==> (#[trigger] providers@[i]).tile_index == i,
            decreases tile_count - tile_index,
        {
            providers.push(KernelInput { tile_index });
            tile_index += 1;
        }
        providers
    }

    /// The encoding of the `tile_index`-th cell of `kernel`.
    pub fn input_provider(tile_index: usize, kernel: &Kernel) -> (value: Value)
        requires
            tile_index < kernel.tiles@.len(),
        ensures
            value == encode_tile(kernel.tiles@[tile_index as int]),
    {
        match kernel.tiles[tile_index] {
            Some(TileState::Alive) => Value::one(),
            None => Value::negative_zero(),
            Some(TileState::Dead) => Value::negative_one(),
        }
    }

    /// Whether the two kernels hold the same cells.
    pub fn same_tiles(&self, other: &Kernel) -> (same: bool)
        ensures
            same == (self.tiles@ == other.tiles@),
    {
        if self.tiles.len() != other.tiles.len() {
            return false;
        }
        let mut index: usize = 0;
        while index < self.tiles.len()
            invariant
                self.tiles@.len() == other.tiles@.len(),
                index <= self.tiles@.len(),
                forall|i: int| 0 <= i < index ==> self.tiles@[i] == other.tiles@[i],
            decreases self.tiles@.len() - index,
        {
            let mine = self.tiles[index];
            let theirs = other.tiles[index];
            let equal = match (mine, theirs) {
                (None, None) => true,
                (Some(a), Some(b)) => a == b,
                _ => false,
            };
            if !equal {
                return false;
            }
            index += 1;
        }
        proof {
            assert(self.tiles@ =~= other.tiles@);
        }
        true
    }
}

} // verus!
