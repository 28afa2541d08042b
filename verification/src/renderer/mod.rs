//! Shows a board on a frame of pixels.

use crate::game::board::GameBoard;
use crate::game::board::TileState;
use crate::game::pos::Position;
use crate::renderer::frame::PIXEL_BITS;
use crate::renderer::frame::RenderFrame;
use crate::renderer::frame::pixel_index;
use crate::renderer::frame::rectangle_covers;
use vstd::arithmetic::div_mod::lemma_fundamental_div_mod;
use vstd::arithmetic::div_mod::lemma_fundamental_div_mod_converse;
use vstd::prelude::*;

pub mod frame;
pub mod sleeper;

verus! {

/// What the pointer did, as far as the board is concerned.
#[derive(Debug, Clone, Copy, PartialEq, Eq, Structural)]
pub enum PointerEvent {
    /// A button went down or up.
    MouseInput { left_button: bool, pressed: bool },
    /// The pointer moved to column `x`, row `y` of the frame's pixels.
    CursorMoved { x: u32, y: u32 },
    /// Anything else.
    Other,
}

/// What the renderer knows between events: where the pointer is on the board,
/// whether the left button is down, and the size of the frame last drawn.
#[derive(Debug, Clone, Copy, PartialEq, Eq, Structural)]
pub struct RendererState {
    pub mouse_tile_pos: Option<Position>,
    pub mouse_pressed: bool,
    pub width: u32,
    pub height: u32,
}

/// The state of a cell after a click on it.
pub open spec fn toggled(tile: TileState) -> TileState {
    match tile {
        TileState::Alive => TileState::Dead,
        TileState::Dead => TileState::Alive,
    }
}

/// The cell of a board of `columns` by `rows` cells under the pixel in column
/// `x`, row `y` of a frame of `width` by `height` pixels.
pub open spec fn tile_under(columns: int, rows: int, width: int, height: int, x: int, y: int) -> Position {
    Position { x: (x * columns / width) as usize, y: (y * rows / height) as usize }
}

impl RendererState {
    /// The state after the event.
    pub open spec fn after(&self, board: &GameBoard, event: PointerEvent) -> RendererState {
        match event {
            PointerEvent::MouseInput { left_button, pressed } => if left_button {
                RendererState { mouse_pressed: pressed, ..*self }
            } else {
                *self
            },
            PointerEvent::CursorMoved { x, y } => RendererState {
                mouse_tile_pos: Some(
                    tile_under(
                        board.width as int,
                        board.height as int,
                        self.width as int,
                        self.height as int,
                        x as int,
                        y as int,
                    ),
                ),
                ..*self
            },
            PointerEvent::Other => *self,
        }
    }

    /// Whether the event is a click: the left button going down, or the
    /// pointer coming to another cell while the button is down.
    pub open spec fn clicks(&self, board: &GameBoard, event: PointerEvent) -> bool {
        match event {
            PointerEvent::MouseInput { left_button, pressed } => left_button && pressed,
            PointerEvent::CursorMoved { .. } => self.mouse_pressed && self.mouse_tile_pos
                != self.after(board, event).mouse_tile_pos,
            PointerEvent::Other => false,
        }
    }
}

/// Takes in an event: keeps track of the pointer and, on a click, flips the
/// cell under it, if there is one.
pub fn on_event(state: &mut RendererState, board: &mut GameBoard, event: PointerEvent)
    requires
        old(board).well_formed(),
        old(board).width <= u32::MAX,
        old(board).height <= u32::MAX,
        event matches PointerEvent::CursorMoved { x, y } ==> {
            &&& old(state).width > 0
            &&& old(state).height > 0
            &&& x * old(board).width <= u32::MAX
            &&& y * old(board).height <= u32::MAX
        },
    ensures
        *final(state) == old(state).after(old(board), event),
        final(board).width == old(board).width,
        final(board).height == old(board).height,
        final(board).well_formed(),
        final(board).tiles@ == match final(state).mouse_tile_pos {
            Some(pos) if old(state).clicks(old(board), event) && old(board).in_bounds(
                pos.x as int,
                pos.y as int,
            ) => old(board).tiles@.update(
                pos.x + pos.y * old(board).width,
                toggled(old(board).cell(pos.x as int, pos.y as int)),
            ),
            _ => old(board).tiles@,
        },
{
    let click = match event {
        PointerEvent::MouseInput { left_button, pressed } => {
            if left_button {
                state.mouse_pressed = pressed;
                state.mouse_pressed
            } else {
                false
            }
        },
        PointerEvent::CursorMoved { x, y } => {
            proof {
                assert(0 <= x * board.width / (state.width as int) <= x * board.width)
                    by (nonlinear_arith)
                    requires
                        0 <= x * board.width,
                        state.width >= 1,
                ;
                assert(0 <= y * board.height / (state.height as int) <= y * board.height)
                    by (nonlinear_arith)
                    requires
                        0 <= y * board.height,
                        state.height >= 1,
                ;
            }
            let tile_x: u32 = x * (board.width as u32) / state.width;
            let tile_y: u32 = y * (board.height as u32) / state.height;
            let tile_pos = Position { x: tile_x as usize, y: tile_y as usize };
            let prev_tile_pos = state.mouse_tile_pos;
            state.mouse_tile_pos = Some(tile_pos);
            let moved = match prev_tile_pos {
                Some(prev) => prev != tile_pos,
                None => true,
            };
            state.mouse_pressed && moved
        },
        PointerEvent::Other => false,
    };
    if click {
        match state.mouse_tile_pos {
            Some(mouse_tile_pos) => {
                let flipped = match board.tile(mouse_tile_pos) {
                    Some(clicked_tile) => Some(
                        match clicked_tile {
                            TileState::Alive => TileState::Dead,
                            TileState::Dead => TileState::Alive,
                        },
                    ),
                    None => None,
                };
                match flipped {
                    Some(tile) => {
                        board.set_tile(mouse_tile_pos, tile);
                    },
                    None => {},
                }
            },
            None => {},
        }
    }
}

/// The margin, in pixels, on each side of a cell.
pub const HALF_TILE_MARGIN: u32 = 1;

/// The colour between the cells.
pub open spec fn background() -> [u8; PIXEL_BITS] {
    [10u8, 10u8, 10u8, 255u8]
}

/// The colour of a cell: white if it is alive, black if it is dead.
pub open spec fn color_of(tile: TileState) -> [u8; PIXEL_BITS] {
    match tile {
        TileState::Alive => [255u8, 255u8, 255u8, 255u8],
        TileState::Dead => [0u8, 0u8, 0u8, 255u8],
    }
}

/// Whether the place `index` belongs to a pixel that shows the cell in column
/// `x`, row `y`: a pixel of the cell's rectangle of `tile_width` by
/// `tile_height` pixels, but not of its margin.
pub open spec fn tile_shows(
    frame_width: int,
    tile_width: int,
    tile_height: int,
    x: int,
    y: int,
    index: int,
) -> bool {
    rectangle_covers(
        frame_width,
        x * tile_width + HALF_TILE_MARGIN,
        y * tile_height + HALF_TILE_MARGIN,
        tile_width - 2 * HALF_TILE_MARGIN,
        tile_height - 2 * HALF_TILE_MARGIN,
        0,
        index,
    )
}

/// Whether the place `index` belongs to a pixel that shows a cell of the board.
pub open spec fn some_tile_shows(
    board: &GameBoard,
    frame_width: int,
    tile_width: int,
    tile_height: int,
    index: int,
) -> bool {
    exists|x: int, y: int|
        board.in_bounds(x, y) && #[trigger] tile_shows(
            frame_width,
            tile_width,
            tile_height,
            x,
            y,
            index,
        )
}

/// No pixel shows two cells: rectangles of cells that lie side by side within
/// the width of the frame share no place.
pub proof fn lemma_tiles_apart(
    frame_width: int,
    tile_width: int,
    tile_height: int,
    columns: int,
    x1: int,
    y1: int,
    x2: int,
    y2: int,
    index: int,
)
    requires
        tile_width >= 2,
        tile_height >= 2,
        columns * tile_width <= frame_width,
        0 <= x1 < columns,
        0 <= x2 < columns,
        0 <= y1,
        0 <= y2,
        tile_shows(frame_width, tile_width, tile_height, x1, y1, index),
        tile_shows(frame_width, tile_width, tile_height, x2, y2, index),
    ensures
        x1 == x2,
        y1 == y2,
{
    let (px1, py1) = choose|px: int, py: int|
        {
            &&& (y1 * tile_height + 1 <= py < y1 * tile_height + 1 + (tile_height - 2) && x1
                * tile_width + 1 <= px < x1 * tile_width + 1 + (tile_width - 2)) || (py == y1
                * tile_height + 1 + (tile_height - 2) && x1 * tile_width + 1 <= px < x1 * tile_width
                + 1 + 0)
            &&& #[trigger] pixel_index(frame_width, px, py) == index
        };
    let (px2, py2) = choose|px: int, py: int|
        {
            &&& (y2 * tile_height + 1 <= py < y2 * tile_height + 1 + (tile_height - 2) && x2
                * tile_width + 1 <= px < x2 * tile_width + 1 + (tile_width - 2)) || (py == y2
                * tile_height + 1 + (tile_height - 2) && x2 * tile_width + 1 <= px < x2 * tile_width
                + 1 + 0)
            &&& #[trigger] pixel_index(frame_width, px, py) == index
        };
    assert(0 <= x1 * tile_width && x1 * tile_width + tile_width <= columns * tile_width)
        by (nonlinear_arith)
        requires
            0 <= x1 < columns,
            tile_width >= 2,
    ;
    assert(0 <= x2 * tile_width && x2 * tile_width + tile_width <= columns * tile_width)
        by (nonlinear_arith)
        requires
            0 <= x2 < columns,
            tile_width >= 2,
    ;
    lemma_fundamental_div_mod_converse(index, frame_width, py1, px1);
    lemma_fundamental_div_mod_converse(index, frame_width, py2, px2);
    assert(px1 == px2 && py1 == py2);
    assert(x1 == x2) by (nonlinear_arith)
        requires
            x1 * tile_width < px1 < x1 * tile_width + tile_width,
            x2 * tile_width < px1 < x2 * tile_width + tile_width,
            tile_width >= 2,
    ;
    assert(y1 == y2) by (nonlinear_arith)
        requires
            y1 * tile_height < py1 < y1 * tile_height + tile_height,
            y2 * tile_height < py1 < y2 * tile_height + tile_height,
            tile_height >= 2,
    ;
}

/// Shows the board on the frame: the frame is divided evenly among the cells,
/// every pixel of a cell's rectangle but its margin takes the cell's colour,
/// and every other pixel the background's. Pixels that cannot be addressed
/// take the background's colour too.
pub fn draw(board: &GameBoard, frame: &mut RenderFrame)
    requires
        board.well_formed(),
        0 < board.width <= u32::MAX,
        0 < board.height <= u32::MAX,
        old(frame).width / (board.width as u32) >= 2 * HALF_TILE_MARGIN,
        old(frame).height / (board.height as u32) >= 2 * HALF_TILE_MARGIN,
    ensures
        final(frame).width == old(frame).width,
        final(frame).height == old(frame).height,
        final(frame).buffer@.len() == old(frame).buffer@.len(),
        forall|x: int, y: int, i: int|
            board.in_bounds(x, y) && old(frame).addressable(i) && #[trigger] tile_shows(
                old(frame).width as int,
                old(frame).width as int / board.width as int,
                old(frame).height as int / board.height as int,
                x,
                y,
                i,
            ) ==> final(frame).buffer@[i] == color_of(board.cell(x, y)),
        forall|i: int|
            0 <= i < final(frame).buffer@.len() && !(old(frame).addressable(i) && some_tile_shows(
                board,
                old(frame).width as int,
                old(frame).width as int / board.width as int,
                old(frame).height as int / board.height as int,
                i,
            )) ==> #[trigger] final(frame).buffer@[i] == background(),
{
    let tile_width: u32 = frame.width / (board.width as u32);
    let tile_height: u32 = frame.height / (board.height as u32);
    let ghost fw = frame.width as int;
    let ghost tw = tile_width as int;
    let ghost th = tile_height as int;
    proof {
        lemma_fundamental_div_mod(frame.width as int, board.width as int);
        lemma_fundamental_div_mod(frame.height as int, board.height as int);
        assert(board.width * tw == tw * board.width) by (nonlinear_arith);
        assert(board.height * th == th * board.height) by (nonlinear_arith);
    }

    frame.fill([10, 10, 10, 255]);

    let cells = board.enumerate_tiles();
    let mut shown: usize = 0;
    while shown < cells.len()
        invariant
            board.well_formed(),
            0 < board.width <= u32::MAX,
            0 < board.height <= u32::MAX,
            fw == frame.width,
            tw == tile_width,
            th == tile_height,
            tw >= 2,
            th >= 2,
            board.width * tw <= fw,
            board.height * th <= frame.height,
            frame.width == old(frame).width,
            frame.height == old(frame).height,
            frame.buffer@.len() == old(frame).buffer@.len(),
            shown <= cells@.len(),
            cells@.len() == board.tiles@.len(),
            forall|i: int|
                0 <= i < cells@.len() ==> {
                    &&& (#[trigger] cells@[i]).1 == board.tiles@[i]
                    &&& board.in_bounds(cells@[i].0.x as int, cells@[i].0.y as int)
                    &&& i == cells@[i].0.x + cells@[i].0.y * board.width
                },
            forall|x: int, y: int, i: int|
                board.in_bounds(x, y) && x + y * board.width < shown && frame.addressable(i)
                    && #[trigger] tile_shows(fw, tw, th, x, y, i) ==> frame.buffer@[i] == color_of(
                    board.cell(x, y),
                ),
            forall|i: int|
                0 <= i < frame.buffer@.len() && !(frame.addressable(i) && exists|x: int, y: int|
                    board.in_bounds(x, y) && x + y * board.width < shown && #[trigger] tile_shows(
                        fw,
                        tw,
                        th,
                        x,
                        y,
                        i,
                    )) ==> #[trigger] frame.buffer@[i] == background(),
        decreases cells@.len() - shown,
    {
        let (tile_pos, tile) = cells[shown];
        proof {
            assert(tile_pos.x * tw + tw <= board.width * tw) by (nonlinear_arith)
                requires
                    0 <= tile_pos.x < board.width,
                    tw >= 0,
            ;
            assert(tile_pos.y * th + th <= board.height * th) by (nonlinear_arith)
                requires
                    0 <= tile_pos.y < board.height,
                    th >= 0,
            ;
            assert(0 <= tile_pos.x * tw && 0 <= tile_pos.y * th) by (nonlinear_arith)
                requires
                    0 <= tile_pos.x,
                    0 <= tile_pos.y,
                    tw >= 0,
                    th >= 0,
            ;
        }
        let tile_screen_x: u32 = tile_pos.x as u32 * tile_width;
        let tile_screen_y: u32 = tile_pos.y as u32 * tile_height;
        let color: [u8; PIXEL_BITS] = match tile {
            TileState::Alive => [255; 4],
            TileState::Dead => [0, 0, 0, 255],
        };
        let ghost before = frame.buffer@;
        frame.draw_square(
            tile_screen_x + HALF_TILE_MARGIN,
            tile_screen_y + HALF_TILE_MARGIN,
            tile_width - HALF_TILE_MARGIN * 2,
            tile_height - HALF_TILE_MARGIN * 2,
            color,
        );
        proof {
            let xt = tile_pos.x as int;
            let yt = tile_pos.y as int;
            board.lemma_cell_index(xt, yt);
            assert(color == color_of(board.cell(xt, yt))) by {
                assert(color@ =~= color_of(board.cell(xt, yt))@);
            }
            assert forall|x: int, y: int, i: int|
                board.in_bounds(x, y) && x + y * board.width < shown + 1 && frame.addressable(i)
                    && #[trigger] tile_shows(fw, tw, th, x, y, i) implies frame.buffer@[i]
                == color_of(board.cell(x, y)) by {
                board.lemma_cell_index(x, y);
                if x + y * board.width < shown {
                    if tile_shows(fw, tw, th, xt, yt, i) {
                        lemma_tiles_apart(fw, tw, th, board.width as int, x, y, xt, yt, i);
                    }
                } else {
                    assert(x == xt && y == yt);
                }
            }
            assert forall|i: int|
                0 <= i < frame.buffer@.len() && !(frame.addressable(i) && exists|x: int, y: int|
                    board.in_bounds(x, y) && x + y * board.width < shown + 1
                        && #[trigger] tile_shows(fw, tw, th, x, y, i)) implies #[trigger] frame.buffer@[i]
                == background() by {
                if frame.addressable(i) {
                    assert(!tile_shows(fw, tw, th, xt, yt, i));
                    assert(!(exists|x: int, y: int|
                        board.in_bounds(x, y) && x + y * board.width < shown
                            && #[trigger] tile_shows(fw, tw, th, x, y, i)));
                }
                assert(frame.buffer@[i] == before[i]);
            }
        }
        shown += 1;
    }
    proof {
        assert forall|x: int, y: int, i: int|
            board.in_bounds(x, y) && frame.addressable(i) && #[trigger] tile_shows(
                fw,
                tw,
                th,
                x,
                y,
                i,
            ) implies frame.buffer@[i] == color_of(board.cell(x, y)) by {
            board.lemma_cell_index(x, y);
        }
        assert forall|i: int|
            0 <= i < frame.buffer@.len() && !(frame.addressable(i) && some_tile_shows(
                board,
                fw,
                tw,
                th,
                i,
            )) implies #[trigger] frame.buffer@[i] == background() by {
            if frame.addressable(i) {
                assert forall|x: int, y: int| board.in_bounds(x, y) implies !#[trigger] tile_shows(
                    fw,
                    tw,
                    th,
                    x,
                    y,
                    i,
                ) by {}
            }
        }
    }
}

} // verus!
