use ml_life_killer::game::board::GameBoard;
use ml_life_killer::game::board::TileState;
use ml_life_killer::game::pos::Position;
use ml_life_killer::renderer::PointerEvent;
use ml_life_killer::renderer::RendererState;
use ml_life_killer::renderer::draw;
use ml_life_killer::renderer::frame::RenderFrame;
use ml_life_killer::renderer::on_event;
use ml_life_killer::renderer::sleeper::Sleeper;

const GROUND: [u8; 4] = [10, 10, 10, 255];
const LIVE: [u8; 4] = [255; 4];
const DEAD: [u8; 4] = [0, 0, 0, 255];

fn blank(width: u32, height: u32) -> RenderFrame {
    RenderFrame { width, height, buffer: vec![[1, 2, 3, 4]; (width * height) as usize] }
}

fn state(width: u32, height: u32) -> RendererState {
    RendererState { mouse_tile_pos: None, mouse_pressed: false, width, height }
}

#[test]
fn draw_shows_each_cell_inside_its_margin() {
    let mut board = GameBoard::new(2, 1);
    board.set_tile(Position { x: 1, y: 0 }, TileState::Alive);
    let mut shown = blank(8, 4);
    draw(&board, &mut shown);
    let row = |y: usize| shown.buffer[y * 8..(y + 1) * 8].to_vec();
    assert_eq!(row(0), vec![GROUND; 8]);
    assert_eq!(row(1), vec![GROUND, DEAD, DEAD, GROUND, GROUND, LIVE, LIVE, GROUND]);
    assert_eq!(row(2), vec![GROUND, DEAD, DEAD, GROUND, GROUND, LIVE, LIVE, GROUND]);
    assert_eq!(row(3), vec![GROUND; 8]);
}

#[test]
fn draw_leaves_the_remainder_to_the_background() {
    let mut board = GameBoard::new(2, 2);
    board.set_tile(Position { x: 0, y: 1 }, TileState::Alive);
    let mut shown = blank(7, 6);
    draw(&board, &mut shown);
    // Cells are three by three pixels, one of which shows.
    let at = |x: usize, y: usize| shown.buffer[x + y * 7];
    assert_eq!(at(1, 1), DEAD);
    assert_eq!(at(4, 1), DEAD);
    assert_eq!(at(1, 4), LIVE);
    assert_eq!(at(4, 4), DEAD);
    let painted = shown.buffer.iter().filter(|pixel| **pixel != GROUND).count();
    assert_eq!(painted, 4);
    assert_eq!(shown.width, 7);
    assert_eq!(shown.height, 6);
}

#[test]
fn draw_with_cells_of_two_pixels_shows_only_background() {
    let board = GameBoard::new_random(3, 3, 5, 1);
    let mut shown = blank(6, 6);
    draw(&board, &mut shown);
    assert_eq!(shown.buffer, vec![GROUND; 36]);
}

#[test]
fn left_button_down_flips_the_cell_under_the_pointer() {
    let mut board = GameBoard::new(4, 4);
    let mut pointer = state(40, 40);
    on_event(&mut pointer, &mut board, PointerEvent::CursorMoved { x: 25, y: 5 });
    assert_eq!(pointer.mouse_tile_pos, Some(Position { x: 2, y: 0 }));
    assert_eq!(board, GameBoard::new(4, 4));
    on_event(&mut pointer, &mut board, PointerEvent::MouseInput { left_button: true, pressed: true });
    assert!(pointer.mouse_pressed);
    assert_eq!(board.tile(Position { x: 2, y: 0 }), Some(&TileState::Alive));
    assert_eq!(board.count_cells(TileState::Alive), 1);
    on_event(&mut pointer, &mut board, PointerEvent::MouseInput { left_button: true, pressed: false });
    assert!(!pointer.mouse_pressed);
    assert_eq!(board.count_cells(TileState::Alive), 1);
    on_event(&mut pointer, &mut board, PointerEvent::MouseInput { left_button: true, pressed: true });
    assert_eq!(board.count_cells(TileState::Alive), 0);
}

#[test]
fn dragging_flips_each_cell_entered() {
    let mut board = GameBoard::new(4, 4);
    let mut pointer = state(40, 40);
    on_event(&mut pointer, &mut board, PointerEvent::CursorMoved { x: 0, y: 0 });
    on_event(&mut pointer, &mut board, PointerEvent::MouseInput { left_button: true, pressed: true });
    on_event(&mut pointer, &mut board, PointerEvent::CursorMoved { x: 5, y: 5 });
    on_event(&mut pointer, &mut board, PointerEvent::CursorMoved { x: 15, y: 5 });
    on_event(&mut pointer, &mut board, PointerEvent::CursorMoved { x: 19, y: 9 });
    on_event(&mut pointer, &mut board, PointerEvent::Other);
    assert_eq!(board.tile(Position { x: 0, y: 0 }), Some(&TileState::Alive));
    assert_eq!(board.tile(Position { x: 1, y: 0 }), Some(&TileState::Alive));
    assert_eq!(board.count_cells(TileState::Alive), 2);
}

#[test]
fn other_buttons_and_cells_off_the_board_change_nothing() {
    let mut board = GameBoard::new(2, 2);
    let mut pointer = state(10, 10);
    on_event(&mut pointer, &mut board, PointerEvent::MouseInput { left_button: false, pressed: true });
    assert!(!pointer.mouse_pressed);
    on_event(&mut pointer, &mut board, PointerEvent::MouseInput { left_button: true, pressed: true });
    assert_eq!(board, GameBoard::new(2, 2));
    on_event(&mut pointer, &mut board, PointerEvent::CursorMoved { x: 30, y: 3 });
    assert_eq!(pointer.mouse_tile_pos, Some(Position { x: 6, y: 0 }));
    assert_eq!(board, GameBoard::new(2, 2));
}

#[test]
fn sleeper_is_late_before_its_first_turn() {
    let sleeper = Sleeper::new(1_000);
    assert_eq!(sleeper.target_delta_time, 1_000);
    assert_eq!(sleeper.last_instant, None);
    assert!(!sleeper.in_time(0));
    assert!(!sleeper.in_time(500));
}

#[test]
fn sleeper_is_in_time_within_the_target() {
    let sleeper = Sleeper { target_delta_time: 1_000, last_instant: Some(5_000) };
    assert!(sleeper.in_time(5_000));
    assert!(sleeper.in_time(5_999));
    assert!(!sleeper.in_time(6_000));
    assert!(!sleeper.in_time(9_000));
    assert!(sleeper.in_time(4_000));
}

#[test]
fn sleep_asks_for_the_whole_target_when_in_time() {
    let mut sleeper = Sleeper::new(1_000);
    assert_eq!(sleeper.sleep(7_000, 7_010), Some(1_000));
    assert_eq!(sleeper.last_instant, Some(7_000));
    assert_eq!(sleeper.sleep(8_500, 9_500), None);
    assert_eq!(sleeper.last_instant, Some(8_500));
    let mut idle = Sleeper::new(0);
    assert_eq!(idle.sleep(1, 1), None);
}
