use rusty_snake::game::{
    tile_color, Key, MyWindowHandler, Square, Tick, TileColor, BOARD_LENGTH, BOARD_WIDTH, MARGIN,
    TICK_INTERVAL, TILE_EXTENT, TILE_PITCH, WINDOW_SIZE,
};
use rusty_snake::snake::Direction;
use rusty_snake::tile::{Tile, TileState};

const STEP: u64 = 300_000_000;

fn head_of(handler: &MyWindowHandler) -> (usize, usize) {
    let head = handler.snake().head();
    (head.x_coordinate, head.y_coordinate)
}

fn states(handler: &MyWindowHandler) -> Vec<TileState> {
    let board = handler.board();
    let mut all = Vec::new();
    for y in 0..board.length() {
        for x in 0..board.width() {
            all.push(board.state(x, y));
        }
    }
    all
}

/// Steers the snake of a new game upwards until it dies on the border.
fn dead_game() -> (MyWindowHandler, u64) {
    let mut handler = MyWindowHandler::new(0);
    handler.on_key_down(Some(Key::W));
    let mut now = 0;
    for _ in 0..12 {
        now += STEP;
        assert_eq!(handler.on_draw(now).tick, Tick::Moved);
    }
    assert!(!handler.snake().alive());
    (handler, now)
}

#[test]
fn constants_fit_together() {
    assert_eq!(BOARD_LENGTH, 25);
    assert_eq!(BOARD_WIDTH, 25);
    assert_eq!(TILE_PITCH, 50);
    assert_eq!(TILE_EXTENT, 49);
    assert_eq!(MARGIN, 50);
    assert_eq!(WINDOW_SIZE, 1350);
    assert_eq!(WINDOW_SIZE, BOARD_WIDTH as u32 * TILE_PITCH + 2 * MARGIN);
    assert_eq!(WINDOW_SIZE, BOARD_LENGTH as u32 * TILE_PITCH + 2 * MARGIN);
    assert_eq!(TICK_INTERVAL, 250_000_000);
}

#[test]
fn keys_give_directions() {
    assert_eq!(Key::W.direction(), Some(Direction::Up));
    assert_eq!(Key::S.direction(), Some(Direction::Down));
    assert_eq!(Key::A.direction(), Some(Direction::Left));
    assert_eq!(Key::D.direction(), Some(Direction::Right));
    assert_eq!(Key::Space.direction(), None);
    assert_eq!(Key::Other.direction(), None);
}

#[test]
fn colours_follow_the_state() {
    for alive in [true, false] {
        assert_eq!(tile_color(TileState::FoodOccupied, alive), TileColor::Red);
        assert_eq!(tile_color(TileState::BorderDeathZone, alive), TileColor::Black);
        assert_eq!(tile_color(TileState::Free, alive), TileColor::White);
    }
    assert_eq!(tile_color(TileState::SnakeOccupied, true), TileColor::Blue);
    assert_eq!(tile_color(TileState::SnakeOccupied, false), TileColor::Green);
}

#[test]
fn title_is_rusty_snake() {
    assert_eq!(MyWindowHandler::new(0).on_start(), "Rusty Snake");
}

#[test]
fn new_game_starts_at_the_centre() {
    let handler = MyWindowHandler::new(42);
    assert_eq!(handler.last_key(), None);
    assert_eq!(handler.last_check(), 42);
    assert_eq!(handler.board().length(), 25);
    assert_eq!(handler.board().width(), 25);
    assert!(handler.snake().alive());
    assert_eq!(handler.snake().maxlength(), 1);
    assert_eq!(
        handler.snake().body(),
        vec![Tile { state: TileState::SnakeOccupied, x_coordinate: 12, y_coordinate: 12 }]
    );
    assert_eq!(handler.board().state(12, 12), TileState::SnakeOccupied);
    assert!(handler.board().food().is_some());
}

#[test]
fn key_down_latches_the_last_key() {
    let mut handler = MyWindowHandler::new(0);
    handler.on_key_down(Some(Key::W));
    assert_eq!(handler.last_key(), Some(Key::W));
    handler.on_key_down(Some(Key::Other));
    assert_eq!(handler.last_key(), Some(Key::Other));
    handler.on_key_down(None);
    assert_eq!(handler.last_key(), Some(Key::Other));
    handler.on_key_down(Some(Key::Space));
    assert_eq!(handler.last_key(), Some(Key::Space));
    assert_eq!(handler.last_check(), 0);
    assert_eq!(head_of(&handler), (12, 12));
}

#[test]
fn key_down_latches_while_the_snake_is_dead() {
    let (mut handler, _) = dead_game();
    handler.on_key_down(Some(Key::D));
    assert_eq!(handler.last_key(), Some(Key::D));
    assert!(!handler.snake().alive());
}

#[test]
fn render_gives_one_square_for_each_cell() {
    let handler = MyWindowHandler::new(0);
    let squares = handler.render();
    assert_eq!(squares.len(), 625);
    assert_eq!(
        squares[0],
        Square { left: 50, top: 50, right: 99, bottom: 99, color: TileColor::Black }
    );
    assert_eq!(
        squares[1],
        Square { left: 100, top: 50, right: 149, bottom: 99, color: TileColor::Black }
    );
    assert_eq!(
        squares[25],
        Square { left: 50, top: 100, right: 99, bottom: 149, color: TileColor::Black }
    );
    assert_eq!(
        squares[12 * 25 + 12],
        Square { left: 650, top: 650, right: 699, bottom: 699, color: TileColor::Blue }
    );
    assert_eq!(
        squares[624],
        Square { left: 1250, top: 1250, right: 1299, bottom: 1299, color: TileColor::Black }
    );
    let food = handler.board().food().unwrap();
    let at = food.y_coordinate * 25 + food.x_coordinate;
    assert_eq!(squares[at].color, TileColor::Red);
    assert_eq!(squares[at].left, 50 + 50 * food.x_coordinate as u32);
    assert_eq!(squares[at].top, 50 + 50 * food.y_coordinate as u32);
    assert_eq!(squares.iter().filter(|s| s.color == TileColor::Red).count(), 1);
    assert_eq!(squares.iter().filter(|s| s.color == TileColor::Blue).count(), 1);
    assert_eq!(squares.iter().filter(|s| s.color == TileColor::Black).count(), 96);
    assert_eq!(squares.iter().filter(|s| s.color == TileColor::White).count(), 527);
    assert_eq!(squares.iter().filter(|s| s.color == TileColor::Green).count(), 0);
    for s in &squares {
        assert!(MARGIN <= s.left && s.right < WINDOW_SIZE - MARGIN);
        assert!(MARGIN <= s.top && s.bottom < WINDOW_SIZE - MARGIN);
        assert_eq!(s.right - s.left, 49);
        assert_eq!(s.bottom - s.top, 49);
    }
}

#[test]
fn dead_snake_is_drawn_green() {
    let (handler, _) = dead_game();
    let squares = handler.render();
    let body = handler.snake().body();
    assert_eq!(squares.iter().filter(|s| s.color == TileColor::Green).count(), body.len());
    assert_eq!(squares.iter().filter(|s| s.color == TileColor::Blue).count(), 0);
    for tile in body {
        assert_eq!(squares[tile.y_coordinate * 25 + tile.x_coordinate].color, TileColor::Green);
    }
}

#[test]
fn draw_hands_out_the_frame_from_before_the_move() {
    let mut handler = MyWindowHandler::new(0);
    handler.on_key_down(Some(Key::A));
    let before = handler.render();
    let drawn = handler.on_draw(STEP);
    assert_eq!(drawn.tick, Tick::Moved);
    assert_eq!(drawn.squares, before);
    assert_eq!(head_of(&handler), (11, 12));
    assert!(handler.render() != before);
}

#[test]
fn no_move_before_the_interval_has_passed() {
    let mut handler = MyWindowHandler::new(1_000);
    handler.on_key_down(Some(Key::D));
    for now in [0, 999, 1_000, 1_001, 200_000_000, 1_000 + TICK_INTERVAL] {
        assert_eq!(handler.on_draw(now).tick, Tick::Idle);
        assert_eq!(head_of(&handler), (12, 12));
        assert_eq!(handler.last_check(), 1_000);
        assert_eq!(handler.last_key(), Some(Key::D));
    }
    assert_eq!(handler.on_draw(1_001 + TICK_INTERVAL).tick, Tick::Moved);
    assert_eq!(head_of(&handler), (13, 12));
    assert_eq!(handler.last_check(), 1_001 + TICK_INTERVAL);
    assert_eq!(handler.last_key(), Some(Key::D));
}

#[test]
fn one_move_for_each_tick_however_late() {
    let mut handler = MyWindowHandler::new(0);
    handler.on_key_down(Some(Key::D));
    assert_eq!(handler.tick(10 * STEP), Tick::Moved);
    assert_eq!(head_of(&handler), (13, 12));
    assert_eq!(handler.tick(10 * STEP + 1), Tick::Idle);
    assert_eq!(head_of(&handler), (13, 12));
    assert_eq!(handler.tick(u64::MAX), Tick::Moved);
    assert_eq!(handler.last_check(), u64::MAX);
}

#[test]
fn tick_without_a_key_moves_nothing() {
    let mut handler = MyWindowHandler::new(0);
    let before = states(&handler);
    assert_eq!(handler.on_draw(STEP).tick, Tick::NoKeyPressed);
    assert_eq!(handler.last_check(), STEP);
    assert_eq!(handler.last_key(), None);
    assert_eq!(head_of(&handler), (12, 12));
    assert!(handler.snake().alive());
    assert_eq!(states(&handler), before);
}

#[test]
fn keys_without_a_direction_are_ignored_while_alive() {
    for key in [Key::Space, Key::Other] {
        let mut handler = MyWindowHandler::new(0);
        handler.on_key_down(Some(key));
        let before = states(&handler);
        assert_eq!(handler.on_draw(STEP).tick, Tick::KeyIgnored);
        assert_eq!(handler.last_check(), STEP);
        assert_eq!(handler.last_key(), Some(key));
        assert!(handler.snake().alive());
        assert_eq!(head_of(&handler), (12, 12));
        assert_eq!(states(&handler), before);
    }
}

#[test]
fn latched_key_steers_every_tick() {
    let mut handler = MyWindowHandler::new(0);
    handler.on_key_down(Some(Key::S));
    assert_eq!(handler.on_draw(STEP).tick, Tick::Moved);
    assert_eq!(handler.on_draw(2 * STEP).tick, Tick::Moved);
    assert_eq!(head_of(&handler), (12, 14));
    handler.on_key_down(Some(Key::D));
    assert_eq!(handler.on_draw(3 * STEP).tick, Tick::Moved);
    assert_eq!(head_of(&handler), (13, 14));
}

#[test]
fn dead_game_waits_for_space() {
    let (mut handler, now) = dead_game();
    let body = handler.snake().body();
    let before = states(&handler);
    for key in [Key::W, Key::A, Key::S, Key::D, Key::Other] {
        handler.on_key_down(Some(key));
        assert_eq!(handler.on_draw(now + 10 * STEP).tick, Tick::Idle);
        assert!(!handler.snake().alive());
        assert_eq!(handler.snake().body(), body);
        assert_eq!(states(&handler), before);
        assert_eq!(handler.last_key(), Some(key));
        assert_eq!(handler.last_check(), now);
    }
}

#[test]
fn space_restarts_a_dead_game() {
    let (mut handler, now) = dead_game();
    handler.on_key_down(Some(Key::Space));
    assert_eq!(handler.on_draw(now + 1).tick, Tick::Restarted);
    assert!(handler.snake().alive());
    assert_eq!(handler.snake().maxlength(), 1);
    assert_eq!(
        handler.snake().body(),
        vec![Tile { state: TileState::SnakeOccupied, x_coordinate: 12, y_coordinate: 12 }]
    );
    assert_eq!(handler.board().length(), 25);
    assert_eq!(handler.board().width(), 25);
    assert_eq!(handler.last_key(), None);
    assert_eq!(handler.last_check(), now);
    let all = states(&handler);
    assert_eq!(all.iter().filter(|&&s| s == TileState::SnakeOccupied).count(), 1);
    assert_eq!(all.iter().filter(|&&s| s == TileState::FoodOccupied).count(), 1);
    assert_eq!(all.iter().filter(|&&s| s == TileState::BorderDeathZone).count(), 96);
    assert_eq!(all.iter().filter(|&&s| s == TileState::Free).count(), 527);
    // Space is not replayed: the next tick finds no key.
    assert_eq!(handler.on_draw(now + STEP).tick, Tick::NoKeyPressed);
    assert!(handler.snake().alive());
    assert_eq!(head_of(&handler), (12, 12));
}

#[test]
fn reset_keeps_latch_and_time() {
    let mut handler = MyWindowHandler::new(7);
    handler.on_key_down(Some(Key::D));
    handler.on_draw(7 + STEP);
    assert_eq!(head_of(&handler), (13, 12));
    handler.reset();
    assert_eq!(head_of(&handler), (12, 12));
    assert_eq!(handler.snake().maxlength(), 1);
    assert!(handler.snake().alive());
    assert_eq!(handler.last_key(), Some(Key::D));
    assert_eq!(handler.last_check(), 7 + STEP);
    assert_eq!(handler.board().state(13, 12) == TileState::SnakeOccupied, false);
}
