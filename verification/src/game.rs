//! The controller of one game: it latches the last key, lets the snake move
//! once per tick, restarts a lost game on `Space` and says what to draw.
//!
//! The controller does no drawing and reads no clock. The caller hands in the
//! time as a count of nanoseconds that never goes back, and draws the squares
//! that it is given.

use crate::board::GameBoard;
use crate::grid::{
    food_spawned, initial_grid, length_of, state_at, valid_grid, width_of, with_state, Grid,
};
use crate::snake::{body_cell, lies_on, moved, valid_snake, Direction, Snake, SnakeView};
use crate::tile::TileState;
use vstd::prelude::*;

verus! {

/// The number of rows of the board.
pub const BOARD_LENGTH: usize = 25;

/// The number of columns of the board.
pub const BOARD_WIDTH: usize = 25;

/// The distance in pixels between the left edges of two neighbouring cells,
/// and between the top edges.
pub const TILE_PITCH: u32 = 50;

/// How far in pixels the right and bottom edges of a drawn cell lie from its
/// left and top edges. One pixel less than the pitch, so that a line of
/// background shows between cells.
pub const TILE_EXTENT: u32 = 49;

/// The distance in pixels from the window's left and top edges to the first cell.
pub const MARGIN: u32 = 50;

/// The width and the height of the window in pixels: the board with a margin
/// on every side.
pub const WINDOW_SIZE: u32 = 1350;

/// The time in nanoseconds that must have passed since the last tick before
/// the snake moves again: a quarter of a second.
pub const TICK_INTERVAL: u64 = 250_000_000;

/// A pressed key, as far as the game tells keys apart.
#[derive(Copy, Clone, PartialEq, Eq, Debug, Structural)]
pub enum Key {
    W,
    A,
    S,
    D,
    Space,
    Other,
}

/// The colour in which a cell is drawn.
#[derive(Copy, Clone, PartialEq, Eq, Debug, Structural)]
pub enum TileColor {
    Red,
    Black,
    White,
    Blue,
    Green,
}

/// A filled square to draw, in pixels from the window's top left corner.
#[derive(Copy, Clone, PartialEq, Eq, Debug, Structural)]
pub struct Square {
    pub left: u32,
    pub top: u32,
    pub right: u32,
    pub bottom: u32,
    pub color: TileColor,
}

/// What the simulation did during one draw tick.
#[derive(Copy, Clone, PartialEq, Eq, Debug, Structural)]
pub enum Tick {
    /// Nothing: the snake is alive and the tick interval has not passed, or it
    /// is dead and the latched key is not `Space`.
    Idle,
    /// A tick was due but no key has been pressed yet, so the snake stayed.
    NoKeyPressed,
    /// A tick was due but the latched key gives no direction, so the snake stayed.
    KeyIgnored,
    /// A tick was due and the snake made its move.
    Moved,
    /// The snake was dead and `Space` was latched: a new game has begun.
    Restarted,
}

/// What one draw tick hands back: the squares to draw, in drawing order, and
/// what the simulation did after they were taken.
pub struct Drawn {
    pub squares: Vec<Square>,
    pub tick: Tick,
}

/// The direction that a key stands for: `W` up, `S` down, `A` left, `D` right.
pub open spec fn key_direction(key: Key) -> Option<Direction> {
    match key {
        Key::W => Some(Direction::Up),
        Key::S => Some(Direction::Down),
        Key::A => Some(Direction::Left),
        Key::D => Some(Direction::Right),
        Key::Space | Key::Other => None,
    }
}

/// The colour of a cell in state `state`: food red, border black, free cells
/// white, the snake blue while it is alive and green once it is dead.
pub open spec fn color_of(state: TileState, alive: bool) -> TileColor {
    match state {
        TileState::FoodOccupied => TileColor::Red,
        TileState::BorderDeathZone => TileColor::Black,
        TileState::Free => TileColor::White,
        TileState::SnakeOccupied => if alive {
            TileColor::Blue
        } else {
            TileColor::Green
        },
    }
}

/// The square drawn for the cell at `(x, y)`.
pub open spec fn square_of(x: int, y: int, state: TileState, alive: bool) -> Square {
    Square {
        left: (MARGIN + TILE_PITCH * x) as u32,
        top: (MARGIN + TILE_PITCH * y) as u32,
        right: (MARGIN + TILE_PITCH * x + TILE_EXTENT) as u32,
        bottom: (MARGIN + TILE_PITCH * y + TILE_EXTENT) as u32,
        color: color_of(state, alive),
    }
}

/// The squares drawn for a board of `BOARD_LENGTH` rows and `BOARD_WIDTH`
/// columns: one for each cell, row by row from the top, each row from the left.
pub open spec fn drawing(g: Grid, alive: bool) -> Seq<Square> {
    Seq::new(
        (BOARD_LENGTH * BOARD_WIDTH) as nat,
        |i: int|
            square_of(
                i % BOARD_WIDTH as int,
                i / BOARD_WIDTH as int,
                state_at(g, i % BOARD_WIDTH as int, i / BOARD_WIDTH as int),
                alive,
            ),
    )
}

/// Whether a tick is due at time `now` when the last one was at `last_check`:
/// more than `TICK_INTERVAL` has passed.
pub open spec fn tick_due(last_check: u64, now: u64) -> bool {
    now - last_check > TICK_INTERVAL
}

/// The snake of a new game: one cell at the centre of the board.
pub open spec fn new_snake() -> SnakeView {
    SnakeView {
        body: seq![body_cell(BOARD_WIDTH as int / 2, BOARD_LENGTH as int / 2)],
        maxlength: 1,
        alive: true,
    }
}

/// Whether `g` can be the board of a new game: the board before any food is
/// placed, with one of its free cells turned into food.
pub open spec fn new_board(g: Grid) -> bool {
    food_spawned(initial_grid(BOARD_LENGTH as nat, BOARD_WIDTH as nat), g)
}

impl Key {
    /// The direction that the key stands for, if any.
    pub fn direction(self) -> (d: Option<Direction>)
        ensures
            d == key_direction(self),
    {
        match self {
            Key::W => Some(Direction::Up),
            Key::S => Some(Direction::Down),
            Key::A => Some(Direction::Left),
            Key::D => Some(Direction::Right),
            Key::Space => None,
            Key::Other => None,
        }
    }
}

/// The colour in which to draw a cell in state `state`.
pub fn tile_color(state: TileState, alive: bool) -> (c: TileColor)
    ensures
        c == color_of(state, alive),
{
    match state {
        TileState::FoodOccupied => TileColor::Red,
        TileState::BorderDeathZone => TileColor::Black,
        TileState::Free => TileColor::White,
        TileState::SnakeOccupied => {
            if alive {
                TileColor::Blue
            } else {
                TileColor::Green
            }
        },
    }
}

/// The controller's state.
pub struct MyWindowHandler {
    last_key: Option<Key>,
    last_check: u64,
    game_board: GameBoard,
    snake: Snake,
}

/// What a controller holds, as plain values: the latched key, the time of the
/// last tick, the board and the snake.
pub struct HandlerView {
    pub last_key: Option<Key>,
    pub last_check: u64,
    pub board: Grid,
    pub snake: SnakeView,
}

impl View for MyWindowHandler {
    type V = HandlerView;

    closed spec fn view(&self) -> HandlerView {
        HandlerView {
            last_key: self.last_key,
            last_check: self.last_check,
            board: self.game_board@,
            snake: self.snake@,
        }
    }
}

/// What every controller keeps true: its board is a valid grid of
/// `BOARD_LENGTH` rows and `BOARD_WIDTH` columns, and its snake is valid and
/// lies on that board.
pub open spec fn valid_game(h: HandlerView) -> bool {
    &&& valid_grid(h.board)
    &&& length_of(h.board) == BOARD_LENGTH
    &&& width_of(h.board) == BOARD_WIDTH
    &&& valid_snake(h.snake)
    &&& lies_on(h.snake, h.board)
}

/// Whether a draw tick at time `now` can lead from `h0` to `h1` with outcome
/// `tick`.
///
/// While the snake is alive and a tick is due, the time of the last tick
/// becomes `now` and the snake makes one move in the direction of the latched
/// key; without a key, or with a key that gives no direction, it stays. While
/// it is dead, a latched `Space` starts a new game and clears the latch. In
/// every other case nothing changes.
pub open spec fn ticked(h0: HandlerView, now: u64, h1: HandlerView, tick: Tick) -> bool {
    if h0.snake.alive {
        if tick_due(h0.last_check, now) {
            &&& h1.last_check == now
            &&& h1.last_key == h0.last_key
            &&& match h0.last_key {
                None => tick == Tick::NoKeyPressed && h1.snake == h0.snake && h1.board == h0.board,
                Some(key) => match key_direction(key) {
                    None => tick == Tick::KeyIgnored && h1.snake == h0.snake && h1.board
                        == h0.board,
                    Some(d) => tick == Tick::Moved && moved(
                        h0.snake,
                        h0.board,
                        d,
                        h1.snake,
                        h1.board,
                    ),
                },
            }
        } else {
            h1 == h0 && tick == Tick::Idle
        }
    } else {
        if h0.last_key == Some(Key::Space) {
            &&& tick == Tick::Restarted
            &&& h1.last_key is None
            &&& h1.last_check == h0.last_check
            &&& h1.snake == new_snake()
            &&& new_board(h1.board)
        } else {
            h1 == h0 && tick == Tick::Idle
        }
    }
}

impl MyWindowHandler {
    /// The controller is well formed: its parts are, and they make up a
    /// valid game. See [`valid_game`].
    pub closed spec fn wf(&self) -> bool {
        &&& self.game_board.wf()
        &&& self.snake.wf()
        &&& valid_game(self@)
    }

    /// A controller with a new game, no key latched and the last tick at `now`.
    pub fn new(now: u64) -> (handler: MyWindowHandler)
        ensures
            handler.wf(),
            valid_game(handler@),
            handler@.last_key is None,
            handler@.last_check == now,
            handler@.snake == new_snake(),
            new_board(handler@.board),
    {
        let mut game_board = GameBoard::new(BOARD_LENGTH, BOARD_WIDTH);
        let ghost g = game_board@;
        let snake = Snake::new(&mut game_board);
        proof {
            lemma_center_kept(g);
        }
        MyWindowHandler { last_key: None, last_check: now, game_board, snake }
    }

    /// Replaces the board and the snake by those of a new game of the same
    /// size. The latched key and the time of the last tick stay.
    pub fn reset(&mut self)
        requires
            old(self).wf(),
        ensures
            final(self).wf(),
            valid_game(final(self)@),
            final(self)@.last_key == old(self)@.last_key,
            final(self)@.last_check == old(self)@.last_check,
            final(self)@.snake == new_snake(),
            new_board(final(self)@.board),
    {
        let mut game_board = GameBoard::new(BOARD_LENGTH, BOARD_WIDTH);
        let ghost g = game_board@;
        let snake = Snake::new(&mut game_board);
        proof {
            lemma_center_kept(g);
        }
        self.game_board = game_board;
        self.snake = snake;
    }

    /// The title of the game's window.
    pub fn on_start(&self) -> (title: &'static str)
        ensures
            title@ == "Rusty Snake"@,
    {
        "Rusty Snake"
    }

    /// Latches `key`, whatever the state of the game. An event without a key
    /// leaves the latch as it is.
    pub fn on_key_down(&mut self, key: Option<Key>)
        requires
            old(self).wf(),
        ensures
            final(self).wf(),
            valid_game(final(self)@),
            final(self)@ == (HandlerView {
                last_key: if key is Some {
                    key
                } else {
                    old(self)@.last_key
                },
                ..old(self)@
            }),
    {
        match key {
            Some(k) => {
                self.last_key = Some(k);
            },
            None => {},
        }
    }

    /// The squares to draw for the board as it is now: one for each cell, row
    /// by row. Every square lies inside the window, within its margins.
    pub fn render(&self) -> (squares: Vec<Square>)
        requires
            self.wf(),
        ensures
            squares@ == drawing(self@.board, self@.snake.alive),
            squares@.len() == BOARD_LENGTH * BOARD_WIDTH,
            forall|i: int|
                0 <= i < squares@.len() ==> {
                    let s = #[trigger] squares@[i];
                    &&& MARGIN <= s.left < s.right < WINDOW_SIZE - MARGIN
                    &&& MARGIN <= s.top < s.bottom < WINDOW_SIZE - MARGIN
                },
    {
        let alive = self.snake.alive();
        let ghost g = self.game_board@;
        let ghost want = drawing(g, alive);
        let mut squares: Vec<Square> = Vec::new();
        let mut y: usize = 0;
        while y < BOARD_LENGTH
            invariant
                self.wf(),
                g == self.game_board@,
                want == drawing(g, alive),
                y <= BOARD_LENGTH,
                squares@.len() == y * BOARD_WIDTH,
                forall|i: int| 0 <= i < squares@.len() ==> squares@[i] == want[i],
            decreases BOARD_LENGTH - y,
        {
            let mut x: usize = 0;
            while x < BOARD_WIDTH
                invariant
                    self.wf(),
                    g == self.game_board@,
                    want == drawing(g, alive),
                    y < BOARD_LENGTH,
                    x <= BOARD_WIDTH,
                    squares@.len() == y * BOARD_WIDTH + x,
                    forall|i: int| 0 <= i < squares@.len() ==> squares@[i] == want[i],
                decreases BOARD_WIDTH - x,
            {
                let state = self.game_board.state(x, y);
                let left: u32 = MARGIN + TILE_PITCH * (x as u32);
                let top: u32 = MARGIN + TILE_PITCH * (y as u32);
                let ghost i = squares@.len() as int;
                squares.push(
                    Square {
                        left,
                        top,
                        right: left + TILE_EXTENT,
                        bottom: top + TILE_EXTENT,
                        color: tile_color(state, alive),
                    },
                );
                proof {
                    assert(i % BOARD_WIDTH as int == x && i / BOARD_WIDTH as int == y);
                    assert(squares@[i] == want[i]);
                }
                x += 1;
            }
            y += 1;
        }
        proof {
            assert(squares@ =~= want);
        }
        squares
    }

    /// The simulation's part of a draw tick at time `now`, as [`ticked`] says:
    /// at most one move of the snake, or the restart of a lost game.
    pub fn tick(&mut self, now: u64) -> (tick: Tick)
        requires
            old(self).wf(),
        ensures
            final(self).wf(),
            valid_game(final(self)@),
            ticked(old(self)@, now, final(self)@, tick),
    {
        if self.snake.alive() {
            if now > self.last_check && now - self.last_check > TICK_INTERVAL {
                let tick = match self.last_key {
                    Some(key) => {
                        match key.direction() {
                            Some(direction) => {
                                self.snake.move_snake(&mut self.game_board, direction);
                                Tick::Moved
                            },
                            None => Tick::KeyIgnored,
                        }
                    },
                    None => Tick::NoKeyPressed,
                };
                self.last_check = now;
                tick
            } else {
                Tick::Idle
            }
        } else {
            match self.last_key {
                Some(Key::Space) => {
                    self.reset();
                    self.last_key = None;
                    Tick::Restarted
                },
                _ => Tick::Idle,
            }
        }
    }

    /// One draw tick at time `now`: the squares to draw for the game as it
    /// was when the tick began, and then the simulation's part.
    pub fn on_draw(&mut self, now: u64) -> (drawn: Drawn)
        requires
            old(self).wf(),
        ensures
            final(self).wf(),
            valid_game(final(self)@),
            drawn.squares@ == drawing(old(self)@.board, old(self)@.snake.alive),
            ticked(old(self)@, now, final(self)@, drawn.tick),
    {
        let squares = self.render();
        let tick = self.tick(now);
        Drawn { squares, tick }
    }

    /// The board.
    pub fn board(&self) -> (b: &GameBoard)
        requires
            self.wf(),
        ensures
            b.wf(),
            b@ == self@.board,
    {
        &self.game_board
    }

    /// The snake.
    pub fn snake(&self) -> (s: &Snake)
        requires
            self.wf(),
        ensures
            s.wf(),
            s@ == self@.snake,
    {
        &self.snake
    }

    /// The latched key.
    pub fn last_key(&self) -> (key: Option<Key>)
        ensures
            key == self@.last_key,
    {
        self.last_key
    }

    /// The time of the last tick.
    pub fn last_check(&self) -> (t: u64)
        ensures
            t == self@.last_check,
    {
        self.last_check
    }
}

/// On the board of a new game the centre cell holds the snake already, so
/// marking it once more changes nothing.
proof fn lemma_center_kept(g: Grid)
    requires
        valid_grid(g),
        length_of(g) == BOARD_LENGTH,
        width_of(g) == BOARD_WIDTH,
        state_at(g, BOARD_WIDTH as int / 2, BOARD_LENGTH as int / 2) == TileState::SnakeOccupied,
    ensures
        with_state(g, BOARD_WIDTH as int / 2, BOARD_LENGTH as int / 2, TileState::SnakeOccupied)
            == g,
{
    let x = BOARD_WIDTH as int / 2;
    let y = BOARD_LENGTH as int / 2;
    let h = with_state(g, x, y, TileState::SnakeOccupied);
    assert(g[y].update(x, TileState::SnakeOccupied) =~= g[y]);
    assert(h =~= g);
}

} // verus!
