//! The snake: the cells it covers, from tail to head, and the rules by which
//! it moves, grows and dies.

use crate::board::GameBoard;
use crate::grid::{
    at_most_one_food, exactly_one_food, food_spawned, holds, in_grid, lemma_settable_keeps_valid,
    lemma_with_state, length_of, settable, state_at, valid_grid, width_of, with_state, Grid,
};
use crate::tile::{Tile, TileState};
use std::collections::VecDeque;
use vstd::prelude::*;

verus! {

/// The four ways a snake can move. `Up` leads to the row above, that is to the
/// smaller `y_coordinate`; `Left` to the smaller `x_coordinate`.
#[derive(Copy, Clone, PartialEq, Eq, Debug, Structural)]
pub enum Direction {
    Up,
    Down,
    Left,
    Right,
}

/// A snake on a board.
pub struct Snake {
    body: VecDeque<Tile>,
    maxlength: usize,
    alive: bool,
}

/// What a snake is, as plain values: the cells of its body from tail to head,
/// the length it may have, and whether it is alive.
pub struct SnakeView {
    pub body: Seq<Tile>,
    pub maxlength: nat,
    pub alive: bool,
}

impl View for Snake {
    type V = SnakeView;

    closed spec fn view(&self) -> SnakeView {
        SnakeView { body: self.body@, maxlength: self.maxlength as nat, alive: self.alive }
    }
}

/// The body cell at `(x, y)`.
pub open spec fn body_cell(x: int, y: int) -> Tile {
    Tile { state: TileState::SnakeOccupied, x_coordinate: x as usize, y_coordinate: y as usize }
}

/// What every snake keeps true: its body is never empty and has exactly
/// `maxlength` cells, each recorded as `SnakeOccupied`, and no cell occurs
/// twice.
///
/// A snake starts with one cell and a `maxlength` of one; a move onto food adds
/// one to both, and every other move keeps both.
pub open spec fn valid_snake(s: SnakeView) -> bool {
    &&& 0 < s.body.len()
    &&& s.body.len() == s.maxlength
    &&& forall|i: int|
        0 <= i < s.body.len() ==> (#[trigger] s.body[i]).state == TileState::SnakeOccupied
    &&& forall|i: int, j: int|
        0 <= i < j < s.body.len() ==> #[trigger] s.body[i] != #[trigger] s.body[j]
}

/// Every cell of the snake's body is a cell of the grid, and the grid has it
/// as `SnakeOccupied`.
pub open spec fn lies_on(s: SnakeView, g: Grid) -> bool {
    forall|i: int|
        0 <= i < s.body.len() ==> {
            let t = #[trigger] s.body[i];
            in_grid(g, t.x_coordinate as int, t.y_coordinate as int) && state_at(
                g,
                t.x_coordinate as int,
                t.y_coordinate as int,
            ) == TileState::SnakeOccupied
        }
}

/// The coordinates one step from the snake's head in direction `d`.
pub open spec fn target(s: SnakeView, d: Direction) -> (int, int) {
    let h = s.body.last();
    match d {
        Direction::Up => (h.x_coordinate as int, h.y_coordinate - 1),
        Direction::Down => (h.x_coordinate as int, h.y_coordinate + 1),
        Direction::Left => (h.x_coordinate - 1, h.y_coordinate as int),
        Direction::Right => (h.x_coordinate + 1, h.y_coordinate as int),
    }
}

/// The cell at `(x, y)` was `SnakeOccupied` in `g0` and is `Free` in `g1`.
pub open spec fn turned_free(g0: Grid, g1: Grid, x: int, y: int) -> bool {
    &&& in_grid(g0, x, y)
    &&& state_at(g0, x, y) == TileState::SnakeOccupied
    &&& state_at(g1, x, y) == TileState::Free
}

/// Exactly one cell went from `SnakeOccupied` in `g0` to `Free` in `g1`.
pub open spec fn one_cell_turned_free(g0: Grid, g1: Grid) -> bool {
    exists|x: int, y: int|
        #[trigger] turned_free(g0, g1, x, y) && forall|x2: int, y2: int|
            #[trigger] turned_free(g0, g1, x2, y2) ==> x2 == x && y2 == y
}

/// The state of the cell one step from the snake's head in direction `d`.
pub open spec fn target_state(s: SnakeView, g: Grid, d: Direction) -> TileState {
    state_at(g, target(s, d).0, target(s, d).1)
}

/// A cell that was `Free` in `g0` is the one cell of `g1` that holds food.
pub open spec fn one_food_spawned(g0: Grid, g1: Grid) -> bool {
    &&& exactly_one_food(g1)
    &&& forall|x: int, y: int|
        in_grid(g1, x, y) && #[trigger] state_at(g1, x, y) == TileState::FoodOccupied ==> state_at(
            g0,
            x,
            y,
        ) == TileState::Free
}

/// Whether one move in direction `d` can lead from snake `s0` on grid `g0` to
/// snake `s1` on grid `g1`.
///
/// A dead snake does not move. A live one looks at the cell one step from its
/// head. On border or on a cell of a snake it dies where it is. Onto a free
/// cell it advances: the cell joins the body as the new head, and if the body
/// is then longer than `maxlength` the tail cell leaves it and becomes free.
/// Onto food it grows: the cell joins the body, `maxlength` goes up by one and
/// the board spawns new food, which is the one thing here that is left open.
pub open spec fn moved(s0: SnakeView, g0: Grid, d: Direction, s1: SnakeView, g1: Grid) -> bool {
    let (x, y) = target(s0, d);
    let entered = with_state(g0, x, y, TileState::SnakeOccupied);
    let longer = s0.body.push(body_cell(x, y));
    if !s0.alive {
        s1 == s0 && g1 == g0
    } else {
        match state_at(g0, x, y) {
            TileState::BorderDeathZone | TileState::SnakeOccupied => {
                &&& s1 == SnakeView { alive: false, ..s0 }
                &&& g1 == g0
            },
            TileState::Free => {
                if longer.len() > s0.maxlength {
                    let tail = s0.body[0];
                    &&& s1 == SnakeView { body: longer.drop_first(), ..s0 }
                    &&& g1 == with_state(
                        entered,
                        tail.x_coordinate as int,
                        tail.y_coordinate as int,
                        TileState::Free,
                    )
                } else {
                    &&& s1 == SnakeView { body: longer, ..s0 }
                    &&& g1 == entered
                }
            },
            TileState::FoodOccupied => {
                &&& s1 == SnakeView { body: longer, maxlength: s0.maxlength + 1, alive: true }
                &&& food_spawned(entered, g1)
            },
        }
    }
}

impl Snake {
    /// The snake is well formed: see [`valid_snake`].
    pub open spec fn wf(&self) -> bool {
        valid_snake(self@)
    }

    /// A snake of one cell at the centre of `board`, alive, with a
    /// `maxlength` of one. The centre cell of the board becomes
    /// `SnakeOccupied`, which it is already on a new board.
    pub fn new(board: &mut GameBoard) -> (snake: Snake)
        requires
            old(board).wf(),
        ensures
            final(board).wf(),
            final(board)@ == with_state(
                old(board)@,
                width_of(old(board)@) as int / 2,
                length_of(old(board)@) as int / 2,
                TileState::SnakeOccupied,
            ),
            snake.wf(),
            snake@ == (SnakeView {
                body: seq![
                    body_cell(width_of(old(board)@) as int / 2, length_of(old(board)@) as int / 2),
                ],
                maxlength: 1,
                alive: true,
            }),
            lies_on(snake@, final(board)@),
    {
        let x: usize = board.width() / 2;
        let y: usize = board.length() / 2;
        proof {
            lemma_with_state(board@, x as int, y as int, TileState::SnakeOccupied);
        }
        board.set_state(x, y, TileState::SnakeOccupied);
        let head = Tile { state: TileState::SnakeOccupied, x_coordinate: x, y_coordinate: y };
        let mut body: VecDeque<Tile> = VecDeque::new();
        body.push_back(head);
        let snake = Snake { body, maxlength: 1, alive: true };
        proof {
            assert(snake@.body =~= seq![head]);
        }
        snake
    }

    /// The cell of the head, which is the last cell of the body.
    pub fn head(&self) -> (t: Tile)
        requires
            self.wf(),
        ensures
            t == self@.body.last(),
    {
        self.body[self.body.len() - 1]
    }

    /// The cell of the tail, which is the first cell of the body.
    pub fn tail(&self) -> (t: Tile)
        requires
            self.wf(),
        ensures
            t == self@.body.first(),
    {
        self.body[0]
    }

    /// The cells of the body, from tail to head.
    pub fn body(&self) -> (cells: Vec<Tile>)
        ensures
            cells@ == self@.body,
    {
        let mut cells: Vec<Tile> = Vec::new();
        let mut i: usize = 0;
        while i < self.body.len()
            invariant
                i <= self.body@.len(),
                cells@ == self.body@.subrange(0, i as int),
            decreases self.body@.len() - i,
        {
            cells.push(self.body[i]);
            proof {
                assert(cells@ =~= self.body@.subrange(0, i + 1));
            }
            i += 1;
        }
        proof {
            assert(cells@ =~= self.body@);
        }
        cells
    }

    /// The length that the body may have.
    pub fn maxlength(&self) -> (n: usize)
        ensures
            n == self@.maxlength,
    {
        self.maxlength
    }

    /// Whether the snake is alive.
    pub fn alive(&self) -> (a: bool)
        ensures
            a == self@.alive,
    {
        self.alive
    }

    /// Moves the snake one cell in `direction` on `board`.
    ///
    /// What happens is decided by the cell one step from the head, as
    /// [`moved`] says. The head of a snake that lies on the board is never a
    /// border cell, so the cell one step from it always exists: no move leads
    /// off the board.
    pub fn move_snake(&mut self, board: &mut GameBoard, direction: Direction)
        requires
            old(self).wf(),
            old(board).wf(),
            lies_on(old(self)@, old(board)@),
        ensures
            final(self).wf(),
            final(board).wf(),
            lies_on(final(self)@, final(board)@),
            length_of(final(board)@) == length_of(old(board)@),
            width_of(final(board)@) == width_of(old(board)@),
            in_grid(old(board)@, target(old(self)@, direction).0, target(old(self)@, direction).1),
            moved(old(self)@, old(board)@, direction, final(self)@, final(board)@),
            // A dead snake stays as it is.
            !old(self)@.alive ==> final(self)@ == old(self)@ && final(board)@ == old(board)@,
            // Onto a free cell: the body gains the cell and keeps within
            // `maxlength`, and one cell is given up exactly when the body did
            // not get longer.
            old(self)@.alive && target_state(old(self)@, old(board)@, direction) == TileState::Free
                ==> {
                &&& final(self)@.body.len() == vstd::math::min(
                    old(self)@.body.len() as int + 1,
                    old(self)@.maxlength as int,
                )
                &&& final(self)@.body.last() == body_cell(
                    target(old(self)@, direction).0,
                    target(old(self)@, direction).1,
                )
                &&& final(self)@.maxlength == old(self)@.maxlength
                &&& final(self)@.alive
                &&& one_cell_turned_free(old(board)@, final(board)@) <==> final(self)@.body.len()
                    == old(self)@.body.len()
            },
            // Onto food: `maxlength` goes up by one, the cell joins the snake
            // and, where a free cell is left, one of them is the new food.
            old(self)@.alive && target_state(old(self)@, old(board)@, direction)
                == TileState::FoodOccupied ==> {
                &&& final(self)@.maxlength == old(self)@.maxlength + 1
                &&& final(self)@.body.len() == old(self)@.body.len() + 1
                &&& final(self)@.alive
                &&& state_at(
                    final(board)@,
                    target(old(self)@, direction).0,
                    target(old(self)@, direction).1,
                ) == TileState::SnakeOccupied
                &&& one_food_spawned(old(board)@, final(board)@) || !holds(
                    final(board)@,
                    TileState::FoodOccupied,
                )
                &&& one_food_spawned(old(board)@, final(board)@) <==> holds(
                    old(board)@,
                    TileState::Free,
                )
            },
            // Onto border or snake: the snake dies and nothing else changes.
            old(self)@.alive && (target_state(old(self)@, old(board)@, direction)
                == TileState::BorderDeathZone || target_state(old(self)@, old(board)@, direction)
                == TileState::SnakeOccupied) ==> {
                &&& final(self)@ == SnakeView { alive: false, ..old(self)@ }
                &&& final(board)@ == old(board)@
            },
    {
        if !self.alive {
            return;
        }
        let ghost s0 = self@;
        let ghost g0 = board@;
        let head = self.head();
        proof {
            board.lemma_size_fits();
            assert(s0.body[s0.body.len() - 1] == head);
            assert(state_at(g0, head.x_coordinate as int, head.y_coordinate as int)
                == TileState::SnakeOccupied);
        }
        let (x, y): (usize, usize) = match direction {
            Direction::Up => (head.x_coordinate, head.y_coordinate - 1),
            Direction::Down => (head.x_coordinate, head.y_coordinate + 1),
            Direction::Left => (head.x_coordinate - 1, head.y_coordinate),
            Direction::Right => (head.x_coordinate + 1, head.y_coordinate),
        };
        assert(target(s0, direction) == (x as int, y as int));
        let entered = Tile { state: TileState::SnakeOccupied, x_coordinate: x, y_coordinate: y };
        match board.state(x, y) {
            TileState::FoodOccupied => {
                proof {
                    lemma_enter(s0, g0, x as int, y as int);
                }
                board.set_state(x, y, TileState::SnakeOccupied);
                self.body.push_back(entered);
                assert(self.body.len() == s0.maxlength + 1);
                self.maxlength += 1;
                let ghost g1 = board@;
                board.spawn_food();
                proof {
                    lemma_spawn_keeps_snake(self@, g1, board@);
                    lemma_eaten(g0, x as int, y as int, board@);
                }
            },
            TileState::BorderDeathZone => {
                self.alive = false;
            },
            TileState::SnakeOccupied => {
                self.alive = false;
            },
            TileState::Free => {
                proof {
                    lemma_enter(s0, g0, x as int, y as int);
                }
                board.set_state(x, y, TileState::SnakeOccupied);
                self.body.push_back(entered);
                proof {
                    lemma_advanced(s0, g0, x as int, y as int);
                }
            },
        }
        if self.body.len() > self.maxlength {
            let ghost s1 = self@;
            let ghost g1 = board@;
            match self.body.pop_front() {
                Some(removed_tile) => {
                    proof {
                        lemma_leave(s1, g1);
                        assert(self@.body =~= s1.body.drop_first());
                    }
                    board.set_state(
                        removed_tile.x_coordinate,
                        removed_tile.y_coordinate,
                        TileState::Free,
                    );
                },
                None => {},
            }
        }
    }
}

/// Entering a cell that is free or food: the board admits the change, the
/// body with the new head is still made of distinct cells, and it lies on the
/// changed grid.
proof fn lemma_enter(s: SnakeView, g: Grid, x: int, y: int)
    requires
        valid_snake(s),
        valid_grid(g),
        lies_on(s, g),
        in_grid(g, x, y),
        state_at(g, x, y) == TileState::Free || state_at(g, x, y) == TileState::FoodOccupied,
        x <= usize::MAX,
        y <= usize::MAX,
    ensures
        settable(g, x, y, TileState::SnakeOccupied),
        valid_grid(with_state(g, x, y, TileState::SnakeOccupied)),
        lies_on(
            SnakeView { body: s.body.push(body_cell(x, y)), ..s },
            with_state(g, x, y, TileState::SnakeOccupied),
        ),
        forall|i: int| 0 <= i < s.body.len() ==> #[trigger] s.body[i] != body_cell(x, y),
{
    let h = with_state(g, x, y, TileState::SnakeOccupied);
    lemma_with_state(g, x, y, TileState::SnakeOccupied);
    lemma_settable_keeps_valid(g, x, y, TileState::SnakeOccupied);
    let longer = s.body.push(body_cell(x, y));
    assert forall|i: int| 0 <= i < longer.len() implies {
        let t = #[trigger] longer[i];
        in_grid(h, t.x_coordinate as int, t.y_coordinate as int) && state_at(
            h,
            t.x_coordinate as int,
            t.y_coordinate as int,
        ) == TileState::SnakeOccupied
    } by {
        if i < s.body.len() {
            let t = s.body[i];
            assert(longer[i] == t);
            assert(state_at(g, t.x_coordinate as int, t.y_coordinate as int)
                == TileState::SnakeOccupied);
        }
    }
    assert forall|i: int| 0 <= i < s.body.len() implies #[trigger] s.body[i] != body_cell(
        x,
        y,
    ) by {
        let t = s.body[i];
        assert(state_at(g, t.x_coordinate as int, t.y_coordinate as int)
            == TileState::SnakeOccupied);
    }
}

/// Dropping the tail of a body of two or more cells: the board admits freeing
/// the tail cell, and the rest of the body lies on the changed grid.
proof fn lemma_leave(s: SnakeView, g: Grid)
    requires
        1 < s.body.len(),
        forall|i: int|
            0 <= i < s.body.len() ==> (#[trigger] s.body[i]).state == TileState::SnakeOccupied,
        forall|i: int, j: int|
            0 <= i < j < s.body.len() ==> #[trigger] s.body[i] != #[trigger] s.body[j],
        valid_grid(g),
        lies_on(s, g),
    ensures
        settable(
            g,
            s.body[0].x_coordinate as int,
            s.body[0].y_coordinate as int,
            TileState::Free,
        ),
        lies_on(
            SnakeView { body: s.body.drop_first(), ..s },
            with_state(
                g,
                s.body[0].x_coordinate as int,
                s.body[0].y_coordinate as int,
                TileState::Free,
            ),
        ),
        forall|i: int, j: int|
            0 <= i < j < s.body.drop_first().len() ==> #[trigger] s.body.drop_first()[i]
                != #[trigger] s.body.drop_first()[j],
{
    let tail = s.body[0];
    let tx = tail.x_coordinate as int;
    let ty = tail.y_coordinate as int;
    assert(state_at(g, tx, ty) == TileState::SnakeOccupied);
    lemma_with_state(g, tx, ty, TileState::Free);
    let h = with_state(g, tx, ty, TileState::Free);
    let rest = s.body.drop_first();
    assert forall|i: int| 0 <= i < rest.len() implies {
        let t = #[trigger] rest[i];
        in_grid(h, t.x_coordinate as int, t.y_coordinate as int) && state_at(
            h,
            t.x_coordinate as int,
            t.y_coordinate as int,
        ) == TileState::SnakeOccupied
    } by {
        let t = s.body[i + 1];
        assert(rest[i] == t);
        assert(t != s.body[0]);
        assert(t.state == TileState::SnakeOccupied);
        assert(state_at(g, t.x_coordinate as int, t.y_coordinate as int)
            == TileState::SnakeOccupied);
    }
    assert forall|i: int, j: int| 0 <= i < j < rest.len() implies #[trigger] rest[i]
        != #[trigger] rest[j] by {
        assert(rest[i] == s.body[i + 1]);
        assert(rest[j] == s.body[j + 1]);
    }
}

/// Spawning food changes no cell of the snake.
proof fn lemma_spawn_keeps_snake(s: SnakeView, g0: Grid, g1: Grid)
    requires
        valid_grid(g0),
        lies_on(s, g0),
        food_spawned(g0, g1),
    ensures
        lies_on(s, g1),
        length_of(g1) == length_of(g0),
        width_of(g1) == width_of(g0),
{
    if g1 != g0 {
        let (x, y) = choose|x: int, y: int|
            in_grid(g0, x, y) && state_at(g0, x, y) == TileState::Free && g1
                == #[trigger] with_state(g0, x, y, TileState::FoodOccupied);
        lemma_with_state(g0, x, y, TileState::FoodOccupied);
        assert forall|i: int| 0 <= i < s.body.len() implies {
            let t = #[trigger] s.body[i];
            in_grid(g1, t.x_coordinate as int, t.y_coordinate as int) && state_at(
                g1,
                t.x_coordinate as int,
                t.y_coordinate as int,
            ) == TileState::SnakeOccupied
        } by {
            let t = s.body[i];
            assert(state_at(g0, t.x_coordinate as int, t.y_coordinate as int)
                == TileState::SnakeOccupied);
        }
    }
}

/// Advancing onto a free cell and giving up the tail: the tail cell is the one
/// cell that goes from `SnakeOccupied` to `Free`. Without giving up the tail
/// no cell does.
proof fn lemma_advanced(s: SnakeView, g: Grid, x: int, y: int)
    requires
        valid_snake(s),
        valid_grid(g),
        lies_on(s, g),
        in_grid(g, x, y),
        state_at(g, x, y) == TileState::Free,
    ensures
        one_cell_turned_free(
            g,
            with_state(
                with_state(g, x, y, TileState::SnakeOccupied),
                s.body[0].x_coordinate as int,
                s.body[0].y_coordinate as int,
                TileState::Free,
            ),
        ),
        !one_cell_turned_free(g, with_state(g, x, y, TileState::SnakeOccupied)),
{
    let tail = s.body[0];
    let tx = tail.x_coordinate as int;
    let ty = tail.y_coordinate as int;
    let entered = with_state(g, x, y, TileState::SnakeOccupied);
    let left = with_state(entered, tx, ty, TileState::Free);
    assert(state_at(g, tx, ty) == TileState::SnakeOccupied);
    lemma_with_state(g, x, y, TileState::SnakeOccupied);
    lemma_with_state(entered, tx, ty, TileState::Free);
    assert(turned_free(g, left, tx, ty));
    assert forall|x2: int, y2: int| #[trigger] turned_free(g, left, x2, y2) implies x2 == tx && y2
        == ty by {
        assert(in_grid(entered, x2, y2));
        assert(state_at(left, x2, y2) == TileState::Free);
        if !(x2 == tx && y2 == ty) {
            assert(state_at(left, x2, y2) == state_at(entered, x2, y2));
            assert(state_at(entered, x2, y2) == (if x2 == x && y2 == y {
                TileState::SnakeOccupied
            } else {
                state_at(g, x2, y2)
            }));
        }
    }
    assert forall|x2: int, y2: int| !#[trigger] turned_free(g, entered, x2, y2) by {
        if in_grid(g, x2, y2) {
            assert(state_at(entered, x2, y2) == (if x2 == x && y2 == y {
                TileState::SnakeOccupied
            } else {
                state_at(g, x2, y2)
            }));
        }
    }
}

/// Eating the food at `(x, y)` and spawning anew: where a free cell was left,
/// one of them holds the only food; where none was, the board holds no food.
proof fn lemma_eaten(g: Grid, x: int, y: int, g1: Grid)
    requires
        valid_grid(g),
        in_grid(g, x, y),
        state_at(g, x, y) == TileState::FoodOccupied,
        food_spawned(with_state(g, x, y, TileState::SnakeOccupied), g1),
    ensures
        state_at(g1, x, y) == TileState::SnakeOccupied,
        holds(g, TileState::Free) ==> one_food_spawned(g, g1),
        !holds(g, TileState::Free) ==> !holds(g1, TileState::FoodOccupied),
{
    let entered = with_state(g, x, y, TileState::SnakeOccupied);
    lemma_with_state(g, x, y, TileState::SnakeOccupied);
    assert forall|x2: int, y2: int| in_grid(entered, x2, y2) implies #[trigger] state_at(
        entered,
        x2,
        y2,
    ) != TileState::FoodOccupied by {
        if !(x2 == x && y2 == y) {
            assert(state_at(g, x2, y2) == state_at(entered, x2, y2));
        }
    }
    assert(!holds(entered, TileState::FoodOccupied));
    if holds(g, TileState::Free) {
        let (fx, fy) = choose|fx: int, fy: int|
            in_grid(g, fx, fy) && #[trigger] state_at(g, fx, fy) == TileState::Free;
        assert(state_at(entered, fx, fy) == TileState::Free);
        assert(holds(entered, TileState::Free));
        let (px, py) = choose|px: int, py: int|
            in_grid(entered, px, py) && state_at(entered, px, py) == TileState::Free && g1
                == #[trigger] with_state(entered, px, py, TileState::FoodOccupied);
        lemma_with_state(entered, px, py, TileState::FoodOccupied);
        assert(state_at(g1, px, py) == TileState::FoodOccupied);
        assert(state_at(g, px, py) == state_at(entered, px, py));
        assert forall|x2: int, y2: int|
            in_grid(g1, x2, y2) && #[trigger] state_at(g1, x2, y2)
                == TileState::FoodOccupied implies state_at(g, x2, y2) == TileState::Free by {
            if !(x2 == px && y2 == py) {
                assert(state_at(entered, x2, y2) == TileState::FoodOccupied);
            }
        }
        assert(at_most_one_food(g1)) by {
            assert forall|x1: int, y1: int, x2: int, y2: int|
                in_grid(g1, x1, y1) && in_grid(g1, x2, y2) && #[trigger] state_at(g1, x1, y1)
                    == TileState::FoodOccupied && #[trigger] state_at(g1, x2, y2)
                    == TileState::FoodOccupied implies x1 == x2 && y1 == y2 by {
                if !(x1 == px && y1 == py) {
                    assert(state_at(entered, x1, y1) == TileState::FoodOccupied);
                }
                if !(x2 == px && y2 == py) {
                    assert(state_at(entered, x2, y2) == TileState::FoodOccupied);
                }
            }
        }
    } else {
        assert forall|x2: int, y2: int| in_grid(entered, x2, y2) implies #[trigger] state_at(
            entered,
            x2,
            y2,
        ) != TileState::Free by {
            if !(x2 == x && y2 == y) {
                assert(state_at(g, x2, y2) == state_at(entered, x2, y2));
            }
        }
        assert(!holds(entered, TileState::Free));
        assert(g1 == entered);
    }
}

} // verus!
