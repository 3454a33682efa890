//! The board: a grid of tiles with a deadly border, one snake and one piece
//! of food.

use crate::grid::{
    bordered, exactly_one_food, food_spawned, free_pool_of, free_tile_of, holds, in_grid,
    initial_grid, lemma_initial_free_cells, lemma_initial_grid_valid, lemma_settable_keeps_valid,
    lemma_with_state, length_of, on_border, rectangular, row_major_before, settable, state_at,
    valid_grid, width_of, with_state, Grid,
};
use crate::tile::{Tile, TileState};
use rand::seq::SliceRandom;
use vstd::prelude::*;

verus! {

/// Picks one tile of `pool` at random.
///
/// This is `rand::seq::SliceRandom::choose` on the slice of `pool`, drawing
/// from the generator that `rand::thread_rng()` hands out. Trusted, not
/// proved: `choose` returns `None` for an empty slice and otherwise a
/// reference to one of the slice's elements, which is copied out. Which
/// element is left open: it differs from call to call. `thread_rng` takes no
/// argument and fails only where the operating system gives it no seed.
#[verifier::external_body]
fn choose_tile(pool: &Vec<Tile>) -> (picked: Option<Tile>)
    ensures
        picked is None <==> pool@.len() == 0,
        picked matches Some(t) ==> pool@.contains(t),
{
    pool.choose(&mut rand::thread_rng()).copied()
}

/// A fixed-size grid of tiles, `length` rows of `width` tiles each.
pub struct GameBoard {
    board: Vec<Vec<Tile>>,
    length: usize,
    width: usize,
}

impl View for GameBoard {
    type V = Grid;

    closed spec fn view(&self) -> Grid {
        Seq::new(
            self.board@.len(),
            |y: int| Seq::new(self.board@[y]@.len(), |x: int| self.board@[y]@[x].state),
        )
    }
}

impl GameBoard {
    /// The stored tiles form a `length` by `width` rectangle, and each tile
    /// carries the coordinates of the place where it is stored.
    pub closed spec fn tagged(&self) -> bool {
        &&& self.board@.len() == self.length
        &&& 0 < self.length
        &&& 0 < self.width
        &&& forall|y: int|
            0 <= y < self.board@.len() ==> (#[trigger] self.board@[y])@.len() == self.width
        &&& forall|x: int, y: int|
            0 <= y < self.length && 0 <= x < self.width ==> {
                let t = #[trigger] self.board@[y]@[x];
                t.x_coordinate == x && t.y_coordinate == y
            }
    }

    /// The board is well formed: see [`valid_grid`].
    pub open spec fn wf(&self) -> bool {
        self.tagged() && valid_grid(self@)
    }

    /// A new `length` by `width` board: the ring is border, the centre cell
    /// holds the snake, one cell picked at random among the others holds food
    /// and the rest is free. On a 3 by 3 board the centre is the only inner
    /// cell, so that board holds no food.
    pub fn new(length: usize, width: usize) -> (b: GameBoard)
        requires
            3 <= length,
            3 <= width,
        ensures
            b.wf(),
            length_of(b@) == length,
            width_of(b@) == width,
            food_spawned(initial_grid(length as nat, width as nat), b@),
            forall|x: int, y: int|
                in_grid(b@, x, y) ==> (#[trigger] state_at(b@, x, y) == TileState::BorderDeathZone
                    <==> on_border(length as nat, width as nat, x, y)),
            state_at(b@, width as int / 2, length as int / 2) == TileState::SnakeOccupied,
            !(length == 3 && width == 3) ==> exactly_one_food(b@),
            length == 3 && width == 3 ==> !holds(b@, TileState::FoodOccupied),
    {
        let mut b = GameBoard::without_food(length, width);
        proof {
            lemma_initial_grid_valid(length as nat, width as nat);
            lemma_initial_free_cells(length as nat, width as nat);
        }
        let ghost g0 = b@;
        b.spawn_food();
        proof {
            b.lemma_shape();
            if holds(g0, TileState::Free) {
                let (x, y) = choose|x: int, y: int|
                    in_grid(g0, x, y) && state_at(g0, x, y) == TileState::Free && b@
                        == #[trigger] with_state(g0, x, y, TileState::FoodOccupied);
                lemma_with_state(g0, x, y, TileState::FoodOccupied);
            }
        }
        b
    }

    /// A new `length` by `width` board that holds no food yet: the ring is
    /// border, the centre cell holds the snake and every other cell is free.
    pub fn without_food(length: usize, width: usize) -> (b: GameBoard)
        requires
            3 <= length,
            3 <= width,
        ensures
            b.wf(),
            b@ == initial_grid(length as nat, width as nat),
    {
        let mut board: Vec<Vec<Tile>> = Vec::new();
        let mut y: usize = 0;
        while y < length
            invariant
                y <= length,
                board@.len() == y,
                forall|y2: int| 0 <= y2 < y ==> (#[trigger] board@[y2])@.len() == width,
                forall|x2: int, y2: int|
                    0 <= y2 < y && 0 <= x2 < width ==> #[trigger] board@[y2]@[x2] == (Tile {
                        state: TileState::Free,
                        x_coordinate: x2 as usize,
                        y_coordinate: y2 as usize,
                    }),
            decreases length - y,
        {
            let mut row: Vec<Tile> = Vec::new();
            let mut x: usize = 0;
            while x < width
                invariant
                    x <= width,
                    row@.len() == x,
                    forall|x2: int|
                        0 <= x2 < x ==> #[trigger] row@[x2] == (Tile {
                            state: TileState::Free,
                            x_coordinate: x2 as usize,
                            y_coordinate: y,
                        }),
                decreases width - x,
            {
                row.push(Tile { state: TileState::Free, x_coordinate: x, y_coordinate: y });
                x += 1;
            }
            board.push(row);
            y += 1;
        }
        let mut b = GameBoard { board, length, width };
        b.generate_borders();
        proof {
            b.lemma_shape();
        }
        b.put(width / 2, length / 2, TileState::SnakeOccupied);
        proof {
            b.lemma_shape();
            let g = b@;
            let i = initial_grid(length as nat, width as nat);
            assert forall|y2: int| 0 <= y2 < g.len() implies #[trigger] g[y2] =~= i[y2] by {
                assert(g[y2].len() == width_of(g));
            }
            assert(g =~= i);
            lemma_initial_grid_valid(length as nat, width as nat);
        }
        b
    }

    /// The number of rows.
    pub fn length(&self) -> (n: usize)
        requires
            self.tagged(),
        ensures
            n == length_of(self@),
    {
        self.length
    }

    /// The number of columns.
    pub fn width(&self) -> (n: usize)
        requires
            self.tagged(),
        ensures
            n == width_of(self@),
    {
        proof {
            assert(self.board@[0]@.len() == self.width);
        }
        self.width
    }

    /// The state of the cell at column `x` of row `y`.
    pub fn state(&self, x: usize, y: usize) -> (s: TileState)
        requires
            self.tagged(),
            in_grid(self@, x as int, y as int),
        ensures
            s == state_at(self@, x as int, y as int),
    {
        proof {
            assert(self.board@[0]@.len() == self.width);
        }
        self.board[y][x].state
    }

    /// The tile at column `x` of row `y`, or `None` where the board has no such cell.
    pub fn tile(&self, x: usize, y: usize) -> (t: Option<Tile>)
        requires
            self.tagged(),
        ensures
            in_grid(self@, x as int, y as int) ==> t == Some(
                Tile {
                    state: state_at(self@, x as int, y as int),
                    x_coordinate: x,
                    y_coordinate: y,
                },
            ),
            !in_grid(self@, x as int, y as int) ==> t is None,
    {
        proof {
            assert(self.board@[0]@.len() == self.width);
        }
        if y < self.length && x < self.width {
            Some(self.board[y][x])
        } else {
            None
        }
    }

    /// The tile that holds the food, or `None` where no cell does.
    pub fn food(&self) -> (found: Option<Tile>)
        requires
            self.tagged(),
        ensures
            match found {
                Some(t) => {
                    &&& in_grid(self@, t.x_coordinate as int, t.y_coordinate as int)
                    &&& state_at(self@, t.x_coordinate as int, t.y_coordinate as int)
                        == TileState::FoodOccupied
                    &&& t.state == TileState::FoodOccupied
                },
                None => !holds(self@, TileState::FoodOccupied),
            },
    {
        proof {
            assert(self.board@[0]@.len() == self.width);
        }
        let mut y: usize = 0;
        while y < self.length
            invariant
                self.tagged(),
                y <= self.length,
                forall|x2: int, y2: int|
                    0 <= y2 < y && 0 <= x2 < self.width ==> #[trigger] state_at(self@, x2, y2)
                        != TileState::FoodOccupied,
            decreases self.length - y,
        {
            let mut x: usize = 0;
            while x < self.width
                invariant
                    self.tagged(),
                    y < self.length,
                    x <= self.width,
                    forall|x2: int, y2: int|
                        0 <= y2 < y && 0 <= x2 < self.width ==> #[trigger] state_at(self@, x2, y2)
                            != TileState::FoodOccupied,
                    forall|x2: int|
                        0 <= x2 < x ==> #[trigger] state_at(self@, x2, y as int)
                            != TileState::FoodOccupied,
                decreases self.width - x,
            {
                let t = self.board[y][x];
                if t.state == TileState::FoodOccupied {
                    return Some(t);
                }
                x += 1;
            }
            y += 1;
        }
        None
    }

    /// The free cells of the board, each once, row by row.
    pub fn free_tiles(&self) -> (pool: Vec<Tile>)
        requires
            self.tagged(),
        ensures
            free_pool_of(self@, pool@),
    {
        proof {
            self.lemma_shape();
        }
        let ghost g = self@;
        let mut pool: Vec<Tile> = Vec::new();
        let mut y: usize = 0;
        while y < self.length
            invariant
                self.tagged(),
                g == self@,
                length_of(g) == self.length,
                width_of(g) == self.width,
                y <= self.length,
                forall|i: int|
                    0 <= i < pool@.len() ==> free_tile_of(g, #[trigger] pool@[i])
                        && pool@[i].y_coordinate < y,
                forall|t: Tile|
                    #[trigger] free_tile_of(g, t) && t.y_coordinate < y ==> pool@.contains(t),
                forall|i: int, j: int|
                    0 <= i < j < pool@.len() ==> row_major_before(
                        (#[trigger] pool@[i]).x_coordinate as int,
                        pool@[i].y_coordinate as int,
                        (#[trigger] pool@[j]).x_coordinate as int,
                        pool@[j].y_coordinate as int,
                    ),
            decreases self.length - y,
        {
            let mut x: usize = 0;
            while x < self.width
                invariant
                    self.tagged(),
                    g == self@,
                    length_of(g) == self.length,
                    width_of(g) == self.width,
                    y < self.length,
                    x <= self.width,
                    forall|i: int|
                        0 <= i < pool@.len() ==> free_tile_of(g, #[trigger] pool@[i])
                            && row_major_before(
                            pool@[i].x_coordinate as int,
                            pool@[i].y_coordinate as int,
                            x as int,
                            y as int,
                        ),
                    forall|t: Tile|
                        #[trigger] free_tile_of(g, t) && row_major_before(
                            t.x_coordinate as int,
                            t.y_coordinate as int,
                            x as int,
                            y as int,
                        ) ==> pool@.contains(t),
                    forall|i: int, j: int|
                        0 <= i < j < pool@.len() ==> row_major_before(
                            (#[trigger] pool@[i]).x_coordinate as int,
                            pool@[i].y_coordinate as int,
                            (#[trigger] pool@[j]).x_coordinate as int,
                            pool@[j].y_coordinate as int,
                        ),
                decreases self.width - x,
            {
                let t = self.board[y][x];
                let ghost before = pool@;
                if t.state == TileState::Free {
                    pool.push(t);
                    proof {
                        assert(state_at(g, x as int, y as int) == t.state);
                        assert(pool@[before.len() as int] == t);
                    }
                }
                proof {
                    assert forall|u: Tile|
                        #[trigger] free_tile_of(g, u) && row_major_before(
                            u.x_coordinate as int,
                            u.y_coordinate as int,
                            x + 1,
                            y as int,
                        ) implies pool@.contains(u) by {
                        if u.x_coordinate == x && u.y_coordinate == y {
                            assert(state_at(g, x as int, y as int) == t.state);
                            assert(u == t);
                            assert(pool@[before.len() as int] == t);
                        } else {
                            assert(before.contains(u));
                            let i = choose|i: int| 0 <= i < before.len() && before[i] == u;
                            assert(pool@[i] == u);
                        }
                    }
                }
                x += 1;
            }
            y += 1;
        }
        pool
    }

    /// Puts `state` into the cell at `(x, y)` where the board's rules allow it,
    /// and says whether it did.
    ///
    /// The border is never rewritten, no inner cell becomes border, and food is
    /// placed only while no other cell holds food.
    pub fn set_state(&mut self, x: usize, y: usize, state: TileState) -> (done: bool)
        requires
            old(self).wf(),
        ensures
            final(self).wf(),
            done == settable(old(self)@, x as int, y as int, state),
            done ==> final(self)@ == with_state(old(self)@, x as int, y as int, state),
            !done ==> final(self)@ == old(self)@,
    {
        proof {
            assert(self.board@[0]@.len() == self.width);
        }
        if y >= self.length || x >= self.width {
            return false;
        }
        if x == 0 || y == 0 || x == self.width - 1 || y == self.length - 1 {
            return false;
        }
        match state {
            TileState::BorderDeathZone => {
                return false;
            },
            TileState::FoodOccupied => {
                match self.food() {
                    Some(t) => {
                        if t.x_coordinate != x || t.y_coordinate != y {
                            return false;
                        }
                    },
                    None => {},
                }
            },
            _ => {},
        }
        proof {
            lemma_settable_keeps_valid(self@, x as int, y as int, state);
        }
        self.put(x, y, state);
        true
    }

    /// Turns one free cell, picked at random, into food, and says whether it
    /// did. Where the board already holds food, or has no free cell, nothing
    /// changes.
    pub fn spawn_food(&mut self) -> (spawned: bool)
        requires
            old(self).wf(),
        ensures
            final(self).wf(),
            food_spawned(old(self)@, final(self)@),
            spawned == (!holds(old(self)@, TileState::FoodOccupied) && holds(
                old(self)@,
                TileState::Free,
            )),
            spawned ==> exactly_one_food(final(self)@),
    {
        let freepool = self.free_tiles();
        let ghost g = self@;
        match choose_tile(&freepool) {
            Some(t) => {
                proof {
                    assert(free_tile_of(g, t));
                    assert(state_at(g, t.x_coordinate as int, t.y_coordinate as int)
                        == TileState::Free);
                    lemma_with_state(
                        g,
                        t.x_coordinate as int,
                        t.y_coordinate as int,
                        TileState::FoodOccupied,
                    );
                }
                let done = self.set_state(t.x_coordinate, t.y_coordinate, TileState::FoodOccupied);
                proof {
                    if done {
                        assert(state_at(self@, t.x_coordinate as int, t.y_coordinate as int)
                            == TileState::FoodOccupied);
                    } else {
                        assert(holds(g, TileState::FoodOccupied));
                    }
                }
                done
            },
            None => {
                proof {
                    if holds(g, TileState::Free) {
                        let (x, y) = choose|x: int, y: int|
                            in_grid(g, x, y) && #[trigger] state_at(g, x, y) == TileState::Free;
                        let u = Tile {
                            state: TileState::Free,
                            x_coordinate: x as usize,
                            y_coordinate: y as usize,
                        };
                        assert(free_tile_of(g, u));
                        assert(freepool@.contains(u));
                    }
                }
                false
            },
        }
    }

    /// Writes `state` into the cell at `(x, y)`.
    fn put(&mut self, x: usize, y: usize, state: TileState)
        requires
            old(self).tagged(),
            in_grid(old(self)@, x as int, y as int),
        ensures
            final(self).tagged(),
            final(self)@ == with_state(old(self)@, x as int, y as int, state),
    {
        proof {
            assert(self.board@[0]@.len() == self.width);
        }
        self.board[y][x].state = state;
        proof {
            assert(self@ =~~= with_state(old(self)@, x as int, y as int, state));
        }
    }

    /// Marks the top row, the bottom row and the two outer columns as
    /// `BorderDeathZone`.
    fn generate_borders(&mut self)
        requires
            old(self).tagged(),
        ensures
            final(self).tagged(),
            final(self)@ == bordered(old(self)@),
    {
        let ghost g0 = self@;
        let length = self.length;
        let width = self.width;
        proof {
            self.lemma_shape();
        }
        let mut x: usize = 0;
        while x < width
            invariant
                self.tagged(),
                self.length == length,
                self.width == width,
                x <= width,
                rectangular(g0),
                length_of(g0) == length,
                width_of(g0) == width,
                forall|x2: int, y2: int|
                    in_grid(g0, x2, y2) ==> #[trigger] state_at(self@, x2, y2) == (if x2 < x && (y2
                        == 0 || y2 == length - 1) {
                        TileState::BorderDeathZone
                    } else {
                        state_at(g0, x2, y2)
                    }),
            decreases width - x,
        {
            proof {
                self.lemma_shape();
                lemma_with_state(self@, x as int, 0, TileState::BorderDeathZone);
            }
            self.put(x, 0, TileState::BorderDeathZone);
            proof {
                self.lemma_shape();
                lemma_with_state(self@, x as int, length - 1, TileState::BorderDeathZone);
            }
            self.put(x, length - 1, TileState::BorderDeathZone);
            x += 1;
        }
        let mut y: usize = 0;
        while y < length
            invariant
                self.tagged(),
                self.length == length,
                self.width == width,
                y <= length,
                rectangular(g0),
                length_of(g0) == length,
                width_of(g0) == width,
                forall|x2: int, y2: int|
                    in_grid(g0, x2, y2) ==> #[trigger] state_at(self@, x2, y2) == (if y2 == 0 || y2
                        == length - 1 || (y2 < y && (x2 == 0 || x2 == width - 1)) {
                        TileState::BorderDeathZone
                    } else {
                        state_at(g0, x2, y2)
                    }),
            decreases length - y,
        {
            proof {
                self.lemma_shape();
                lemma_with_state(self@, 0, y as int, TileState::BorderDeathZone);
            }
            self.put(0, y, TileState::BorderDeathZone);
            proof {
                self.lemma_shape();
                lemma_with_state(self@, width - 1, y as int, TileState::BorderDeathZone);
            }
            self.put(width - 1, y, TileState::BorderDeathZone);
            y += 1;
        }
        proof {
            self.lemma_shape();
            let g = self@;
            let b = bordered(g0);
            assert(g.len() == b.len());
            assert forall|y2: int| 0 <= y2 < g.len() implies #[trigger] g[y2] =~= b[y2] by {
                assert(g0[y2].len() == width_of(g0));
                assert(g[y2].len() == width_of(g));
                assert forall|x2: int| 0 <= x2 < g[y2].len() implies g[y2][x2] == b[y2][x2] by {
                    assert(state_at(g, x2, y2) == g[y2][x2]);
                }
            }
            assert(g =~= b);
        }
    }

    /// The numbers of rows and of columns of a board fit in `usize`.
    pub proof fn lemma_size_fits(&self)
        requires
            self.tagged(),
        ensures
            length_of(self@) <= usize::MAX,
            width_of(self@) <= usize::MAX,
    {
        self.lemma_shape();
    }

    /// The model of a tagged board is a rectangle of the stored size.
    proof fn lemma_shape(&self)
        requires
            self.tagged(),
        ensures
            rectangular(self@),
            length_of(self@) == self.length,
            width_of(self@) == self.width,
    {
        assert(self.board@[0]@.len() == self.width);
        assert forall|y: int| 0 <= y < self@.len() implies (#[trigger] self@[y]).len() == width_of(
            self@,
        ) by {
            assert(self.board@[y]@.len() == self.width);
        }
    }
}

} // verus!
