//! The mathematical model of a board: its cell states, row by row.

use crate::tile::{Tile, TileState};
use vstd::prelude::*;

verus! {

/// The states of a board's cells: `g[y][x]` is the cell in column `x` of row `y`.
pub type Grid = Seq<Seq<TileState>>;

/// The number of rows.
pub open spec fn length_of(g: Grid) -> nat {
    g.len()
}

/// The number of columns, read off the first row.
pub open spec fn width_of(g: Grid) -> nat {
    g[0].len()
}

/// Every row has `width_of(g)` cells.
pub open spec fn rectangular(g: Grid) -> bool {
    forall|y: int| 0 <= y < g.len() ==> (#[trigger] g[y]).len() == width_of(g)
}

/// `(x, y)` names a cell of the grid.
pub open spec fn in_grid(g: Grid, x: int, y: int) -> bool {
    0 <= y < length_of(g) && 0 <= x < width_of(g)
}

/// The state of the cell at `(x, y)`.
pub open spec fn state_at(g: Grid, x: int, y: int) -> TileState {
    g[y][x]
}

/// The grid with the cell at `(x, y)` set to `state` and every other cell as it was.
pub open spec fn with_state(g: Grid, x: int, y: int, state: TileState) -> Grid {
    g.update(y, g[y].update(x, state))
}

/// `(x, y)` lies on the outermost ring of a `length` by `width` grid.
pub open spec fn on_border(length: nat, width: nat, x: int, y: int) -> bool {
    x == 0 || y == 0 || x == width - 1 || y == length - 1
}

/// Some cell of the grid holds `state`.
pub open spec fn holds(g: Grid, state: TileState) -> bool {
    exists|x: int, y: int| in_grid(g, x, y) && #[trigger] state_at(g, x, y) == state
}

/// No two cells hold food.
pub open spec fn at_most_one_food(g: Grid) -> bool {
    forall|x1: int, y1: int, x2: int, y2: int|
        in_grid(g, x1, y1) && in_grid(g, x2, y2)
            && #[trigger] state_at(g, x1, y1) == TileState::FoodOccupied
            && #[trigger] state_at(g, x2, y2) == TileState::FoodOccupied
            ==> x1 == x2 && y1 == y2
}

/// Exactly one cell holds food.
pub open spec fn exactly_one_food(g: Grid) -> bool {
    holds(g, TileState::FoodOccupied) && at_most_one_food(g)
}

/// What every board keeps true: it is a rectangle of at least three rows and
/// three columns, the cells that are `BorderDeathZone` are exactly those of the
/// outermost ring, and at most one cell holds food.
pub open spec fn valid_grid(g: Grid) -> bool {
    &&& 3 <= length_of(g)
    &&& 3 <= width_of(g)
    &&& rectangular(g)
    &&& forall|x: int, y: int|
        in_grid(g, x, y) ==> (#[trigger] state_at(g, x, y) == TileState::BorderDeathZone
            <==> on_border(length_of(g), width_of(g), x, y))
    &&& at_most_one_food(g)
}

/// Whether a board may be asked to put `state` into the cell at `(x, y)`: the
/// cell exists and is not on the border, `state` is not the border's, and
/// food goes only where no other cell holds food.
pub open spec fn settable(g: Grid, x: int, y: int, state: TileState) -> bool {
    &&& in_grid(g, x, y)
    &&& !on_border(length_of(g), width_of(g), x, y)
    &&& state != TileState::BorderDeathZone
    &&& state == TileState::FoodOccupied ==> forall|x2: int, y2: int|
        in_grid(g, x2, y2) && #[trigger] state_at(g, x2, y2) == TileState::FoodOccupied ==> x2 == x
            && y2 == y
}

/// The grid with its outermost ring set to `BorderDeathZone`.
pub open spec fn bordered(g: Grid) -> Grid {
    Seq::new(
        g.len(),
        |y: int|
            Seq::new(
                g[y].len(),
                |x: int|
                    if on_border(length_of(g), width_of(g), x, y) {
                        TileState::BorderDeathZone
                    } else {
                        g[y][x]
                    },
            ),
    )
}

/// `(x1, y1)` comes before `(x2, y2)` when the cells are read row by row.
pub open spec fn row_major_before(x1: int, y1: int, x2: int, y2: int) -> bool {
    y1 < y2 || (y1 == y2 && x1 < x2)
}

/// `t` is a free cell of `g`, with its coordinates.
pub open spec fn free_tile_of(g: Grid, t: Tile) -> bool {
    &&& in_grid(g, t.x_coordinate as int, t.y_coordinate as int)
    &&& state_at(g, t.x_coordinate as int, t.y_coordinate as int) == TileState::Free
    &&& t.state == TileState::Free
}

/// `pool` lists the free cells of `g`, each once, row by row.
pub open spec fn free_pool_of(g: Grid, pool: Seq<Tile>) -> bool {
    &&& forall|i: int| 0 <= i < pool.len() ==> free_tile_of(g, #[trigger] pool[i])
    &&& forall|t: Tile| #[trigger] free_tile_of(g, t) ==> pool.contains(t)
    &&& forall|i: int, j: int|
        0 <= i < j < pool.len() ==> row_major_before(
            (#[trigger] pool[i]).x_coordinate as int,
            pool[i].y_coordinate as int,
            (#[trigger] pool[j]).x_coordinate as int,
            pool[j].y_coordinate as int,
        )
}

/// The state of cell `(x, y)` on a new `length` by `width` board before any
/// food is placed: the ring is border, the centre holds the snake, the rest is
/// free.
pub open spec fn initial_state(length: nat, width: nat, x: int, y: int) -> TileState {
    if on_border(length, width, x, y) {
        TileState::BorderDeathZone
    } else if x == width / 2 && y == length / 2 {
        TileState::SnakeOccupied
    } else {
        TileState::Free
    }
}

/// A new `length` by `width` board before any food is placed.
pub open spec fn initial_grid(length: nat, width: nat) -> Grid {
    Seq::new(length, |y: int| Seq::new(width, |x: int| initial_state(length, width, x, y)))
}

/// Whether `g1` can come of `g0` by spawning food: where `g0` holds no food
/// and has a free cell, one free cell of `g0` has become food; otherwise
/// nothing has changed.
pub open spec fn food_spawned(g0: Grid, g1: Grid) -> bool {
    if !holds(g0, TileState::FoodOccupied) && holds(g0, TileState::Free) {
        exists|x: int, y: int|
            in_grid(g0, x, y) && state_at(g0, x, y) == TileState::Free
                && g1 == #[trigger] with_state(g0, x, y, TileState::FoodOccupied)
    } else {
        g1 == g0
    }
}

/// Setting one cell keeps the shape of the grid and changes no other cell.
pub proof fn lemma_with_state(g: Grid, x: int, y: int, state: TileState)
    requires
        rectangular(g),
        in_grid(g, x, y),
    ensures
        length_of(with_state(g, x, y, state)) == length_of(g),
        width_of(with_state(g, x, y, state)) == width_of(g),
        rectangular(with_state(g, x, y, state)),
        forall|x2: int, y2: int|
            in_grid(g, x2, y2) ==> #[trigger] state_at(with_state(g, x, y, state), x2, y2) == (if x2
                == x && y2 == y {
                state
            } else {
                state_at(g, x2, y2)
            }),
{
    let h = with_state(g, x, y, state);
    assert forall|y2: int| 0 <= y2 < h.len() implies (#[trigger] h[y2]).len() == width_of(h) by {
        assert(g[y2].len() == width_of(g));
        assert(g[0].len() == width_of(g));
    }
}

/// A change that [`settable`] admits keeps the grid valid.
pub proof fn lemma_settable_keeps_valid(g: Grid, x: int, y: int, state: TileState)
    requires
        valid_grid(g),
        settable(g, x, y, state),
    ensures
        valid_grid(with_state(g, x, y, state)),
{
    lemma_with_state(g, x, y, state);
    let h = with_state(g, x, y, state);
    assert forall|x1: int, y1: int, x2: int, y2: int|
        in_grid(h, x1, y1) && in_grid(h, x2, y2) && #[trigger] state_at(h, x1, y1)
            == TileState::FoodOccupied && #[trigger] state_at(h, x2, y2)
            == TileState::FoodOccupied implies x1 == x2 && y1 == y2 by {
        if !(x1 == x && y1 == y) {
            assert(state_at(g, x1, y1) == TileState::FoodOccupied);
        }
        if !(x2 == x && y2 == y) {
            assert(state_at(g, x2, y2) == TileState::FoodOccupied);
        }
    }
}

/// A new board without food is valid and holds no food.
pub proof fn lemma_initial_grid_valid(length: nat, width: nat)
    requires
        3 <= length,
        3 <= width,
    ensures
        valid_grid(initial_grid(length, width)),
        length_of(initial_grid(length, width)) == length,
        width_of(initial_grid(length, width)) == width,
        !holds(initial_grid(length, width), TileState::FoodOccupied),
{
}

/// A new board has a free cell unless it is 3 by 3, where the centre is the
/// only inner cell.
pub proof fn lemma_initial_free_cells(length: nat, width: nat)
    requires
        3 <= length,
        3 <= width,
    ensures
        holds(initial_grid(length, width), TileState::Free) <==> !(length == 3 && width == 3),
{
    let g = initial_grid(length, width);
    if length == 3 && width == 3 {
        assert forall|x: int, y: int| in_grid(g, x, y) implies #[trigger] state_at(g, x, y)
            != TileState::Free by {
            assert(state_at(g, x, y) == initial_state(length, width, x, y));
        }
    } else {
        assert(in_grid(g, 1, 1));
        assert(state_at(g, 1, 1) == TileState::Free);
    }
}

} // verus!
