//! The mathematical model of a game: its state as plain values, and each
//! operation as a function from the state before to the state after.

use vstd::prelude::*;
use crate::grid::{
    TILE_EMPTY, TILE_WALL, TILE_TARGET, MAX_DIM, height, width, rectangular, codes_known,
    in_bounds, tile_at, collides, with_tile,
};

verus! {

/// A bullet in flight, by the cell it is on.
pub struct Shot {
    /// Column.
    pub x: int,
    /// Row.
    pub y: int,
}

/// Everything a game holds.
pub struct State {
    /// The tile grid, row by row.
    pub grid: Seq<Seq<u8>>,
    /// The row the player is on.
    pub player_y: int,
    /// The column the player is on: how far the map has scrolled.
    pub scroll_x: int,
    /// Frames played.
    pub time: int,
    /// Points awarded.
    pub score: int,
    /// The bullets in flight, oldest first.
    pub bullets: Seq<Shot>,
    /// The game has been started.
    pub started: bool,
    /// The game is over.
    pub ended: bool,
    /// The game is over and the player reached the last column.
    pub won: bool,
}

/// Every bullet one column further.
pub open spec fn advanced(bullets: Seq<Shot>) -> Seq<Shot> {
    Seq::new(bullets.len(), |i: int| Shot { x: bullets[i].x + 1, y: bullets[i].y })
}

/// Bullet `i` of `shots` destroys a target: it is on a target, and no bullet
/// before it is on the same cell. (A target takes one bullet; a later one on
/// the same cell finds it gone.)
pub open spec fn strikes_target(grid: Seq<Seq<u8>>, shots: Seq<Shot>, i: int) -> bool {
    &&& in_bounds(grid, shots[i].y, shots[i].x)
    &&& grid[shots[i].y][shots[i].x] == TILE_TARGET
    &&& !shots.take(i).contains(shots[i])
}

/// The grid after the bullets `shots` have destroyed the targets they are on.
pub open spec fn cleared(grid: Seq<Seq<u8>>, shots: Seq<Shot>) -> Seq<Seq<u8>> {
    Seq::new(
        grid.len(),
        |r: int|
            Seq::new(
                grid[r].len(),
                |c: int|
                    if grid[r][c] == TILE_TARGET && shots.contains(Shot { x: c, y: r }) {
                        TILE_EMPTY
                    } else {
                        grid[r][c]
                    },
            ),
    )
}

/// Bullet `i` of `shots` stays in flight: it destroys no target, it is still
/// within the width of the grid, and it is not on a wall.
pub open spec fn survives(grid: Seq<Seq<u8>>, shots: Seq<Shot>, i: int) -> bool {
    &&& !strikes_target(grid, shots, i)
    &&& shots[i].x < width(grid)
    &&& tile_at(grid, shots[i].y, shots[i].x) != TILE_WALL
}

/// Those of the first `n` bullets of `shots` that stay in flight, in their
/// order.
pub open spec fn survivors(grid: Seq<Seq<u8>>, shots: Seq<Shot>, n: int) -> Seq<Shot>
    decreases n,
{
    if n <= 0 {
        Seq::empty()
    } else if survives(grid, shots, n - 1) {
        survivors(grid, shots, n - 1).push(shots[n - 1])
    } else {
        survivors(grid, shots, n - 1)
    }
}

impl State {
    /// A new game on `grid`: the player on row 1, nothing scrolled, no bullet,
    /// no point, not started.
    pub open spec fn initial(grid: Seq<Seq<u8>>) -> State {
        State {
            grid,
            player_y: 1,
            scroll_x: 0,
            time: 0,
            score: 0,
            bullets: Seq::empty(),
            started: false,
            ended: false,
            won: false,
        }
    }

    /// Number of rows of the map.
    pub open spec fn height(self) -> int {
        height(self.grid)
    }

    /// Number of columns of the map.
    pub open spec fn width(self) -> int {
        width(self.grid)
    }

    /// The game has been started and is not over.
    pub open spec fn running(self) -> bool {
        self.started && !self.ended
    }

    /// What holds of every game, whatever has been done with it.
    pub open spec fn valid(self) -> bool {
        &&& rectangular(self.grid)
        &&& codes_known(self.grid)
        &&& self.height() <= MAX_DIM
        &&& self.width() <= MAX_DIM
        &&& 0 <= self.player_y
        &&& self.player_y < self.height() || self.player_y <= 1
        &&& 0 <= self.time
        &&& self.scroll_x == self.time / 2
        &&& self.scroll_x < self.width() || self.scroll_x == 0
        &&& self.ended ==> self.started
        &&& self.won ==> self.ended
        &&& !self.started ==> self.time == 0 && self.bullets.len() == 0 && self.player_y == 1
        &&& !self.ended ==> self.time == 0 || self.scroll_x + 1 < self.width()
    }

    /// After `start`.
    pub open spec fn start(self) -> State {
        State { started: true, ..self }
    }

    /// After one frame. Nothing happens unless the game is running. Else the
    /// frame counter goes up by one; the map scrolls by one column on even
    /// frames; every bullet moves one column on, destroys the target it is on
    /// and is lost with it, or is lost on a wall or beyond the last column; the
    /// player, on a cell that is not empty, has lost, and otherwise, on the
    /// last column or beyond, has won.
    pub open spec fn update(self) -> State {
        if !self.running() {
            self
        } else {
            let time = self.time + 1;
            let scroll_x = if time % 2 == 0 {
                self.scroll_x + 1
            } else {
                self.scroll_x
            };
            let shots = advanced(self.bullets);
            let grid = cleared(self.grid, shots);
            let hit = collides(grid, self.player_y, scroll_x);
            let arrived = scroll_x >= width(grid) - 1;
            State {
                grid,
                time,
                scroll_x,
                bullets: survivors(self.grid, shots, shots.len() as int),
                ended: hit || arrived,
                won: if !hit && arrived {
                    true
                } else {
                    self.won
                },
                ..self
            }
        }
    }

    /// After the player has moved to row `y`: the game is over if that cell is
    /// not empty.
    pub open spec fn moved_to(self, y: int) -> State {
        State { player_y: y, ended: collides(self.grid, y, self.scroll_x), ..self }
    }

    /// After `move_up`: one row up, while the game is running and there is a
    /// row above.
    pub open spec fn move_up(self) -> State {
        if self.running() && self.player_y > 0 {
            self.moved_to(self.player_y - 1)
        } else {
            self
        }
    }

    /// After `move_down`: one row down, while the game is running and there is
    /// a row below.
    pub open spec fn move_down(self) -> State {
        if self.running() && self.player_y < self.height() - 1 {
            self.moved_to(self.player_y + 1)
        } else {
            self
        }
    }

    /// After `fire`: while the game is running, one more bullet, one column
    /// ahead of the player and on the player's row.
    pub open spec fn fire(self) -> State {
        if self.running() {
            State {
                bullets: self.bullets.push(Shot { x: self.scroll_x + 1, y: self.player_y }),
                ..self
            }
        } else {
            self
        }
    }

    /// After `points` have been awarded.
    pub open spec fn update_score(self, points: int) -> State {
        State { score: self.score + points, ..self }
    }

    /// After the cell `(row, col)` has been set to `value`.
    pub open spec fn set_tile(self, row: int, col: int, value: u8) -> State {
        State { grid: with_tile(self.grid, row, col, value), ..self }
    }

    /// After `n` frames.
    pub open spec fn updates(self, n: nat) -> State
        decreases n,
    {
        if n == 0 {
            self
        } else {
            self.updates((n - 1) as nat).update()
        }
    }
}

/// Setting a cell of the map to a tile code keeps a game valid.
pub proof fn lemma_set_tile_valid(s: State, row: int, col: int, value: u8)
    requires
        s.valid(),
        in_bounds(s.grid, row, col),
        value <= TILE_TARGET,
    ensures
        s.set_tile(row, col, value).valid(),
        s.set_tile(row, col, value).width() == s.width(),
        s.set_tile(row, col, value).height() == s.height(),
{
}

/// A bullet is among the first `i + 1` of `shots` exactly when it is among
/// the first `i` or is bullet `i` itself.
pub proof fn lemma_contains_one_more(shots: Seq<Shot>, i: int, shot: Shot)
    requires
        0 <= i < shots.len(),
    ensures
        shots.take(i + 1).contains(shot) <==> shots.take(i).contains(shot) || shots[i] == shot,
{
    let more = shots.take(i + 1);
    let fewer = shots.take(i);
    if shots[i] == shot {
        assert(more[i] == shot);
    }
}

/// What one more bullet does to the grid: bullet `i`, where it destroys a
/// target, empties the cell it is on, and leaves the grid alone otherwise.
pub proof fn lemma_cleared_one_more(grid: Seq<Seq<u8>>, shots: Seq<Shot>, i: int)
    requires
        rectangular(grid),
        0 <= i < shots.len(),
    ensures
        cleared(grid, shots.take(i + 1)) == if strikes_target(grid, shots, i) {
            with_tile(cleared(grid, shots.take(i)), shots[i].y, shots[i].x, TILE_EMPTY)
        } else {
            cleared(grid, shots.take(i))
        },
        strikes_target(grid, shots, i) <==> in_bounds(grid, shots[i].y, shots[i].x) && cleared(
            grid,
            shots.take(i),
        )[shots[i].y][shots[i].x] == TILE_TARGET,
{
    let before = cleared(grid, shots.take(i));
    let after = cleared(grid, shots.take(i + 1));
    let p = shots[i];
    let expected = if strikes_target(grid, shots, i) {
        with_tile(before, p.y, p.x, TILE_EMPTY)
    } else {
        before
    };
    assert forall|r: int| 0 <= r < grid.len() implies #[trigger] after[r] =~= expected[r] by {
        assert forall|c: int| 0 <= c < grid[r].len() implies after[r][c] == expected[r][c] by {
            lemma_contains_one_more(shots, i, Shot { x: c, y: r });
        }
    }
}

/// Destroying targets changes no cell but a target, and a target only to an
/// empty cell: the grid keeps its shape, its walls and its empty cells.
pub proof fn lemma_cleared_shape(grid: Seq<Seq<u8>>, shots: Seq<Shot>)
    ensures
        height(cleared(grid, shots)) == height(grid),
        width(cleared(grid, shots)) == width(grid),
        rectangular(grid) ==> rectangular(cleared(grid, shots)),
        codes_known(grid) ==> codes_known(cleared(grid, shots)),
        forall|r: int, c: int| #![trigger tile_at(cleared(grid, shots), r, c)]
            rectangular(grid) ==> tile_at(cleared(grid, shots), r, c) == tile_at(grid, r, c)
                || (tile_at(grid, r, c) == TILE_TARGET && tile_at(cleared(grid, shots), r, c)
                == TILE_EMPTY),
{
}

/// A frame keeps a game valid.
pub proof fn lemma_update_valid(s: State)
    requires
        s.valid(),
    ensures
        s.update().valid(),
        s.update().width() == s.width(),
        s.update().height() == s.height(),
{
    lemma_cleared_shape(s.grid, advanced(s.bullets));
}

} // verus!
