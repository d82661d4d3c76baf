//! What holds of the game whatever is done with it, proved of the model that
//! the operations are held to.

use vstd::prelude::*;
use crate::grid::{
    TILE_EMPTY, TILE_WALL, TILE_TARGET, MAX_DIM, VISIBLE_WIDTH, VISIBLE_HEIGHT, height, width,
    rectangular, codes_known, in_bounds, tile_at, collides, window,
};
use crate::state::{
    Shot, State, advanced, strikes_target, cleared, survives, survivors, lemma_cleared_shape,
    lemma_update_valid,
};

verus! {

/// A start, a frame, a move, a shot and an award keep a game valid.
pub proof fn lemma_valid_is_kept(s: State, points: int)
    requires
        s.valid(),
    ensures
        s.start().valid(),
        s.update().valid(),
        s.move_up().valid(),
        s.move_down().valid(),
        s.fire().valid(),
        s.update_score(points).valid(),
{
    lemma_update_valid(s);
}

/// A new game on a grid that is rectangular, holds tile codes only and is not
/// too large is valid.
pub proof fn lemma_initial_valid(grid: Seq<Seq<u8>>)
    requires
        rectangular(grid),
        codes_known(grid),
        height(grid) <= MAX_DIM,
        width(grid) <= MAX_DIM,
    ensures
        State::initial(grid).valid(),
{
}

/// Before the game is started, a frame, a move and a shot change nothing: the
/// game stays not started, not over and not won.
pub proof fn lemma_idle_before_start(s: State)
    requires
        s.valid(),
        !s.started,
    ensures
        s.update() == s,
        s.move_up() == s,
        s.move_down() == s,
        s.fire() == s,
        !s.started && !s.ended && !s.won,
{
}

/// Once the game is over, a frame, a move, a shot and another start change
/// nothing.
pub proof fn lemma_over_is_final(s: State)
    requires
        s.valid(),
        s.ended,
    ensures
        s.update() == s,
        s.move_up() == s,
        s.move_down() == s,
        s.fire() == s,
        s.start() == s,
{
}

/// Starting a game that was started changes nothing.
pub proof fn lemma_start_twice(s: State)
    ensures
        s.start().start() == s.start(),
        s.started ==> s.start() == s,
{
}

/// On the top row there is no moving up, and on the bottom row no moving down.
pub proof fn lemma_move_at_edge(s: State)
    requires
        s.valid(),
    ensures
        s.player_y == 0 ==> s.move_up() == s,
        s.player_y == s.height() - 1 ==> s.move_down() == s,
        0 <= s.move_up().player_y,
        s.move_down().player_y < s.height() || s.move_down().player_y == s.player_y,
{
}

/// The map never scrolls back, and a frame of a running game that ends it
/// either loses or wins, never both: it is won only where the player is on an
/// empty cell.
pub proof fn lemma_frame_outcome(s: State)
    requires
        s.valid(),
        s.running(),
    ensures
        s.scroll_x <= s.update().scroll_x <= s.scroll_x + 1,
        s.update().time == s.time + 1,
        s.update().won <==> s.update().ended && !collides(
            s.update().grid,
            s.update().player_y,
            s.update().scroll_x,
        ),
        s.update().ended <==> collides(s.update().grid, s.update().player_y, s.update().scroll_x)
            || s.update().scroll_x >= s.width() - 1,
{
    lemma_cleared_shape(s.grid, advanced(s.bullets));
}

/// A bullet is among those that stay in flight exactly when one of the
/// bullets on its cell stays in flight.
pub proof fn lemma_survivors_contains(grid: Seq<Seq<u8>>, shots: Seq<Shot>, n: int, shot: Shot)
    requires
        0 <= n <= shots.len(),
    ensures
        survivors(grid, shots, n).contains(shot) <==> exists|j: int|
            0 <= j < n && survives(grid, shots, j) && #[trigger] shots[j] == shot,
    decreases n,
{
    if n > 0 {
        lemma_survivors_contains(grid, shots, n - 1, shot);
        let fewer = survivors(grid, shots, n - 1);
        let all = survivors(grid, shots, n);
        if survives(grid, shots, n - 1) {
            if all.contains(shot) {
                let k = choose|k: int| 0 <= k < all.len() && all[k] == shot;
            }
            if fewer.contains(shot) {
                let k = choose|k: int| 0 <= k < fewer.len() && fewer[k] == shot;
                assert(all[k] == shot);
            }
            if shots[n - 1] == shot {
                assert(all[fewer.len() as int] == shot);
            }
        }
    }
}

/// A bullet that comes onto a target clears the cell in that very frame. The
/// first bullet to come onto the target is lost with it; where no other
/// bullet comes onto that cell in the same frame, no bullet is left there.
pub proof fn lemma_bullet_destroys_target(s: State, i: int)
    requires
        s.valid(),
        s.running(),
        0 <= i < s.bullets.len(),
        in_bounds(s.grid, s.bullets[i].y, s.bullets[i].x + 1),
        s.grid[s.bullets[i].y][s.bullets[i].x + 1] == TILE_TARGET,
    ensures
        s.update().grid[s.bullets[i].y][s.bullets[i].x + 1] == TILE_EMPTY,
        (forall|j: int| 0 <= j < i ==> s.bullets[j] != s.bullets[i]) ==> !survives(
            s.grid,
            advanced(s.bullets),
            i,
        ),
        (forall|j: int| 0 <= j < s.bullets.len() && j != i ==> s.bullets[j] != s.bullets[i])
            ==> !s.update().bullets.contains(Shot { x: s.bullets[i].x + 1, y: s.bullets[i].y }),
{
    let shots = advanced(s.bullets);
    let p = shots[i];
    if forall|j: int| 0 <= j < s.bullets.len() && j != i ==> s.bullets[j] != s.bullets[i] {
        lemma_survivors_contains(s.grid, shots, shots.len() as int, p);
        if s.update().bullets.contains(p) {
            let j = choose|j: int|
                0 <= j < shots.len() && survives(s.grid, shots, j) && #[trigger] shots[j] == p;
        }
    }
}

/// A bullet that comes onto a wall is lost, and the wall stays: no bullet is
/// left on that cell.
pub proof fn lemma_wall_stops_bullet(s: State, i: int)
    requires
        s.valid(),
        s.running(),
        0 <= i < s.bullets.len(),
        in_bounds(s.grid, s.bullets[i].y, s.bullets[i].x + 1),
        s.grid[s.bullets[i].y][s.bullets[i].x + 1] == TILE_WALL,
    ensures
        s.update().grid[s.bullets[i].y][s.bullets[i].x + 1] == TILE_WALL,
        !survives(s.grid, advanced(s.bullets), i),
        !s.update().bullets.contains(Shot { x: s.bullets[i].x + 1, y: s.bullets[i].y }),
{
    let shots = advanced(s.bullets);
    let p = shots[i];
    lemma_survivors_contains(s.grid, shots, shots.len() as int, p);
}

/// The viewport always has `VISIBLE_WIDTH * VISIBLE_HEIGHT` cells. Cell `j`
/// of its row `i` shows the cell `(i, left + j)` of the grid, and an empty
/// cell where the grid has none.
pub proof fn lemma_window(grid: Seq<Seq<u8>>, left: int, i: int, j: int)
    requires
        0 <= i < VISIBLE_HEIGHT,
        0 <= j < VISIBLE_WIDTH,
    ensures
        window(grid, left).len() == VISIBLE_WIDTH * VISIBLE_HEIGHT,
        0 <= i * VISIBLE_WIDTH + j < VISIBLE_WIDTH * VISIBLE_HEIGHT,
        window(grid, left)[i * VISIBLE_WIDTH + j] == tile_at(grid, i, left + j),
        !in_bounds(grid, i, left + j) ==> window(grid, left)[i * VISIBLE_WIDTH + j] == TILE_EMPTY,
        in_bounds(grid, i, left + j) ==> window(grid, left)[i * VISIBLE_WIDTH + j] == grid[i][left
            + j],
{
}

/// Every cell is empty.
pub open spec fn all_empty(grid: Seq<Seq<u8>>) -> bool {
    forall|r: int, c: int|
        0 <= r < grid.len() && 0 <= c < grid[r].len() ==> #[trigger] grid[r][c] == TILE_EMPTY
}

/// The number of frames after which a game on a map of `w` columns, free of
/// obstacles, is won: two for each column but the first, and one at least.
pub open spec fn frames_to_cross(w: int) -> int {
    if w <= 1 {
        1
    } else {
        2 * (w - 1)
    }
}

/// On a map without obstacles, a game that was started is won by frames
/// alone, and exactly at frame `frames_to_cross(width)`: until then it is
/// running, and half as many columns have scrolled by as frames were played;
/// from then on it is over and won, and further frames change nothing.
pub proof fn lemma_empty_map_is_won(s: State, n: nat)
    requires
        s.valid(),
        s.running(),
        s.time == 0,
        all_empty(s.grid),
    ensures
        s.updates(n).valid(),
        s.updates(n).grid == s.grid,
        s.updates(n).player_y == s.player_y,
        n < frames_to_cross(s.width()) ==> s.updates(n).running() && !s.updates(n).won
            && s.updates(n).time == n && s.updates(n).scroll_x == n / 2,
        n >= frames_to_cross(s.width()) ==> s.updates(n).ended && s.updates(n).won && s.updates(
            n,
        ) == s.updates(frames_to_cross(s.width()) as nat),
        n == frames_to_cross(s.width()) && s.width() >= 1 ==> s.updates(n).scroll_x == s.width()
            - 1,
    decreases n,
{
    if n > 0 {
        let before = s.updates((n - 1) as nat);
        lemma_empty_map_is_won(s, (n - 1) as nat);
        lemma_update_valid(before);
        let shots = advanced(before.bullets);
        assert(cleared(s.grid, shots) =~= s.grid) by {
            assert forall|r: int| 0 <= r < s.grid.len() implies #[trigger] cleared(s.grid, shots)[r]
                =~= s.grid[r] by {
            }
        }
    }
}

} // verus!
