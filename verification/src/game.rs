//! The game itself: the state in machine integers and vectors, and the
//! operations on it.

use vstd::prelude::*;
use crate::grid::{
    TILE_EMPTY, TILE_WALL, TILE_TARGET, MAX_DIM, VISIBLE_WIDTH, VISIBLE_HEIGHT, height, width,
    rectangular, in_bounds, tile_at, collides, with_tile, window, is_row_major, grid_of,
    lemma_cell_index,
};
use crate::level::{
    LoadError, load_outcome, lines, line_known, row_of, rows_of, same_length, chars_of,
    split_lines, decode_line, lines_of, lemma_loaded_grid,
};
use crate::state::{
    Shot, State, advanced, strikes_target, cleared, survivors, lemma_cleared_one_more,
    lemma_cleared_shape, lemma_update_valid, lemma_set_tile_valid,
};

verus! {

/// The player: a row of the map.
#[derive(Debug, Clone, Copy)]
pub struct Player {
    y: u8,
}

impl Player {
    /// The row the player is on.
    pub closed spec fn row(self) -> u8 {
        self.y
    }

    /// A player on row `y`.
    pub fn new(y: u8) -> (player: Player)
        ensures
            player.row() == y,
    {
        Player { y }
    }

    /// The row the player is on.
    pub fn y(&self) -> (y: u8)
        ensures
            y == self.row(),
    {
        self.y
    }
}

/// A bullet in flight.
#[derive(Debug, Clone, Copy, PartialEq, Eq)]
pub struct Bullet {
    /// Column.
    pub x: u8,
    /// Row.
    pub y: u8,
}

impl View for Bullet {
    type V = Shot;

    open spec fn view(&self) -> Shot {
        Shot { x: self.x as int, y: self.y as int }
    }
}

/// The cells that a vector of bullets is on.
pub open spec fn shots_of(bullets: Seq<Bullet>) -> Seq<Shot> {
    Seq::new(bullets.len(), |i: int| bullets[i]@)
}

/// Moves every bullet one column on. A bullet that comes onto a target
/// destroys it and is lost with it; one that comes onto a wall, or beyond the
/// last column, is lost. The others are returned, in their order.
fn fly(map: &mut Vec<Vec<u8>>, bullets: &Vec<Bullet>) -> (kept: Vec<Bullet>)
    requires
        rectangular(grid_of(old(map)@)),
        width(grid_of(old(map)@)) <= MAX_DIM,
    ensures
        grid_of(final(map)@) == cleared(grid_of(old(map)@), advanced(shots_of(bullets@))),
        shots_of(kept@) == survivors(
            grid_of(old(map)@),
            advanced(shots_of(bullets@)),
            bullets.len() as int,
        ),
{
    let ghost grid = grid_of(map@);
    let ghost shots = advanced(shots_of(bullets@));
    let n = bullets.len();
    let h = map.len();
    let w = if h == 0 {
        0
    } else {
        map[0].len()
    };
    // First pass: the targets that are hit.
    let mut struck: Vec<bool> = Vec::new();
    let mut i: usize = 0;
    assert(grid =~= cleared(grid, shots.take(0))) by {
        assert forall|r: int| 0 <= r < grid.len() implies #[trigger] grid[r] =~= cleared(
            grid,
            shots.take(0),
        )[r] by {}
    }
    while i < n
        invariant
            i <= n,
            n == bullets.len(),
            struck.len() == i,
            shots == advanced(shots_of(bullets@)),
            rectangular(grid),
            h == height(grid),
            w == width(grid),
            h == map.len(),
            grid_of(map@) == cleared(grid, shots.take(i as int)),
            forall|k: int| 0 <= k < i ==> struck[k] == strikes_target(grid, shots, k),
        decreases n - i,
    {
        let y = bullets[i].y as usize;
        let x = bullets[i].x as usize + 1;
        proof {
            lemma_cleared_one_more(grid, shots, i as int);
            lemma_cleared_shape(grid, shots.take(i as int));
        }
        if y < h && x < w && map[y][x] == TILE_TARGET {
            map[y][x] = TILE_EMPTY;
            struck.push(true);
        } else {
            struck.push(false);
        }
        i += 1;
    }
    assert(shots.take(n as int) =~= shots);
    // Second pass: the bullets that stay.
    let mut kept: Vec<Bullet> = Vec::new();
    let mut i: usize = 0;
    while i < n
        invariant
            i <= n,
            n == bullets.len(),
            struck.len() == n,
            shots == advanced(shots_of(bullets@)),
            rectangular(grid),
            h == height(grid),
            w == width(grid),
            w <= MAX_DIM,
            h == map.len(),
            grid_of(map@) == cleared(grid, shots),
            forall|k: int| 0 <= k < n ==> struck[k] == strikes_target(grid, shots, k),
            shots_of(kept@) == survivors(grid, shots, i as int),
        decreases n - i,
    {
        let y = bullets[i].y as usize;
        let x = bullets[i].x as usize + 1;
        proof {
            lemma_cleared_shape(grid, shots);
            assert(tile_at(grid_of(map@), y as int, x as int) == TILE_WALL <==> tile_at(
                grid,
                y as int,
                x as int,
            ) == TILE_WALL);
        }
        if !struck[i] && x < w && !(y < h && map[y][x] == TILE_WALL) {
            let bullet = Bullet { x: x as u8, y: bullets[i].y };
            kept.push(bullet);
        }
        i += 1;
    }
    kept
}

/// One session of the game, from loading the map to win or loss.
#[derive(Debug)]
pub struct Game {
    player: Player,
    score: i32,
    map: Vec<Vec<u8>>,
    scroll_x: u8,
    ended: bool,
    started: bool,
    won: bool,
    bullets: Vec<Bullet>,
    time: u32,
}

impl View for Game {
    type V = State;

    closed spec fn view(&self) -> State {
        State {
            grid: grid_of(self.map@),
            player_y: self.player.y as int,
            scroll_x: self.scroll_x as int,
            time: self.time as int,
            score: self.score as int,
            bullets: shots_of(self.bullets@),
            started: self.started,
            ended: self.ended,
            won: self.won,
        }
    }
}

impl Game {
    /// The game is in a state that the operations keep it in.
    pub open spec fn wf(&self) -> bool {
        self@.valid()
    }

    /// Reads a level text: the grid it describes, or the reason why it
    /// describes none.
    pub fn load_map_from_string(map_str: &str) -> (loaded: Result<Vec<Vec<u8>>, LoadError>)
        ensures
            match loaded {
                Ok(map) => load_outcome(map_str@) == Ok::<Seq<Seq<u8>>, LoadError>(grid_of(map@)),
                Err(e) => load_outcome(map_str@) == Err::<Seq<Seq<u8>>, LoadError>(e),
            },
    {
        let chars = chars_of(map_str);
        let ls = split_lines(&chars);
        let ghost text_lines = lines(map_str@);
        let mut map: Vec<Vec<u8>> = Vec::new();
        let mut r: usize = 0;
        while r < ls.len()
            invariant
                r <= ls.len(),
                map.len() == r,
                lines_of(ls@) == text_lines,
                text_lines == lines(map_str@),
                forall|k: int| 0 <= k < r ==> line_known(#[trigger] text_lines[k]),
                forall|k: int| 0 <= k < r ==> (#[trigger] map[k])@ == row_of(text_lines[k]),
            decreases ls.len() - r,
        {
            match decode_line(&ls[r]) {
                Some(row) => {
                    map.push(row);
                },
                None => {
                    assert(!line_known(text_lines[r as int]));
                    return Err(LoadError::InvalidCharacter);
                },
            }
            r += 1;
        }
        let mut r: usize = 0;
        while r < map.len()
            invariant
                r <= map.len(),
                map.len() == text_lines.len(),
                grid_of(map@) == rows_of(text_lines),
                text_lines == lines(map_str@),
                forall|k: int|
                    0 <= k < text_lines.len() ==> line_known(#[trigger] text_lines[k]),
                forall|k: int| 0 <= k < r ==> (#[trigger] text_lines[k]).len() == text_lines[0].len(),
            decreases map.len() - r,
        {
            assert(grid_of(map@)[r as int].len() == text_lines[r as int].len());
            assert(grid_of(map@)[0].len() == text_lines[0].len());
            if map[r].len() != map[0].len() {
                return Err(LoadError::RaggedRows);
            }
            r += 1;
        }
        if map.len() > MAX_DIM || (map.len() > 0 && map[0].len() > MAX_DIM) {
            return Err(LoadError::TooLarge);
        }
        Ok(map)
    }

    /// A new game on the map that `map_str` describes: the player on row 1,
    /// nothing scrolled, no bullet, no point, not started. There is no game
    /// where the text describes no map.
    pub fn new(map_str: &str) -> (made: Result<Game, LoadError>)
        ensures
            match made {
                Ok(game) => game.wf() && load_outcome(map_str@) == Ok::<Seq<Seq<u8>>, LoadError>(
                    game@.grid,
                ) && game@ == State::initial(game@.grid),
                Err(e) => load_outcome(map_str@) == Err::<Seq<Seq<u8>>, LoadError>(e),
            },
    {
        match Game::load_map_from_string(map_str) {
            Ok(map) => {
                let game = Game {
                    player: Player::new(1),
                    score: 0,
                    map,
                    scroll_x: 0,
                    ended: false,
                    started: false,
                    won: false,
                    bullets: Vec::new(),
                    time: 0,
                };
                proof {
                    lemma_loaded_grid(map_str@);
                    assert(game@.bullets =~= Seq::<Shot>::empty());
                }
                Ok(game)
            },
            Err(e) => Err(e),
        }
    }

    /// Number of columns of the map.
    pub fn width(&self) -> (w: usize)
        ensures
            w == self@.width(),
    {
        if self.map.len() == 0 {
            0
        } else {
            self.map[0].len()
        }
    }

    /// Number of rows of the map.
    pub fn height(&self) -> (h: usize)
        ensures
            h == self@.height(),
    {
        self.map.len()
    }

    /// The code at `(row, col)`, where a cell outside the map reads as empty.
    fn tile_or_empty(&self, row: usize, col: usize) -> (code: u8)
        requires
            rectangular(self@.grid),
        ensures
            code == tile_at(self@.grid, row as int, col as int),
    {
        if row < self.map.len() && col < self.width() {
            assert(grid_of(self.map@)[row as int].len() == width(grid_of(self.map@)));
            self.map[row][col]
        } else {
            TILE_EMPTY
        }
    }

    /// The player is on a cell of the map that is not empty.
    fn check_collision(&self) -> (hit: bool)
        requires
            rectangular(self@.grid),
        ensures
            hit == collides(self@.grid, self@.player_y, self@.scroll_x),
    {
        self.tile_or_empty(self.player.y as usize, self.scroll_x as usize) > TILE_EMPTY
    }

    /// Starts the game. A game that was started stays as it is.
    pub fn start(&mut self)
        requires
            old(self).wf(),
        ensures
            final(self).wf(),
            final(self)@ == old(self)@.start(),
    {
        self.started = true;
    }

    /// The game has been started.
    pub fn is_started(&self) -> (started: bool)
        ensures
            started == self@.started,
    {
        self.started
    }

    /// The game is over.
    pub fn is_ended(&self) -> (ended: bool)
        ensures
            ended == self@.ended,
    {
        self.ended
    }

    /// The game is over and the player reached the last column.
    pub fn is_won(&self) -> (won: bool)
        ensures
            won == self@.won,
    {
        self.won
    }

    /// Plays one frame. Nothing happens unless the game is running. Else the
    /// frame counter goes up by one; the map scrolls by one column on even
    /// frames; the bullets fly on; and the game is over where the player is
    /// then on a cell that is not empty (lost), or else on the last column
    /// (won).
    pub fn update(&mut self)
        requires
            old(self).wf(),
        ensures
            final(self).wf(),
            final(self)@ == old(self)@.update(),
    {
        if !self.started || self.ended {
            return ;
        }
        proof {
            lemma_update_valid(old(self)@);
        }
        self.time += 1;
        if self.time % 2 == 0 {
            self.scroll_x += 1;
        }
        let kept = fly(&mut self.map, &self.bullets);
        self.bullets = kept;
        proof {
            lemma_cleared_shape(old(self)@.grid, advanced(old(self)@.bullets));
        }
        if self.check_collision() {
            self.ended = true;
            return ;
        }
        if self.scroll_x as usize + 1 >= self.width() {
            self.ended = true;
            self.won = true;
        }
    }

    /// The player.
    pub fn get_player(&self) -> (player: Player)
        ensures
            player.row() == self@.player_y,
    {
        Player::new(self.player.y())
    }

    /// Moves the player one row up, while the game is running and there is a
    /// row above. The game is over if the player is then on a cell that is not
    /// empty; the player stays there.
    pub fn move_up(&mut self)
        requires
            old(self).wf(),
        ensures
            final(self).wf(),
            final(self)@ == old(self)@.move_up(),
            old(self)@.player_y == 0 ==> final(self)@ == old(self)@,
    {
        if self.started && !self.ended && self.player.y > 0 {
            self.player.y -= 1;
            if self.check_collision() {
                self.ended = true;
            }
        }
    }

    /// Moves the player one row down, while the game is running and there is a
    /// row below. The game is over if the player is then on a cell that is not
    /// empty; the player stays there.
    pub fn move_down(&mut self)
        requires
            old(self).wf(),
        ensures
            final(self).wf(),
            final(self)@ == old(self)@.move_down(),
            old(self)@.player_y >= old(self)@.height() - 1 ==> final(self)@ == old(self)@,
    {
        if self.started && !self.ended && (self.player.y as usize) + 1 < self.height() {
            self.player.y += 1;
            if self.check_collision() {
                self.ended = true;
            }
        }
    }

    /// Fires a bullet, while the game is running: it starts one column ahead of
    /// the player, on the player's row.
    pub fn fire(&mut self)
        requires
            old(self).wf(),
        ensures
            final(self).wf(),
            final(self)@ == old(self)@.fire(),
    {
        if self.started && !self.ended {
            let bullet = Bullet { x: self.scroll_x + 1, y: self.player.y };
            self.bullets.push(bullet);
            assert(self@.bullets =~= old(self)@.bullets.push(bullet@));
        }
    }

    /// Awards `points`, which may be negative.
    pub fn update_score(&mut self, points: i32)
        requires
            old(self).wf(),
            i32::MIN <= old(self)@.score + points <= i32::MAX,
        ensures
            final(self).wf(),
            final(self)@ == old(self)@.update_score(points as int),
    {
        self.score += points;
    }

    /// The points awarded so far.
    pub fn get_score(&self) -> (score: i32)
        ensures
            score == self@.score,
    {
        self.score
    }

    /// The code at `(row, col)`, a cell of the map.
    pub fn get_tile(&self, row: usize, col: usize) -> (code: u8)
        requires
            self.wf(),
            in_bounds(self@.grid, row as int, col as int),
        ensures
            code == self@.grid[row as int][col as int],
    {
        assert(grid_of(self.map@)[row as int].len() == width(grid_of(self.map@)));
        self.map[row][col]
    }

    /// Sets `(row, col)`, a cell of the map, to the tile code `value`.
    pub fn set_tile(&mut self, row: usize, col: usize, value: u8)
        requires
            old(self).wf(),
            in_bounds(old(self)@.grid, row as int, col as int),
            value <= TILE_TARGET,
        ensures
            final(self).wf(),
            final(self)@ == old(self)@.set_tile(row as int, col as int, value),
    {
        assert(grid_of(self.map@)[row as int].len() == width(grid_of(self.map@)));
        self.map[row][col] = value;
        proof {
            let before = old(self)@.grid;
            let after = with_tile(before, row as int, col as int, value);
            assert(grid_of(self.map@) =~= after);
            lemma_set_tile_valid(old(self)@, row as int, col as int, value);
        }
    }

    /// A copy of the whole map, row after row.
    pub fn get_map(&self) -> (cells: Vec<u8>)
        requires
            self.wf(),
        ensures
            is_row_major(self@.grid, cells@),
    {
        let ghost grid = self@.grid;
        let h = self.height();
        let w = self.width();
        let mut cells: Vec<u8> = Vec::new();
        let mut r: usize = 0;
        while r < h
            invariant
                r <= h,
                grid == grid_of(self.map@),
                rectangular(grid),
                h == height(grid),
                w == width(grid),
                cells.len() == r * w,
                forall|i: int, j: int|
                    0 <= i < r && 0 <= j < w ==> cells[i * w + j] == #[trigger] grid[i][j],
            decreases h - r,
        {
            let mut c: usize = 0;
            while c < w
                invariant
                    r < h,
                    c <= w,
                    grid == grid_of(self.map@),
                    h == height(grid),
                    w == width(grid),
                    grid[r as int].len() == w,
                    cells.len() == r * w + c,
                    forall|i: int, j: int|
                        0 <= i < r && 0 <= j < w ==> cells[i * w + j] == #[trigger] grid[i][j],
                    forall|j: int| 0 <= j < c ==> cells[r * w + j] == #[trigger] grid[r as int][j],
                decreases w - c,
            {
                cells.push(self.map[r][c]);
                proof {
                    assert forall|i: int, j: int| 0 <= i < r && 0 <= j < w implies cells[i * w
                        + j] == #[trigger] grid[i][j] by {
                        lemma_cell_index(i, j, r as int, w as int);
                    }
                }
                c += 1;
            }
            proof {
                assert((r + 1) * w == r * w + w) by (nonlinear_arith);
            }
            r += 1;
        }
        cells
    }

    /// A copy of the part of the map that is in view: `VISIBLE_HEIGHT` rows of
    /// `VISIBLE_WIDTH` cells, row after row, from row 0 and from the player's
    /// column on. Where the viewport reaches beyond the map, it shows empty
    /// cells.
    pub fn get_visible_map(&self) -> (cells: Vec<u8>)
        requires
            self.wf(),
        ensures
            cells@ == window(self@.grid, self@.scroll_x),
            cells@.len() == VISIBLE_WIDTH * VISIBLE_HEIGHT,
    {
        let mut cells: Vec<u8> = Vec::new();
        let mut k: usize = 0;
        while k < VISIBLE_WIDTH * VISIBLE_HEIGHT
            invariant
                k <= VISIBLE_WIDTH * VISIBLE_HEIGHT,
                self.wf(),
                cells.len() == k,
                forall|i: int|
                    0 <= i < k ==> cells[i] == tile_at(
                        self@.grid,
                        i / (VISIBLE_WIDTH as int),
                        self@.scroll_x + i % (VISIBLE_WIDTH as int),
                    ),
            decreases VISIBLE_WIDTH * VISIBLE_HEIGHT - k,
        {
            let row = k / VISIBLE_WIDTH;
            let col = self.scroll_x as usize + k % VISIBLE_WIDTH;
            cells.push(self.tile_or_empty(row, col));
            k += 1;
        }
        cells
    }

    /// Number of columns of the viewport.
    pub fn get_visible_width(&self) -> (w: usize)
        ensures
            w == VISIBLE_WIDTH,
    {
        VISIBLE_WIDTH
    }

    /// Number of rows of the viewport.
    pub fn get_visible_height(&self) -> (h: usize)
        ensures
            h == VISIBLE_HEIGHT,
    {
        VISIBLE_HEIGHT
    }

    /// The left column of the viewport: how far the map has scrolled.
    pub fn get_visible_x(&self) -> (x: u8)
        ensures
            x == self@.scroll_x,
    {
        self.scroll_x
    }

    /// A copy of the bullets in flight, oldest first.
    pub fn bullets(&self) -> (copy: Vec<Bullet>)
        ensures
            shots_of(copy@) == self@.bullets,
    {
        let mut copy: Vec<Bullet> = Vec::new();
        let mut i: usize = 0;
        while i < self.bullets.len()
            invariant
                i <= self.bullets.len(),
                copy@ == self.bullets@.take(i as int),
            decreases self.bullets.len() - i,
        {
            copy.push(self.bullets[i]);
            i += 1;
        }
        copy
    }

    /// The number of bullets in flight.
    pub fn num_bullets(&self) -> (n: usize)
        ensures
            n == self@.bullets.len(),
    {
        self.bullets.len()
    }

    /// Frames played.
    pub fn get_time(&self) -> (time: u32)
        ensures
            time == self@.time,
    {
        self.time
    }
}

} // verus!
