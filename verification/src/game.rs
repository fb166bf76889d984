//! The Minesweeper game engine: configuration, the game-state machine, and
//! the reveal / flag transitions with win and loss detection.

use vstd::prelude::*;

use crate::board::{
    cell_ok, generate_mines, grid_wf, initialize_grid, lemma_completion_reveals_all, mine_mask,
    num_mines, GridState,
};
use crate::counting::{
    count_true, lemma_count_true_all_false, lemma_count_true_bounds, lemma_count_true_membership,
    lemma_count_true_update, seq_has,
};
use crate::geometry::{
    adjacent, in_bounds, lemma_neighbor_seq_props, lemma_sidx_bounds, lemma_sidx_injective,
    neighbor_seq, pos_to_index, sidx,
};
use crate::reach::{
    fill_reaches, lemma_reach_nonmine, lemma_reach_self, lemma_reach_singleton, lemma_reach_step,
    lemma_reach_target, lemma_region_covers_reach, region_closed,
};
use crate::timer::Timer;

verus! {

/// Board dimensions and how many mines the board is meant to carry.
#[derive(Copy, Clone, Debug, PartialEq, Eq, Structural, Hash)]
pub struct GameConfig {
    pub width: u32,
    pub height: u32,
    pub mines: usize,
}

impl GameConfig {
    /// Number of cells of the board, as a mathematical integer.
    pub open spec fn spec_total(self) -> int {
        self.width as int * self.height as int
    }

    /// A configuration the engine accepts: the mines fit on the board, and
    /// the board is small enough for the engine's `i32` flag counter.
    pub open spec fn valid(self) -> bool {
        self.mines as int <= self.spec_total() && self.spec_total() <= i32::MAX as int
    }

    pub fn new(width: u32, height: u32, mines: usize) -> (c: GameConfig)
        ensures
            c == (GameConfig { width, height, mines }),
    {
        GameConfig { width, height, mines }
    }

    /// The classic 9 x 9 board with 10 mines.
    pub fn beginner() -> (c: GameConfig)
        ensures
            c == (GameConfig { width: 9u32, height: 9u32, mines: 10usize }),
    {
        GameConfig { width: 9, height: 9, mines: 10 }
    }

    /// The classic 16 x 16 board with 40 mines.
    pub fn intermediate() -> (c: GameConfig)
        ensures
            c == (GameConfig { width: 16u32, height: 16u32, mines: 40usize }),
    {
        GameConfig { width: 16, height: 16, mines: 40 }
    }

    /// The classic 32 x 16 board with 99 mines.
    pub fn expert() -> (c: GameConfig)
        ensures
            c == (GameConfig { width: 32u32, height: 16u32, mines: 99usize }),
    {
        GameConfig { width: 32, height: 16, mines: 99 }
    }

    pub fn width(&self) -> (w: u32)
        ensures
            w == self.width,
    {
        self.width
    }

    pub fn height(&self) -> (h: u32)
        ensures
            h == self.height,
    {
        self.height
    }

    pub fn mines(&self) -> (m: usize)
        ensures
            m == self.mines,
    {
        self.mines
    }

    pub fn total_size(&self) -> (t: usize)
        requires
            self.spec_total() <= u32::MAX as int,
        ensures
            t == self.spec_total(),
    {
        (self.width * self.height) as usize
    }
}

/// A move the solver can suggest and the engine can apply.
#[derive(Copy, Clone, Debug, PartialEq, Eq, Structural, Hash)]
pub enum GameMove {
    NoOp,
    Reveal(u32, u32),
    Flag(u32, u32),
}

/// The game-state machine: `Reset` and `Playing` are open; `Completed` and
/// `Dead` are terminal.
#[derive(Copy, Clone, Debug, PartialEq, Eq, Structural, Hash)]
pub enum GameState {
    Reset,
    Playing,
    Completed,
    Dead,
}

impl GameState {
    /// Terminal states accept no further reveal or flag mutation.
    pub open spec fn spec_game_over(self) -> bool {
        self == GameState::Completed || self == GameState::Dead
    }

    pub fn game_over(self) -> (r: bool)
        ensures
            r == self.spec_game_over(),
    {
        match self {
            GameState::Reset | GameState::Playing => false,
            GameState::Completed | GameState::Dead => true,
        }
    }
}

/// A running game: the immutable intrinsic grid, the player's revealed and
/// flagged cells, the derived counters, and the state machine.
pub struct MinesweeperGame {
    pub config: GameConfig,
    pub state: GameState,
    pub mines_remaining: i32,
    pub grid: Vec<GridState>,
    pub flagged: Vec<bool>,
    pub revealed: Vec<bool>,
    pub revealed_count: usize,
    pub timer: Timer,
}

impl MinesweeperGame {
    pub open spec fn spec_width(self) -> int {
        self.config.width as int
    }

    pub open spec fn spec_height(self) -> int {
        self.config.height as int
    }

    pub open spec fn spec_total(self) -> int {
        self.config.spec_total()
    }

    pub open spec fn spec_in_bounds(self, x: int, y: int) -> bool {
        in_bounds(x, y, self.spec_width(), self.spec_height())
    }

    /// Flat index of `(x, y)` in this game's grids.
    pub open spec fn idx(self, x: int, y: int) -> int {
        sidx(x, y, self.spec_width())
    }

    /// The intrinsic state of the cell at `(x, y)`.
    pub open spec fn cell(self, x: int, y: int) -> GridState {
        self.grid@[self.idx(x, y)]
    }

    pub open spec fn revealed_at(self, x: int, y: int) -> bool {
        self.revealed@[self.idx(x, y)]
    }

    pub open spec fn flagged_at(self, x: int, y: int) -> bool {
        self.flagged@[self.idx(x, y)]
    }

    pub open spec fn spec_game_over(self) -> bool {
        self.state.spec_game_over()
    }

    /// The engine's invariant. Everything the contracts promise is relative
    /// to a well-formed game, and every operation preserves well-formedness.
    pub open spec fn wf(self) -> bool {
        let total = self.spec_total();
        &&& self.config.valid()
        &&& self.grid@.len() == total
        &&& self.flagged@.len() == total
        &&& self.revealed@.len() == total
        &&& grid_wf(self.grid@, self.spec_width(), self.spec_height())
        &&& num_mines(self.grid@) == self.config.mines as int
        &&& self.revealed_count as int == count_true(self.revealed@)
        &&& self.mines_remaining as int == self.config.mines as int - count_true(self.flagged@)
        &&& forall|i: int|
            0 <= i < total ==> !((#[trigger] self.revealed@[i]) && self.flagged@[i])
        &&& self.state != GameState::Dead ==> forall|i: int|
            0 <= i < total && (#[trigger] self.grid@[i]) is Mine ==> !self.revealed@[i]
        &&& self.state == GameState::Reset ==> forall|i: int|
            0 <= i < total ==> !(#[trigger] self.revealed@[i]) && !self.flagged@[i]
        &&& self.state == GameState::Completed ==> {
            &&& forall|i: int| 0 <= i < total && (#[trigger] self.grid@[i]) is Mine
                ==> self.flagged@[i]
            &&& self.revealed_count as int == total - self.config.mines as int
        }
        &&& (self.state == GameState::Reset <==> self.timer.start_time is None)
        &&& (self.state == GameState::Completed <==> self.timer.end_time is Some)
    }

    /// The display state the player sees for `(x, y)`: the fog-of-war table.
    /// With `show_actual` the intrinsic truth shows through for unrevealed
    /// cells instead.
    pub open spec fn peek_spec(self, x: int, y: int, show_actual: bool) -> GridState {
        let s = self.cell(x, y);
        let r = self.revealed_at(x, y);
        let f = self.flagged_at(x, y);
        let over = self.spec_game_over();
        if !r && !show_actual {
            if f {
                if over && !(s is Mine) {
                    GridState::MineIncorrect
                } else {
                    GridState::Flagged
                }
            } else if over && s is Mine {
                GridState::Mine
            } else {
                GridState::Unrevealed
            }
        } else if f {
            if s is Mine {
                GridState::Mine
            } else {
                GridState::MineIncorrect
            }
        } else {
            if s is Mine {
                if r {
                    GridState::MineHighlighted
                } else {
                    GridState::Mine
                }
            } else {
                s
            }
        }
    }

    /// Build a game from an explicit mine placement: the placement must
    /// list exactly the configured number of distinct on-board cells.
    pub fn with_mines(config: GameConfig, mine_positions: &[usize]) -> (g: MinesweeperGame)
        requires
            config.valid(),
            mine_positions@.len() == config.mines as int,
            mine_positions@.no_duplicates(),
            forall|k: int|
                0 <= k < mine_positions@.len() ==> ((#[trigger] mine_positions@[k]) as int)
                    < config.spec_total(),
        ensures
            g.wf(),
            g.config == config,
            g.state == GameState::Reset,
            g.revealed_count == 0,
            g.mines_remaining as int == config.mines as int,
            forall|i: int|
                0 <= i < g.grid@.len() ==> ((#[trigger] g.grid@[i]) is Mine <==> seq_has(
                    mine_positions@,
                    i,
                )),
            forall|i: int|
                0 <= i < g.grid@.len() ==> !(#[trigger] g.revealed@[i]) && !g.flagged@[i],
    {
        let grid = initialize_grid(&config, mine_positions);
        let n = grid.len();
        let flagged: Vec<bool> = vec![false; n];
        let revealed: Vec<bool> = vec![false; n];
        proof {
            lemma_count_true_all_false(flagged@);
            lemma_count_true_all_false(revealed@);
            assert forall|i: int| 0 <= i < grid@.len() implies (#[trigger] mine_mask(grid@)[i]
                <==> seq_has(mine_positions@, i)) by {}
            lemma_count_true_membership(mine_mask(grid@), mine_positions@);
        }
        MinesweeperGame {
            config,
            state: GameState::Reset,
            mines_remaining: mine_positions.len() as i32,
            grid,
            flagged,
            revealed,
            revealed_count: 0,
            timer: Timer::default(),
        }
    }

    /// Build a game with randomly placed mines.
    pub fn new(config: GameConfig) -> (g: MinesweeperGame)
        requires
            config.valid(),
        ensures
            g.wf(),
            g.config == config,
            g.state == GameState::Reset,
            g.revealed_count == 0,
            g.mines_remaining as int == config.mines as int,
            forall|i: int|
                0 <= i < g.grid@.len() ==> !(#[trigger] g.revealed@[i]) && !g.flagged@[i],
    {
        let mines = generate_mines(config.mines(), config.total_size());
        MinesweeperGame::with_mines(config, mines.as_slice())
    }

    pub fn config(&self) -> (c: GameConfig)
        ensures
            c == self.config,
    {
        self.config
    }

    pub fn state(&self) -> (s: GameState)
        ensures
            s == self.state,
    {
        self.state
    }

    pub fn game_over(&self) -> (r: bool)
        ensures
            r == self.spec_game_over(),
    {
        self.state.game_over()
    }

    pub fn total_size(&self) -> (t: usize)
        requires
            self.wf(),
        ensures
            t as int == self.spec_total(),
    {
        self.config.total_size()
    }

    pub fn width(&self) -> (w: u32)
        ensures
            w == self.config.width,
    {
        self.config.width()
    }

    pub fn height(&self) -> (h: u32)
        ensures
            h == self.config.height,
    {
        self.config.height()
    }

    pub fn mines_remaining(&self) -> (m: i32)
        ensures
            m == self.mines_remaining,
    {
        self.mines_remaining
    }

    pub fn timer_elapsed(&self) -> std::time::Duration {
        self.timer.elapsed_duration()
    }

    pub fn revealed_count(&self) -> (c: usize)
        ensures
            c == self.revealed_count,
    {
        self.revealed_count
    }

    /// The up-to-8 in-bounds neighbors of `(x, y)`, in row-major order.
    pub fn neighbors(&self, x: u32, y: u32) -> (ns: Vec<(u32, u32)>)
        requires
            self.wf(),
            x < self.config.width,
            y < self.config.height,
        ensures
            ns@ == neighbor_seq(self.spec_width(), self.spec_height(), x as int, y as int),
    {
        let w = self.config.width;
        let h = self.config.height;
        let mut result: Vec<(u32, u32)> = Vec::new();
        if y > 0 {
            if x > 0 {
                result.push((x - 1, y - 1));
            }
            result.push((x, y - 1));
            if x + 1 < w {
                result.push((x + 1, y - 1));
            }
        }
        if x > 0 {
            result.push((x - 1, y));
        }
        if x + 1 < w {
            result.push((x + 1, y));
        }
        if y + 1 < h {
            if x > 0 {
                result.push((x - 1, y + 1));
            }
            result.push((x, y + 1));
            if x + 1 < w {
                result.push((x + 1, y + 1));
            }
        }
        proof {
            assert(result@ =~= neighbor_seq(w as int, h as int, x as int, y as int));
        }
        result
    }

    /// The fog-of-war display state of `(x, y)`, exactly as `peek_spec`
    /// tabulates it.
    pub fn peek_at(&self, x: u32, y: u32, show_actual: bool) -> (r: GridState)
        requires
            self.wf(),
            x < self.config.width,
            y < self.config.height,
        ensures
            r == self.peek_spec(x as int, y as int, show_actual),
    {
        proof {
            lemma_sidx_bounds(x as int, y as int, self.spec_width(), self.spec_height());
        }
        let i = pos_to_index(x, y, self.config.width);
        let s = self.grid[i];
        let revealed = self.revealed[i];
        let flagged = self.flagged[i];
        let over = self.game_over();

        if !revealed && !show_actual {
            if flagged {
                if over && s != GridState::Mine {
                    GridState::MineIncorrect
                } else {
                    GridState::Flagged
                }
            } else if over && s == GridState::Mine {
                GridState::Mine
            } else {
                GridState::Unrevealed
            }
        } else if flagged {
            if s == GridState::Mine {
                GridState::Mine
            } else {
                GridState::MineIncorrect
            }
        } else {
            if s == GridState::Mine {
                if revealed {
                    GridState::MineHighlighted
                } else {
                    GridState::Mine
                }
            } else {
                s
            }
        }
    }

    /// What `toggle_flag` does: a no-op on a finished game or a revealed
    /// cell, otherwise the flag flips, the mine counter moves the other
    /// way, and the game is (now) being played.
    pub open spec fn toggle_post(pre: Self, post: Self, x: int, y: int, r: bool) -> bool {
        let i = pre.idx(x, y);
        if pre.spec_game_over() {
            post == pre && r == false
        } else if pre.revealed@[i] {
            post == pre && r == false
        } else {
            let was = pre.flagged@[i];
            &&& r == !was
            &&& post.config == pre.config
            &&& post.grid == pre.grid
            &&& post.revealed == pre.revealed
            &&& post.revealed_count == pre.revealed_count
            &&& post.flagged@ == pre.flagged@.update(i, !was)
            &&& post.mines_remaining as int == pre.mines_remaining as int + (if was {
                1int
            } else {
                -1int
            })
            &&& post.state == GameState::Playing
            &&& post.timer.start_time is Some
            &&& post.timer.end_time is None
        }
    }

    /// Flip the flag on an unrevealed cell; returns the new flag value.
    /// Once the game is over, or on a revealed cell, nothing changes and
    /// the result is `false`.
    pub fn toggle_flag(&mut self, x: u32, y: u32) -> (r: bool)
        requires
            old(self).wf(),
            x < old(self).config.width,
            y < old(self).config.height,
        ensures
            final(self).wf(),
            Self::toggle_post(*old(self), *final(self), x as int, y as int, r),
    {
        proof {
            lemma_sidx_bounds(x as int, y as int, self.spec_width(), self.spec_height());
        }
        if self.game_over() {
            return false;
        }
        let i = pos_to_index(x, y, self.config.width);
        if self.revealed[i] {
            return false;
        }
        if !self.timer.is_started() {
            self.timer.start();
        }
        self.state = GameState::Playing;
        proof {
            lemma_count_true_update(old(self).flagged@, i as int, !old(self).flagged@[i as int]);
            lemma_count_true_bounds(old(self).flagged@);
        }
        if self.flagged[i] {
            proof {
                lemma_count_true_bounds(old(self).flagged@.update(i as int, false));
            }
            self.flagged[i] = false;
            self.mines_remaining = self.mines_remaining + 1;
        } else {
            proof {
                count_flags_has_room(*old(self), i as int);
            }
            self.flagged[i] = true;
            self.mines_remaining = self.mines_remaining - 1;
        }
        self.flagged[i]
    }

    /// When the player has revealed every safe cell, finish the game:
    /// state becomes `Completed`, the stopwatch stops, and every mine is
    /// flagged (the counter follows each flag placed). Otherwise nothing
    /// changes.
    fn maybe_complete(&mut self) -> (c: bool)
        requires
            old(self).wf(),
            old(self).state == GameState::Playing,
        ensures
            final(self).wf(),
            c == (old(self).revealed_count as int == old(self).spec_total()
                - old(self).config.mines as int),
            !c ==> *final(self) == *old(self),
            c ==> {
                &&& final(self).state == GameState::Completed
                &&& final(self).config == old(self).config
                &&& final(self).grid == old(self).grid
                &&& final(self).revealed == old(self).revealed
                &&& final(self).revealed_count == old(self).revealed_count
                &&& final(self).flagged@.len() == old(self).flagged@.len()
                &&& forall|j: int|
                    0 <= j < old(self).flagged@.len() ==> (#[trigger] final(self).flagged@[j]) == (
                    old(self).flagged@[j] || old(self).grid@[j] is Mine)
                &&& final(self).timer.start_time == old(self).timer.start_time
            },
    {
        let total = self.total_size();
        let m = self.config.mines;
        if self.revealed_count != total - m {
            return false;
        }
        let ghost mines_int = self.config.mines as int;
        let n = self.grid.len();
        let mut j: usize = 0;
        while j < n
            invariant
                j <= n,
                n == self.grid@.len(),
                self.config == old(self).config,
                self.state == old(self).state,
                self.grid == old(self).grid,
                self.revealed == old(self).revealed,
                self.revealed_count == old(self).revealed_count,
                self.timer == old(self).timer,
                old(self).wf(),
                mines_int == self.config.mines as int,
                self.flagged@.len() == n,
                forall|k: int|
                    0 <= k < n ==> (#[trigger] self.flagged@[k]) == (old(self).flagged@[k] || (k
                        < j && old(self).grid@[k] is Mine)),
                self.mines_remaining as int == mines_int - count_true(self.flagged@),
            decreases n - j,
        {
            if self.grid[j] == GridState::Mine && !self.flagged[j] {
                proof {
                    lemma_count_true_update(self.flagged@, j as int, true);
                    lemma_count_true_bounds(self.flagged@.update(j as int, true));
                }
                self.flagged[j] = true;
                self.mines_remaining = self.mines_remaining - 1;
            }
            j = j + 1;
        }
        self.state = GameState::Completed;
        self.timer.end();
        true
    }

    /// What `reveal_at` does. Once the game is over, or on a flagged or
    /// already-revealed cell, nothing changes and the result is `false`.
    /// Otherwise the cell is revealed; a mine kills the game on the spot; a
    /// safe cell floods through its connected `Empty` region (exactly the
    /// cells `fill_reaches` describes) and completes the game when the last
    /// safe cell comes up, flagging every mine.
    pub open spec fn reveal_post(pre: Self, post: Self, x: int, y: int, r: bool) -> bool {
        let i = pre.idx(x, y);
        let total = pre.spec_total();
        if pre.spec_game_over() {
            post == pre && r == false
        } else if pre.flagged@[i] || pre.revealed@[i] {
            post == pre && r == false
        } else {
            &&& r == true
            &&& post.config == pre.config
            &&& post.grid == pre.grid
            &&& post.revealed@.len() == pre.revealed@.len()
            &&& post.flagged@.len() == pre.flagged@.len()
            &&& forall|cx: int, cy: int|
                pre.spec_in_bounds(cx, cy) ==> ((#[trigger] post.revealed@[pre.idx(cx, cy)])
                    <==> pre.revealed@[pre.idx(cx, cy)] || fill_reaches(pre, x, y, cx, cy))
            &&& post.revealed_count as int == count_true(post.revealed@)
            &&& post.timer.start_time is Some
            &&& if pre.grid@[i] is Mine {
                &&& post.state == GameState::Dead
                &&& post.revealed@ == pre.revealed@.update(i, true)
                &&& post.revealed_count as int == pre.revealed_count as int + 1
                &&& post.flagged == pre.flagged
                &&& post.mines_remaining == pre.mines_remaining
            } else {
                &&& (post.state == GameState::Completed || post.state == GameState::Playing)
                &&& (post.state == GameState::Completed <==> post.revealed_count as int == total
                    - pre.config.mines as int)
                &&& forall|cx: int, cy: int|
                    pre.spec_in_bounds(cx, cy) && !pre.revealed@[pre.idx(cx, cy)]
                        && (#[trigger] post.revealed@[pre.idx(cx, cy)]) ==> !(pre.grid@[pre.idx(
                        cx,
                        cy,
                    )] is Mine)
                &&& if post.state == GameState::Completed {
                    forall|j: int|
                        0 <= j < total ==> (#[trigger] post.flagged@[j]) == (pre.flagged@[j]
                            || pre.grid@[j] is Mine)
                } else {
                    post.flagged == pre.flagged && post.mines_remaining == pre.mines_remaining
                }
            }
        }
    }

    /// Reveal a cell. Returns `true` exactly when the board changed; see
    /// `reveal_post` for the full transition.
    pub fn reveal_at(&mut self, x: u32, y: u32) -> (r: bool)
        requires
            old(self).wf(),
            x < old(self).config.width,
            y < old(self).config.height,
        ensures
            final(self).wf(),
            Self::reveal_post(*old(self), *final(self), x as int, y as int, r),
    {
        let ghost g0 = *old(self);
        let ghost wi = self.spec_width();
        let ghost hi = self.spec_height();
        let ghost total = self.spec_total();
        proof {
            lemma_sidx_bounds(x as int, y as int, wi, hi);
        }
        if self.game_over() {
            return false;
        }
        let i = pos_to_index(x, y, self.config.width);
        if self.flagged[i] {
            return false;
        }
        if self.revealed[i] {
            return false;
        }
        if !self.timer.is_started() {
            self.timer.start();
        }
        self.state = GameState::Playing;
        proof {
            lemma_count_true_update(g0.revealed@, i as int, true);
            lemma_count_true_bounds(g0.revealed@.update(i as int, true));
            lemma_reach_self(g0, x as int, y as int);
        }
        self.revealed[i] = true;
        self.revealed_count = self.revealed_count + 1;

        let cell = self.grid[i];
        if cell == GridState::Mine {
            self.state = GameState::Dead;
            proof {
                assert forall|cx: int, cy: int| g0.spec_in_bounds(cx, cy) implies ((
                #[trigger] self.revealed@[g0.idx(cx, cy)]) <==> g0.revealed@[g0.idx(cx, cy)]
                    || fill_reaches(g0, x as int, y as int, cx, cy)) by {
                    lemma_sidx_bounds(cx, cy, wi, hi);
                    if !(cx == x as int && cy == y as int) {
                        if g0.idx(cx, cy) == g0.idx(x as int, y as int) {
                            lemma_sidx_injective(cx, cy, x as int, y as int, wi, hi);
                        }
                        if fill_reaches(g0, x as int, y as int, cx, cy) {
                            lemma_reach_singleton(g0, x as int, y as int, cx, cy);
                        }
                    }
                }
            }
            return true;
        }

        let completed = self.maybe_complete();
        if cell == GridState::Empty && !completed {
            self.flood_from(x, y, i, Ghost(g0));
        }
        proof {
            if !(cell is Empty) {
                // A numbered cell: nothing cascades.
                assert forall|cx: int, cy: int| g0.spec_in_bounds(cx, cy) implies ((
                #[trigger] self.revealed@[g0.idx(cx, cy)]) <==> g0.revealed@[g0.idx(cx, cy)]
                    || fill_reaches(g0, x as int, y as int, cx, cy)) by {
                    lemma_sidx_bounds(cx, cy, wi, hi);
                    if !(cx == x as int && cy == y as int) {
                        if g0.idx(cx, cy) == g0.idx(x as int, y as int) {
                            lemma_sidx_injective(cx, cy, x as int, y as int, wi, hi);
                        }
                        if fill_reaches(g0, x as int, y as int, cx, cy) {
                            lemma_reach_singleton(g0, x as int, y as int, cx, cy);
                        }
                    }
                }
            } else if completed {
                // Revealing this one cell already finished the board: every
                // safe cell is revealed, so the whole region is too.
                lemma_completion_reveals_all(self.grid@, self.revealed@);
                assert forall|cx: int, cy: int| g0.spec_in_bounds(cx, cy) implies ((
                #[trigger] self.revealed@[g0.idx(cx, cy)]) <==> g0.revealed@[g0.idx(cx, cy)]
                    || fill_reaches(g0, x as int, y as int, cx, cy)) by {
                    lemma_sidx_bounds(cx, cy, wi, hi);
                    if fill_reaches(g0, x as int, y as int, cx, cy) {
                        lemma_reach_nonmine(g0, x as int, y as int, cx, cy);
                    }
                    if self.revealed@[g0.idx(cx, cy)] && !g0.revealed@[g0.idx(cx, cy)] {
                        lemma_sidx_injective(cx, cy, x as int, y as int, wi, hi);
                        lemma_reach_self(g0, x as int, y as int);
                    }
                }
            }
            // Newly revealed cells are never mines here.
            assert forall|cx: int, cy: int|
                g0.spec_in_bounds(cx, cy) && !g0.revealed@[g0.idx(cx, cy)]
                    && (#[trigger] self.revealed@[g0.idx(cx, cy)]) implies !(g0.grid@[g0.idx(
                cx,
                cy,
            )] is Mine) by {
                lemma_sidx_bounds(cx, cy, wi, hi);
                if fill_reaches(g0, x as int, y as int, cx, cy) {
                    lemma_reach_nonmine(g0, x as int, y as int, cx, cy);
                }
            }
        }
        true
    }

    /// Apply a solver or UI move: `NoOp` does nothing, the others dispatch
    /// to `reveal` and `toggle_flag`.
    pub fn make_move(&mut self, m: GameMove) -> (r: bool)
        requires
            old(self).wf(),
            m matches GameMove::Reveal(x, y) ==> x < old(self).config.width && y < old(
                self,
            ).config.height,
            m matches GameMove::Flag(x, y) ==> x < old(self).config.width && y < old(
                self,
            ).config.height,
        ensures
            final(self).wf(),
            m is NoOp ==> r == false && *final(self) == *old(self),
            m matches GameMove::Reveal(x, y) ==> Self::reveal_post(
                *old(self),
                *final(self),
                x as int,
                y as int,
                r,
            ),
            m matches GameMove::Flag(x, y) ==> Self::toggle_post(
                *old(self),
                *final(self),
                x as int,
                y as int,
                r,
            ),
    {
        match m {
            GameMove::NoOp => false,
            GameMove::Reveal(x, y) => self.reveal_at(x, y),
            GameMove::Flag(x, y) => self.toggle_flag(x, y),
        }
    }

    /// The flood-fill worklist loop of `reveal`, entered after the `Empty`
    /// cell at `(x, y)` (flat index `i0`) was revealed in the game `g0` and
    /// the game did not complete on it.
    fn flood_from(&mut self, x: u32, y: u32, i0: usize, Ghost(g0): Ghost<MinesweeperGame>)
        requires
            g0.wf(),
            !g0.spec_game_over(),
            x < g0.config.width,
            y < g0.config.height,
            i0 as int == g0.idx(x as int, y as int),
            g0.cell(x as int, y as int) is Empty,
            !g0.flagged@[i0 as int],
            !g0.revealed@[i0 as int],
            old(self).wf(),
            old(self).state == GameState::Playing,
            old(self).config == g0.config,
            old(self).grid == g0.grid,
            old(self).flagged == g0.flagged,
            old(self).mines_remaining == g0.mines_remaining,
            old(self).revealed@ == g0.revealed@.update(i0 as int, true),
            old(self).revealed_count as int != old(self).spec_total() - g0.config.mines as int,
        ensures
            final(self).wf(),
            final(self).config == g0.config,
            final(self).grid == g0.grid,
            final(self).timer.start_time is Some,
            final(self).revealed@.len() == g0.revealed@.len(),
            final(self).flagged@.len() == g0.flagged@.len(),
            forall|cx: int, cy: int|
                g0.spec_in_bounds(cx, cy) ==> ((#[trigger] final(self).revealed@[g0.idx(cx, cy)])
                    <==> g0.revealed@[g0.idx(cx, cy)] || fill_reaches(g0, x as int, y as int, cx, cy)),
            final(self).revealed_count as int == count_true(final(self).revealed@),
            (final(self).state == GameState::Completed || final(self).state == GameState::Playing),
            (final(self).state == GameState::Completed <==> final(self).revealed_count as int
                == g0.spec_total() - g0.config.mines as int),
            if final(self).state == GameState::Completed {
                forall|j: int|
                    0 <= j < g0.spec_total() ==> (#[trigger] final(self).flagged@[j]) == (
                    g0.flagged@[j] || g0.grid@[j] is Mine)
            } else {
                final(self).flagged == g0.flagged && final(self).mines_remaining
                    == g0.mines_remaining
            },
    {
        let ghost wi = g0.spec_width();
        let ghost hi = g0.spec_height();
        let ghost total = g0.spec_total();
        let w = self.config.width;
        let h = self.config.height;
        proof {
            lemma_sidx_bounds(x as int, y as int, wi, hi);
            lemma_reach_self(g0, x as int, y as int);
            lemma_neighbor_seq_props(wi, hi, x as int, y as int);
        }
        let mut stack: Vec<(u32, u32)> = self.neighbors(x, y);
        let ghost mut parents: Seq<(u32, u32)> = Seq::new(stack@.len(), |k: int| (x, y));
        proof {
            // The only newly revealed cell so far is the start itself.
            assert forall|cx: int, cy: int|
                g0.spec_in_bounds(cx, cy) && (#[trigger] self.revealed@[g0.idx(cx, cy)]) implies
                g0.revealed@[g0.idx(cx, cy)] || fill_reaches(g0, x as int, y as int, cx, cy) by {
                lemma_sidx_bounds(cx, cy, wi, hi);
                if !g0.revealed@[g0.idx(cx, cy)] {
                    lemma_sidx_injective(cx, cy, x as int, y as int, wi, hi);
                }
            }
            // The initial worklist holds the start cell's neighbors.
            assert forall|k: int| 0 <= k < stack@.len() implies #[trigger] stack_entry_ok(
                g0,
                x as int,
                y as int,
                parents[k],
                stack@[k],
            ) by {
                assert(parents[k] == (x, y));
                assert(stack@[k] == neighbor_seq(wi, hi, x as int, y as int)[k]);
            }
            // All frontier obligations come from the start cell, and its
            // neighbors are exactly the initial worklist.
            assert forall|cx: int, cy: int, ax: int, ay: int|
                #[trigger] frontier_premise(g0, self.revealed@, cx, cy, ax, ay) implies
                frontier_conclusion(g0, self.revealed@, stack@, ax, ay) by {
                lemma_sidx_bounds(cx, cy, wi, hi);
                lemma_sidx_bounds(ax, ay, wi, hi);
                if cx == x as int && cy == y as int {
                    assert(stack@.contains(((ax as u32), (ay as u32))));
                } else {
                    lemma_sidx_injective(cx, cy, x as int, y as int, wi, hi);
                    assert(false);
                }
            }
            assert(frontier_ok(g0, self.revealed@, stack@));
        }

        while stack.len() != 0
            invariant_except_break
                self.wf(),
                self.state == GameState::Playing,
                self.config == g0.config,
                self.grid == g0.grid,
                self.flagged == g0.flagged,
                self.mines_remaining == g0.mines_remaining,
                self.revealed_count as int != total - g0.config.mines as int,
                g0.wf(),
                !g0.spec_game_over(),
                wi == g0.spec_width(),
                hi == g0.spec_height(),
                total == g0.spec_total(),
                w == g0.config.width,
                h == g0.config.height,
                x < w,
                y < h,
                i0 as int == g0.idx(x as int, y as int),
                (i0 as int) < total,
                g0.cell(x as int, y as int) is Empty,
                !g0.flagged@[i0 as int],
                !g0.revealed@[i0 as int],
                self.revealed@.len() == total,
                self.revealed@[i0 as int],
                forall|j: int| 0 <= j < total ==> ((#[trigger] g0.revealed@[j]) ==> self.revealed@[j]),
                forall|cx: int, cy: int|
                    g0.spec_in_bounds(cx, cy) && (#[trigger] self.revealed@[g0.idx(cx, cy)])
                        ==> g0.revealed@[g0.idx(cx, cy)] || fill_reaches(g0, x as int, y as int, cx, cy),
                parents.len() == stack@.len(),
                forall|k: int|
                    0 <= k < stack@.len() ==> #[trigger] stack_entry_ok(
                        g0,
                        x as int,
                        y as int,
                        parents[k],
                        stack@[k],
                    ),
                frontier_ok(g0, self.revealed@, stack@),
            ensures
                self.wf(),
                self.config == g0.config,
                self.grid == g0.grid,
                self.revealed@.len() == total,
                self.revealed@[i0 as int],
                forall|j: int| 0 <= j < total ==> ((#[trigger] g0.revealed@[j]) ==> self.revealed@[j]),
                forall|cx: int, cy: int|
                    g0.spec_in_bounds(cx, cy) && (#[trigger] self.revealed@[g0.idx(cx, cy)])
                        ==> g0.revealed@[g0.idx(cx, cy)] || fill_reaches(g0, x as int, y as int, cx, cy),
                self.timer.start_time is Some,
                (self.state == GameState::Completed || self.state == GameState::Playing),
                (self.state == GameState::Completed <==> self.revealed_count as int == total
                    - g0.config.mines as int),
                if self.state == GameState::Completed {
                    forall|j: int|
                        0 <= j < total ==> (#[trigger] self.flagged@[j]) == (g0.flagged@[j]
                            || g0.grid@[j] is Mine)
                } else {
                    self.flagged == g0.flagged && self.mines_remaining == g0.mines_remaining
                },
                self.state == GameState::Playing ==> frontier_ok(g0, self.revealed@, stack@)
                    && stack@.len() == 0,
            decreases total - count_true(self.revealed@), stack@.len(),
        {
            let ghost stack_pre = stack@;
            let ghost parents_pre = parents;
            let popped = stack.pop();
            let (nx, ny) = popped.unwrap();
            let ghost parent = parents_pre.last();
            proof {
                lemma_count_true_bounds(self.revealed@);
                assert(stack_entry_ok(
                    g0,
                    x as int,
                    y as int,
                    parents_pre[stack_pre.len() - 1],
                    stack_pre[stack_pre.len() - 1],
                ));
                parents = parents_pre.drop_last();
                lemma_sidx_bounds(nx as int, ny as int, wi, hi);
                assert(stack_pre =~= stack@.push((nx, ny)));
                // The surviving worklist entries keep their parents.
                assert forall|k: int| 0 <= k < stack@.len() implies #[trigger] stack_entry_ok(
                    g0,
                    x as int,
                    y as int,
                    parents[k],
                    stack@[k],
                ) by {
                    assert(stack_entry_ok(g0, x as int, y as int, parents_pre[k], stack_pre[k]));
                }
            }
            let j = pos_to_index(nx, ny, w);
            if !self.flagged[j] && !self.revealed[j] {
                proof {
                    lemma_reach_step(
                        g0,
                        x as int,
                        y as int,
                        parent.0 as int,
                        parent.1 as int,
                        nx as int,
                        ny as int,
                    );
                    lemma_reach_nonmine(g0, x as int, y as int, nx as int, ny as int);
                    lemma_count_true_update(self.revealed@, j as int, true);
                    lemma_count_true_bounds(self.revealed@.update(j as int, true));
                }
                let ghost rev_before = self.revealed@;
                self.revealed[j] = true;
                self.revealed_count = self.revealed_count + 1;
                proof {
                    assert forall|cx: int, cy: int|
                        g0.spec_in_bounds(cx, cy) && (#[trigger] self.revealed@[g0.idx(cx, cy)])
                            implies g0.revealed@[g0.idx(cx, cy)] || fill_reaches(
                        g0,
                        x as int,
                        y as int,
                        cx,
                        cy,
                    ) by {
                        lemma_sidx_bounds(cx, cy, wi, hi);
                        if !rev_before[g0.idx(cx, cy)] {
                            lemma_sidx_injective(cx, cy, nx as int, ny as int, wi, hi);
                        }
                    }
                }
                let completed = self.maybe_complete();
                if completed {
                    break;
                }
                if self.grid[j] == GridState::Empty {
                    let mut ns = self.neighbors(nx, ny);
                    proof {
                        lemma_neighbor_seq_props(wi, hi, nx as int, ny as int);
                        parents = parents + Seq::new(ns@.len(), |k: int| (nx, ny));
                    }
                    let ghost stack_mid = stack@;
                    stack.append(&mut ns);
                    proof {
                        assert forall|k: int| 0 <= k < stack@.len() implies #[trigger] stack_entry_ok(
                            g0,
                            x as int,
                            y as int,
                            parents[k],
                            stack@[k],
                        ) by {
                            if k < stack_mid.len() {
                                assert(parents[k] == parents_pre.drop_last()[k]);
                                assert(stack@[k] == stack_mid[k]);
                                assert(stack_entry_ok(
                                    g0,
                                    x as int,
                                    y as int,
                                    parents_pre[k],
                                    stack_pre[k],
                                ));
                            } else {
                                assert(parents[k] == (nx, ny));
                                assert(stack@[k] == neighbor_seq(wi, hi, nx as int, ny as int)[k
                                    - stack_mid.len()]);
                            }
                        }
                        // Everything that was on the worklist still is, and
                        // the new cell's neighbors joined it.
                        assert forall|k: int| 0 <= k < stack_mid.len() implies #[trigger] stack@.contains(
                            stack_mid[k],
                        ) by {
                            assert(stack@[k] == stack_mid[k]);
                        }
                        assert forall|ax: int, ay: int|
                            g0.spec_in_bounds(ax, ay) && adjacent(nx as int, ny as int, ax, ay)
                                implies #[trigger] stack@.contains(((ax as u32), (ay as u32))) by {
                            let ns_seq = neighbor_seq(wi, hi, nx as int, ny as int);
                            assert(ns_seq.contains(((ax as u32), (ay as u32))));
                            let ki = choose|ki: int|
                                0 <= ki < ns_seq.len() && ns_seq[ki] == ((ax as u32), (ay as u32));
                            assert(stack@[stack_mid.len() + ki] == ((ax as u32), (ay as u32)));
                        }
                        assert(stack_mid.push((nx, ny)) =~= stack_pre);
                        lemma_frontier_reveal(
                            g0,
                            rev_before,
                            self.revealed@,
                            stack_mid,
                            stack@,
                            nx,
                            ny,
                        );
                    }
                } else {
                    proof {
                        assert forall|k: int| 0 <= k < stack@.len() implies #[trigger] stack@.contains(
                            stack@[k],
                        ) by {}
                        lemma_frontier_reveal(
                            g0,
                            rev_before,
                            self.revealed@,
                            stack@,
                            stack@,
                            nx,
                            ny,
                        );
                    }
                }
            } else {
                proof {
                    lemma_frontier_pop(g0, self.revealed@, stack@, nx, ny);
                }
            }
        }
        proof {
            let rev2 = self.revealed@;
            if self.state == GameState::Playing {
                // The worklist drained: the revealed region is closed, so it
                // covers everything the fill can reach.
                assert forall|cx: int, cy: int, ax: int, ay: int|
                    {
                        &&& g0.spec_in_bounds(cx, cy)
                        &&& rev2[sidx(cx, cy, wi)]
                        &&& !g0.revealed@[sidx(cx, cy, wi)]
                        &&& g0.cell(cx, cy) is Empty
                        &&& adjacent(cx, cy, ax, ay)
                        &&& g0.spec_in_bounds(ax, ay)
                    } implies (rev2[sidx(ax, ay, wi)] || g0.flagged@[sidx(ax, ay, wi)]) by {
                    assert(frontier_premise(g0, rev2, cx, cy, ax, ay));
                    assert(frontier_conclusion(g0, rev2, stack@, ax, ay));
                    if stack@.contains(((ax as u32), (ay as u32))) {
                        let ki = choose|ki: int|
                            0 <= ki < stack@.len() && stack@[ki] == ((ax as u32), (ay as u32));
                        assert(false);
                    }
                }
                assert(region_closed(g0, rev2));
                lemma_region_covers_reach(g0, rev2, x as int, y as int);
            } else {
                lemma_completion_reveals_all(self.grid@, self.revealed@);
            }
            assert forall|cx: int, cy: int| g0.spec_in_bounds(cx, cy) implies ((
            #[trigger] self.revealed@[g0.idx(cx, cy)]) <==> g0.revealed@[g0.idx(cx, cy)]
                || fill_reaches(g0, x as int, y as int, cx, cy)) by {
                lemma_sidx_bounds(cx, cy, wi, hi);
                if fill_reaches(g0, x as int, y as int, cx, cy) {
                    lemma_reach_target(g0, x as int, y as int, cx, cy);
                    if self.state == GameState::Playing {
                        assert(rev2[sidx(cx, cy, g0.spec_width())]);
                    } else {
                        lemma_reach_nonmine(g0, x as int, y as int, cx, cy);
                    }
                }
            }
        }
    }
}

/// The premise of one flood-fill frontier obligation: `(cx, cy)` is a newly
/// revealed `Empty` cell of the fill and `(ax, ay)` one of its neighbors.
pub open spec fn frontier_premise(
    g0: MinesweeperGame,
    rev2: Seq<bool>,
    cx: int,
    cy: int,
    ax: int,
    ay: int,
) -> bool {
    &&& g0.spec_in_bounds(cx, cy)
    &&& rev2[g0.idx(cx, cy)]
    &&& !g0.revealed@[g0.idx(cx, cy)]
    &&& g0.cell(cx, cy) is Empty
    &&& adjacent(cx, cy, ax, ay)
    &&& g0.spec_in_bounds(ax, ay)
}

/// The conclusion: the neighbor is already revealed, was flagged, or still
/// waits on the worklist.
pub open spec fn frontier_conclusion(
    g0: MinesweeperGame,
    rev2: Seq<bool>,
    stack: Seq<(u32, u32)>,
    ax: int,
    ay: int,
) -> bool {
    ||| rev2[g0.idx(ax, ay)]
    ||| g0.flagged@[g0.idx(ax, ay)]
    ||| stack.contains(((ax as u32), (ay as u32)))
}

/// Every neighbor of every `Empty` cell the fill has revealed so far is
/// accounted for: revealed, flagged, or on the worklist.
pub open spec fn frontier_ok(g0: MinesweeperGame, rev2: Seq<bool>, stack: Seq<(u32, u32)>) -> bool {
    forall|cx: int, cy: int, ax: int, ay: int|
        #[trigger] frontier_premise(g0, rev2, cx, cy, ax, ay) ==> frontier_conclusion(
            g0,
            rev2,
            stack,
            ax,
            ay,
        )
}

/// A worklist entry together with the `Empty` cell that pushed it: the
/// parent is reached by the fill and the entry is its neighbor.
pub open spec fn stack_entry_ok(
    g0: MinesweeperGame,
    sx: int,
    sy: int,
    parent: (u32, u32),
    entry: (u32, u32),
) -> bool {
    &&& g0.spec_in_bounds(parent.0 as int, parent.1 as int)
    &&& g0.spec_in_bounds(entry.0 as int, entry.1 as int)
    &&& fill_reaches(g0, sx, sy, parent.0 as int, parent.1 as int)
    &&& g0.cell(parent.0 as int, parent.1 as int) is Empty
    &&& adjacent(parent.0 as int, parent.1 as int, entry.0 as int, entry.1 as int)
}

/// Popping a worklist entry whose cell is already revealed or flagged
/// keeps the frontier intact.
proof fn lemma_frontier_pop(
    g0: MinesweeperGame,
    rev: Seq<bool>,
    stack: Seq<(u32, u32)>,
    nx: u32,
    ny: u32,
)
    requires
        g0.wf(),
        g0.spec_in_bounds(nx as int, ny as int),
        frontier_ok(g0, rev, stack.push((nx, ny))),
        rev[g0.idx(nx as int, ny as int)] || g0.flagged@[g0.idx(nx as int, ny as int)],
    ensures
        frontier_ok(g0, rev, stack),
{
    let wi = g0.spec_width();
    let hi = g0.spec_height();
    assert forall|cx: int, cy: int, ax: int, ay: int|
        #[trigger] frontier_premise(g0, rev, cx, cy, ax, ay) implies frontier_conclusion(
        g0,
        rev,
        stack,
        ax,
        ay,
    ) by {
        lemma_sidx_bounds(ax, ay, wi, hi);
        assert(frontier_conclusion(g0, rev, stack.push((nx, ny)), ax, ay));
        if stack.push((nx, ny)).contains((ax as u32, ay as u32)) {
            let s2 = stack.push((nx, ny));
            let ki = choose|ki: int| 0 <= ki < s2.len() && s2[ki] == ((ax as u32), (ay as u32));
            if ki < stack.len() {
                assert(stack[ki] == ((ax as u32), (ay as u32)));
            } else {
                assert(ax == nx as int && ay == ny as int);
            }
        }
    }
}

/// Revealing the popped cell keeps every old frontier obligation satisfied
/// (the revealed cell discharges obligations that pointed at its worklist
/// entry); when the cell is not `Empty` it adds no obligation of its own.
proof fn lemma_frontier_reveal(
    g0: MinesweeperGame,
    rev: Seq<bool>,
    rev2: Seq<bool>,
    stack: Seq<(u32, u32)>,
    stack2: Seq<(u32, u32)>,
    nx: u32,
    ny: u32,
)
    requires
        g0.wf(),
        rev.len() == g0.spec_total(),
        g0.spec_in_bounds(nx as int, ny as int),
        rev2 == rev.update(g0.idx(nx as int, ny as int), true),
        frontier_ok(g0, rev, stack.push((nx, ny))),
        g0.cell(nx as int, ny as int) is Empty ==> forall|ax: int, ay: int|
            g0.spec_in_bounds(ax, ay) && adjacent(nx as int, ny as int, ax, ay)
                ==> #[trigger] stack2.contains(((ax as u32), (ay as u32))),
        !(g0.cell(nx as int, ny as int) is Empty) ==> stack2 == stack,
        forall|k: int| 0 <= k < stack.len() ==> #[trigger] stack2.contains(stack[k]),
    ensures
        frontier_ok(g0, rev2, stack2),
{
    let wi = g0.spec_width();
    let hi = g0.spec_height();
    assert forall|cx: int, cy: int, ax: int, ay: int|
        #[trigger] frontier_premise(g0, rev2, cx, cy, ax, ay) implies frontier_conclusion(
        g0,
        rev2,
        stack2,
        ax,
        ay,
    ) by {
        lemma_sidx_bounds(cx, cy, wi, hi);
        lemma_sidx_bounds(ax, ay, wi, hi);
        lemma_sidx_bounds(nx as int, ny as int, wi, hi);
        if cx == nx as int && cy == ny as int {
            // The newly revealed cell: its neighbors are all on the new
            // worklist (it must be `Empty` for the premise to hold).
            assert(stack2.contains(((ax as u32), (ay as u32))));
        } else {
            if g0.idx(cx, cy) == g0.idx(nx as int, ny as int) {
                lemma_sidx_injective(cx, cy, nx as int, ny as int, wi, hi);
            }
            assert(g0.idx(cx, cy) != g0.idx(nx as int, ny as int));
            assert(frontier_premise(g0, rev, cx, cy, ax, ay));
            assert(frontier_conclusion(g0, rev, stack.push((nx, ny)), ax, ay));
            if ax == nx as int && ay == ny as int {
                // Obligations pointing at the popped cell: now revealed.
                assert(rev2[g0.idx(ax, ay)]);
            } else if stack.push((nx, ny)).contains((ax as u32, ay as u32)) && !rev[g0.idx(ax, ay)]
                && !g0.flagged@[g0.idx(ax, ay)] {
                let s2 = stack.push((nx, ny));
                let ki = choose|ki: int| 0 <= ki < s2.len() && s2[ki] == ((ax as u32), (ay as u32));
                if ki < stack.len() {
                    assert(stack2.contains(stack[ki]));
                } else {
                    assert(ax == nx as int && ay == ny as int);
                }
            }
        }
    }
}

impl Default for MinesweeperGame {
    /// A fresh beginner game with randomly placed mines.
    fn default() -> (g: MinesweeperGame)
        ensures
            g.wf(),
            g.config == (GameConfig { width: 9u32, height: 9u32, mines: 10usize }),
            g.state == GameState::Reset,
    {
        MinesweeperGame::new(GameConfig::beginner())
    }
}

/// Reading a fresh explicitly-placed board back through `peek_at` with the
/// reveal-all override shows `Mine` at exactly the placed positions: the
/// placement round-trips through the display.
pub proof fn lemma_peek_all_reconstructs_mines(
    g: MinesweeperGame,
    ps: Seq<usize>,
    x: int,
    y: int,
)
    requires
        g.wf(),
        g.state == GameState::Reset,
        forall|i: int|
            0 <= i < g.grid@.len() ==> ((#[trigger] g.grid@[i]) is Mine <==> seq_has(ps, i)),
        g.spec_in_bounds(x, y),
    ensures
        g.peek_spec(x, y, true) == GridState::Mine <==> seq_has(ps, g.idx(x, y)),
{
    lemma_sidx_bounds(x, y, g.spec_width(), g.spec_height());
    assert(cell_ok(g.grid@, g.spec_width(), g.spec_height(), x, y));
}

/// The flood fill stops only at a fixed point: after an accepted reveal,
/// every neighbor of a newly revealed `Empty` cell is itself revealed,
/// unless a flag was standing on it.
pub proof fn lemma_flood_fixed_point(
    pre: MinesweeperGame,
    post: MinesweeperGame,
    x: int,
    y: int,
    cx: int,
    cy: int,
    ax: int,
    ay: int,
)
    requires
        pre.wf(),
        MinesweeperGame::reveal_post(pre, post, x, y, true),
        !pre.spec_game_over(),
        pre.spec_in_bounds(x, y),
        pre.spec_in_bounds(cx, cy),
        pre.spec_in_bounds(ax, ay),
        !pre.revealed@[pre.idx(cx, cy)],
        post.revealed@[pre.idx(cx, cy)],
        pre.cell(cx, cy) is Empty,
        adjacent(cx, cy, ax, ay),
    ensures
        post.revealed@[pre.idx(ax, ay)] || pre.flagged@[pre.idx(ax, ay)],
{
    let wi = pre.spec_width();
    let hi = pre.spec_height();
    lemma_sidx_bounds(x, y, wi, hi);
    lemma_sidx_bounds(cx, cy, wi, hi);
    lemma_sidx_bounds(ax, ay, wi, hi);
    assert(fill_reaches(pre, x, y, cx, cy));
    if !pre.flagged@[pre.idx(ax, ay)] {
        if pre.revealed@[pre.idx(ax, ay)] {
            // Already revealed before; reveals are never taken back.
        } else {
            lemma_reach_step(pre, x, y, cx, cy, ax, ay);
        }
    }
}

/// In a completed game every safe cell is revealed and every mine carries
/// a flag: winning reveals the whole safe board and auto-flags the mines.
pub proof fn lemma_completed_board(g: MinesweeperGame)
    requires
        g.wf(),
        g.state == GameState::Completed,
    ensures
        forall|i: int|
            0 <= i < g.grid@.len() && !((#[trigger] g.grid@[i]) is Mine) ==> g.revealed@[i],
        forall|i: int| 0 <= i < g.grid@.len() && (#[trigger] g.grid@[i]) is Mine ==> g.flagged@[i],
{
    lemma_completion_reveals_all(g.grid@, g.revealed@);
}

/// Flagging one more cell keeps the flag counter above `mines - total`, so
/// the `i32` decrement cannot underflow.
proof fn count_flags_has_room(g: MinesweeperGame, i: int)
    requires
        g.wf(),
        0 <= i < g.flagged@.len(),
        !g.flagged@[i],
    ensures
        count_true(g.flagged@) < g.spec_total(),
{
    lemma_count_true_update(g.flagged@, i, true);
    lemma_count_true_bounds(g.flagged@.update(i, true));
}

} // verus!
