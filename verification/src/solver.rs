//! The move solver: a read-only, deterministic "next best move" found by
//! purely local deduction around a single numbered cell. It never guesses:
//! on a board with no locally forced move it returns `NoOp`.

use vstd::prelude::*;

use crate::board::GridState;
use crate::game::{GameMove, MinesweeperGame};
use crate::geometry::{lemma_neighbor_seq_props, neighbor_seq};

verus! {

/// Display states the deduction understands; anything else (an exposed
/// mine, an inconsistent cell) makes the deduction inconclusive.
pub open spec fn benign(s: GridState) -> bool {
    s is Empty || s is Count || s is Flagged || s is Unrevealed
}

/// How many of the neighbors from position `k` on show as `Flagged`.
pub open spec fn flag_count_from(g: MinesweeperGame, ns: Seq<(u32, u32)>, k: int) -> int
    decreases ns.len() - k,
{
    if k < 0 || k >= ns.len() {
        0
    } else {
        (if g.peek_spec(ns[k].0 as int, ns[k].1 as int, false) is Flagged {
            1int
        } else {
            0int
        }) + flag_count_from(g, ns, k + 1)
    }
}

/// How many of the neighbors from position `k` on show as `Unrevealed`.
pub open spec fn unrevealed_count_from(g: MinesweeperGame, ns: Seq<(u32, u32)>, k: int) -> int
    decreases ns.len() - k,
{
    if k < 0 || k >= ns.len() {
        0
    } else {
        (if g.peek_spec(ns[k].0 as int, ns[k].1 as int, false) is Unrevealed {
            1int
        } else {
            0int
        }) + unrevealed_count_from(g, ns, k + 1)
    }
}

/// The first neighbor from position `k` on that shows as `Unrevealed`: the
/// representative cell a deduction acts on.
pub open spec fn first_unrevealed_from(g: MinesweeperGame, ns: Seq<(u32, u32)>, k: int) -> Option<
    (u32, u32),
>
    decreases ns.len() - k,
{
    if k < 0 || k >= ns.len() {
        None
    } else if g.peek_spec(ns[k].0 as int, ns[k].1 as int, false) is Unrevealed {
        Some(ns[k])
    } else {
        first_unrevealed_from(g, ns, k + 1)
    }
}

/// Every neighbor shows a state the deduction understands.
pub open spec fn all_benign(g: MinesweeperGame, ns: Seq<(u32, u32)>) -> bool {
    forall|j: int|
        0 <= j < ns.len() ==> benign(
            #[trigger] g.peek_spec(ns[j].0 as int, ns[j].1 as int, false),
        )
}

/// The local deduction at one cell. A revealed count `N` yields a move
/// when some neighbor is still unrevealed and either every unrevealed
/// neighbor must be a mine (`N` equals unrevealed + flagged: flag the
/// representative) or every mine is already flagged (`N` equals flagged:
/// reveal the representative).
pub open spec fn deduction_at(g: MinesweeperGame, x: int, y: int) -> Option<GameMove> {
    let d = g.peek_spec(x, y, false);
    if d is Count {
        let ns = neighbor_seq(g.spec_width(), g.spec_height(), x, y);
        let n = d->Count_0 as int;
        let f = flag_count_from(g, ns, 0);
        let u = unrevealed_count_from(g, ns, 0);
        if all_benign(g, ns) {
            match first_unrevealed_from(g, ns, 0) {
                Some(p) => if n == u + f {
                    Some(GameMove::Flag(p.0, p.1))
                } else if n == f {
                    Some(GameMove::Reveal(p.0, p.1))
                } else {
                    None
                },
                None => None,
            }
        } else {
            None
        }
    } else {
        None
    }
}

/// The row-major scan from cell `(x, y)` on: the first deduction found
/// wins; past the last row the solver gives up with `NoOp`.
pub open spec fn scan_from(g: MinesweeperGame, y: int, x: int) -> GameMove
    decreases g.spec_height() - y, g.spec_width() - x,
{
    if y < 0 || y >= g.spec_height() {
        GameMove::NoOp
    } else if x >= g.spec_width() {
        scan_from(g, y + 1, 0)
    } else {
        match deduction_at(g, x, y) {
            Some(m) => m,
            None => scan_from(g, y, x + 1),
        }
    }
}

/// The solver's answer: `NoOp` on a finished game, the middle of the board
/// as a deterministic opening move, else the first local deduction in scan
/// order, and `NoOp` when there is none.
pub open spec fn solver_move(g: MinesweeperGame) -> GameMove {
    if g.spec_game_over() {
        GameMove::NoOp
    } else if g.revealed_count == 0 {
        GameMove::Reveal(g.config.width / 2, g.config.height / 2)
    } else {
        scan_from(g, 0, 0)
    }
}

/// Inspect the neighbors of the revealed count cell at `(x, y)` and return
/// the move its local deduction forces, if any.
fn logical_move_around_count(x: u32, y: u32, count: u8, game: &MinesweeperGame) -> (m: Option<
    GameMove,
>)
    requires
        game.wf(),
        x < game.config.width,
        y < game.config.height,
        game.peek_spec(x as int, y as int, false) == GridState::Count(count),
    ensures
        m == deduction_at(*game, x as int, y as int),
{
    let ghost nseq = neighbor_seq(game.spec_width(), game.spec_height(), x as int, y as int);
    proof {
        lemma_neighbor_seq_props(game.spec_width(), game.spec_height(), x as int, y as int);
    }
    let ns = game.neighbors(x, y);
    let len = ns.len();

    let mut flag_count: u8 = 0;
    let mut unrevealed_count: u8 = 0;
    let mut unrevealed_pos: Option<(u32, u32)> = None;
    let mut k: usize = 0;
    while k < len
        invariant
            game.wf(),
            x < game.config.width,
            y < game.config.height,
            ns@ == nseq,
            len == nseq.len(),
            nseq.len() <= 8,
            k <= len,
            nseq == neighbor_seq(game.spec_width(), game.spec_height(), x as int, y as int),
            forall|j: int|
                0 <= j < nseq.len() ==> {
                    let (a, b) = #[trigger] nseq[j];
                    a < game.config.width && b < game.config.height
                },
            flag_count as int + flag_count_from(*game, nseq, k as int) == flag_count_from(
                *game,
                nseq,
                0,
            ),
            unrevealed_count as int + unrevealed_count_from(*game, nseq, k as int)
                == unrevealed_count_from(*game, nseq, 0),
            flag_count as int <= k,
            unrevealed_count as int <= k,
            forall|j: int|
                0 <= j < k ==> benign(
                    #[trigger] game.peek_spec(nseq[j].0 as int, nseq[j].1 as int, false),
                ),
            match unrevealed_pos {
                Some(p) => first_unrevealed_from(*game, nseq, 0) == Some::<(u32, u32)>(p),
                None => first_unrevealed_from(*game, nseq, 0) == first_unrevealed_from(
                    *game,
                    nseq,
                    k as int,
                ),
            },
        decreases len - k,
    {
        let (nx, ny) = ns[k];
        let neighbor_state = game.peek_at(nx, ny, false);
        match neighbor_state {
            GridState::Empty | GridState::Count(_) => {},
            GridState::Flagged => {
                flag_count = flag_count + 1;
            },
            GridState::Unrevealed => {
                unrevealed_count = unrevealed_count + 1;
                if unrevealed_pos.is_none() {
                    unrevealed_pos = Some((nx, ny));
                }
            },
            _ => {
                proof {
                    assert(!benign(game.peek_spec(nseq[k as int].0 as int, nseq[k as int].1 as int, false)));
                    assert(!all_benign(*game, nseq));
                }
                return None;
            },
        }
        k = k + 1;
    }

    proof {
        assert(flag_count_from(*game, nseq, len as int) == 0);
        assert(unrevealed_count_from(*game, nseq, len as int) == 0);
        assert(first_unrevealed_from(*game, nseq, len as int) is None);
        assert(all_benign(*game, nseq));
    }
    if let Some((nx, ny)) = unrevealed_pos {
        // Rule A: every unresolved neighbor must be a mine.
        if count == unrevealed_count + flag_count {
            return Some(GameMove::Flag(nx, ny));
        }
        // Rule B: every mine is already flagged, the rest is safe.
        if count == flag_count {
            return Some(GameMove::Reveal(nx, ny));
        }
    }
    None
}

/// The solver's single deterministic suggestion for the next move; the
/// game is only read, never changed.
pub fn get_next_move(game: &MinesweeperGame) -> (m: GameMove)
    requires
        game.wf(),
    ensures
        m == solver_move(*game),
{
    // No moves are possible on a finished game.
    if game.game_over() {
        return GameMove::NoOp;
    }

    let w = game.width();
    let h = game.height();

    // Deterministic opening move: the middle of the board.
    if game.revealed_count() == 0 {
        return GameMove::Reveal(w / 2, h / 2);
    }

    let mut y: u32 = 0;
    while y < h
        invariant
            game.wf(),
            w == game.config.width,
            h == game.config.height,
            !game.spec_game_over(),
            game.revealed_count != 0,
            y <= h,
            scan_from(*game, 0, 0) == scan_from(*game, y as int, 0),
        decreases h - y,
    {
        let mut x: u32 = 0;
        while x < w
            invariant
                game.wf(),
                w == game.config.width,
                h == game.config.height,
                !game.spec_game_over(),
                game.revealed_count != 0,
                y < h,
                x <= w,
                scan_from(*game, 0, 0) == scan_from(*game, y as int, x as int),
            decreases w - x,
        {
            let state = game.peek_at(x, y, false);
            if let GridState::Count(count) = state {
                if let Some(m) = logical_move_around_count(x, y, count, game) {
                    return m;
                }
            }
            proof {
                assert(deduction_at(*game, x as int, y as int) is None);
            }
            x = x + 1;
        }
        y = y + 1;
    }
    GameMove::NoOp
}

/// On a fresh board (nothing revealed, game open) the solver's first
/// suggestion is the middle cell, whatever the configuration.
pub proof fn lemma_solver_opening(g: MinesweeperGame)
    requires
        !g.spec_game_over(),
        g.revealed_count == 0,
    ensures
        solver_move(g) == GameMove::Reveal(g.config.width / 2, g.config.height / 2),
{
}

/// The solver never suggests a move on a terminal game.
pub proof fn lemma_solver_terminal_noop(g: MinesweeperGame)
    requires
        g.spec_game_over(),
    ensures
        solver_move(g) == GameMove::NoOp,
{
}

/// The representative cell of a deduction comes from the neighbor list.
proof fn lemma_first_unrevealed_in_seq(g: MinesweeperGame, ns: Seq<(u32, u32)>, k: int)
    requires
        first_unrevealed_from(g, ns, k) is Some,
    ensures
        ns.contains(first_unrevealed_from(g, ns, k)->Some_0),
    decreases ns.len() - k,
{
    if 0 <= k < ns.len() {
        if g.peek_spec(ns[k].0 as int, ns[k].1 as int, false) is Unrevealed {
            assert(ns[k] == first_unrevealed_from(g, ns, k)->Some_0);
        } else {
            lemma_first_unrevealed_in_seq(g, ns, k + 1);
        }
    }
}

/// A deduction only ever names an on-board cell.
proof fn lemma_deduction_in_bounds(g: MinesweeperGame, x: int, y: int)
    requires
        0 <= x < g.spec_width(),
        0 <= y < g.spec_height(),
        g.spec_width() <= u32::MAX as int,
        g.spec_height() <= u32::MAX as int,
    ensures
        match deduction_at(g, x, y) {
            Some(GameMove::Reveal(a, b)) | Some(GameMove::Flag(a, b)) => a < g.config.width && b
                < g.config.height,
            _ => true,
        },
{
    let ns = neighbor_seq(g.spec_width(), g.spec_height(), x, y);
    if deduction_at(g, x, y) is Some {
        lemma_neighbor_seq_props(g.spec_width(), g.spec_height(), x, y);
        lemma_first_unrevealed_in_seq(g, ns, 0);
        let p = first_unrevealed_from(g, ns, 0)->Some_0;
        let k = choose|k: int| 0 <= k < ns.len() && ns[k] == p;
        assert(ns[k] == p);
    }
}

proof fn lemma_scan_in_bounds(g: MinesweeperGame, y: int, x: int)
    requires
        0 <= x,
        0 <= y,
        g.spec_width() <= u32::MAX as int,
        g.spec_height() <= u32::MAX as int,
    ensures
        match scan_from(g, y, x) {
            GameMove::Reveal(a, b) | GameMove::Flag(a, b) => a < g.config.width && b
                < g.config.height,
            GameMove::NoOp => true,
        },
    decreases g.spec_height() - y, g.spec_width() - x,
{
    if y < 0 || y >= g.spec_height() {
    } else if x >= g.spec_width() {
        lemma_scan_in_bounds(g, y + 1, 0);
    } else {
        lemma_deduction_in_bounds(g, x, y);
        if deduction_at(g, x, y) is None {
            lemma_scan_in_bounds(g, y, x + 1);
        }
    }
}

/// On a non-degenerate board the solver's suggestion can always be handed
/// straight to `make_move`: any cell it names lies on the board.
pub proof fn lemma_solver_move_applicable(g: MinesweeperGame)
    requires
        g.wf(),
        g.config.width > 0,
        g.config.height > 0,
    ensures
        match solver_move(g) {
            GameMove::Reveal(a, b) | GameMove::Flag(a, b) => a < g.config.width && b
                < g.config.height,
            GameMove::NoOp => true,
        },
{
    if !g.spec_game_over() && g.revealed_count != 0 {
        lemma_scan_in_bounds(g, 0, 0);
    }
}

proof fn lemma_scan_none(g: MinesweeperGame, y: int, x: int)
    requires
        forall|cx: int, cy: int|
            0 <= cx < g.spec_width() && 0 <= cy < g.spec_height() ==> (#[trigger] deduction_at(
                g,
                cx,
                cy,
            )) is None,
        0 <= x,
        0 <= y,
    ensures
        scan_from(g, y, x) == GameMove::NoOp,
    decreases g.spec_height() - y, g.spec_width() - x,
{
    if y < 0 || y >= g.spec_height() {
    } else if x >= g.spec_width() {
        lemma_scan_none(g, y + 1, 0);
    } else {
        lemma_scan_none(g, y, x + 1);
    }
}

/// On a live board where no cell yields a local deduction, the solver
/// returns `NoOp`: it does not guess under uncertainty.
pub proof fn lemma_solver_no_deduction_noop(g: MinesweeperGame)
    requires
        !g.spec_game_over(),
        g.revealed_count != 0,
        forall|cx: int, cy: int|
            0 <= cx < g.spec_width() && 0 <= cy < g.spec_height() ==> (#[trigger] deduction_at(
                g,
                cx,
                cy,
            )) is None,
    ensures
        solver_move(g) == GameMove::NoOp,
{
    lemma_scan_none(g, 0, 0);
}

} // verus!
