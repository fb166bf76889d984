//! What a flood fill can reach. Revealing an `Empty` cell cascades through
//! the connected region around it; this module gives that region a
//! mathematical definition — paths through `Empty` cells that were neither
//! revealed nor flagged before the reveal — and proves the lemmas the
//! engine's `reveal` contract rests on.

use vstd::prelude::*;

use crate::board::{grid_wf, lemma_empty_no_adjacent_mine, GridState};
use crate::game::MinesweeperGame;
use crate::geometry::{adjacent, in_bounds, sidx};

verus! {

/// `p` is a flood-fill path of `g` from `(sx, sy)` to `(tx, ty)`: every
/// cell on it is in bounds and was neither revealed nor flagged in `g`, and
/// every cell but the last is `Empty` and adjacent to its successor.
pub open spec fn fill_path(
    g: MinesweeperGame,
    p: Seq<(int, int)>,
    sx: int,
    sy: int,
    tx: int,
    ty: int,
) -> bool {
    &&& p.len() >= 1
    &&& p[0] == (sx, sy)
    &&& p[p.len() - 1] == (tx, ty)
    &&& forall|k: int|
        0 <= k < p.len() ==> {
            let (cx, cy) = #[trigger] p[k];
            &&& g.spec_in_bounds(cx, cy)
            &&& !g.flagged@[g.idx(cx, cy)]
            &&& !g.revealed@[g.idx(cx, cy)]
        }
    &&& forall|k: int|
        0 <= k < p.len() - 1 ==> {
            let (cx, cy) = #[trigger] p[k];
            let (dx, dy) = p[k + 1];
            &&& g.cell(cx, cy) is Empty
            &&& adjacent(cx, cy, dx, dy)
        }
}

/// The flood fill started at `(sx, sy)` in `g` reaches `(tx, ty)`.
pub open spec fn fill_reaches(g: MinesweeperGame, sx: int, sy: int, tx: int, ty: int) -> bool {
    exists|p: Seq<(int, int)>| fill_path(g, p, sx, sy, tx, ty)
}

/// An unrevealed, unflagged cell reaches itself.
pub proof fn lemma_reach_self(g: MinesweeperGame, sx: int, sy: int)
    requires
        g.spec_in_bounds(sx, sy),
        !g.flagged@[g.idx(sx, sy)],
        !g.revealed@[g.idx(sx, sy)],
    ensures
        fill_reaches(g, sx, sy, sx, sy),
{
    let p = seq![(sx, sy)];
    assert(fill_path(g, p, sx, sy, sx, sy));
}

/// Reaching an `Empty` cell extends to any of its untouched neighbors.
pub proof fn lemma_reach_step(
    g: MinesweeperGame,
    sx: int,
    sy: int,
    cx: int,
    cy: int,
    nx: int,
    ny: int,
)
    requires
        fill_reaches(g, sx, sy, cx, cy),
        g.cell(cx, cy) is Empty,
        adjacent(cx, cy, nx, ny),
        g.spec_in_bounds(nx, ny),
        !g.flagged@[g.idx(nx, ny)],
        !g.revealed@[g.idx(nx, ny)],
    ensures
        fill_reaches(g, sx, sy, nx, ny),
{
    let p = choose|p: Seq<(int, int)>| fill_path(g, p, sx, sy, cx, cy);
    let q = p.push((nx, ny));
    assert(q[q.len() - 1] == (nx, ny));
    assert forall|k: int| 0 <= k < q.len() implies {
        let (ax, ay) = #[trigger] q[k];
        &&& g.spec_in_bounds(ax, ay)
        &&& !g.flagged@[g.idx(ax, ay)]
        &&& !g.revealed@[g.idx(ax, ay)]
    } by {
        if k < p.len() {
            assert(q[k] == p[k]);
        }
    }
    assert forall|k: int| 0 <= k < q.len() - 1 implies {
        let (ax, ay) = #[trigger] q[k];
        let (bx, by) = q[k + 1];
        &&& g.cell(ax, ay) is Empty
        &&& adjacent(ax, ay, bx, by)
    } by {
        assert(q[k] == p[k]);
        if k < p.len() - 1 {
            assert(q[k + 1] == p[k + 1]);
        } else {
            assert(k == p.len() - 1);
            assert(q[k] == (cx, cy) && q[k + 1] == (nx, ny));
        }
    }
    assert(fill_path(g, q, sx, sy, nx, ny));
}

/// When the starting cell is not `Empty`, the fill reaches nothing else.
pub proof fn lemma_reach_singleton(g: MinesweeperGame, sx: int, sy: int, tx: int, ty: int)
    requires
        !(g.cell(sx, sy) is Empty),
        fill_reaches(g, sx, sy, tx, ty),
    ensures
        tx == sx && ty == sy,
{
    let p = choose|p: Seq<(int, int)>| fill_path(g, p, sx, sy, tx, ty);
    if p.len() > 1 {
        assert(p[0] == (sx, sy));
        assert(g.cell(p[0].0, p[0].1) is Empty);
        assert(false);
    }
}

/// Whatever the fill reaches is in bounds and was untouched before.
pub proof fn lemma_reach_target(g: MinesweeperGame, sx: int, sy: int, tx: int, ty: int)
    requires
        fill_reaches(g, sx, sy, tx, ty),
    ensures
        g.spec_in_bounds(tx, ty),
        !g.flagged@[g.idx(tx, ty)],
        !g.revealed@[g.idx(tx, ty)],
{
    let p = choose|p: Seq<(int, int)>| fill_path(g, p, sx, sy, tx, ty);
    assert(p[p.len() - 1] == (tx, ty));
}

/// Starting from an `Empty` cell the fill only ever reaches safe cells: a
/// reached cell is the start itself or the neighbor of an `Empty` cell, and
/// `Empty` cells have no mines around them.
pub proof fn lemma_reach_nonmine(g: MinesweeperGame, sx: int, sy: int, tx: int, ty: int)
    requires
        g.wf(),
        fill_reaches(g, sx, sy, tx, ty),
        !(g.cell(sx, sy) is Mine),
    ensures
        !(g.cell(tx, ty) is Mine),
{
    let p = choose|p: Seq<(int, int)>| fill_path(g, p, sx, sy, tx, ty);
    if p.len() == 1 {
        assert((tx, ty) == (sx, sy));
    } else {
        let k = p.len() - 2;
        let (cx, cy) = p[k];
        assert(g.cell(cx, cy) is Empty && adjacent(cx, cy, tx, ty));
        lemma_empty_no_adjacent_mine(
            g.grid@,
            g.spec_width(),
            g.spec_height(),
            cx,
            cy,
            tx,
            ty,
        );
    }
}

/// `rev2` (a candidate post-reveal mask) is closed under flood-fill steps
/// out of cells it newly reveals: around every newly revealed `Empty` cell,
/// every neighbor is revealed in it or flagged.
pub open spec fn region_closed(g: MinesweeperGame, rev2: Seq<bool>) -> bool {
    forall|cx: int, cy: int, ax: int, ay: int|
        {
            &&& g.spec_in_bounds(cx, cy)
            &&& #[trigger] rev2[sidx(cx, cy, g.spec_width())]
            &&& !g.revealed@[sidx(cx, cy, g.spec_width())]
            &&& g.cell(cx, cy) is Empty
            &&& adjacent(cx, cy, ax, ay)
            &&& g.spec_in_bounds(ax, ay)
        } ==> (#[trigger] rev2[sidx(ax, ay, g.spec_width())] || g.flagged@[sidx(
            ax,
            ay,
            g.spec_width(),
        )])
}

proof fn lemma_path_end_revealed(
    g: MinesweeperGame,
    rev2: Seq<bool>,
    p: Seq<(int, int)>,
    sx: int,
    sy: int,
    tx: int,
    ty: int,
)
    requires
        rev2.len() == g.revealed@.len(),
        region_closed(g, rev2),
        fill_path(g, p, sx, sy, tx, ty),
        rev2[g.idx(sx, sy)],
    ensures
        rev2[g.idx(tx, ty)],
    decreases p.len(),
{
    if p.len() == 1 {
        assert((tx, ty) == (sx, sy));
    } else {
        let q = p.drop_last();
        let (cx, cy) = p[p.len() - 2];
        assert forall|k: int| 0 <= k < q.len() implies {
            let (ax, ay) = #[trigger] q[k];
            &&& g.spec_in_bounds(ax, ay)
            &&& !g.flagged@[g.idx(ax, ay)]
            &&& !g.revealed@[g.idx(ax, ay)]
        } by {
            assert(q[k] == p[k]);
        }
        assert forall|k: int| 0 <= k < q.len() - 1 implies {
            let (ax, ay) = #[trigger] q[k];
            let (bx, by) = q[k + 1];
            &&& g.cell(ax, ay) is Empty
            &&& adjacent(ax, ay, bx, by)
        } by {
            assert(q[k] == p[k] && q[k + 1] == p[k + 1]);
        }
        assert(fill_path(g, q, sx, sy, cx, cy));
        lemma_path_end_revealed(g, rev2, q, sx, sy, cx, cy);
        assert(g.cell(cx, cy) is Empty && adjacent(cx, cy, tx, ty));
        assert(rev2[sidx(cx, cy, g.spec_width())]);
        assert(rev2[sidx(tx, ty, g.spec_width())] || g.flagged@[sidx(tx, ty, g.spec_width())]);
    }
}

/// A mask that contains the start of the fill and is closed under
/// flood-fill steps contains everything the fill reaches.
pub proof fn lemma_region_covers_reach(g: MinesweeperGame, rev2: Seq<bool>, sx: int, sy: int)
    requires
        rev2.len() == g.revealed@.len(),
        region_closed(g, rev2),
        rev2[g.idx(sx, sy)],
    ensures
        forall|tx: int, ty: int|
            #[trigger] fill_reaches(g, sx, sy, tx, ty) ==> rev2[sidx(tx, ty, g.spec_width())],
{
    assert forall|tx: int, ty: int| #[trigger] fill_reaches(g, sx, sy, tx, ty) implies rev2[sidx(
        tx,
        ty,
        g.spec_width(),
    )] by {
        let p = choose|p: Seq<(int, int)>| fill_path(g, p, sx, sy, tx, ty);
        lemma_path_end_revealed(g, rev2, p, sx, sy, tx, ty);
    }
}

} // verus!
