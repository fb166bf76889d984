//! Row-major indexing of a rectangular board and the 8-cell adjacency
//! relation shared by the engine's flood fill and the solver.

use vstd::prelude::*;

verus! {

/// Flat index of the cell in column `x`, row `y` of a board `w` cells wide.
pub open spec fn sidx(x: int, y: int, w: int) -> int {
    x + y * w
}

/// The coordinates name a cell of a board with `w` columns and `h` rows.
pub open spec fn in_bounds(x: int, y: int, w: int, h: int) -> bool {
    0 <= x < w && 0 <= y < h
}

/// Two distinct cells that touch orthogonally or diagonally.
pub open spec fn adjacent(x1: int, y1: int, x2: int, y2: int) -> bool {
    &&& !(x1 == x2 && y1 == y2)
    &&& -1 <= x1 - x2 <= 1
    &&& -1 <= y1 - y2 <= 1
}

/// Row-major indexing stays below the board size.
pub proof fn lemma_sidx_bounds(x: int, y: int, w: int, h: int)
    requires
        in_bounds(x, y, w, h),
    ensures
        0 <= sidx(x, y, w) < w * h,
{
    assert(x + y * w < w * h) by (nonlinear_arith)
        requires
            0 <= x < w,
            0 <= y < h,
    ;
}

/// Row-major indexing is injective on in-bounds coordinates.
pub proof fn lemma_sidx_injective(x1: int, y1: int, x2: int, y2: int, w: int, h: int)
    requires
        in_bounds(x1, y1, w, h),
        in_bounds(x2, y2, w, h),
        sidx(x1, y1, w) == sidx(x2, y2, w),
    ensures
        x1 == x2 && y1 == y2,
{
    assert(y1 == y2) by (nonlinear_arith)
        requires
            0 <= x1 < w,
            0 <= x2 < w,
            0 <= y1,
            0 <= y2,
            x1 + y1 * w == x2 + y2 * w,
    ;
}

/// A singleton sequence holding `(x, y)` when it is in bounds, else empty.
pub open spec fn opt_cell(w: int, h: int, x: int, y: int) -> Seq<(u32, u32)> {
    if in_bounds(x, y, w, h) {
        seq![(x as u32, y as u32)]
    } else {
        Seq::empty()
    }
}

/// The in-bounds neighbors of `(x, y)` in row-major order: the row above,
/// the two sides, then the row below.
pub open spec fn neighbor_seq(w: int, h: int, x: int, y: int) -> Seq<(u32, u32)> {
    opt_cell(w, h, x - 1, y - 1) + opt_cell(w, h, x, y - 1) + opt_cell(w, h, x + 1, y - 1)
        + opt_cell(w, h, x - 1, y) + opt_cell(w, h, x + 1, y) + opt_cell(w, h, x - 1, y + 1)
        + opt_cell(w, h, x, y + 1) + opt_cell(w, h, x + 1, y + 1)
}

/// Concatenation contains exactly what either part contains.
proof fn lemma_add_contains(s1: Seq<(u32, u32)>, s2: Seq<(u32, u32)>, e: (u32, u32))
    ensures
        (s1 + s2).contains(e) <==> s1.contains(e) || s2.contains(e),
{
    if s1.contains(e) {
        let j = choose|j: int| 0 <= j < s1.len() && s1[j] == e;
        assert((s1 + s2)[j] == e);
    }
    if s2.contains(e) {
        let j = choose|j: int| 0 <= j < s2.len() && s2[j] == e;
        assert((s1 + s2)[s1.len() + j] == e);
    }
    if (s1 + s2).contains(e) {
        let j = choose|j: int| 0 <= j < (s1 + s2).len() && (s1 + s2)[j] == e;
        if j < s1.len() {
            assert(s1[j] == e);
        } else {
            assert(s2[j - s1.len()] == e);
        }
    }
}

/// Every entry of `neighbor_seq` is an in-bounds neighbor of `(x, y)`, and
/// every in-bounds neighbor appears in it.
pub proof fn lemma_neighbor_seq_props(w: int, h: int, x: int, y: int)
    requires
        in_bounds(x, y, w, h),
        w <= u32::MAX as int,
        h <= u32::MAX as int,
    ensures
        neighbor_seq(w, h, x, y).len() <= 8,
        forall|k: int|
            0 <= k < neighbor_seq(w, h, x, y).len() ==> {
                let (a, b) = #[trigger] neighbor_seq(w, h, x, y)[k];
                in_bounds(a as int, b as int, w, h) && adjacent(x, y, a as int, b as int)
            },
        forall|a: int, b: int|
            in_bounds(a, b, w, h) && adjacent(x, y, a, b) ==> #[trigger] neighbor_seq(
                w,
                h,
                x,
                y,
            ).contains((a as u32, b as u32)),
{
    let s1 = opt_cell(w, h, x - 1, y - 1);
    let s2 = opt_cell(w, h, x, y - 1);
    let s3 = opt_cell(w, h, x + 1, y - 1);
    let s4 = opt_cell(w, h, x - 1, y);
    let s5 = opt_cell(w, h, x + 1, y);
    let s6 = opt_cell(w, h, x - 1, y + 1);
    let s7 = opt_cell(w, h, x, y + 1);
    let s8 = opt_cell(w, h, x + 1, y + 1);
    let ns = neighbor_seq(w, h, x, y);
    assert(ns == s1 + s2 + s3 + s4 + s5 + s6 + s7 + s8);
    assert forall|k: int| 0 <= k < ns.len() implies {
        let (a, b) = #[trigger] ns[k];
        in_bounds(a as int, b as int, w, h) && adjacent(x, y, a as int, b as int)
    } by {
        let e = ns[k];
        assert(ns.contains(e));
        lemma_add_contains(s1 + s2 + s3 + s4 + s5 + s6 + s7, s8, e);
        lemma_add_contains(s1 + s2 + s3 + s4 + s5 + s6, s7, e);
        lemma_add_contains(s1 + s2 + s3 + s4 + s5, s6, e);
        lemma_add_contains(s1 + s2 + s3 + s4, s5, e);
        lemma_add_contains(s1 + s2 + s3, s4, e);
        lemma_add_contains(s1 + s2, s3, e);
        lemma_add_contains(s1, s2, e);
        assert(s1.contains(e) || s2.contains(e) || s3.contains(e) || s4.contains(e) || s5.contains(
            e,
        ) || s6.contains(e) || s7.contains(e) || s8.contains(e));
    }
    assert forall|a: int, b: int|
        in_bounds(a, b, w, h) && adjacent(x, y, a, b) implies #[trigger] ns.contains(
        (a as u32, b as u32),
    ) by {
        let e = (a as u32, b as u32);
        let part = opt_cell(w, h, a, b);
        assert(part.contains(e)) by {
            assert(part[0] == e);
        }
        // `(a, b)` is one of the eight relative positions.
        assert(part == s1 || part == s2 || part == s3 || part == s4 || part == s5 || part == s6
            || part == s7 || part == s8);
        lemma_add_contains(s1, s2, e);
        lemma_add_contains(s1 + s2, s3, e);
        lemma_add_contains(s1 + s2 + s3, s4, e);
        lemma_add_contains(s1 + s2 + s3 + s4, s5, e);
        lemma_add_contains(s1 + s2 + s3 + s4 + s5, s6, e);
        lemma_add_contains(s1 + s2 + s3 + s4 + s5 + s6, s7, e);
        lemma_add_contains(s1 + s2 + s3 + s4 + s5 + s6 + s7, s8, e);
    }
}

/// Flat index of the cell at `(x, y)`, as the engine stores its grids.
pub fn pos_to_index(x: u32, y: u32, width: u32) -> (i: usize)
    requires
        x as int + y as int * width as int <= u32::MAX as int,
    ensures
        i == sidx(x as int, y as int, width as int),
{
    (x + y * width) as usize
}

/// Coordinates of the cell a flat index names.
pub fn index_to_pos(i: usize, width: u32) -> (r: (u32, u32))
    requires
        width > 0,
        i <= u32::MAX as usize,
    ensures
        r.0 as int == i as int % width as int,
        r.1 as int == i as int / width as int,
{
    ((i as u32) % width, (i as u32) / width)
}

} // verus!
