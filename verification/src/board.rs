//! The intrinsic board: cell states fixed at generation time, mine
//! placement, and the derivation of each safe cell's adjacent-mine count.

use vstd::prelude::*;
use vstd::seq_lib::group_to_multiset_ensures;
use rand::seq::SliceRandom;

use crate::counting::{
    count_true, lemma_count_true_complement, lemma_count_true_pointwise_le, seq_has,
};
use crate::game::GameConfig;
use crate::geometry::{adjacent, in_bounds, lemma_sidx_bounds, lemma_sidx_injective, pos_to_index, sidx};

verus! {

/// A cell as the board stores it (`Empty`, `Count`, `Mine`) or as the
/// fog-of-war view presents it to the player (the remaining variants).
#[derive(Copy, Clone, Debug, PartialEq, Eq, Structural, Hash)]
pub enum GridState {
    // Intrinsic states of the grid.
    Empty,
    Count(u8),
    Mine,
    // Additional states that may be shown to the player.
    Unrevealed,
    Flagged,
    MineHighlighted,
    MineIncorrect,
}

/// Which cells of the grid are mines.
pub open spec fn mine_mask(grid: Seq<GridState>) -> Seq<bool> {
    grid.map_values(|c: GridState| c is Mine)
}

/// How many cells of the grid are mines.
pub open spec fn num_mines(grid: Seq<GridState>) -> int {
    count_true(mine_mask(grid))
}

/// 1 when `(x, y)` is an in-bounds mine, 0 otherwise.
pub open spec fn mine_ind(grid: Seq<GridState>, w: int, h: int, x: int, y: int) -> int {
    if in_bounds(x, y, w, h) && grid[sidx(x, y, w)] is Mine {
        1
    } else {
        0
    }
}

/// The number of mines among the up-to-8 in-bounds neighbors of `(x, y)`.
pub open spec fn adj_mine_count(grid: Seq<GridState>, w: int, h: int, x: int, y: int) -> int {
    mine_ind(grid, w, h, x - 1, y - 1) + mine_ind(grid, w, h, x, y - 1) + mine_ind(
        grid,
        w,
        h,
        x + 1,
        y - 1,
    ) + mine_ind(grid, w, h, x - 1, y) + mine_ind(grid, w, h, x + 1, y) + mine_ind(
        grid,
        w,
        h,
        x - 1,
        y + 1,
    ) + mine_ind(grid, w, h, x, y + 1) + mine_ind(grid, w, h, x + 1, y + 1)
}

/// The intrinsic state a safe cell with `c` adjacent mines carries.
pub open spec fn count_state(c: int) -> GridState {
    if c == 0 {
        GridState::Empty
    } else {
        GridState::Count(c as u8)
    }
}

/// The cell is a mine, or carries exactly its adjacent-mine count.
pub open spec fn cell_ok(grid: Seq<GridState>, w: int, h: int, x: int, y: int) -> bool {
    grid[sidx(x, y, w)] is Mine || grid[sidx(x, y, w)] == count_state(
        adj_mine_count(grid, w, h, x, y),
    )
}

/// A well-formed intrinsic grid: every cell is `Empty`, `Count(1..=8)` or
/// `Mine`, and every safe cell carries its exact adjacent-mine count.
pub open spec fn grid_wf(grid: Seq<GridState>, w: int, h: int) -> bool {
    &&& grid.len() == w * h
    &&& forall|x: int, y: int| in_bounds(x, y, w, h) ==> #[trigger] cell_ok(grid, w, h, x, y)
}

/// Mine-ness alone determines every adjacent-mine count.
pub proof fn lemma_adj_congruent(g1: Seq<GridState>, g2: Seq<GridState>, w: int, h: int, x: int, y: int)
    requires
        g1.len() == g2.len(),
        forall|i: int| 0 <= i < g1.len() ==> (#[trigger] g1[i] is Mine <==> #[trigger] g2[i] is Mine),
        g1.len() == w * h,
    ensures
        adj_mine_count(g1, w, h, x, y) == adj_mine_count(g2, w, h, x, y),
{
    assert forall|a: int, b: int| in_bounds(a, b, w, h) implies #[trigger] mine_ind(g1, w, h, a, b)
        == mine_ind(g2, w, h, a, b) by {
        lemma_sidx_bounds(a, b, w, h);
    }
    assert(forall|a: int, b: int|
        !in_bounds(a, b, w, h) ==> #[trigger] mine_ind(g1, w, h, a, b) == 0 && #[trigger] mine_ind(
            g2,
            w,
            h,
            a,
            b,
        ) == 0);
}

/// No neighbor of an `Empty` cell is a mine.
pub proof fn lemma_empty_no_adjacent_mine(
    grid: Seq<GridState>,
    w: int,
    h: int,
    x: int,
    y: int,
    nx: int,
    ny: int,
)
    requires
        grid_wf(grid, w, h),
        in_bounds(x, y, w, h),
        grid[sidx(x, y, w)] is Empty,
        adjacent(x, y, nx, ny),
        in_bounds(nx, ny, w, h),
    ensures
        !(grid[sidx(nx, ny, w)] is Mine),
{
    assert(cell_ok(grid, w, h, x, y));
    assert(adj_mine_count(grid, w, h, x, y) == 0);
    let dx = nx - x;
    let dy = ny - y;
    assert(-1 <= dx <= 1 && -1 <= dy <= 1 && !(dx == 0 && dy == 0));
    assert(mine_ind(grid, w, h, nx, ny) == 0);
}

/// A revealed set that avoids every mine and has grown to the number of
/// safe cells covers every safe cell.
pub proof fn lemma_completion_reveals_all(grid: Seq<GridState>, rev: Seq<bool>)
    requires
        rev.len() == grid.len(),
        forall|i: int| 0 <= i < rev.len() ==> (#[trigger] rev[i]) ==> !(grid[i] is Mine),
        count_true(rev) == grid.len() - num_mines(grid),
    ensures
        forall|i: int| 0 <= i < rev.len() && !((#[trigger] grid[i]) is Mine) ==> rev[i],
{
    let nonmine = Seq::new(grid.len(), |i: int| !(grid[i] is Mine));
    lemma_count_true_complement(nonmine, mine_mask(grid));
    lemma_count_true_pointwise_le(rev, nonmine);
}

/// Build the intrinsic grid for a mine placement: mines at exactly the
/// listed positions, and every safe cell labelled with its adjacent-mine
/// count (`Empty` when the count is zero).
pub fn initialize_grid(config: &GameConfig, mine_positions: &[usize]) -> (grid: Vec<GridState>)
    requires
        config.spec_total() <= i32::MAX as int,
        forall|k: int|
            0 <= k < mine_positions@.len() ==> (#[trigger] mine_positions@[k]) < config.spec_total(),
    ensures
        grid@.len() == config.spec_total(),
        forall|i: int|
            0 <= i < grid@.len() ==> (#[trigger] grid@[i] is Mine <==> seq_has(mine_positions@, i)),
        grid_wf(grid@, config.width as int, config.height as int),
{
    let w = config.width();
    let h = config.height();
    let ghost wi = w as int;
    let ghost hi = h as int;
    let size = config.total_size();
    let ps = Ghost(mine_positions@);

    let mut grid: Vec<GridState> = vec![GridState::Empty; size];

    // Place the mines.
    let n = mine_positions.len();
    for k in 0..n
        invariant
            n == ps@.len(),
            ps@ == mine_positions@,
            grid@.len() == size,
            size == config.spec_total(),
            forall|k2: int| 0 <= k2 < n ==> (#[trigger] ps@[k2]) < size,
            forall|i: int|
                0 <= i < grid@.len() ==> (#[trigger] grid@[i] is Mine <==> exists|j: int|
                    0 <= j < k && ps@[j] as int == i),
            forall|i: int|
                0 <= i < grid@.len() ==> (#[trigger] grid@[i] is Mine || grid@[i] is Empty),
    {
        let p = mine_positions[k];
        grid[p] = GridState::Mine;
        proof {
            assert forall|i: int| 0 <= i < grid@.len() implies (#[trigger] grid@[i] is Mine
                <==> exists|j: int| 0 <= j < k + 1 && ps@[j] as int == i) by {
                if i == p as int {
                    assert(ps@[k as int] as int == i);
                } else {
                    if exists|j: int| 0 <= j < k + 1 && ps@[j] as int == i {
                        let j = choose|j: int| 0 <= j < k + 1 && ps@[j] as int == i;
                        assert(0 <= j < k && ps@[j] as int == i);
                    }
                }
            }
        }
    }
    proof {
        assert forall|i: int| 0 <= i < grid@.len() implies (#[trigger] grid@[i] is Mine
            <==> seq_has(ps@, i)) by {}
    }

    proof {
        assert forall|a: int, b: int|
            in_bounds(a, b, wi, hi) && !(grid@[sidx(a, b, wi)] is Mine) implies grid@[sidx(
            a,
            b,
            wi,
        )] is Empty by {
            lemma_sidx_bounds(a, b, wi, hi);
        }
    }

    // Derive each safe cell's adjacent-mine count. Cells are visited in
    // increasing flat-index order, and writing a count never changes which
    // cells are mines, so earlier labels stay correct.
    let mut y: u32 = 0;
    while y < h
        invariant
            y <= h,
            wi == w as int,
            hi == h as int,
            grid@.len() == size,
            size == config.spec_total(),
            wi == config.width as int,
            hi == config.height as int,
            size <= i32::MAX as int,
            forall|i: int|
                0 <= i < grid@.len() ==> (#[trigger] grid@[i] is Mine <==> seq_has(ps@, i)),
            ps@ == mine_positions@,
            forall|a: int, b: int|
                in_bounds(a, b, wi, hi) && sidx(a, b, wi) < sidx(0, y as int, wi)
                    ==> #[trigger] cell_ok(grid@, wi, hi, a, b),
            forall|a: int, b: int|
                in_bounds(a, b, wi, hi) && sidx(a, b, wi) >= sidx(0, y as int, wi) && !(
                grid@[sidx(a, b, wi)] is Mine) ==> grid@[sidx(a, b, wi)] is Empty,
        decreases h - y,
    {
        let mut x: u32 = 0;
        while x < w
            invariant
                x <= w,
                y < h,
                wi == w as int,
                hi == h as int,
                grid@.len() == size,
                size == config.spec_total(),
                wi == config.width as int,
                hi == config.height as int,
                size <= i32::MAX as int,
                forall|i: int|
                    0 <= i < grid@.len() ==> (#[trigger] grid@[i] is Mine <==> seq_has(ps@, i)),
                ps@ == mine_positions@,
                forall|a: int, b: int|
                    in_bounds(a, b, wi, hi) && sidx(a, b, wi) < sidx(x as int, y as int, wi)
                        ==> #[trigger] cell_ok(grid@, wi, hi, a, b),
                forall|a: int, b: int|
                    in_bounds(a, b, wi, hi) && sidx(a, b, wi) >= sidx(x as int, y as int, wi) && !(
                    grid@[sidx(a, b, wi)] is Mine) ==> grid@[sidx(a, b, wi)] is Empty,
            decreases w - x,
        {
            proof {
                lemma_sidx_bounds(x as int, y as int, wi, hi);
            }
            let i = pos_to_index(x, y, w);
            if grid[i] == GridState::Empty {
                let mut count: u8 = 0;
                proof {
                    if x > 0 && y > 0 {
                        lemma_sidx_bounds(x as int - 1, y as int - 1, wi, hi);
                    }
                    if y > 0 {
                        lemma_sidx_bounds(x as int, y as int - 1, wi, hi);
                        if x + 1 < w {
                            lemma_sidx_bounds(x as int + 1, y as int - 1, wi, hi);
                        }
                    }
                    if x > 0 {
                        lemma_sidx_bounds(x as int - 1, y as int, wi, hi);
                        if y + 1 < h {
                            lemma_sidx_bounds(x as int - 1, y as int + 1, wi, hi);
                        }
                    }
                    if x + 1 < w {
                        lemma_sidx_bounds(x as int + 1, y as int, wi, hi);
                        if y + 1 < h {
                            lemma_sidx_bounds(x as int + 1, y as int + 1, wi, hi);
                        }
                    }
                    if y + 1 < h {
                        lemma_sidx_bounds(x as int, y as int + 1, wi, hi);
                    }
                }
                if x > 0 && y > 0 && grid[pos_to_index(x - 1, y - 1, w)] == GridState::Mine {
                    count = count + 1;
                }
                if y > 0 && grid[pos_to_index(x, y - 1, w)] == GridState::Mine {
                    count = count + 1;
                }
                if x + 1 < w && y > 0 && grid[pos_to_index(x + 1, y - 1, w)] == GridState::Mine {
                    count = count + 1;
                }
                if x > 0 && grid[pos_to_index(x - 1, y, w)] == GridState::Mine {
                    count = count + 1;
                }
                if x + 1 < w && grid[pos_to_index(x + 1, y, w)] == GridState::Mine {
                    count = count + 1;
                }
                if x > 0 && y + 1 < h && grid[pos_to_index(x - 1, y + 1, w)] == GridState::Mine {
                    count = count + 1;
                }
                if y + 1 < h && grid[pos_to_index(x, y + 1, w)] == GridState::Mine {
                    count = count + 1;
                }
                if x + 1 < w && y + 1 < h && grid[pos_to_index(x + 1, y + 1, w)]
                    == GridState::Mine {
                    count = count + 1;
                }
                assert(count as int == adj_mine_count(grid@, wi, hi, x as int, y as int));

                let ghost old_grid = grid@;
                if count > 0 {
                    grid[i] = GridState::Count(count);
                } else {
                    grid[i] = GridState::Empty;
                }
                proof {
                    let xi = x as int;
                    let yi = y as int;
                    assert(!(grid@[sidx(xi, yi, wi)] is Mine));
                    assert forall|i2: int| 0 <= i2 < grid@.len() implies (#[trigger] grid@[i2]
                        is Mine <==> old_grid[i2] is Mine) by {}
                    lemma_adj_congruent(old_grid, grid@, wi, hi, xi, yi);
                    assert(cell_ok(grid@, wi, hi, xi, yi));
                    assert forall|a: int, b: int|
                        in_bounds(a, b, wi, hi) && sidx(a, b, wi) < sidx(xi + 1, yi, wi) implies #[trigger] cell_ok(
                        grid@,
                        wi,
                        hi,
                        a,
                        b,
                    ) by {
                        if sidx(a, b, wi) < sidx(xi, yi, wi) {
                            lemma_sidx_bounds(a, b, wi, hi);
                            lemma_adj_congruent(old_grid, grid@, wi, hi, a, b);
                            assert(cell_ok(old_grid, wi, hi, a, b));
                            assert(grid@[sidx(a, b, wi)] == old_grid[sidx(a, b, wi)]);
                        } else {
                            lemma_sidx_injective(a, b, xi, yi, wi, hi);
                        }
                    }
                    assert forall|a: int, b: int|
                        in_bounds(a, b, wi, hi) && sidx(a, b, wi) >= sidx(xi + 1, yi, wi) && !(
                        grid@[sidx(a, b, wi)] is Mine) implies grid@[sidx(a, b, wi)] is Empty by {
                        lemma_sidx_bounds(a, b, wi, hi);
                        assert(grid@[sidx(a, b, wi)] == old_grid[sidx(a, b, wi)]);
                    }
                }
            } else {
                proof {
                    let xi = x as int;
                    let yi = y as int;
                    assert(in_bounds(xi, yi, wi, hi));
                    assert(grid@[sidx(xi, yi, wi)] is Mine);
                    assert(cell_ok(grid@, wi, hi, xi, yi));
                    assert forall|a: int, b: int|
                        in_bounds(a, b, wi, hi) && sidx(a, b, wi) < sidx(xi + 1, yi, wi) implies #[trigger] cell_ok(
                        grid@,
                        wi,
                        hi,
                        a,
                        b,
                    ) by {
                        if !(sidx(a, b, wi) < sidx(xi, yi, wi)) {
                            lemma_sidx_injective(a, b, xi, yi, wi, hi);
                        }
                    }
                    assert forall|a: int, b: int|
                        in_bounds(a, b, wi, hi) && sidx(a, b, wi) >= sidx(xi + 1, yi, wi) && !(
                        grid@[sidx(a, b, wi)] is Mine) implies grid@[sidx(a, b, wi)] is Empty by {
                        lemma_sidx_bounds(a, b, wi, hi);
                    }
                }
            }
            x = x + 1;
        }
        proof {
            assert((y as int + 1) * wi == y as int * wi + wi) by (nonlinear_arith);
        }
        y = y + 1;
    }
    proof {
        assert(hi * wi == wi * hi) by (nonlinear_arith);
        assert forall|a: int, b: int| in_bounds(a, b, wi, hi) implies #[trigger] cell_ok(
            grid@,
            wi,
            hi,
            a,
            b,
        ) by {
            lemma_sidx_bounds(a, b, wi, hi);
        }
    }
    grid
}

/// Relies on rand's `SliceRandom::shuffle`: a Fisher-Yates pass of in-place
/// swaps, so the vector afterwards holds exactly the same elements, permuted.
#[verifier::external_body]
fn shuffle_indices(v: &mut Vec<usize>)
    ensures
        final(v)@.len() == old(v)@.len(),
        final(v)@.to_multiset() == old(v)@.to_multiset(),
{
    let mut rng = rand::thread_rng();
    v.shuffle(&mut rng);
}

/// Pick `mines` distinct cell indices from `[0, size)` at random; when
/// `mines >= size`, every cell is a mine and the full range is returned.
pub fn generate_mines(mines: usize, size: usize) -> (r: Vec<usize>)
    ensures
        r@.len() == if mines >= size {
            size as int
        } else {
            mines as int
        },
        r@.no_duplicates(),
        forall|k: int| 0 <= k < r@.len() ==> (#[trigger] r@[k]) < size,
{
    let mut all: Vec<usize> = Vec::new();
    let mut i: usize = 0;
    while i < size
        invariant
            i <= size,
            all@.len() == i,
            forall|k: int| 0 <= k < i ==> #[trigger] all@[k] == k,
        decreases size - i,
    {
        all.push(i);
        i = i + 1;
    }
    assert(all@.no_duplicates());

    // Shortcut for 100% density: every cell is a mine.
    if mines >= size {
        return all;
    }

    let ghost before = all@;
    shuffle_indices(&mut all);
    proof {
        broadcast use group_to_multiset_ensures;

        before.lemma_multiset_has_no_duplicates();
        all@.lemma_multiset_has_no_duplicates_conv();
        assert(all@.no_duplicates());
        assert forall|k: int| 0 <= k < all@.len() implies (#[trigger] all@[k]) < size by {
            assert(all@.contains(all@[k]));
            assert(all@.to_multiset().count(all@[k]) > 0);
            assert(before.contains(all@[k]));
            let j = choose|j: int| 0 <= j < before.len() && before[j] == all@[k];
            assert(before[j] == j as usize);
        }
    }

    let ghost shuffled = all@;
    all.truncate(mines);
    proof {
        assert(all@ =~= shuffled.take(mines as int));
        assert forall|k1: int, k2: int|
            0 <= k1 < all@.len() && 0 <= k2 < all@.len() && k1 != k2 implies all@[k1] != all@[k2] by {
            assert(shuffled[k1] != shuffled[k2]);
        }
    }
    all
}

} // verus!
