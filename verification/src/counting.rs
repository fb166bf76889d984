//! Counting the `true` entries of a boolean sequence. The engine tracks the
//! number of revealed cells, the number of flags, and the number of mines
//! through masks over the flat cell grid, so all of its counter bookkeeping
//! reduces to these lemmas.

use vstd::prelude::*;

verus! {

/// How many entries of `s` are `true`.
pub open spec fn count_true(s: Seq<bool>) -> int
    decreases s.len(),
{
    if s.len() == 0 {
        0
    } else {
        count_true(s.drop_last()) + if s.last() {
            1int
        } else {
            0int
        }
    }
}

pub proof fn lemma_count_true_bounds(s: Seq<bool>)
    ensures
        0 <= count_true(s) <= s.len(),
    decreases s.len(),
{
    if s.len() > 0 {
        lemma_count_true_bounds(s.drop_last());
    }
}

/// Updating one entry moves the count by the difference of the two entries.
pub proof fn lemma_count_true_update(s: Seq<bool>, i: int, b: bool)
    requires
        0 <= i < s.len(),
    ensures
        count_true(s.update(i, b)) == count_true(s) + (if b {
            1int
        } else {
            0int
        }) - (if s[i] {
            1int
        } else {
            0int
        }),
    decreases s.len(),
{
    let t = s.update(i, b);
    if i == s.len() - 1 {
        assert(t.drop_last() =~= s.drop_last());
    } else {
        assert(t.drop_last() =~= s.drop_last().update(i, b));
        lemma_count_true_update(s.drop_last(), i, b);
    }
}

pub proof fn lemma_count_true_all_false(s: Seq<bool>)
    requires
        forall|i: int| 0 <= i < s.len() ==> !s[i],
    ensures
        count_true(s) == 0,
    decreases s.len(),
{
    if s.len() > 0 {
        lemma_count_true_all_false(s.drop_last());
    }
}

/// A pointwise-smaller mask has no larger a count, and when the counts tie
/// the masks agree everywhere.
pub proof fn lemma_count_true_pointwise_le(a: Seq<bool>, b: Seq<bool>)
    requires
        a.len() == b.len(),
        forall|i: int| 0 <= i < a.len() ==> a[i] ==> b[i],
    ensures
        count_true(a) <= count_true(b),
        count_true(a) == count_true(b) ==> forall|i: int| 0 <= i < a.len() ==> b[i] ==> a[i],
    decreases a.len(),
{
    if a.len() > 0 {
        assert(forall|i: int|
            0 <= i < a.drop_last().len() ==> a.drop_last()[i] ==> b.drop_last()[i]);
        lemma_count_true_pointwise_le(a.drop_last(), b.drop_last());
        if count_true(a) == count_true(b) {
            assert forall|i: int| 0 <= i < a.len() && b[i] implies a[i] by {
                if i < a.len() - 1 {
                    assert(a.drop_last()[i] == a[i] && b.drop_last()[i] == b[i]);
                }
            }
        }
    }
}

/// Complementary masks split the length between their counts.
pub proof fn lemma_count_true_complement(a: Seq<bool>, b: Seq<bool>)
    requires
        a.len() == b.len(),
        forall|i: int| 0 <= i < a.len() ==> a[i] == !b[i],
    ensures
        count_true(a) + count_true(b) == a.len(),
    decreases a.len(),
{
    if a.len() > 0 {
        assert(forall|i: int|
            0 <= i < a.drop_last().len() ==> a.drop_last()[i] == !b.drop_last()[i]);
        lemma_count_true_complement(a.drop_last(), b.drop_last());
    }
}

/// A membership mask of a duplicate-free index sequence counts exactly the
/// indices listed.
pub proof fn lemma_count_true_membership(mask: Seq<bool>, ps: Seq<usize>)
    requires
        ps.no_duplicates(),
        forall|k: int| 0 <= k < ps.len() ==> (ps[k] as int) < mask.len(),
        forall|i: int| 0 <= i < mask.len() ==> (mask[i] <==> seq_has(ps, i)),
    ensures
        count_true(mask) == ps.len(),
    decreases ps.len(),
{
    if ps.len() == 0 {
        assert forall|i: int| 0 <= i < mask.len() implies !mask[i] by {
            assert(!seq_has(ps, i));
        }
        lemma_count_true_all_false(mask);
    } else {
        let p = ps.last() as int;
        let ps2 = ps.drop_last();
        let mask2 = mask.update(p, false);
        assert(mask[p]) by {
            assert(ps[ps.len() - 1] as int == p);
        }
        lemma_count_true_update(mask, p, false);
        assert forall|i: int| 0 <= i < mask2.len() implies (mask2[i] <==> seq_has(ps2, i)) by {
            if i == p {
                // `p` occurs only once in `ps`, so it is absent from the prefix.
                assert(!seq_has(ps2, i)) by {
                    if seq_has(ps2, i) {
                        let k = choose|k: int| 0 <= k < ps2.len() && ps2[k] as int == i;
                        assert(ps[k] == ps[ps.len() - 1]);
                        assert(false);
                    }
                }
            } else {
                if seq_has(ps2, i) {
                    let k = choose|k: int| 0 <= k < ps2.len() && ps2[k] as int == i;
                    assert(ps[k] as int == i);
                }
                if seq_has(ps, i) {
                    let k = choose|k: int| 0 <= k < ps.len() && ps[k] as int == i;
                    assert(k < ps.len() - 1 && ps2[k] as int == i);
                }
            }
        }
        lemma_count_true_membership(mask2, ps2);
    }
}

/// Some entry of `ps` equals `i`.
pub open spec fn seq_has(ps: Seq<usize>, i: int) -> bool {
    exists|k: int| 0 <= k < ps.len() && ps[k] as int == i
}

} // verus!
