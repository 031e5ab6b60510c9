//! Choosing one cell out of a set by its rank in ascending order.
//!
//! A caller that draws the rank uniformly from `0..len` gets a uniformly
//! chosen cell; the library itself draws nothing.

use crate::lines::{on_board, CELLS};
use std::collections::HashSet;
use vstd::prelude::*;
use vstd::set_lib::{lemma_len_subset, lemma_subset_equality};

verus! {

broadcast use vstd::std_specs::hash::group_hash_axioms;

/// The cells of `s` that are smaller than `bound`.
pub open spec fn below(s: Set<usize>, bound: usize) -> Set<usize> {
    s.filter(|i: usize| i < bound)
}

/// `cell` belongs to `s` and exactly `n` cells of `s` are smaller.
pub open spec fn is_nth(s: Set<usize>, n: nat, cell: usize) -> bool {
    s.contains(cell) && below(s, cell).len() == n
}

/// The `n`-th cell of `s` in ascending order, counted from 0.
pub open spec fn nth_cell(s: Set<usize>, n: nat) -> usize {
    choose|cell: usize| is_nth(s, n, cell)
}

/// A set on the board is finite and has at most nine cells.
pub proof fn lemma_on_board_finite(s: Set<usize>)
    requires
        on_board(s),
    ensures
        s.finite(),
        s.len() <= CELLS,
{
    let all = set![0usize, 1, 2, 3, 4, 5, 6, 7, 8];
    assert(s.subset_of(all));
    assert(all.len() <= 9);
    lemma_len_subset(s, all);
}

/// Two cells of the same rank in a finite set are the same cell.
pub proof fn lemma_nth_unique(s: Set<usize>, n: nat, a: usize, b: usize)
    requires
        s.finite(),
        is_nth(s, n, a),
        is_nth(s, n, b),
    ensures
        a == b,
{
    if a < b {
        lemma_rank_grows(s, a, b);
    } else if b < a {
        lemma_rank_grows(s, b, a);
    }
}

/// A larger cell of a finite set has a larger rank.
proof fn lemma_rank_grows(s: Set<usize>, a: usize, b: usize)
    requires
        s.finite(),
        s.contains(a),
        a < b,
    ensures
        below(s, a).len() < below(s, b).len(),
{
    let lower = below(s, a).insert(a);
    assert(lower.subset_of(below(s, b)));
    lemma_len_subset(lower, below(s, b));
}

/// Extending the bound by one adds the cell at the old bound, if `s` has it.
proof fn lemma_below_step(s: Set<usize>, bound: usize)
    requires
        s.finite(),
        bound < usize::MAX,
    ensures
        below(s, bound).finite(),
        below(s, (bound + 1) as usize).len() == below(s, bound).len() + if s.contains(bound) {
            1int
        } else {
            0int
        },
{
    let next = (bound + 1) as usize;
    if s.contains(bound) {
        assert(below(s, next) =~= below(s, bound).insert(bound));
    } else {
        assert(below(s, next) =~= below(s, bound));
    }
}

/// Every cell of a set on the board is chosen by one rank below the set's
/// size, its own; by `lemma_nth_unique` no other rank chooses it. Ranks
/// drawn uniformly therefore give uniformly chosen cells.
pub proof fn lemma_rank_selects(s: Set<usize>, cell: usize)
    requires
        on_board(s),
        s.contains(cell),
    ensures
        below(s, cell).len() < s.len(),
        nth_cell(s, below(s, cell).len()) == cell,
{
    lemma_on_board_finite(s);
    let rank = below(s, cell).len();
    assert(below(s, cell).subset_of(s.remove(cell)));
    lemma_len_subset(below(s, cell), s.remove(cell));
    assert(is_nth(s, rank, cell));
    lemma_nth_unique(s, rank, nth_cell(s, rank), cell);
}

/// Where all nine cells belong to the set, the `n`-th cell is the cell `n`.
pub proof fn lemma_nth_of_all(s: Set<usize>, n: usize)
    requires
        on_board(s),
        s.len() == CELLS,
        n < CELLS,
    ensures
        nth_cell(s, n as nat) == n,
{
    lemma_on_board_finite(s);
    let all = set![0usize, 1, 2, 3, 4, 5, 6, 7, 8];
    assert(s.subset_of(all));
    assert(all.len() == 9);
    lemma_subset_equality(s, all);
    lemma_rank_of_all(s, n);
    assert(is_nth(s, n as nat, n));
    lemma_nth_unique(s, n as nat, nth_cell(s, n as nat), n);
}

/// Where the cells `0..n` all belong to the set, `n` of its cells are
/// smaller than `n`.
proof fn lemma_rank_of_all(s: Set<usize>, n: usize)
    requires
        s.finite(),
        forall|i: usize| i < n ==> s.contains(i),
    ensures
        below(s, n).len() == n,
    decreases n,
{
    if n == 0 {
        assert(below(s, 0) =~= Set::<usize>::empty());
    } else {
        let m = (n - 1) as usize;
        lemma_rank_of_all(s, m);
        lemma_below_step(s, m);
    }
}

/// The cell of `cells` that has exactly `n` smaller cells in `cells`.
pub fn pick_nth(cells: &HashSet<usize>, n: usize) -> (r: usize)
    requires
        on_board(cells@),
        n < cells@.len(),
    ensures
        is_nth(cells@, n as nat, r),
        r == nth_cell(cells@, n as nat),
{
    proof {
        lemma_on_board_finite(cells@);
        assert(below(cells@, 0) =~= Set::<usize>::empty());
    }
    let mut seen: usize = 0;
    let mut i: usize = 0;
    while i < CELLS
        invariant
            i <= CELLS,
            cells@.finite(),
            on_board(cells@),
            n < cells@.len(),
            seen == below(cells@, i).len(),
            seen <= n,
        decreases CELLS - i,
    {
        if cells.contains(&i) {
            if seen == n {
                proof {
                    assert(is_nth(cells@, n as nat, i));
                    lemma_nth_unique(cells@, n as nat, nth_cell(cells@, n as nat), i);
                }
                return i;
            }
            proof {
                lemma_below_step(cells@, i);
            }
            seen += 1;
        } else {
            proof {
                lemma_below_step(cells@, i);
            }
        }
        i += 1;
    }
    proof {
        // all cells have been passed, and fewer than `n + 1` of them seen
        assert(below(cells@, CELLS) =~= cells@);
        assert(false);
    }
    0
}

} // verus!
