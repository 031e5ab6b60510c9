//! The eight winning lines of the 3×3 grid and the test whether a set of
//! cells holds one of them.

use std::collections::HashSet;
use vstd::prelude::*;

verus! {

broadcast use vstd::std_specs::hash::group_hash_axioms;

/// Number of cells on the board.
pub const CELLS: usize = 9;

/// The rows, the columns and the two diagonals, by row-major cell index.
pub const WINNING_COMBINATIONS: [[usize; 3]; 8] = [
    [0, 1, 2],
    [3, 4, 5],
    [6, 7, 8],
    [0, 3, 6],
    [1, 4, 7],
    [2, 5, 8],
    [0, 4, 8],
    [2, 4, 6],
];

/// Every cell of `s` lies on the board.
pub open spec fn on_board(s: Set<usize>) -> bool {
    forall|i: usize| s.contains(i) ==> i < CELLS
}

/// `s` holds all three cells of the `k`-th winning line.
pub open spec fn covers(s: Set<usize>, k: int) -> bool {
    &&& s.contains(WINNING_COMBINATIONS[k][0])
    &&& s.contains(WINNING_COMBINATIONS[k][1])
    &&& s.contains(WINNING_COMBINATIONS[k][2])
}

/// `s` holds all three cells of at least one winning line.
pub open spec fn has_line(s: Set<usize>) -> bool {
    exists|k: int| 0 <= k < 8 && covers(s, k)
}

/// The three cells of the `k`-th winning line.
pub open spec fn line_cells(k: int) -> Set<usize> {
    set![WINNING_COMBINATIONS[k][0], WINNING_COMBINATIONS[k][1], WINNING_COMBINATIONS[k][2]]
}

/// A set holds a line exactly if the three cells of one of the eight
/// winning lines all belong to it: each line alone is one, and so is every
/// set around it.
pub proof fn lemma_has_line_iff_contains_line_cells(s: Set<usize>)
    ensures
        has_line(s) <==> exists|k: int| 0 <= k < 8 && #[trigger] line_cells(k).subset_of(s),
        forall|k: int| 0 <= k < 8 ==> has_line(#[trigger] line_cells(k)),
{
    assert forall|k: int| 0 <= k < 8 implies has_line(#[trigger] line_cells(k)) by {
        assert(covers(line_cells(k), k));
    }
    if has_line(s) {
        let k = choose|k: int| 0 <= k < 8 && covers(s, k);
        assert(line_cells(k).subset_of(s));
    }
    if exists|k: int| 0 <= k < 8 && #[trigger] line_cells(k).subset_of(s) {
        let k = choose|k: int| 0 <= k < 8 && #[trigger] line_cells(k).subset_of(s);
        assert(line_cells(k).contains(WINNING_COMBINATIONS[k][0]));
        assert(line_cells(k).contains(WINNING_COMBINATIONS[k][1]));
        assert(line_cells(k).contains(WINNING_COMBINATIONS[k][2]));
        assert(covers(s, k));
    }
}

/// Whether `positions` holds a complete winning line.
pub fn holds_line(positions: &HashSet<usize>) -> (r: bool)
    ensures
        r == has_line(positions@),
{
    let mut k: usize = 0;
    while k < 8
        invariant
            k <= 8,
            forall|j: int| 0 <= j < k ==> !covers(positions@, j),
        decreases 8 - k,
    {
        let comb = WINNING_COMBINATIONS[k];
        if positions.contains(&comb[0]) && positions.contains(&comb[1]) && positions.contains(
            &comb[2],
        ) {
            assert(covers(positions@, k as int));
            return true;
        }
        k += 1;
    }
    false
}

} // verus!
