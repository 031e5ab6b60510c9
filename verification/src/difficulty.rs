//! Move-selection strategies: a uniform pick, a one-ply heuristic that
//! completes or blocks a line, and a full-depth search.
//!
//! Every strategy gets the cells of the opponent, the cells of the side to
//! move and the empty cells, and answers with one empty cell. The rank
//! `draw` stands for the caller's random source: where a strategy chooses
//! uniformly, it takes the `draw`-th empty cell in ascending order.

use crate::choice::{lemma_nth_of_all, lemma_on_board_finite, nth_cell, pick_nth};
use crate::lines::{holds_line, on_board, CELLS, WINNING_COMBINATIONS};
use crate::search::{
    best_move, is_best_move, is_settled, lemma_best_move_unique, lemma_value_is_best_reply,
    min_max_value, reply_value, root_value, score_value,
};
use std::collections::HashSet;
use vstd::prelude::*;

verus! {

broadcast use vstd::std_specs::hash::group_hash_axioms;

/// A rule for choosing the next move.
pub trait IDifficulty {
    /// Chooses an empty cell for the side that holds `player2_pos`, against
    /// the side that holds `player1_pos`. `draw` ranks the cell to take
    /// where the rule chooses uniformly.
    fn get_next_move(
        &self,
        player1_pos: &HashSet<usize>,
        player2_pos: &HashSet<usize>,
        empty: &HashSet<usize>,
        size: u8,
        draw: usize,
    ) -> (next: usize)
        requires
            on_board(empty@),
            draw < empty@.len(),
        ensures
            empty@.contains(next),
    ;
}

/// Uniform choice among the empty cells.
pub struct Easy;

impl IDifficulty for Easy {
    fn get_next_move(
        &self,
        _player1_pos: &HashSet<usize>,
        _player2_pos: &HashSet<usize>,
        empty: &HashSet<usize>,
        _size: u8,
        draw: usize,
    ) -> (next: usize)
        ensures
            next == nth_cell(empty@, draw as nat),
    {
        pick_nth(empty, draw)
    }
}

/// Whether the holder of `positions` holds a cell.
pub open spec fn held_by(positions: Set<usize>) -> spec_fn(usize) -> bool {
    |cell: usize| positions.contains(cell)
}

/// Whether a cell is empty and not held by the holder of `positions`.
pub open spec fn open_to(positions: Set<usize>, empty: Set<usize>) -> spec_fn(usize) -> bool {
    |cell: usize| !positions.contains(cell) && empty.contains(cell)
}

/// The cell that completes the line `comb` for the holder of `positions`:
/// exactly two cells of the line are held, and exactly one, which it gives,
/// is open.
pub open spec fn completion(positions: Set<usize>, empty: Set<usize>, comb: Seq<usize>) -> Option<
    usize,
> {
    let held = comb.filter(held_by(positions));
    let open = comb.filter(open_to(positions, empty));
    if held.len() == 2 && open.len() == 1 {
        Some(open[0])
    } else {
        None
    }
}

/// In a line of three cells the completion is the cell that is open while
/// the two others are held.
pub proof fn lemma_completion_of_three(positions: Set<usize>, empty: Set<usize>, comb: Seq<usize>)
    requires
        comb.len() == 3,
    ensures
        completion(positions, empty, comb) == ({
            let held = held_by(positions);
            let open = open_to(positions, empty);
            if held(comb[0]) && held(comb[1]) && open(comb[2]) {
                Some(comb[2])
            } else if held(comb[0]) && open(comb[1]) && held(comb[2]) {
                Some(comb[1])
            } else if open(comb[0]) && held(comb[1]) && held(comb[2]) {
                Some(comb[0])
            } else {
                None
            }
        }),
{
    let held = held_by(positions);
    let open = open_to(positions, empty);
    let none = Seq::<usize>::empty();
    let one = none.push(comb[0]);
    let two = one.push(comb[1]);
    assert(comb =~= two.push(comb[2]));
    assert(none.filter(held) =~= none && none.filter(open) =~= none) by {
        reveal(Seq::filter);
    }
    none.lemma_filter_push(comb[0], held);
    one.lemma_filter_push(comb[1], held);
    two.lemma_filter_push(comb[2], held);
    none.lemma_filter_push(comb[0], open);
    one.lemma_filter_push(comb[1], open);
    two.lemma_filter_push(comb[2], open);
}

/// The completion of the `k`-th winning line.
pub open spec fn line_completion(positions: Set<usize>, empty: Set<usize>, k: int) -> Option<
    usize,
> {
    completion(positions, empty, WINNING_COMBINATIONS[k]@)
}

/// The `k`-th winning line is the first in table order that `positions`
/// can complete.
pub open spec fn is_first_completion(positions: Set<usize>, empty: Set<usize>, k: int) -> bool {
    &&& 0 <= k < 8
    &&& line_completion(positions, empty, k) is Some
    &&& forall|j: int| 0 <= j < k ==> #[trigger] line_completion(positions, empty, j) is None
}

/// The cell that completes the first winning line in table order that
/// `positions` can complete, if there is such a line.
pub open spec fn first_completion(positions: Set<usize>, empty: Set<usize>) -> Option<usize> {
    if exists|k: int| is_first_completion(positions, empty, k) {
        line_completion(
            positions,
            empty,
            choose|k: int| is_first_completion(positions, empty, k),
        )
    } else {
        None
    }
}

/// The move of the one-ply heuristic: complete an own line, else block a
/// line of the opponent, else take the `draw`-th empty cell.
pub open spec fn moderate_choice(
    opposition: Set<usize>,
    player: Set<usize>,
    empty: Set<usize>,
    draw: usize,
) -> usize {
    match first_completion(player, empty) {
        Some(cell) => cell,
        None => match first_completion(opposition, empty) {
            Some(cell) => cell,
            None => nth_cell(empty, draw as nat),
        },
    }
}

/// One-ply heuristic: take a win, else block one, else choose uniformly.
pub struct Moderate;

impl Moderate {
    /// The cell with which the holder of `positions` completes `comb`, if
    /// exactly two of its cells are held and exactly one is open.
    pub fn get_winning_combination_for_player(
        &self,
        positions: &HashSet<usize>,
        empty_set: &HashSet<usize>,
        comb: &[usize],
    ) -> (r: Option<usize>)
        ensures
            r == completion(positions@, empty_set@, comb@),
            r matches Some(cell) ==> empty_set@.contains(cell),
    {
        let mut partial_comb: Vec<usize> = Vec::new();
        let mut missing_num: Vec<usize> = Vec::new();
        let mut i: usize = 0;
        while i < comb.len()
            invariant
                i <= comb@.len(),
                partial_comb@ == comb@.take(i as int).filter(held_by(positions@)),
                missing_num@ == comb@.take(i as int).filter(open_to(positions@, empty_set@)),
            decreases comb@.len() - i,
        {
            let cell = comb[i];
            proof {
                let seen = comb@.take(i as int);
                assert(comb@.take(i + 1) =~= seen.push(cell));
                seen.lemma_filter_push(cell, held_by(positions@));
                seen.lemma_filter_push(cell, open_to(positions@, empty_set@));
            }
            if positions.contains(&cell) {
                partial_comb.push(cell);
            } else if empty_set.contains(&cell) {
                missing_num.push(cell);
            }
            i += 1;
        }
        proof {
            assert(comb@.take(i as int) =~= comb@);
        }
        if partial_comb.len() == 2 && missing_num.len() == 1 {
            proof {
                comb@.lemma_filter_pred(open_to(positions@, empty_set@), 0);
            }
            Some(missing_num[0])
        } else {
            None
        }
    }

    /// The first completion of `positions` over the table of winning lines.
    fn find_completion(&self, positions: &HashSet<usize>, empty: &HashSet<usize>) -> (r: Option<
        usize,
    >)
        ensures
            r == first_completion(positions@, empty@),
            r matches Some(cell) ==> empty@.contains(cell),
    {
        let mut k: usize = 0;
        while k < 8
            invariant
                k <= 8,
                forall|j: int|
                    0 <= j < k ==> #[trigger] line_completion(positions@, empty@, j) is None,
            decreases 8 - k,
        {
            let comb = WINNING_COMBINATIONS[k];
            let found = self.get_winning_combination_for_player(positions, empty, &comb);
            if found.is_some() {
                assert(is_first_completion(positions@, empty@, k as int));
                return found;
            }
            k += 1;
        }
        None
    }
}

impl IDifficulty for Moderate {
    fn get_next_move(
        &self,
        player1_pos: &HashSet<usize>,
        player2_pos: &HashSet<usize>,
        empty: &HashSet<usize>,
        _size: u8,
        draw: usize,
    ) -> (next: usize)
        ensures
            next == moderate_choice(player1_pos@, player2_pos@, empty@, draw),
    {
        if let Some(cell) = self.find_completion(player2_pos, empty) {
            return cell;
        }
        if let Some(cell) = self.find_completion(player1_pos, empty) {
            return cell;
        }
        pick_nth(empty, draw)
    }
}

/// A set with the same cells as `cells`.
fn copy_of(cells: &HashSet<usize>) -> (r: HashSet<usize>)
    ensures
        r@ == cells@,
{
    let mut r: HashSet<usize> = HashSet::new();
    for cell in it: cells.iter()
        invariant
            it.seq().unref().to_set() == cells@,
            forall|c: usize| r@.contains(c) ==> cells@.contains(c),
            forall|j: int| 0 <= j < it.index() ==> r@.contains(*#[trigger] it.seq()[j]),
    {
        r.insert(*cell);
    }
    assert(r@ =~= cells@);
    r
}

/// The move of the full-depth search: on a board with all nine cells empty
/// the `draw`-th cell, otherwise the root move of the search.
pub open spec fn hard_choice(
    opposition: Set<usize>,
    player: Set<usize>,
    empty: Set<usize>,
    draw: usize,
) -> usize {
    if empty.len() == CELLS {
        nth_cell(empty, draw as nat)
    } else {
        best_move(opposition, player, empty)
    }
}

/// On a board with all nine cells empty the full-depth search does not
/// search: it takes the cell whose index is the draw, so that each of the
/// nine cells is the answer to exactly one draw.
pub proof fn lemma_opening_move(
    opposition: Set<usize>,
    player: Set<usize>,
    empty: Set<usize>,
    draw: usize,
)
    requires
        on_board(empty),
        empty.len() == CELLS,
        draw < CELLS,
    ensures
        hard_choice(opposition, player, empty, draw) == draw,
{
    lemma_nth_of_all(empty, draw);
}

/// Full-depth search.
pub struct Hard;

impl Hard {
    /// Scores a position for the searching side, whose cells are `player`.
    pub fn score(&self, opposition: &HashSet<usize>, player: &HashSet<usize>) -> (r: i32)
        ensures
            r == score_value(opposition@, player@),
    {
        if holds_line(player) {
            10
        } else if holds_line(opposition) {
            -10
        } else {
            0
        }
    }

    /// Minimax value of the position, `depth` plies below the root reply,
    /// with the searching side to move when `is_max`. The three sets are
    /// used as scratch space and are handed back as they came.
    pub fn min_max(
        &self,
        depth: i32,
        is_max: bool,
        player1_pos: &mut HashSet<usize>,
        player2_pos: &mut HashSet<usize>,
        empty: &mut HashSet<usize>,
    ) -> (r: i32)
        requires
            on_board(old(empty)@),
            depth + old(empty)@.len() <= i32::MAX,
        ensures
            r == min_max_value(
                depth as int,
                is_max,
                old(player1_pos)@,
                old(player2_pos)@,
                old(empty)@,
            ),
            -10 <= r <= 10,
            final(player1_pos)@ == old(player1_pos)@,
            final(player2_pos)@ == old(player2_pos)@,
            final(empty)@ == old(empty)@,
        decreases old(empty)@.len(),
    {
        let ghost opp = player1_pos@;
        let ghost own = player2_pos@;
        let ghost e = empty@;
        proof {
            lemma_on_board_finite(e);
        }
        let score = self.score(player1_pos, player2_pos);
        if depth == 0 && score == 10 || score == -10 {
            return score;
        }
        if empty.len() == 0 {
            return 0;
        }
        let mut best_score: i32 = if is_max {
            -1000
        } else {
            1000
        };
        let ghost mut witness: usize = 0;
        let mut cell: usize = 0;
        while cell < CELLS
            invariant
                cell <= CELLS,
                e == old(empty)@,
                e.len() > 0,
                !is_settled(depth as int, opp, own),
                player1_pos@ == opp,
                player2_pos@ == own,
                empty@ == e,
                on_board(e),
                e.finite(),
                depth + e.len() <= i32::MAX,
                forall|c: usize|
                    c < cell && #[trigger] e.contains(c) ==> if is_max {
                        reply_value(depth as int, is_max, opp, own, e, c) <= best_score
                    } else {
                        reply_value(depth as int, is_max, opp, own, e, c) >= best_score
                    },
                if exists|c: usize| c < cell && #[trigger] e.contains(c) {
                    &&& e.contains(witness)
                    &&& reply_value(depth as int, is_max, opp, own, e, witness) == best_score
                    &&& -10 <= best_score <= 10
                } else {
                    best_score == if is_max {
                        -1000i32
                    } else {
                        1000i32
                    }
                },
            decreases CELLS - cell,
        {
            if empty.contains(&cell) {
                if is_max {
                    let fresh = player2_pos.insert(cell);
                    empty.remove(&cell);
                    let score = self.min_max(depth + 1, !is_max, player1_pos, player2_pos, empty);
                    if score > best_score {
                        best_score = score;
                        proof {
                            witness = cell;
                        }
                    }
                    empty.insert(cell);
                    if fresh {
                        player2_pos.remove(&cell);
                    }
                } else {
                    let fresh = player1_pos.insert(cell);
                    empty.remove(&cell);
                    let score = self.min_max(depth + 1, !is_max, player1_pos, player2_pos, empty);
                    if score < best_score {
                        best_score = score;
                        proof {
                            witness = cell;
                        }
                    }
                    empty.insert(cell);
                    if fresh {
                        player1_pos.remove(&cell);
                    }
                }
                assert(player1_pos@ =~= opp);
                assert(player2_pos@ =~= own);
                assert(empty@ =~= e);
            }
            cell += 1;
        }
        proof {
            assert(e.contains(e.choose()));
            lemma_value_is_best_reply(witness, depth as int, is_max, opp, own, e);
        }
        best_score
    }

    /// The root move of the search: every empty cell is tried in ascending
    /// order as the searching side's move, and a later cell replaces the
    /// choice only where its value is strictly greater. Gives -1 when no
    /// cell is empty. The three sets are handed back as they came.
    pub fn find_best_move(
        &self,
        player1_pos: &mut HashSet<usize>,
        player2_pos: &mut HashSet<usize>,
        empty: &mut HashSet<usize>,
    ) -> (r: i32)
        requires
            on_board(old(empty)@),
        ensures
            old(empty)@.len() == 0 ==> r == -1,
            old(empty)@.len() > 0 ==> 0 <= r < CELLS && is_best_move(
                old(player1_pos)@,
                old(player2_pos)@,
                old(empty)@,
                r as usize,
            ),
            final(player1_pos)@ == old(player1_pos)@,
            final(player2_pos)@ == old(player2_pos)@,
            final(empty)@ == old(empty)@,
    {
        let ghost opp = player1_pos@;
        let ghost own = player2_pos@;
        let ghost e = empty@;
        proof {
            lemma_on_board_finite(e);
        }
        let mut best_score: i32 = -1000;
        let mut best_move: i32 = -1;
        let mut cell: usize = 0;
        while cell < CELLS
            invariant
                cell <= CELLS,
                player1_pos@ == opp,
                player2_pos@ == own,
                empty@ == e,
                on_board(e),
                e.finite(),
                e.len() <= CELLS,
                forall|c: usize|
                    c < cell && e.contains(c) ==> #[trigger] root_value(opp, own, e, c)
                        <= best_score,
                if exists|c: usize| c < cell && #[trigger] e.contains(c) {
                    &&& 0 <= best_move < cell
                    &&& e.contains(best_move as usize)
                    &&& root_value(opp, own, e, best_move as usize) == best_score
                    &&& forall|c: usize|
                        c < best_move && e.contains(c) ==> #[trigger] root_value(opp, own, e, c)
                            < best_score
                } else {
                    best_move == -1 && best_score == -1000
                },
            decreases CELLS - cell,
        {
            if empty.contains(&cell) {
                empty.remove(&cell);
                let fresh = player2_pos.insert(cell);
                let score = self.min_max(0, false, player1_pos, player2_pos, empty);
                assert(score == root_value(opp, own, e, cell)) by {
                    reveal(root_value);
                }
                empty.insert(cell);
                if fresh {
                    player2_pos.remove(&cell);
                }
                assert(player2_pos@ =~= own);
                assert(empty@ =~= e);
                if score > best_score {
                    best_score = score;
                    best_move = cell as i32;
                }
            }
            cell += 1;
        }
        proof {
            if e.len() > 0 {
                assert(e.contains(e.choose()));
            } else {
                assert(e =~= Set::<usize>::empty());
            }
        }
        best_move
    }
}

impl IDifficulty for Hard {
    fn get_next_move(
        &self,
        player1_pos: &HashSet<usize>,
        player2_pos: &HashSet<usize>,
        empty: &HashSet<usize>,
        _size: u8,
        draw: usize,
    ) -> (next: usize)
        ensures
            next == hard_choice(player1_pos@, player2_pos@, empty@, draw),
    {
        if empty.len() == CELLS {
            return pick_nth(empty, draw);
        }
        let mut empty_mut_clone = copy_of(empty);
        let mut player1_mut_clone = copy_of(player1_pos);
        let mut player2_mut_clone = copy_of(player2_pos);

        let next_move = self.find_best_move(
            &mut player1_mut_clone,
            &mut player2_mut_clone,
            &mut empty_mut_clone,
        );
        if next_move >= 0 {
            proof {
                lemma_best_move_unique(
                    player1_pos@,
                    player2_pos@,
                    empty@,
                    next_move as usize,
                    best_move(player1_pos@, player2_pos@, empty@),
                );
            }
            next_move as usize
        } else {
            pick_nth(empty, draw)
        }
    }
}

/// The selectable levels of play.
#[derive(Clone, Copy, Debug, PartialEq, Eq, Structural)]
pub enum DifficultyLevel {
    EASY,
    MODERATE,
    HARD,
}

/// The rule for choosing moves that a level stands for.
pub enum Difficulty {
    EASY(Easy),
    MODERATE(Moderate),
    HARD(Hard),
}

/// The move that the rule of `level` chooses.
pub open spec fn level_choice(
    level: DifficultyLevel,
    opposition: Set<usize>,
    player: Set<usize>,
    empty: Set<usize>,
    draw: usize,
) -> usize {
    match level {
        DifficultyLevel::EASY => nth_cell(empty, draw as nat),
        DifficultyLevel::MODERATE => moderate_choice(opposition, player, empty, draw),
        DifficultyLevel::HARD => hard_choice(opposition, player, empty, draw),
    }
}

/// Whether the rule of `level` consults the draw on this position: the
/// uniform rule always, the one-ply heuristic where neither side can
/// complete a line, the full-depth search on nine empty cells.
pub open spec fn level_uses_draw(
    level: DifficultyLevel,
    opposition: Set<usize>,
    player: Set<usize>,
    empty: Set<usize>,
) -> bool {
    match level {
        DifficultyLevel::EASY => true,
        DifficultyLevel::MODERATE => first_completion(player, empty) is None && first_completion(
            opposition,
            empty,
        ) is None,
        DifficultyLevel::HARD => empty.len() == CELLS,
    }
}

/// Where the rule does not consult the draw, every draw gives the same move.
pub proof fn lemma_unused_draw(
    level: DifficultyLevel,
    opposition: Set<usize>,
    player: Set<usize>,
    empty: Set<usize>,
    draw: usize,
    other_draw: usize,
)
    requires
        !level_uses_draw(level, opposition, player, empty),
    ensures
        level_choice(level, opposition, player, empty, draw) == level_choice(
            level,
            opposition,
            player,
            empty,
            other_draw,
        ),
{
}

impl Difficulty {
    /// The level that this rule belongs to.
    pub open spec fn level(&self) -> DifficultyLevel {
        match self {
            Difficulty::EASY(_) => DifficultyLevel::EASY,
            Difficulty::MODERATE(_) => DifficultyLevel::MODERATE,
            Difficulty::HARD(_) => DifficultyLevel::HARD,
        }
    }

    /// Whether the rule consults the draw on this position, so that a
    /// caller reads its random source only where the draw is used.
    pub fn uses_draw(
        &self,
        player1_pos: &HashSet<usize>,
        player2_pos: &HashSet<usize>,
        empty: &HashSet<usize>,
    ) -> (r: bool)
        ensures
            r == level_uses_draw(self.level(), player1_pos@, player2_pos@, empty@),
    {
        match self {
            Difficulty::EASY(_) => true,
            Difficulty::MODERATE(lvl) => lvl.find_completion(player2_pos, empty).is_none()
                && lvl.find_completion(player1_pos, empty).is_none(),
            Difficulty::HARD(_) => empty.len() == CELLS,
        }
    }
}

impl IDifficulty for Difficulty {
    fn get_next_move(
        &self,
        player1_pos: &HashSet<usize>,
        player2_pos: &HashSet<usize>,
        empty: &HashSet<usize>,
        size: u8,
        draw: usize,
    ) -> (next: usize)
        ensures
            next == level_choice(self.level(), player1_pos@, player2_pos@, empty@, draw),
    {
        match self {
            Difficulty::EASY(lvl) => lvl.get_next_move(player1_pos, player2_pos, empty, size, draw),
            Difficulty::MODERATE(lvl) => lvl.get_next_move(
                player1_pos,
                player2_pos,
                empty,
                size,
                draw,
            ),
            Difficulty::HARD(lvl) => lvl.get_next_move(player1_pos, player2_pos, empty, size, draw),
        }
    }
}

} // verus!
