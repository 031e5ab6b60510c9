//! The value that full-depth search gives to a position.

use crate::lines::has_line;
use vstd::prelude::*;

verus! {

/// Score of a position for the searching side: 10 when `player` holds a
/// line, else -10 when `opposition` holds one, else 0.
pub open spec fn score_value(opposition: Set<usize>, player: Set<usize>) -> int {
    if has_line(player) {
        10
    } else if has_line(opposition) {
        -10
    } else {
        0
    }
}

/// Value of the position after the side to move has taken the empty cell
/// `cell`: the searching side places into `player` when `is_max`, the
/// opponent into `opposition` otherwise.
pub open spec fn reply_value(
    depth: int,
    is_max: bool,
    opposition: Set<usize>,
    player: Set<usize>,
    empty: Set<usize>,
    cell: usize,
) -> int
    recommends
        empty.finite(),
        empty.contains(cell),
    decreases empty.len(), 0int,
    when empty.finite() && empty.contains(cell)
{
    if is_max {
        min_max_value(depth + 1, false, opposition, player.insert(cell), empty.remove(cell))
    } else {
        min_max_value(depth + 1, true, opposition.insert(cell), player, empty.remove(cell))
    }
}

/// `cell` is a best reply of the side to move: an empty cell whose reply
/// value no other reply exceeds when `is_max`, or undercuts otherwise.
pub open spec fn is_best_reply(
    cell: usize,
    depth: int,
    is_max: bool,
    opposition: Set<usize>,
    player: Set<usize>,
    empty: Set<usize>,
) -> bool
    decreases empty.len(), 1int,
    when empty.finite()
{
    &&& empty.contains(cell)
    &&& forall|c: usize| #[trigger]
        empty.contains(c) ==> if is_max {
            reply_value(depth, is_max, opposition, player, empty, c) <= reply_value(
                depth,
                is_max,
                opposition,
                player,
                empty,
                cell,
            )
        } else {
            reply_value(depth, is_max, opposition, player, empty, c) >= reply_value(
                depth,
                is_max,
                opposition,
                player,
                empty,
                cell,
            )
        }
}

/// The search goes no deeper from this position: a lost position (-10)
/// ends it at any depth, a won one (10) only at depth 0.
pub open spec fn is_settled(depth: int, opposition: Set<usize>, player: Set<usize>) -> bool {
    let score = score_value(opposition, player);
    (depth == 0 && score == 10) || score == -10
}

/// Minimax value of a position at `depth` plies below the root reply.
///
/// A settled position is worth its score and a full board 0; otherwise the
/// position is worth what a best reply of the side to move is worth.
pub open spec fn min_max_value(
    depth: int,
    is_max: bool,
    opposition: Set<usize>,
    player: Set<usize>,
    empty: Set<usize>,
) -> int
    decreases empty.len(), 2int,
    when empty.finite()
{
    if is_settled(depth, opposition, player) {
        score_value(opposition, player)
    } else if empty.len() == 0 {
        0
    } else {
        reply_value(
            depth,
            is_max,
            opposition,
            player,
            empty,
            choose|cell: usize| #[trigger]
                empty.contains(cell) && is_best_reply(
                    cell,
                    depth,
                    is_max,
                    opposition,
                    player,
                    empty,
                ),
        )
    }
}

/// Value of the root move `cell` for the searching side: the position after
/// it has taken `cell`, with the opponent to move at depth 0.
#[verifier::opaque]
pub open spec fn root_value(
    opposition: Set<usize>,
    player: Set<usize>,
    empty: Set<usize>,
    cell: usize,
) -> int {
    min_max_value(0, false, opposition, player.insert(cell), empty.remove(cell))
}

/// `cell` is the root move that the search selects: an empty cell whose
/// value no empty cell exceeds and no smaller empty cell reaches.
pub open spec fn is_best_move(
    opposition: Set<usize>,
    player: Set<usize>,
    empty: Set<usize>,
    cell: usize,
) -> bool {
    &&& empty.contains(cell)
    &&& forall|c: usize|
        empty.contains(c) ==> #[trigger] root_value(opposition, player, empty, c) <= root_value(
            opposition,
            player,
            empty,
            cell,
        )
    &&& forall|c: usize|
        empty.contains(c) && c < cell ==> #[trigger] root_value(opposition, player, empty, c)
            < root_value(opposition, player, empty, cell)
}

/// The root move that the search selects.
pub open spec fn best_move(opposition: Set<usize>, player: Set<usize>, empty: Set<usize>) -> usize {
    choose|cell: usize| is_best_move(opposition, player, empty, cell)
}

/// The search selects one move only.
pub proof fn lemma_best_move_unique(
    opposition: Set<usize>,
    player: Set<usize>,
    empty: Set<usize>,
    a: usize,
    b: usize,
)
    requires
        is_best_move(opposition, player, empty, a),
        is_best_move(opposition, player, empty, b),
    ensures
        a == b,
{
    let va = root_value(opposition, player, empty, a);
    let vb = root_value(opposition, player, empty, b);
    assert(va <= vb && vb <= va);
}

/// Where the search goes on, a position is worth what any of its best
/// replies is worth.
pub proof fn lemma_value_is_best_reply(
    cell: usize,
    depth: int,
    is_max: bool,
    opposition: Set<usize>,
    player: Set<usize>,
    empty: Set<usize>,
)
    requires
        empty.finite(),
        !is_settled(depth, opposition, player),
        is_best_reply(cell, depth, is_max, opposition, player, empty),
    ensures
        min_max_value(depth, is_max, opposition, player, empty) == reply_value(
            depth,
            is_max,
            opposition,
            player,
            empty,
            cell,
        ),
{
    let chosen = choose|c: usize| #[trigger]
        empty.contains(c) && is_best_reply(c, depth, is_max, opposition, player, empty);
    assert(empty.contains(chosen) && is_best_reply(
        chosen,
        depth,
        is_max,
        opposition,
        player,
        empty,
    ));
    assert(empty.len() > 0) by {
        if empty.len() == 0 {
            assert(empty =~= Set::<usize>::empty());
        }
    }
}

} // verus!
