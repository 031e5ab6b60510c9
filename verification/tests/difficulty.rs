use std::collections::HashSet;

use tic_tac_toe::choice::pick_nth;
use tic_tac_toe::difficulty::{Difficulty, Easy, Hard, IDifficulty, Moderate};
use tic_tac_toe::lines::{holds_line, WINNING_COMBINATIONS};

fn set_of(cells: &[usize]) -> HashSet<usize> {
    cells.iter().copied().collect()
}

#[test]
fn test_moderate() {
    let difficulty = Difficulty::MODERATE(Moderate);
    let mut a: HashSet<usize> = HashSet::new();
    a.extend(vec![0, 3, 4].iter());

    let mut b: HashSet<usize> = HashSet::new();
    b.extend(vec![1, 5].iter());

    let mut empty: HashSet<usize> = HashSet::new();
    empty.extend(vec![2, 6, 7, 8].iter());
    let next_move = difficulty.get_next_move(&a, &b, &empty, 9, 0);
    assert_eq!(next_move, 6);
}

#[test]
fn test_hard_1() {
    let difficulty = Difficulty::HARD(Hard);
    let mut a: HashSet<usize> = HashSet::new();
    a.extend(vec![1, 3, 4].iter());

    let mut b: HashSet<usize> = HashSet::new();
    b.extend(vec![0, 2, 5].iter());
    /*
    input
    player 1 - O
    player 2 - X - ai
    | X | O | X |
    | O | O | X |
    |   |   |   |
    */
    let mut empty: HashSet<usize> = HashSet::new();
    empty.extend(vec![6, 7, 8].iter());
    let next_move = difficulty.get_next_move(&a, &b, &empty, 9, 0);
    assert_eq!(next_move, 8);
}

#[test]
fn test_hard_2() {
    let difficulty = Difficulty::HARD(Hard);
    let mut a: HashSet<usize> = HashSet::new();
    a.extend(vec![3, 4].iter());

    let mut b: HashSet<usize> = HashSet::new();
    b.extend(vec![2].iter());
    /*
    input
    player 1 - O
    player 2 - X - ai
    |   |   | X |
    | O | O |   |
    |   |   |   |
    */
    let mut empty: HashSet<usize> = HashSet::new();
    empty.extend(vec![0, 1, 5, 6, 7, 8].iter());
    let next_move = difficulty.get_next_move(&a, &b, &empty, 9, 0);
    assert_eq!(next_move, 5);
}

#[test]
fn test_hard_3() {
    let difficulty = Difficulty::HARD(Hard);
    let mut a: HashSet<usize> = HashSet::new();
    a.extend(vec![3, 4].iter());

    let mut b: HashSet<usize> = HashSet::new();
    b.extend(vec![2, 5].iter());
    /*
    input
    player 1 - O
    player 2 - X - ai
    |   |   | X |
    | O | O | X |
    |   |   |   |
    */
    let mut empty: HashSet<usize> = HashSet::new();
    empty.extend(vec![0, 1, 6, 7, 8].iter());
    let next_move = difficulty.get_next_move(&b, &a, &empty, 9, 0);
    assert_eq!(next_move, 8);
}

#[test]
fn forced_moves_do_not_depend_on_the_draw() {
    let opposition = set_of(&[3, 4]);
    let player = set_of(&[2]);
    let empty = set_of(&[0, 1, 5, 6, 7, 8]);
    for draw in 0..6 {
        assert_eq!(Hard.get_next_move(&opposition, &player, &empty, 3, draw), 5);
        assert_eq!(Moderate.get_next_move(&opposition, &player, &empty, 3, draw), 5);
    }
}

#[test]
fn every_winning_line_is_held_by_its_own_cells() {
    for comb in WINNING_COMBINATIONS {
        assert!(holds_line(&set_of(&comb)));
    }
}

#[test]
fn two_cells_of_a_line_are_no_line() {
    for comb in WINNING_COMBINATIONS {
        assert!(!holds_line(&set_of(&comb[..2])));
        assert!(!holds_line(&set_of(&comb[1..])));
    }
    assert!(!holds_line(&HashSet::new()));
    assert!(!holds_line(&set_of(&[0, 1, 3, 5, 8])));
}

#[test]
fn a_line_among_other_cells_is_found() {
    assert!(holds_line(&set_of(&[0, 1, 4, 5, 8])));
    assert!(holds_line(&set_of(&[1, 2, 4, 6, 7])));
}

#[test]
fn pick_nth_takes_cells_in_ascending_order() {
    let cells = set_of(&[7, 2, 8, 6]);
    assert_eq!(pick_nth(&cells, 0), 2);
    assert_eq!(pick_nth(&cells, 1), 6);
    assert_eq!(pick_nth(&cells, 2), 7);
    assert_eq!(pick_nth(&cells, 3), 8);
}

#[test]
fn pick_nth_of_a_single_cell() {
    assert_eq!(pick_nth(&set_of(&[5]), 0), 5);
}

#[test]
fn easy_takes_the_drawn_empty_cell() {
    let opposition = set_of(&[0, 4]);
    let player = set_of(&[1, 3]);
    let empty = set_of(&[2, 5, 6, 7, 8]);
    let expected = [2, 5, 6, 7, 8];
    for draw in 0..5 {
        assert_eq!(Easy.get_next_move(&opposition, &player, &empty, 3, draw), expected[draw]);
        assert_eq!(
            Difficulty::EASY(Easy).get_next_move(&opposition, &player, &empty, 3, draw),
            expected[draw]
        );
    }
}

#[test]
fn easy_ignores_lines_that_could_be_completed() {
    let opposition = set_of(&[3, 4]);
    let player = set_of(&[0, 1]);
    let empty = set_of(&[2, 5, 6, 7, 8]);
    assert_eq!(Easy.get_next_move(&opposition, &player, &empty, 3, 4), 8);
}

#[test]
fn completion_needs_two_held_cells_and_a_free_third() {
    let line = [0, 1, 2];
    let m = Moderate;
    assert_eq!(
        m.get_winning_combination_for_player(&set_of(&[0, 1]), &set_of(&[2, 5]), &line),
        Some(2)
    );
    assert_eq!(
        m.get_winning_combination_for_player(&set_of(&[0, 2]), &set_of(&[1]), &line),
        Some(1)
    );
    assert_eq!(
        m.get_winning_combination_for_player(&set_of(&[1, 2, 7]), &set_of(&[0, 3]), &line),
        Some(0)
    );
    // the third cell is taken by the other side
    assert_eq!(
        m.get_winning_combination_for_player(&set_of(&[0, 1]), &set_of(&[5, 6]), &line),
        None
    );
    // only one cell held
    assert_eq!(
        m.get_winning_combination_for_player(&set_of(&[0]), &set_of(&[1, 2]), &line),
        None
    );
    // the line is already complete
    assert_eq!(
        m.get_winning_combination_for_player(&set_of(&[0, 1, 2]), &set_of(&[3]), &line),
        None
    );
    // nothing held
    assert_eq!(
        m.get_winning_combination_for_player(&HashSet::new(), &set_of(&[0, 1, 2]), &line),
        None
    );
}

#[test]
fn completion_counts_the_cells_of_any_slice() {
    let m = Moderate;
    // a fourth cell that is neither held nor empty changes nothing
    assert_eq!(
        m.get_winning_combination_for_player(&set_of(&[0, 1]), &set_of(&[2]), &[0, 1, 2, 5]),
        Some(2)
    );
    // two open cells are one too many
    assert_eq!(
        m.get_winning_combination_for_player(&set_of(&[0, 1]), &set_of(&[2, 5]), &[0, 1, 2, 5]),
        None
    );
    // nothing open
    assert_eq!(m.get_winning_combination_for_player(&set_of(&[0, 1]), &set_of(&[2]), &[0, 1]), None);
    // a cell named twice is counted twice
    assert_eq!(
        m.get_winning_combination_for_player(&set_of(&[0]), &set_of(&[2]), &[0, 0, 2]),
        Some(2)
    );
    assert_eq!(m.get_winning_combination_for_player(&set_of(&[0]), &set_of(&[2]), &[]), None);
}

#[test]
fn moderate_completes_its_own_line_before_blocking() {
    // both sides have two in a row; the mover takes its win at 2
    let opposition = set_of(&[3, 4]);
    let player = set_of(&[0, 1]);
    let empty = set_of(&[2, 5, 6, 7, 8]);
    assert_eq!(Moderate.get_next_move(&opposition, &player, &empty, 3, 3), 2);
}

#[test]
fn moderate_blocks_where_it_cannot_win() {
    let opposition = set_of(&[3, 4]);
    let player = set_of(&[0, 8]);
    let empty = set_of(&[1, 2, 5, 6, 7]);
    assert_eq!(Moderate.get_next_move(&opposition, &player, &empty, 3, 0), 5);
}

#[test]
fn moderate_takes_the_first_line_in_table_order() {
    // the mover can complete the column 0,3,6 at 6 and the diagonal 0,4,8 at 8
    let opposition = set_of(&[1, 2, 5]);
    let player = set_of(&[0, 3, 4]);
    let empty = set_of(&[6, 7, 8]);
    assert_eq!(Moderate.get_next_move(&opposition, &player, &empty, 3, 2), 6);
}

#[test]
fn moderate_falls_back_to_the_drawn_cell() {
    let opposition = set_of(&[4]);
    let player = set_of(&[0]);
    let empty = set_of(&[1, 2, 3, 5, 6, 7, 8]);
    let expected = [1, 2, 3, 5, 6, 7, 8];
    for draw in 0..7 {
        assert_eq!(Moderate.get_next_move(&opposition, &player, &empty, 3, draw), expected[draw]);
    }
}

#[test]
fn score_prefers_the_searching_side() {
    let none = set_of(&[0, 1]);
    let line = set_of(&[0, 4, 8]);
    let other_line = set_of(&[2, 4, 6]);
    assert_eq!(Hard.score(&none, &line), 10);
    assert_eq!(Hard.score(&line, &none), -10);
    assert_eq!(Hard.score(&none, &none), 0);
    assert_eq!(Hard.score(&other_line, &line), 10);
}

#[test]
fn min_max_ends_on_a_lost_position_at_any_depth() {
    let mut opposition = set_of(&[0, 1, 2]);
    let mut player = set_of(&[3, 4]);
    let mut empty = set_of(&[5, 6, 7, 8]);
    assert_eq!(Hard.min_max(5, true, &mut opposition, &mut player, &mut empty), -10);
    assert_eq!(Hard.min_max(0, false, &mut opposition, &mut player, &mut empty), -10);
}

#[test]
fn min_max_ends_on_a_won_position_at_depth_zero_only() {
    let mut opposition = set_of(&[3, 4]);
    let mut player = set_of(&[0, 1, 2]);
    let mut empty = set_of(&[5, 6, 7, 8]);
    assert_eq!(Hard.min_max(0, false, &mut opposition, &mut player, &mut empty), 10);
    // deeper down the line is not looked at again: every path runs to a
    // full board, which is worth 0
    assert_eq!(Hard.min_max(1, false, &mut opposition, &mut player, &mut empty), 0);
}

#[test]
fn min_max_of_a_full_board_is_zero() {
    let mut opposition = set_of(&[1, 4, 5, 6]);
    let mut player = set_of(&[0, 2, 3, 7, 8]);
    let mut empty = HashSet::new();
    assert_eq!(Hard.min_max(3, true, &mut opposition, &mut player, &mut empty), 0);
}

#[test]
fn min_max_lets_the_opponent_take_a_line() {
    let mut opposition = set_of(&[3, 4]);
    let mut player = set_of(&[0, 1]);
    let mut empty = set_of(&[2, 5, 6, 7, 8]);
    assert_eq!(Hard.min_max(0, false, &mut opposition, &mut player, &mut empty), -10);
}

#[test]
fn min_max_hands_the_sets_back_unchanged() {
    let mut opposition = set_of(&[3, 4]);
    let mut player = set_of(&[0, 1]);
    let mut empty = set_of(&[2, 5, 6, 7, 8]);
    Hard.min_max(0, true, &mut opposition, &mut player, &mut empty);
    assert_eq!(opposition, set_of(&[3, 4]));
    assert_eq!(player, set_of(&[0, 1]));
    assert_eq!(empty, set_of(&[2, 5, 6, 7, 8]));
}

#[test]
fn find_best_move_takes_the_immediate_win() {
    let mut opposition = set_of(&[1, 3, 4]);
    let mut player = set_of(&[0, 2, 5]);
    let mut empty = set_of(&[6, 7, 8]);
    assert_eq!(Hard.find_best_move(&mut opposition, &mut player, &mut empty), 8);
    assert_eq!(empty, set_of(&[6, 7, 8]));
    assert_eq!(player, set_of(&[0, 2, 5]));
}

#[test]
fn find_best_move_without_an_empty_cell() {
    let mut opposition = set_of(&[1, 4, 5, 6]);
    let mut player = set_of(&[0, 2, 3, 7, 8]);
    let mut empty = HashSet::new();
    assert_eq!(Hard.find_best_move(&mut opposition, &mut player, &mut empty), -1);
}

#[test]
fn find_best_move_keeps_the_first_of_equal_moves() {
    // one cell left on each side of a dead position: both moves are worth 0
    let mut opposition = set_of(&[1, 3, 8]);
    let mut player = set_of(&[0, 4, 5, 7]);
    let mut empty = set_of(&[2, 6]);
    assert_eq!(Hard.find_best_move(&mut opposition, &mut player, &mut empty), 2);
}

#[test]
fn hard_opens_with_the_drawn_cell() {
    let nobody = HashSet::new();
    let empty = set_of(&[0, 1, 2, 3, 4, 5, 6, 7, 8]);
    for draw in 0..9 {
        assert_eq!(Hard.get_next_move(&nobody, &nobody, &empty, 3, draw), draw);
    }
}

#[test]
fn uses_draw_tells_where_a_rule_chooses_by_the_draw() {
    let nobody = HashSet::new();
    let all = set_of(&[0, 1, 2, 3, 4, 5, 6, 7, 8]);
    assert!(Difficulty::EASY(Easy).uses_draw(&nobody, &nobody, &all));
    assert!(Difficulty::MODERATE(Moderate).uses_draw(&nobody, &nobody, &all));
    assert!(Difficulty::HARD(Hard).uses_draw(&nobody, &nobody, &all));

    let opposition = set_of(&[3, 4]);
    let player = set_of(&[2]);
    let empty = set_of(&[0, 1, 5, 6, 7, 8]);
    assert!(Difficulty::EASY(Easy).uses_draw(&opposition, &player, &empty));
    // a line to block
    assert!(!Difficulty::MODERATE(Moderate).uses_draw(&opposition, &player, &empty));
    // a line to complete
    assert!(!Difficulty::MODERATE(Moderate).uses_draw(&player, &opposition, &empty));
    assert!(!Difficulty::HARD(Hard).uses_draw(&opposition, &player, &empty));

    let opposition = set_of(&[4]);
    let player = set_of(&[0]);
    let empty = set_of(&[1, 2, 3, 5, 6, 7, 8]);
    assert!(Difficulty::MODERATE(Moderate).uses_draw(&opposition, &player, &empty));
    assert!(!Difficulty::HARD(Hard).uses_draw(&opposition, &player, &empty));
}

#[test]
fn the_size_argument_is_not_used() {
    let opposition = set_of(&[3, 4]);
    let player = set_of(&[2]);
    let empty = set_of(&[0, 1, 5, 6, 7, 8]);
    for size in [0, 3, 9, 255] {
        assert_eq!(Difficulty::HARD(Hard).get_next_move(&opposition, &player, &empty, size, 0), 5);
    }
}
