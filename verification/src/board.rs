//! The board: nine cells, the game's status and the selected level of play.

use crate::choice::lemma_on_board_finite;
use crate::difficulty::{
    lemma_unused_draw, level_choice, level_uses_draw, Difficulty, DifficultyLevel, Easy, Hard,
    IDifficulty, Moderate,
};
use crate::lines::{
    has_line, holds_line, lemma_has_line_iff_contains_line_cells, line_cells, CELLS,
};
use std::collections::HashSet;
use vstd::prelude::*;

verus! {

broadcast use vstd::std_specs::hash::group_hash_axioms;

/// What a cell of the board holds.
#[derive(Clone, Copy, Debug, PartialEq, Eq, Structural)]
pub enum Cell {
    Empty,
    Player1,
    Player2,
}

/// How the game stands.
#[derive(Clone, Copy, Debug, PartialEq, Eq, Structural)]
pub enum Status {
    Draw,
    Human,
    Computer,
    InProgess,
}

/// The mathematical content of a board.
pub struct BoardState {
    /// The side length of the grid.
    pub size: u8,
    /// The cells in row-major order.
    pub cells: Seq<Cell>,
    pub status: Status,
    pub level: DifficultyLevel,
}

/// The board before the first move: nine empty cells and a game in progress.
pub open spec fn fresh(level: DifficultyLevel) -> BoardState {
    BoardState {
        size: 3,
        cells: Seq::new(CELLS as nat, |i: int| Cell::Empty),
        status: Status::InProgess,
        level,
    }
}

/// The cells that hold nothing.
pub open spec fn empty_cells(cells: Seq<Cell>) -> Set<usize> {
    Set::new(|i: usize| i < cells.len() && cells[i as int] == Cell::Empty)
}

/// The cells that hold the mark `player`, which is not the empty mark.
pub open spec fn own_cells(cells: Seq<Cell>, player: Cell) -> Set<usize> {
    Set::new(
        |i: usize| i < cells.len() && cells[i as int] != Cell::Empty && cells[i as int] == player,
    )
}

/// The cells that hold a mark other than `player`.
pub open spec fn other_cells(cells: Seq<Cell>, player: Cell) -> Set<usize> {
    Set::new(
        |i: usize| i < cells.len() && cells[i as int] != Cell::Empty && cells[i as int] != player,
    )
}

/// The status that a win found in `positions` is reported with.
pub open spec fn status_of(positions: Set<usize>, status: Status) -> Status {
    if has_line(positions) {
        status
    } else {
        Status::InProgess
    }
}

/// The board after `player` has been given the turn.
///
/// A line held by the other mark ends the game before any move, as the
/// human's win where the second player was to move and as the computer's
/// otherwise; a full board ends it as a draw. Otherwise the rule of the board's level chooses an
/// empty cell, which `player` takes; the game then ends where the tested
/// side holds a line (the other mark's cells after a move of the first
/// player, the mover's own cells after a move of the second) or no cell is
/// left, and else keeps its status.
pub open spec fn advance(state: BoardState, player: Cell, draw: usize) -> BoardState {
    let others = other_cells(state.cells, player);
    let own = own_cells(state.cells, player);
    let empty = empty_cells(state.cells);
    let victory = if player == Cell::Player2 {
        Status::Human
    } else {
        Status::Computer
    };
    if has_line(others) {
        BoardState { status: victory, ..state }
    } else if empty.len() == 0 {
        BoardState { status: Status::Draw, ..state }
    } else {
        let next = level_choice(state.level, others, own, empty, draw);
        let cells = state.cells.update(next as int, player);
        let status = match player {
            Cell::Player1 => status_of(other_cells(cells, player), Status::Human),
            Cell::Player2 => status_of(own_cells(cells, player), Status::Computer),
            Cell::Empty => Status::InProgess,
        };
        if status != Status::InProgess {
            BoardState { cells, status, ..state }
        } else if empty_cells(cells).len() == 0 {
            BoardState { cells, status: Status::Draw, ..state }
        } else {
            BoardState { cells, ..state }
        }
    }
}

/// Whether the turn of `player` consults the draw: no line of the other
/// mark stands, a cell is empty, and the rule of the board's level draws.
pub open spec fn turn_uses_draw(state: BoardState, player: Cell) -> bool {
    let others = other_cells(state.cells, player);
    let own = own_cells(state.cells, player);
    let empty = empty_cells(state.cells);
    !has_line(others) && empty.len() > 0 && level_uses_draw(state.level, others, own, empty)
}

/// A turn that does not consult the draw ends the same for every draw.
pub proof fn lemma_turn_ignores_unused_draw(
    state: BoardState,
    player: Cell,
    draw: usize,
    other_draw: usize,
)
    requires
        !turn_uses_draw(state, player),
    ensures
        advance(state, player, draw) == advance(state, player, other_draw),
{
    let others = other_cells(state.cells, player);
    let own = own_cells(state.cells, player);
    let empty = empty_cells(state.cells);
    if !has_line(others) && empty.len() > 0 {
        lemma_unused_draw(state.level, others, own, empty, draw, other_draw);
    }
}

/// Win detection is complete: cells that hold the three cells of any of
/// the eight winning lines, with or without others, are reported with the
/// status asked for.
pub proof fn lemma_line_is_reported(positions: Set<usize>, k: int, status: Status)
    requires
        0 <= k < 8,
        line_cells(k).subset_of(positions),
    ensures
        status_of(positions, status) == status,
        status_of(line_cells(k), status) == status,
{
    lemma_has_line_iff_contains_line_cells(positions);
    lemma_has_line_iff_contains_line_cells(line_cells(k));
}

/// Cells that hold none of the eight winning lines completely are reported
/// as a game in progress.
pub proof fn lemma_no_line_is_in_progress(positions: Set<usize>, status: Status)
    requires
        forall|k: int| 0 <= k < 8 ==> !#[trigger] line_cells(k).subset_of(positions),
    ensures
        status_of(positions, status) == Status::InProgess,
{
    lemma_has_line_iff_contains_line_cells(positions);
}

/// A turn of either player changes the status only where, after it, one
/// of the two players holds a winning line or no cell is empty.
///
/// A turn given to the empty mark places nothing and is left out here: it
/// takes the marks of both players for one side, and reports a line among
/// them, be it of mixed marks, as the computer's.
pub proof fn lemma_status_changes_on_line_or_full_board(
    state: BoardState,
    player: Cell,
    draw: usize,
)
    requires
        player != Cell::Empty,
    ensures
        ({
            let next = advance(state, player, draw);
            next.status != state.status ==> {
                ||| has_line(own_cells(next.cells, Cell::Player1))
                ||| has_line(own_cells(next.cells, Cell::Player2))
                ||| empty_cells(next.cells).len() == 0
            }
        }),
{
    let next = advance(state, player, draw);
    assert(other_cells(next.cells, Cell::Player1) =~= own_cells(next.cells, Cell::Player2));
    assert(other_cells(next.cells, Cell::Player2) =~= own_cells(next.cells, Cell::Player1));
}

/// A 3×3 board with its status and its level of play.
pub struct Board {
    size: u8,
    difficulty: Difficulty,
    cells: Vec<Cell>,
    status: Status,
}

impl View for Board {
    type V = BoardState;

    closed spec fn view(&self) -> BoardState {
        BoardState {
            size: self.size,
            cells: self.cells@,
            status: self.status,
            level: self.difficulty.level(),
        }
    }
}

impl Board {
    #[verifier::type_invariant]
    spec fn well_formed(&self) -> bool {
        self.size == 3 && self.cells@.len() == CELLS
    }

    /// A board with nine empty cells, a game in progress and the moderate level.
    pub fn new() -> (board: Self)
        ensures
            board@ == fresh(DifficultyLevel::MODERATE),
    {
        let board = Board {
            size: 3,
            difficulty: Difficulty::MODERATE(Moderate),
            cells: vec![Cell::Empty; 3 * 3],
            status: Status::InProgess,
        };
        assert(board.cells@ =~= Seq::new(CELLS as nat, |i: int| Cell::Empty));
        board
    }

    /// Empties all cells and puts the game in progress, whatever the board
    /// held before; the level stays.
    pub fn reset(&mut self)
        ensures
            final(self)@ == fresh(old(self)@.level),
    {
        proof {
            use_type_invariant(&*self);
        }
        self.cells = vec![Cell::Empty; 3 * 3];
        self.status = Status::InProgess;
        assert(self.cells@ =~= Seq::new(CELLS as nat, |i: int| Cell::Empty));
    }

    /// Selects the level of play; cells and status stay.
    pub fn set_difficulty(&mut self, difficulty: DifficultyLevel)
        ensures
            final(self)@ == (BoardState { level: difficulty, ..old(self)@ }),
    {
        proof {
            use_type_invariant(&*self);
        }
        self.difficulty = match difficulty {
            DifficultyLevel::EASY => Difficulty::EASY(Easy),
            DifficultyLevel::HARD => Difficulty::HARD(Hard),
            DifficultyLevel::MODERATE => Difficulty::MODERATE(Moderate),
        };
    }

    /// The selected level of play.
    pub fn get_difficulty(&self) -> (level: DifficultyLevel)
        ensures
            level == self@.level,
    {
        match self.difficulty {
            Difficulty::MODERATE(_) => DifficultyLevel::MODERATE,
            Difficulty::HARD(_) => DifficultyLevel::HARD,
            _ => DifficultyLevel::EASY,
        }
    }

    /// The side length of the grid.
    pub fn get_size(&self) -> (size: u8)
        ensures
            size == self@.size,
            size == 3,
            size * size == self@.cells.len(),
    {
        proof {
            use_type_invariant(self);
        }
        self.size
    }

    /// Gives `player` the turn: see [`advance`].
    pub fn make_next_valid_move(&mut self, player: Cell, draw: usize)
        requires
            empty_cells(old(self)@.cells).len() > 0 ==> draw < empty_cells(old(self)@.cells).len(),
        ensures
            final(self)@ == advance(old(self)@, player, draw),
    {
        proof {
            use_type_invariant(&*self);
        }
        // a line that the other mark already holds ends the game
        let (a, b, c) = self.get_cells_info(&player);
        let victory_status = if player == Cell::Player2 {
            Status::Human
        } else {
            Status::Computer
        };
        let player1_status = self.get_status(&a, victory_status);
        if player1_status == Status::Human || player1_status == Status::Computer {
            self.status = player1_status;
            return ;
        }
        // no empty cell: a draw
        if c.len() == 0 {
            self.status = Status::Draw;
            return ;
        }
        // the move of the selected level
        let next_move = self.difficulty.get_next_move(&a, &b, &c, self.size, draw);
        self.cells[next_move] = player;
        let (a, b, c) = self.get_cells_info(&player);
        let status = match player {
            Cell::Player1 => self.get_status(&a, Status::Human),
            Cell::Player2 => self.get_status(&b, Status::Computer),
            _ => Status::InProgess,
        };
        // a line after the move ends the game, and so does a full board
        if status == Status::Computer || status == Status::Human {
            self.status = status;
            return ;
        }
        if c.len() == 0 {
            self.status = Status::Draw;
            return ;
        }
    }

    /// The cells in row-major order, borrowed from the board.
    pub fn get_cells_ptr(&self) -> (cells: &[Cell])
        ensures
            cells@ == self@.cells,
            cells@.len() == CELLS,
    {
        proof {
            use_type_invariant(self);
        }
        self.cells.as_slice()
    }

    /// Puts `player` into the cell `idx`; the status stays.
    pub fn set_cell(&mut self, idx: usize, player: Cell)
        requires
            idx < CELLS,
        ensures
            final(self)@ == (BoardState {
                cells: old(self)@.cells.update(idx as int, player),
                ..old(self)@
            }),
    {
        proof {
            use_type_invariant(&*self);
        }
        self.cells[idx] = player;
    }

    /// Whether the cell `idx` holds nothing.
    pub fn is_empty_cell(&self, idx: usize) -> (r: bool)
        requires
            idx < CELLS,
        ensures
            r == (self@.cells[idx as int] == Cell::Empty),
    {
        proof {
            use_type_invariant(self);
        }
        self.cells[idx] == Cell::Empty
    }

    /// The status of the game.
    pub fn get_game_status(&self) -> (status: Status)
        ensures
            status == self@.status,
    {
        self.status
    }

    /// Whether the turn of `player` will consult the draw. Where it will
    /// not, any draw that [`Board::make_next_valid_move`] accepts does.
    pub fn needs_draw(&self, player: Cell) -> (r: bool)
        ensures
            r == turn_uses_draw(self@, player),
    {
        let (a, b, c) = self.get_cells_info(&player);
        if holds_line(&a) || c.len() == 0 {
            return false;
        }
        self.difficulty.uses_draw(&a, &b, &c)
    }

    /// The number of empty cells: the bound below which a caller draws the
    /// rank that it hands to [`Board::make_next_valid_move`].
    pub fn count_empty_cells(&self) -> (n: usize)
        ensures
            n == empty_cells(self@.cells).len(),
            n <= CELLS,
    {
        let (_, _, empty) = self.get_cells_info(&Cell::Empty);
        proof {
            use_type_invariant(self);
            lemma_on_board_finite(empty@);
        }
        empty.len()
    }

    /// Splits the cells by what they hold: those with a mark other than
    /// `player`, those with `player`, and the empty ones.
    pub fn get_cells_info(&self, player: &Cell) -> (r: (
        HashSet<usize>,
        HashSet<usize>,
        HashSet<usize>,
    ))
        ensures
            r.0@ == other_cells(self@.cells, *player),
            r.1@ == own_cells(self@.cells, *player),
            r.2@ == empty_cells(self@.cells),
    {
        proof {
            use_type_invariant(self);
        }
        let mut player1: HashSet<usize> = HashSet::new();
        let mut player2: HashSet<usize> = HashSet::new();
        let mut empty: HashSet<usize> = HashSet::new();
        let mut x: usize = 0;
        while x < self.cells.len()
            invariant
                x <= self.cells@.len(),
                forall|i: usize|
                    player1@.contains(i) <==> i < x && other_cells(self.cells@, *player).contains(
                        i,
                    ),
                forall|i: usize|
                    player2@.contains(i) <==> i < x && own_cells(self.cells@, *player).contains(i),
                forall|i: usize|
                    empty@.contains(i) <==> i < x && empty_cells(self.cells@).contains(i),
            decreases self.cells@.len() - x,
        {
            let y = self.cells[x];
            if y == Cell::Empty {
                empty.insert(x);
            } else if y == *player {
                player2.insert(x);
            } else {
                player1.insert(x);
            }
            x += 1;
        }
        assert(player1@ =~= other_cells(self.cells@, *player));
        assert(player2@ =~= own_cells(self.cells@, *player));
        assert(empty@ =~= empty_cells(self.cells@));
        (player1, player2, empty)
    }

    /// `status` where `player_pos_set` holds a winning line, and a game in
    /// progress where it holds none.
    pub fn get_status(&self, player_pos_set: &HashSet<usize>, status: Status) -> (r: Status)
        ensures
            r == status_of(player_pos_set@, status),
    {
        if holds_line(player_pos_set) {
            status
        } else {
            Status::InProgess
        }
    }
}

} // verus!
