//! Players, moves and the board.

use crate::bitboard::{cell_index, lemma_view_injective, marked, Bitboard};
use crate::error::Error;
use crate::rules::{all_cells, Position};
use crate::text::{decimal, decimal_string, is_whitespace, strip_whitespace, without_whitespace};
use vstd::prelude::*;

verus! {

/// One of the two players. X moves first.
#[derive(Copy, Clone, Debug, PartialEq, Eq, Structural)]
pub enum Player {
    X,
    O,
}

/// How a game stands.
#[derive(Copy, Clone, Debug, PartialEq, Eq, Structural)]
pub enum Outcome {
    /// The player holds a winning line and the opponent holds none.
    Victory(Player),
    /// Every cell is marked and nobody holds a winning line.
    Draw,
    /// Nobody holds a winning line and a cell is still to be marked.
    InProgress,
    /// Both players hold a winning line. Legal play never leads here.
    Ambiguous,
}

/// A cell to mark, by its row and column, each in `0..3`.
#[derive(Copy, Clone, Debug, PartialEq, Eq, Structural)]
pub struct Move {
    pub row: usize,
    pub col: usize,
}

/// The coordinate that `c` writes, if it writes one.
pub open spec fn coordinate(c: char) -> Option<usize> {
    if c == '0' {
        Some(0usize)
    } else if c == '1' {
        Some(1usize)
    } else if c == '2' {
        Some(2usize)
    } else {
        None
    }
}

/// Whether `text` writes a move: a row and a column.
pub open spec fn is_move_text(text: Seq<char>) -> bool {
    &&& text.len() == 2
    &&& coordinate(text[0]) is Some
    &&& coordinate(text[1]) is Some
}

/// Whether `text` writes a board: nine characters, each `X`, `O` or `_`.
pub open spec fn is_board_text(text: Seq<char>) -> bool {
    &&& text.len() == 9
    &&& forall|k: int| 0 <= k < 9 ==> text[k] == 'X' || text[k] == 'O' || text[k] == '_'
}

/// The position that `text` writes, its first character the top-left cell
/// and its last the bottom-right.
pub open spec fn position_of(text: Seq<char>) -> Position {
    Position { x: marked(text, 'X'), o: marked(text, 'O') }
}

impl Player {
    /// The other player.
    pub open spec fn opponent(self) -> Player {
        match self {
            Player::X => Player::O,
            Player::O => Player::X,
        }
    }

    /// The letter of the player.
    pub fn to_string(&self) -> (s: String)
        ensures
            s@ == match *self {
                Player::X => seq!['X'],
                Player::O => seq!['O'],
            },
    {
        proof {
            reveal_strlit("X");
            reveal_strlit("O");
        }
        match self {
            Player::X => String::from_str("X"),
            Player::O => String::from_str("O"),
        }
    }
}

impl Move {
    /// Whether the move names a cell of the grid.
    pub open spec fn in_grid(self) -> bool {
        self.row < 3 && self.col < 3
    }

    /// The bit position of the cell that the move names.
    pub open spec fn index(self) -> int {
        cell_index(self.row as int, self.col as int)
    }

    /// The move to the cell in row `row`, column `col`.
    pub fn new(row: usize, col: usize) -> (m: Move)
        ensures
            m == (Move { row, col }),
    {
        Move { row, col }
    }

    /// The row of the cell.
    pub fn get_row(&self) -> (row: usize)
        ensures
            row == self.row,
    {
        self.row
    }

    /// The column of the cell.
    pub fn get_column(&self) -> (col: usize)
        ensures
            col == self.col,
    {
        self.col
    }

    /// Writes the move as `(row, col)`, both in decimal.
    pub fn to_string(&self) -> (s: String)
        ensures
            s@ == seq!['('] + decimal(self.row as nat) + seq![',', ' '] + decimal(self.col as nat)
                + seq![')'],
    {
        proof {
            reveal_strlit("(");
            reveal_strlit(", ");
            reveal_strlit(")");
        }
        let row = decimal_string(self.row);
        let col = decimal_string(self.col);
        String::from_str("(").concat(row.as_str()).concat(", ").concat(col.as_str()).concat(")")
    }

    /// Reads a move from two coordinates, the row first. White space
    /// between and around them is skipped.
    pub fn from_string(s: &str) -> (r: Result<Move, Error>)
        ensures
            match r {
                Ok(m) => {
                    let text = without_whitespace(s@);
                    &&& is_move_text(text)
                    &&& Some(m.row) == coordinate(text[0])
                    &&& Some(m.col) == coordinate(text[1])
                },
                Err(e) => e == Error::InvalidMove && !is_move_text(without_whitespace(s@)),
            },
    {
        let stripped = strip_whitespace(s);
        Move::from_symbols(stripped.as_slice())
    }

    /// Reads a move from its two coordinates, the row first.
    pub fn from_symbols(symbols: &[char]) -> (r: Result<Move, Error>)
        ensures
            match r {
                Ok(m) => {
                    &&& is_move_text(symbols@)
                    &&& Some(m.row) == coordinate(symbols@[0])
                    &&& Some(m.col) == coordinate(symbols@[1])
                },
                Err(e) => e == Error::InvalidMove && !is_move_text(symbols@),
            },
    {
        if symbols.len() != 2 {
            return Err(Error::InvalidMove);
        }
        let row: usize = match symbols[0] {
            '0' => 0,
            '1' => 1,
            '2' => 2,
            _ => { return Err(Error::InvalidMove); },
        };
        let col: usize = match symbols[1] {
            '0' => 0,
            '1' => 1,
            '2' => 2,
            _ => { return Err(Error::InvalidMove); },
        };
        Ok(Move { row, col })
    }
}

/// The marks of both players on the grid.
#[derive(Copy, Clone, Debug, PartialEq, Eq, Structural)]
pub struct Board {
    x_bitboard: Bitboard,
    o_bitboard: Bitboard,
}

impl View for Board {
    type V = Position;

    closed spec fn view(&self) -> Position {
        Position { x: self.x_bitboard@, o: self.o_bitboard@ }
    }
}

/// A text that holds a character which is neither white space nor one of
/// `X`, `O` and `_` writes no board.
pub proof fn lemma_stray_symbol_writes_no_board(text: Seq<char>, i: int)
    requires
        0 <= i < text.len(),
        !is_whitespace(text[i]),
        text[i] != 'X' && text[i] != 'O' && text[i] != '_',
    ensures
        !is_board_text(without_whitespace(text)),
{
    let kept = without_whitespace(text);
    assert(kept.contains(text[i]));
    let k = choose|k: int| 0 <= k < kept.len() && kept[k] == text[i];
    assert(!(kept[k] == 'X' || kept[k] == 'O' || kept[k] == '_'));
}

/// The position that a text writes is well formed.
pub proof fn lemma_position_of_is_well_formed(text: Seq<char>)
    ensures
        position_of(text).well_formed(),
{
}

/// Two boards with the same position are the same board.
pub proof fn lemma_board_view_injective(a: Board, b: Board)
    requires
        a@ == b@,
    ensures
        a == b,
{
    lemma_view_injective(a.x_bitboard, b.x_bitboard);
    lemma_view_injective(a.o_bitboard, b.o_bitboard);
}

impl Board {
    /// The board before the first move.
    pub fn empty() -> (board: Board)
        ensures
            board@ == Position::start(),
    {
        Board { x_bitboard: Bitboard::empty(), o_bitboard: Bitboard::empty() }
    }

    /// The board with the given marks of X and of O.
    pub fn new(x_bitboard: Bitboard, o_bitboard: Bitboard) -> (board: Board)
        ensures
            board@ == (Position { x: x_bitboard@, o: o_bitboard@ }),
    {
        Board { x_bitboard, o_bitboard }
    }

    /// Reads a board from nine symbols, row by row from the top-left cell:
    /// `X` and `O` for the marks, `_` for a free cell. White space between
    /// and around them is skipped.
    pub fn from_position(position: &str) -> (r: Result<Self, Error>)
        ensures
            match r {
                Ok(board) => {
                    &&& is_board_text(without_whitespace(position@))
                    &&& board@ == position_of(without_whitespace(position@))
                },
                Err(e) => e == Error::InvalidPosition && !is_board_text(
                    without_whitespace(position@),
                ),
            },
    {
        let stripped = strip_whitespace(position);
        Board::from_symbols(stripped.as_slice())
    }

    /// Reads a board from its nine symbols, row by row from the top-left
    /// cell: `X` and `O` for the marks, `_` for a free cell.
    pub fn from_symbols(symbols: &[char]) -> (r: Result<Self, Error>)
        ensures
            match r {
                Ok(board) => is_board_text(symbols@) && board@ == position_of(symbols@),
                Err(e) => e == Error::InvalidPosition && !is_board_text(symbols@),
            },
    {
        if symbols.len() != 9 {
            return Err(Error::InvalidPosition);
        }
        let mut x_bitboard = Bitboard::empty();
        let mut o_bitboard = Bitboard::empty();
        let mut row: usize = 0;
        let mut col: usize = 0;
        for k in 0..9usize
            invariant
                symbols@.len() == 9,
                3 * row + col == k,
                col < 3,
                x_bitboard@ == marked(symbols@.take(k as int), 'X'),
                o_bitboard@ == marked(symbols@.take(k as int), 'O'),
                forall|j: int|
                    0 <= j < k ==> symbols@[j] == 'X' || symbols@[j] == 'O' || symbols@[j] == '_',
        {
            let c = symbols[k];
            if c == 'X' {
                x_bitboard.set(row, col);
            } else if c == 'O' {
                o_bitboard.set(row, col);
            } else if c != '_' {
                return Err(Error::InvalidPosition);
            }
            if col == 2 {
                col = 0;
                row += 1;
            } else {
                col += 1;
            }
        }
        proof {
            assert(symbols@.take(9) == symbols@);
        }
        Ok(Board::new(x_bitboard, o_bitboard))
    }

    /// How the game stands.
    pub fn get_outcome(&self) -> (outcome: Outcome)
        ensures
            outcome == self@.outcome(),
    {
        let x_victory = self.x_bitboard.is_victory();
        let o_victory = self.o_bitboard.is_victory();
        match (self.is_full(), x_victory, o_victory) {
            (_, true, true) => Outcome::Ambiguous,
            (_, true, false) => Outcome::Victory(Player::X),
            (_, false, true) => Outcome::Victory(Player::O),
            (true, false, false) => Outcome::Draw,
            (false, false, false) => Outcome::InProgress,
        }
    }

    /// Whether the marks are exactly the nine cells of the grid.
    pub fn is_full(&self) -> (full: bool)
        ensures
            full == self@.full(),
    {
        let marks = self.x_bitboard.union(&self.o_bitboard);
        let all = Bitboard::full();
        proof {
            if marks@ == all@ {
                lemma_view_injective(marks, all);
            }
        }
        marks == all
    }

    fn is_set(&self, row: usize, col: usize) -> (set: bool)
        requires
            row < 3,
            col < 3,
        ensures
            set == self@.occupied().contains(cell_index(row as int, col as int)),
    {
        self.x_bitboard.is_set(row, col) || self.o_bitboard.is_set(row, col)
    }

    /// Lets `player` mark the cell of `m`. The board changes only where the
    /// move is made.
    pub fn make_move(&mut self, player: Player, m: Move) -> (r: Result<(), Error>)
        requires
            m.in_grid(),
        ensures
            match r {
                Ok(()) => {
                    &&& old(self)@.active_player() == Some(player)
                    &&& old(self)@.is_free(m)
                    &&& final(self)@ == old(self)@.place(player, m)
                },
                Err(Error::NotPlayersTurn) => {
                    &&& old(self)@.active_player() != Some(player)
                    &&& *final(self) == *old(self)
                },
                Err(Error::CellOccupied) => {
                    &&& old(self)@.active_player() == Some(player)
                    &&& !old(self)@.is_free(m)
                    &&& *final(self) == *old(self)
                },
                Err(_) => false,
            },
    {
        if self.get_active_player() != Some(player) {
            return Err(Error::NotPlayersTurn);
        }
        if self.is_set(m.get_row(), m.get_column()) {
            return Err(Error::CellOccupied);
        }
        match player {
            Player::X => self.x_bitboard.set(m.row, m.col),
            Player::O => self.o_bitboard.set(m.row, m.col),
        }
        Ok(())
    }

    /// The board after `player` has marked the cell of `m`.
    pub fn with_move_made(&self, player: Player, m: Move) -> (r: Result<Self, Error>)
        requires
            m.in_grid(),
        ensures
            match r {
                Ok(board) => {
                    &&& self@.active_player() == Some(player)
                    &&& self@.is_free(m)
                    &&& board@ == self@.place(player, m)
                },
                Err(Error::NotPlayersTurn) => self@.active_player() != Some(player),
                Err(Error::CellOccupied) => {
                    &&& self@.active_player() == Some(player)
                    &&& !self@.is_free(m)
                },
                Err(_) => false,
            },
    {
        let mut new_board = *self;
        match new_board.make_move(player, m) {
            Ok(()) => Ok(new_board),
            Err(e) => Err(e),
        }
    }

    /// The player to move, if the game has not ended.
    pub fn get_active_player(&self) -> (player: Option<Player>)
        ensures
            player == self@.active_player(),
    {
        if self.get_outcome() != Outcome::InProgress {
            return None;
        }
        if self.x_bitboard.n_set() == self.o_bitboard.n_set() {
            Some(Player::X)
        } else {
            Some(Player::O)
        }
    }

    /// The free cells, row by row from the top, each row from the left.
    pub fn get_legal_moves(&self) -> (moves: Vec<Move>)
        ensures
            moves@ == self@.legal_moves(),
    {
        let mut moves: Vec<Move> = Vec::new();
        let mut row: usize = 0;
        let mut col: usize = 0;
        for k in 0..9usize
            invariant
                3 * row + col == k,
                col < 3,
                moves@ == all_cells().take(k as int).filter(|m: Move| self@.is_free(m)),
        {
            proof {
                let next = all_cells().take(k + 1);
                assert(next.drop_last() == all_cells().take(k as int));
                reveal(Seq::filter);
            }
            if !self.is_set(row, col) {
                moves.push(Move::new(row, col));
            }
            if col == 2 {
                col = 0;
                row += 1;
            } else {
                col += 1;
            }
        }
        proof {
            assert(all_cells().take(9) == all_cells());
        }
        moves
    }
}

} // verus!
