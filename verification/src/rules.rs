//! The rules of the game, stated over sets of cells.
//!
//! A [`Position`] is what a board stands for: the cells that X holds and the
//! cells that O holds, each cell named by its bit position (see
//! [`crate::bitboard::cell_index`]). Everything the library computes about a
//! board is defined here as a function of its position.

use crate::bitboard::{grid, has_line};
use crate::board::{Move, Outcome, Player};
use vstd::prelude::*;
use vstd::set_lib::{lemma_int_range, set_int_range};

verus! {

/// The `k`-th cell of the grid, counted row by row from the top-left.
pub open spec fn cell(k: int) -> Move {
    Move { row: (k / 3) as usize, col: (k % 3) as usize }
}

/// The nine cells in the order in which moves are listed: row by row from
/// the top, each row from the left.
pub open spec fn all_cells() -> Seq<Move> {
    Seq::new(9, |k: int| cell(k))
}

/// The marks on a board: the bit positions that X holds and those that O
/// holds.
pub struct Position {
    pub x: Set<int>,
    pub o: Set<int>,
}

impl Position {
    /// The position before the first move.
    pub open spec fn start() -> Position {
        Position { x: Set::empty(), o: Set::empty() }
    }

    /// The marks of `player`.
    pub open spec fn marks(self, player: Player) -> Set<int> {
        match player {
            Player::X => self.x,
            Player::O => self.o,
        }
    }

    /// The positions marked by either player.
    pub open spec fn occupied(self) -> Set<int> {
        self.x.union(self.o)
    }

    /// Whether the marks are exactly the nine cells of the grid.
    pub open spec fn full(self) -> bool {
        self.occupied() == grid()
    }

    /// Whether the marks lie on the grid and no cell holds two of them.
    /// Every position that play can reach is of this kind.
    pub open spec fn well_formed(self) -> bool {
        &&& self.x.subset_of(grid())
        &&& self.o.subset_of(grid())
        &&& self.x.disjoint(self.o)
    }

    /// How the game stands.
    pub open spec fn outcome(self) -> Outcome {
        if has_line(self.x) && has_line(self.o) {
            Outcome::Ambiguous
        } else if has_line(self.x) {
            Outcome::Victory(Player::X)
        } else if has_line(self.o) {
            Outcome::Victory(Player::O)
        } else if self.full() {
            Outcome::Draw
        } else {
            Outcome::InProgress
        }
    }

    /// The player to move: nobody once the game has ended, else X where
    /// both players hold equally many marks, else O.
    pub open spec fn active_player(self) -> Option<Player> {
        if self.outcome() != Outcome::InProgress {
            None
        } else if self.x.len() == self.o.len() {
            Some(Player::X)
        } else {
            Some(Player::O)
        }
    }

    /// Whether `m` names a cell of the grid that holds no mark.
    pub open spec fn is_free(self, m: Move) -> bool {
        m.in_grid() && !self.occupied().contains(m.index())
    }

    /// The free cells, in the order of [`all_cells`].
    pub open spec fn legal_moves(self) -> Seq<Move> {
        all_cells().filter(|m: Move| self.is_free(m))
    }

    /// The position after `player` has marked the cell of `m`.
    pub open spec fn place(self, player: Player, m: Move) -> Position {
        match player {
            Player::X => Position { x: self.x.insert(m.index()), o: self.o },
            Player::O => Position { x: self.x, o: self.o.insert(m.index()) },
        }
    }

    /// The cells of the grid that hold no mark.
    pub open spec fn free_cells(self) -> Set<int> {
        grid().difference(self.occupied())
    }
}

/// The position that playing `moves` one after the other leads to from the
/// start, each move made by the player whose turn it is. There is none
/// where one of the moves is made after the game has ended or names a cell
/// that is not free.
pub open spec fn play(moves: Seq<Move>) -> Option<Position>
    decreases moves.len(),
{
    if moves.len() == 0 {
        Some(Position::start())
    } else {
        match play(moves.drop_last()) {
            Some(pos) => match pos.active_player() {
                Some(player) => if pos.is_free(moves.last()) {
                    Some(pos.place(player, moves.last()))
                } else {
                    None
                },
                None => None,
            },
            None => None,
        }
    }
}

impl Position {
    /// Whether legal moves, made in turn from the start, lead to the
    /// position.
    pub open spec fn reachable(self) -> bool {
        exists|moves: Seq<Move>| play(moves) == Some(self)
    }

    /// Whether the position is well formed and X holds as many marks as O,
    /// or one more.
    pub open spec fn balanced(self) -> bool {
        &&& self.well_formed()
        &&& self.x.len() == self.o.len() || self.x.len() == self.o.len() + 1
    }
}

/// The grid has nine cells.
pub proof fn lemma_grid()
    ensures
        grid().finite(),
        grid().len() == 9,
{
    lemma_int_range(0, 9);
    assert(grid() =~= set_int_range(0, 9));
}

/// Marking a free cell leaves one free cell fewer.
pub proof fn lemma_place_takes_a_free_cell(pos: Position, player: Player, m: Move)
    requires
        pos.is_free(m),
    ensures
        pos.free_cells().finite(),
        pos.free_cells().contains(m.index()),
        pos.place(player, m).free_cells() == pos.free_cells().remove(m.index()),
        pos.place(player, m).free_cells().len() + 1 == pos.free_cells().len(),
{
    lemma_grid();
}

/// Every free cell is a legal move.
pub proof fn lemma_free_cells_are_legal_moves(pos: Position, m: Move)
    requires
        pos.is_free(m),
    ensures
        pos.legal_moves().contains(m),
{
    let k = 3 * m.row + m.col;
    assert(all_cells()[k] == m);
}

/// In a well-formed position the player to move has a legal move.
pub proof fn lemma_player_to_move_has_a_move(pos: Position)
    requires
        pos.well_formed(),
        pos.active_player() is Some,
    ensures
        pos.legal_moves().len() > 0,
{
    assert(!(pos.occupied() =~= grid()));
    let i = choose|i: int| pos.occupied().contains(i) != grid().contains(i);
    let m = cell(8 - i);
    lemma_free_cells_are_legal_moves(pos, m);
}

/// Marking a free cell of a well-formed position leaves it well formed and
/// gives the player one mark more.
pub proof fn lemma_place_keeps_well_formed(pos: Position, player: Player, m: Move)
    requires
        pos.well_formed(),
        pos.is_free(m),
    ensures
        pos.place(player, m).well_formed(),
        pos.x.finite(),
        pos.o.finite(),
        pos.place(player, m).marks(player).len() == pos.marks(player).len() + 1,
        pos.place(player, m).marks(player.opponent()) == pos.marks(player.opponent()),
{
    lemma_grid();
}

/// Playing legal moves in turn from the start leads to balanced positions
/// only.
pub proof fn lemma_play_is_balanced(moves: Seq<Move>)
    ensures
        play(moves) matches Some(pos) ==> pos.balanced(),
    decreases moves.len(),
{
    if moves.len() > 0 {
        lemma_play_is_balanced(moves.drop_last());
        if let Some(pos) = play(moves.drop_last()) {
            if let Some(player) = pos.active_player() {
                if pos.is_free(moves.last()) {
                    lemma_place_keeps_well_formed(pos, player, moves.last());
                }
            }
        }
    }
}

/// Every reachable position is balanced, and so well formed.
pub proof fn lemma_reachable_is_balanced(pos: Position)
    requires
        pos.reachable(),
    ensures
        pos.balanced(),
{
    let moves = choose|moves: Seq<Move>| play(moves) == Some(pos);
    lemma_play_is_balanced(moves);
}

/// X moves first.
pub proof fn lemma_x_moves_first()
    ensures
        Position::start().reachable(),
        Position::start().active_player() == Some(Player::X),
{
    assert(play(Seq::<Move>::empty()) == Some(Position::start()));
    assert(grid().contains(0));
}

/// The players take turns: after a legal move in a reachable position the
/// position is reachable again and, unless the game has ended with the
/// move, the opponent of the player who made it is to move.
pub proof fn lemma_turns_alternate(pos: Position, player: Player, m: Move)
    requires
        pos.reachable(),
        pos.active_player() == Some(player),
        pos.is_free(m),
    ensures
        pos.place(player, m).reachable(),
        match pos.place(player, m).active_player() {
            Some(next) => next == player.opponent(),
            None => pos.place(player, m).outcome() != Outcome::InProgress,
        },
{
    let moves = choose|moves: Seq<Move>| play(moves) == Some(pos);
    let longer = moves.push(m);
    assert(longer.drop_last() == moves);
    assert(play(longer) == Some(pos.place(player, m)));
    lemma_reachable_is_balanced(pos);
    lemma_place_keeps_well_formed(pos, player, m);
}

} // verus!
