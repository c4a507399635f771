//! The value of a position under perfect play.

use crate::board::{Move, Outcome, Player};
use crate::rules::{lemma_place_takes_a_free_cell, Position};
use vstd::prelude::*;

verus! {

/// What an ended game is worth: `1` where X has won, `-1` where O has won,
/// `0` otherwise.
pub open spec fn outcome_value(outcome: Outcome) -> int {
    match outcome {
        Outcome::Victory(Player::X) => 1,
        Outcome::Victory(Player::O) => -1,
        Outcome::Draw => 0,
        Outcome::InProgress => 0,
        Outcome::Ambiguous => 0,
    }
}

/// The value that `player` picks among `values`: X the greatest, O the
/// least.
pub open spec fn best(player: Player, values: Seq<int>) -> int {
    match player {
        Player::X => values.max(),
        Player::O => values.min(),
    }
}

/// Whether `player` likes `a` strictly more than `b`.
pub open spec fn better(player: Player, a: int, b: int) -> bool {
    match player {
        Player::X => a > b,
        Player::O => a < b,
    }
}

/// What a game that `player` has lost is worth.
pub open spec fn lost(player: Player) -> int {
    match player {
        Player::X => -1,
        Player::O => 1,
    }
}

/// A value that `player` likes less than every value of a position.
pub open spec fn worst(player: Player) -> int {
    match player {
        Player::X => -2,
        Player::O => 2,
    }
}

/// The moves among `moves` after which the position is worth `value`.
pub open spec fn attaining(pos: Position, player: Player, moves: Seq<Move>, value: int) -> Seq<
    Move,
> {
    moves.filter(|m: Move| pos.place(player, m).value() == value)
}

impl Position {
    /// The values of the positions that the legal moves of `player` lead
    /// to, in the order of the moves.
    pub open spec fn reply_values(self, player: Player) -> Seq<int>
        decreases self.free_cells().len(), 0int,
        via Self::reply_values_decreases
    {
        let moves = self.legal_moves();
        Seq::new(
            moves.len(),
            |i: int|
                if 0 <= i < moves.len() {
                    self.place(player, moves[i]).value()
                } else {
                    0
                },
        )
    }

    /// The value of the position under perfect play by both sides: what the
    /// ended game is worth where the game has ended; else the best, for the
    /// player to move, of the values of the positions that a legal move
    /// leads to. A position where a player is to move and no cell is free,
    /// which only marks outside the grid bring about, is worth `0`.
    pub open spec fn value(self) -> int
        decreases self.free_cells().len(), 1int,
    {
        match self.active_player() {
            None => outcome_value(self.outcome()),
            Some(player) => if self.legal_moves().len() == 0 {
                0
            } else {
                best(player, self.reply_values(player))
            },
        }
    }

    #[via_fn]
    proof fn reply_values_decreases(self, player: Player) {
        assert forall|m: Move| self.is_free(m) implies (#[trigger] self.place(
            player,
            m,
        )).free_cells().len() < self.free_cells().len() by {
            lemma_place_takes_a_free_cell(self, player, m);
        }
    }

    /// The legal moves after which the position is worth what it is worth
    /// now, in the order of the legal moves. There is none where the game
    /// has ended.
    pub open spec fn optimal_moves(self) -> Seq<Move> {
        match self.active_player() {
            None => Seq::empty(),
            Some(player) => attaining(self, player, self.legal_moves(), self.value()),
        }
    }
}

/// A game that has ended is worth what its outcome is worth, and a game
/// whose nine cells are marked has ended.
pub proof fn lemma_value_of_ended_game(pos: Position)
    ensures
        pos.full() ==> pos.outcome() != Outcome::InProgress,
        pos.outcome() != Outcome::InProgress ==> pos.value() == outcome_value(pos.outcome()),
{
}

/// Where the player to move has a legal move, the position is worth what
/// the position after each optimal move is worth, and there is an optimal
/// move.
pub proof fn lemma_optimal_moves_keep_value(pos: Position, player: Player)
    requires
        pos.active_player() == Some(player),
        pos.legal_moves().len() > 0,
    ensures
        pos.optimal_moves().len() > 0,
        forall|k: int|
            0 <= k < pos.optimal_moves().len() ==> pos.place(
                player,
                #[trigger] pos.optimal_moves()[k],
            ).value() == pos.value(),
{
    let moves = pos.legal_moves();
    let values = pos.reply_values(player);
    values.max_ensures();
    values.min_ensures();
    let k = choose|k: int| 0 <= k < values.len() && values[k] == best(player, values);
    assert(pos.optimal_moves().contains(moves[k]));
}

/// A value that no value in `values` is better than, and that occurs in
/// `values`, is the best of them.
pub proof fn lemma_best(player: Player, values: Seq<int>, v: int)
    requires
        values.contains(v),
        forall|j: int| 0 <= j < values.len() ==> !better(player, #[trigger] values[j], v),
    ensures
        best(player, values) == v,
{
    values.max_ensures();
    values.min_ensures();
}

/// No position is worth more than a win of X or less than a win of O.
pub proof fn lemma_value_bounds(pos: Position)
    ensures
        -1 <= pos.value() <= 1,
    decreases pos.free_cells().len(),
{
    if let Some(player) = pos.active_player() {
        let moves = pos.legal_moves();
        if moves.len() > 0 {
            let values = pos.reply_values(player);
            assert forall|i: int| 0 <= i < values.len() implies -1 <= #[trigger] values[i]
                <= 1 by {
                lemma_place_takes_a_free_cell(pos, player, moves[i]);
                lemma_value_bounds(pos.place(player, moves[i]));
            }
            values.max_ensures();
            values.min_ensures();
        }
    }
}

/// None of `moves` attains a value that differs from what each of them
/// leads to.
pub proof fn lemma_attaining_none(pos: Position, player: Player, moves: Seq<Move>, value: int)
    requires
        forall|j: int|
            0 <= j < moves.len() ==> pos.place(player, #[trigger] moves[j]).value() != value,
    ensures
        attaining(pos, player, moves, value) == Seq::<Move>::empty(),
    decreases moves.len(),
{
    reveal(Seq::filter);
    if moves.len() > 0 {
        lemma_attaining_none(pos, player, moves.drop_last(), value);
    }
}

} // verus!
