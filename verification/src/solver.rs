//! Exhaustive search for the best moves of a position.

use crate::board::{Board, Move, Outcome, Player};
use crate::error::Error;
use crate::minimax::{
    attaining, better, lemma_attaining_none, lemma_best, lemma_value_bounds, lost, outcome_value,
    worst,
};
use crate::rules::{lemma_place_takes_a_free_cell, Position};
use crate::tree::{Node, Tree};
use vstd::pervasive::unreached;
use vstd::prelude::*;

verus! {

/// Solves the position of a board by walking the tree of every game that
/// can follow from it.
pub struct Solver {
    tree: Tree,
}

/// Whether `r` answers the question for the best moves in `pos`: where the
/// game has ended, the error that says so; else the optimal moves and the
/// value of the position. Where a player is to move and no cell is free,
/// which only marks outside the grid bring about, there is no move, and the
/// value is one that the player likes less than any value of a position.
pub open spec fn is_answer(pos: Position, r: Result<(Vec<Move>, i8), Error>) -> bool {
    match r {
        Ok((moves, value)) => {
            &&& pos.active_player() matches Some(player)
            &&& moves@ == pos.optimal_moves()
            &&& value == if pos.legal_moves().len() == 0 {
                worst(player)
            } else {
                pos.value()
            }
        },
        Err(e) => e == Error::GameOver && pos.active_player() is None,
    }
}

/// A position has one answer: asking twice gives the same moves and the
/// same value, or the same error.
pub proof fn lemma_answer_is_unique(
    pos: Position,
    first: Result<(Vec<Move>, i8), Error>,
    second: Result<(Vec<Move>, i8), Error>,
)
    requires
        is_answer(pos, first),
        is_answer(pos, second),
    ensures
        match (first, second) {
            (Ok((moves1, value1)), Ok((moves2, value2))) => moves1@ == moves2@ && value1
                == value2,
            (Err(e1), Err(e2)) => e1 == e2,
            _ => false,
        },
{
}

impl Solver {
    /// The board that the solver was made for.
    pub closed spec fn board(self) -> Board {
        self.tree.root().board()
    }

    /// Builds the solver of `board`.
    pub fn from_board(board: Board) -> (solver: Solver)
        ensures
            solver.board() == board,
    {
        let tree = Tree::from_board(board);
        Solver { tree }
    }

    /// The value of the solver's position under perfect play.
    pub fn get_evaluation(&self) -> (value: i8)
        ensures
            value == self.board()@.value(),
    {
        let root = self.tree.get_root();
        self.get_evaluation_for_node(root)
    }

    /// The value under perfect play of the position at `node`.
    pub fn get_evaluation_for_node(&self, node: &Node) -> (value: i8)
        ensures
            value == node.board()@.value(),
        decreases node.board()@.free_cells().len(),
    {
        let children = node.get_children();
        if children.len() == 0 {
            return Solver::get_evaluation_for_outcome(node.get_board().get_outcome());
        }
        let player = match node.get_active_player() {
            Some(player) => player,
            None => unreached(),
        };
        let ghost pos = node.board()@;
        let ghost moves = pos.legal_moves();
        let ghost values = pos.reply_values(player);
        let mut best_move: i8 = match player {
            Player::X => -1,
            Player::O => 1,
        };
        proof {
            assert forall|j: int| 0 <= j < values.len() implies -1 <= #[trigger] values[j]
                <= 1 by {
                lemma_value_bounds(pos.place(player, moves[j]));
            }
        }
        let mut i: usize = 0;
        while i < children.len()
            invariant
                i <= children.len(),
                children@ == node.children(),
                node.expanded(),
                pos == node.board()@,
                pos.active_player() == Some(player),
                moves == pos.legal_moves(),
                values == pos.reply_values(player),
                forall|j: int| 0 <= j < moves.len() ==> pos.is_free(#[trigger] moves[j]),
                forall|j: int| 0 <= j < values.len() ==> -1 <= #[trigger] values[j] <= 1,
                -1 <= best_move <= 1,
                forall|j: int|
                    0 <= j < i ==> !better(player, #[trigger] values[j], best_move as int),
                i > 0 ==> values.contains(best_move as int),
                i == 0 ==> best_move == lost(player),
            decreases children.len() - i,
        {
            proof {
                lemma_place_takes_a_free_cell(pos, player, moves[i as int]);
            }
            let child_evaluation = self.get_evaluation_for_node(&children[i]);
            let ghost before = best_move;
            match player {
                Player::X => {
                    if child_evaluation > best_move {
                        best_move = child_evaluation;
                    }
                },
                Player::O => {
                    if child_evaluation < best_move {
                        best_move = child_evaluation;
                    }
                },
            }
            proof {
                if best_move == before && i == 0 {
                    assert(values[i as int] == best_move);
                }
                if best_move != before {
                    assert(values[i as int] == best_move);
                }
            }
            i += 1;
        }
        proof {
            lemma_best(player, values, best_move as int);
        }
        best_move
    }

    /// The best moves of the player to move, in the order of the legal
    /// moves. The solver does not change.
    pub fn get_next_moves(&mut self) -> (r: Result<Vec<Move>, Error>)
        ensures
            *final(self) == *old(self),
            match r {
                Ok(moves) => {
                    &&& old(self).board()@.active_player() is Some
                    &&& moves@ == old(self).board()@.optimal_moves()
                },
                Err(e) => e == Error::GameOver && old(self).board()@.active_player() is None,
            },
    {
        match self.get_next_moves_and_evaluation() {
            Ok((next_moves, _)) => Ok(next_moves),
            Err(e) => Err(e),
        }
    }

    /// The best moves of the player to move, in the order of the legal
    /// moves, and the value of the position, which is the value of the
    /// position after each of them. The solver does not change.
    pub fn get_next_moves_and_evaluation(&mut self) -> (r: Result<(Vec<Move>, i8), Error>)
        ensures
            *final(self) == *old(self),
            is_answer(old(self).board()@, r),
            r matches Ok((moves, value)) ==> forall|k: int|
                0 <= k < moves@.len() ==> old(self).board()@.place(
                    old(self).board()@.active_player().unwrap(),
                    #[trigger] moves@[k],
                ).value() == value,
    {
        let root = self.tree.get_root();
        let active_player = match root.get_active_player() {
            Some(player) => player,
            None => { return Err(Error::GameOver); },
        };
        let children = root.get_children();
        let legal_moves = root.get_legal_moves();
        let mut next_moves: Vec<Move> = Vec::new();
        let mut best_evaluation: i8 = match active_player {
            Player::X => -2,
            Player::O => 2,
        };
        let ghost pos = root.board()@;
        let ghost values = pos.reply_values(active_player);
        proof {
            reveal(Seq::filter);
            assert forall|j: int| 0 <= j < values.len() implies -1 <= #[trigger] values[j]
                <= 1 by {
                lemma_value_bounds(pos.place(active_player, legal_moves@[j]));
            }
        }
        let mut i: usize = 0;
        while i < legal_moves.len()
            invariant
                i <= legal_moves.len(),
                children@ == root.children(),
                root.expanded(),
                pos == root.board()@,
                pos.active_player() == Some(active_player),
                legal_moves@ == pos.legal_moves(),
                values == pos.reply_values(active_player),
                forall|j: int| 0 <= j < values.len() ==> -1 <= #[trigger] values[j] <= 1,
                -2 <= best_evaluation <= 2,
                forall|j: int|
                    0 <= j < i ==> !better(
                        active_player,
                        #[trigger] values[j],
                        best_evaluation as int,
                    ),
                i > 0 ==> values.contains(best_evaluation as int),
                i == 0 ==> best_evaluation == worst(active_player),
                next_moves@ == attaining(
                    pos,
                    active_player,
                    legal_moves@.take(i as int),
                    best_evaluation as int,
                ),
            decreases legal_moves.len() - i,
        {
            let m = legal_moves[i];
            let evaluation = self.get_evaluation_for_node(&children[i]);
            proof {
                assert(evaluation == values[i as int]);
                let before = legal_moves@.take(i as int);
                let next = legal_moves@.take(i + 1);
                assert(next.drop_last() == before);
                reveal(Seq::filter);
                if better(active_player, evaluation as int, best_evaluation as int) {
                    assert forall|j: int| 0 <= j < before.len() implies pos.place(
                        active_player,
                        #[trigger] before[j],
                    ).value() != evaluation by {
                        assert(values[j] == pos.place(active_player, legal_moves@[j]).value());
                    }
                    lemma_attaining_none(pos, active_player, before, evaluation as int);
                }
            }
            if (evaluation > best_evaluation && active_player == Player::X) || (evaluation
                < best_evaluation && active_player == Player::O) {
                best_evaluation = evaluation;
                next_moves.clear();
                next_moves.push(m);
            } else if evaluation == best_evaluation {
                next_moves.push(m);
            }
            i += 1;
        }
        proof {
            assert(legal_moves@.take(legal_moves@.len() as int) == legal_moves@);
            if legal_moves@.len() > 0 {
                lemma_best(active_player, values, best_evaluation as int);
            }
        }
        Ok((next_moves, best_evaluation))
    }

    /// What an ended game is worth: `1` where X has won, `-1` where O has
    /// won, `0` otherwise.
    pub fn get_evaluation_for_outcome(outcome: Outcome) -> (value: i8)
        ensures
            value == outcome_value(outcome),
    {
        match outcome {
            Outcome::InProgress => 0,
            Outcome::Ambiguous => 0,
            Outcome::Draw => 0,
            Outcome::Victory(Player::X) => 1,
            Outcome::Victory(Player::O) => -1,
        }
    }
}

} // verus!
