//! The tree of every game that can follow from a board.

use crate::board::{Board, Move, Player};
use crate::rules::lemma_place_takes_a_free_cell;
use vstd::pervasive::unreached;
use vstd::prelude::*;

verus! {

/// A board together with the trees of the boards that one move leads to.
///
/// A node is always complete: where the game has ended it has no children;
/// elsewhere it has one child for each legal move, in the order of the
/// moves, and each child is the complete tree of the board after that move.
pub struct Node {
    board: Board,
    children: Vec<Node>,
}

/// The tree of every game that can follow from its root's board.
pub struct Tree {
    root: Node,
}

impl Node {
    /// The board of the node.
    pub closed spec fn board(self) -> Board {
        self.board
    }

    /// The children of the node, in the order of the moves that lead to
    /// them.
    pub closed spec fn children(self) -> Seq<Node> {
        self.children@
    }

    /// Whether the children are the boards that the legal moves lead to.
    pub open spec fn expanded(self) -> bool {
        let pos = self.board()@;
        match pos.active_player() {
            None => self.children().len() == 0,
            Some(player) => {
                &&& self.children().len() == pos.legal_moves().len()
                &&& forall|i: int|
                    0 <= i < self.children().len() ==> (#[trigger] self.children()[i]).board()@
                        == pos.place(player, pos.legal_moves()[i])
            },
        }
    }

    /// Whether the node is the whole tree of its board: its children are
    /// the boards that the legal moves lead to, and each child is the whole
    /// tree of its own board. Every node is.
    #[verifier::type_invariant]
    pub closed spec fn complete(self) -> bool
        decreases self,
    {
        &&& self.expanded()
        &&& forall|i: int|
            0 <= i < self.children@.len() ==> (#[trigger] self.children@[i]).complete()
    }

    /// A complete node is expanded and has complete children.
    pub proof fn lemma_complete(self)
        requires
            self.complete(),
        ensures
            self.expanded(),
            forall|i: int|
                0 <= i < self.children().len() ==> (#[trigger] self.children()[i]).complete(),
    {
    }

    /// Builds the complete tree of `board`.
    pub fn from_board(board: Board) -> (node: Node)
        ensures
            node.board() == board,
            node.complete(),
            node.expanded(),
        decreases board@.free_cells().len(),
    {
        let mut children: Vec<Node> = Vec::new();
        if let Some(player) = board.get_active_player() {
            let moves = board.get_legal_moves();
            let mut i: usize = 0;
            while i < moves.len()
                invariant
                    i <= moves.len(),
                    moves@ == board@.legal_moves(),
                    board@.active_player() == Some(player),
                    forall|j: int| 0 <= j < moves.len() ==> board@.is_free(#[trigger] moves@[j]),
                    children@.len() == i,
                    forall|j: int|
                        0 <= j < i ==> (#[trigger] children@[j]).board@ == board@.place(
                            player,
                            moves@[j],
                        ) && children@[j].complete(),
                decreases moves.len() - i,
            {
                let m = moves[i];
                let next = match board.with_move_made(player, m) {
                    Ok(next) => next,
                    Err(_) => unreached(),
                };
                proof {
                    lemma_place_takes_a_free_cell(board@, player, m);
                }
                let child = Node::from_board(next);
                children.push(child);
                i += 1;
            }
        }
        Node { board, children }
    }

    /// The board of the node.
    pub fn get_board(&self) -> (board: &Board)
        ensures
            *board == self.board(),
    {
        &self.board
    }

    /// The player to move on the board of the node, if the game has not
    /// ended there.
    pub fn get_active_player(&self) -> (player: Option<Player>)
        ensures
            player == self.board()@.active_player(),
    {
        self.board.get_active_player()
    }

    /// The free cells of the board of the node, row by row from the top,
    /// each row from the left.
    pub fn get_legal_moves(&self) -> (moves: Vec<Move>)
        ensures
            moves@ == self.board()@.legal_moves(),
    {
        self.board.get_legal_moves()
    }

    /// The children of the node, in the order of the moves that lead to
    /// them.
    pub fn get_children(&self) -> (children: &Vec<Node>)
        ensures
            children@ == self.children(),
            self.complete(),
            self.expanded(),
    {
        proof {
            use_type_invariant(self);
        }
        &self.children
    }

    /// The child that the move to row `row`, column `col` leads to. There
    /// is none where the game has ended or the cell is not free.
    pub fn get_child(&self, row: usize, col: usize) -> (child: Option<&Node>)
        ensures
            self.expanded(),
            match child {
                Some(node) => exists|i: int|
                    0 <= i < self.children().len() && #[trigger] self.board()@.legal_moves()[i] == (
                    Move { row, col }) && *node == self.children()[i],
                None => forall|i: int|
                    0 <= i < self.children().len() ==> #[trigger] self.board()@.legal_moves()[i]
                        != (Move { row, col }),
            },
    {
        proof {
            use_type_invariant(self);
        }
        if self.children.len() == 0 {
            return None;
        }
        let moves = self.board.get_legal_moves();
        let mut i: usize = 0;
        while i < moves.len()
            invariant
                i <= moves.len(),
                self.expanded(),
                moves@ == self.board@.legal_moves(),
                moves.len() == self.children@.len(),
                forall|j: int| 0 <= j < i ==> #[trigger] moves@[j] != (Move { row, col }),
            decreases moves.len() - i,
        {
            if moves[i].get_row() == row && moves[i].get_column() == col {
                return Some(&self.children[i]);
            }
            i += 1;
        }
        None
    }
}

impl Tree {
    /// The root of the tree.
    pub closed spec fn root(self) -> Node {
        self.root
    }

    /// Builds the tree of every game that can follow from `board`.
    pub fn from_board(board: Board) -> (tree: Tree)
        ensures
            tree.root().board() == board,
            tree.root().complete(),
            tree.root().expanded(),
    {
        Tree { root: Node::from_board(board) }
    }

    /// The root of the tree.
    pub fn get_root(&self) -> (root: &Node)
        ensures
            *root == self.root(),
            root.complete(),
            root.expanded(),
    {
        proof {
            use_type_invariant(&self.root);
        }
        &self.root
    }
}

} // verus!
