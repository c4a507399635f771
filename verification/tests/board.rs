use tictactoe::bitboard::Bitboard;
use tictactoe::board::{Board, Move, Outcome, Player};
use tictactoe::error::Error;

#[test]
fn test_board_instantiates() {
    let board = Board::from_position(
        "___
            ___
            _O_",
    )
    .unwrap();
    assert_eq!(
        board,
        Board::new(Bitboard::empty(), Bitboard::from_binary("000000010").unwrap())
    );
}

#[test]
fn test_board_determines_winner() {
    assert_eq!(
        Board::from_position(
            "XOX
            OXO
            XOX",
        )
        .unwrap()
        .get_outcome(),
        Outcome::Victory(Player::X)
    );

    assert_eq!(
        Board::from_position(
            "XOX
            OOO
            _XX",
        )
        .unwrap()
        .get_outcome(),
        Outcome::Victory(Player::O)
    );

    assert_eq!(
        Board::from_position(
            "XOX
            XXO
            OXO",
        )
        .unwrap()
        .get_outcome(),
        Outcome::Draw
    );

    assert_eq!(
        Board::from_position(
            "XOX
            ___
            ___",
        )
        .unwrap()
        .get_outcome(),
        Outcome::InProgress
    );

    assert_eq!(
        Board::from_position(
            "XXX
            ___
            OOO",
        )
        .unwrap()
        .get_outcome(),
        Outcome::Ambiguous
    );
}

#[test]
fn test_board_moves() {
    let mut board = Board::from_position(
        "___
            ___
            ___",
    )
    .unwrap();
    assert_eq!(board.make_move(Player::X, Move::new(2, 1)), Ok(()));
    assert_eq!(
        board,
        Board::from_position(
            "___
                ___
                _X_",
        )
        .unwrap()
    );
}

#[test]
fn test_board_gets_active_player() {
    let board = Board::from_position(
        "___
            ___
            ___",
    )
    .unwrap();
    assert_eq!(board.get_active_player(), Some(Player::X));

    let board = Board::from_position(
        "___
            ___
            _X_",
    )
    .unwrap();
    assert_eq!(board.get_active_player(), Some(Player::O));

    let board = Board::from_position(
        "XOX
            O_O
            XOX",
    )
    .unwrap();
    assert_eq!(board.get_active_player(), Some(Player::X));

    let board = Board::from_position(
        "X_X
            OOO
            X__",
    )
    .unwrap();
    assert_eq!(board.get_active_player(), None);

    let board = Board::from_position(
        "XOX
            OXO
            XOX",
    )
    .unwrap();
    assert_eq!(board.get_active_player(), None);
}

#[test]
fn test_move_instantiates() {
    let m = Move::from_string("1 2").unwrap();
    assert_eq!(m, Move::new(1, 2));
}

#[test]
fn test_move_accessors() {
    let m = Move::new(2, 0);
    assert_eq!(m.get_row(), 2);
    assert_eq!(m.get_column(), 0);
    assert_eq!(m.row, 2);
    assert_eq!(m.col, 0);
    assert_eq!(m, Move { row: 2, col: 0 });
    assert_ne!(m, Move::new(0, 2));
}

#[test]
fn test_move_to_string() {
    assert_eq!(Move::new(2, 1).to_string(), "(2, 1)");
    assert_eq!(Move::new(0, 0).to_string(), "(0, 0)");
    assert_eq!(Move::new(10, 907).to_string(), "(10, 907)");
    assert_eq!(
        Move::new(usize::MAX, 1234567890).to_string(),
        format!("({}, {})", usize::MAX, 1234567890)
    );
}

#[test]
fn test_move_from_string() {
    for row in 0..3usize {
        for col in 0..3usize {
            assert_eq!(
                Move::from_string(&format!("{}{}", row, col)),
                Ok(Move::new(row, col))
            );
            assert_eq!(
                Move::from_string(&format!(" {}\t{}\n", row, col)),
                Ok(Move::new(row, col))
            );
        }
    }
    assert_eq!(Move::from_string("\u{a0}2\u{2003}0\u{3000}"), Ok(Move::new(2, 0)));
}

#[test]
fn test_move_from_string_rejects() {
    assert_eq!(Move::from_string(""), Err(Error::InvalidMove));
    assert_eq!(Move::from_string("   "), Err(Error::InvalidMove));
    assert_eq!(Move::from_string("1"), Err(Error::InvalidMove));
    assert_eq!(Move::from_string("123"), Err(Error::InvalidMove));
    assert_eq!(Move::from_string("13"), Err(Error::InvalidMove));
    assert_eq!(Move::from_string("31"), Err(Error::InvalidMove));
    assert_eq!(Move::from_string("1,2"), Err(Error::InvalidMove));
    assert_eq!(Move::from_string("(1, 2)"), Err(Error::InvalidMove));
    assert_eq!(Move::from_string("ab"), Err(Error::InvalidMove));
    assert_eq!(Move::from_string("é"), Err(Error::InvalidMove));
    assert_eq!(Move::from_string("1_2"), Err(Error::InvalidMove));
}

#[test]
fn test_move_from_symbols() {
    assert_eq!(Move::from_symbols(&['2', '1']), Ok(Move::new(2, 1)));
    assert_eq!(Move::from_symbols(&['2', ' ', '1']), Err(Error::InvalidMove));
    assert_eq!(Move::from_symbols(&['2']), Err(Error::InvalidMove));
    assert_eq!(Move::from_symbols(&[]), Err(Error::InvalidMove));
    assert_eq!(Move::from_symbols(&['3', '0']), Err(Error::InvalidMove));
    assert_eq!(Move::from_symbols(&['0', '3']), Err(Error::InvalidMove));
}

#[test]
fn test_player_to_string() {
    assert_eq!(Player::X.to_string(), "X");
    assert_eq!(Player::O.to_string(), "O");
}

#[test]
fn test_board_empty() {
    let board = Board::empty();
    assert_eq!(board, Board::new(Bitboard::empty(), Bitboard::empty()));
    assert_eq!(board, Board::from_position("_________").unwrap());
    assert_eq!(board.get_outcome(), Outcome::InProgress);
    assert_eq!(board.get_active_player(), Some(Player::X));
    assert!(!board.is_full());
    assert_eq!(board.get_legal_moves().len(), 9);
}

#[test]
fn test_board_from_position_places_marks_row_by_row() {
    let board = Board::from_position("XO_ __X O__").unwrap();
    assert_eq!(
        board,
        Board::new(
            Bitboard::from_binary("100001000").unwrap(),
            Bitboard::from_binary("010000100").unwrap()
        )
    );
    let mut by_moves = Board::empty();
    assert_eq!(by_moves.make_move(Player::X, Move::new(0, 0)), Ok(()));
    assert_eq!(by_moves.make_move(Player::O, Move::new(0, 1)), Ok(()));
    assert_eq!(by_moves.make_move(Player::X, Move::new(1, 2)), Ok(()));
    assert_eq!(by_moves.make_move(Player::O, Move::new(2, 0)), Ok(()));
    assert_eq!(by_moves, board);
}

#[test]
fn test_board_from_position_skips_white_space() {
    let plain = Board::from_position("XOX_O___X").unwrap();
    assert_eq!(Board::from_position("XOX _O_ __X"), Ok(plain));
    assert_eq!(Board::from_position("  XOX\n\t_O_\r\n__X\n"), Ok(plain));
    assert_eq!(Board::from_position("X O X _ O _ _ _ X"), Ok(plain));
    assert_eq!(
        Board::from_position("XOX\u{a0}_O_\u{2003}__X\u{3000}"),
        Ok(plain)
    );
    assert_eq!(Board::from_position("XOX\u{b}_O_\u{c}__X\u{85}"), Ok(plain));
}

#[test]
fn test_board_from_position_rejects() {
    assert_eq!(Board::from_position("XOXOXOXOXO"), Err(Error::InvalidPosition));
    assert_eq!(Board::from_position("XOXOXOXO"), Err(Error::InvalidPosition));
    assert_eq!(Board::from_position(""), Err(Error::InvalidPosition));
    assert_eq!(Board::from_position("   \n  "), Err(Error::InvalidPosition));
    assert_eq!(Board::from_position("XOX OXO XO"), Err(Error::InvalidPosition));
    assert_eq!(
        Board::from_position("XOX OXO XOXO"),
        Err(Error::InvalidPosition)
    );
    assert_eq!(Board::from_position("XOX OaO XOX"), Err(Error::InvalidPosition));
    assert_eq!(Board::from_position("XOX O-O XOX"), Err(Error::InvalidPosition));
    assert_eq!(Board::from_position("xox oxo xox"), Err(Error::InvalidPosition));
    assert_eq!(Board::from_position("XOX O0O XOX"), Err(Error::InvalidPosition));
    assert_eq!(Board::from_position("XOX O.O XOX"), Err(Error::InvalidPosition));
    assert_eq!(Board::from_position("XOXOXOXOé"), Err(Error::InvalidPosition));
    assert_eq!(Board::from_position("XOXOXOXé"), Err(Error::InvalidPosition));
    assert_eq!(
        Board::from_position("XOX\u{200b}OXO\u{200b}XOX"),
        Err(Error::InvalidPosition)
    );
}

#[test]
fn test_board_from_symbols() {
    let symbols = ['X', 'O', 'X', '_', 'O', '_', '_', '_', 'X'];
    assert_eq!(
        Board::from_symbols(&symbols),
        Ok(Board::from_position("XOX_O___X").unwrap())
    );
    assert_eq!(
        Board::from_symbols(&symbols),
        Ok(Board::new(Bitboard(0b101000001), Bitboard(0b010010000)))
    );
    assert_eq!(Board::from_symbols(&symbols[..8]), Err(Error::InvalidPosition));
    assert_eq!(
        Board::from_symbols(&['X', 'O', 'X', '_', 'O', '_', '_', '_', 'X', '_']),
        Err(Error::InvalidPosition)
    );
    assert_eq!(
        Board::from_symbols(&['X', 'O', 'X', ' ', 'O', '_', '_', '_', 'X']),
        Err(Error::InvalidPosition)
    );
    assert_eq!(
        Board::from_symbols(&['X', 'O', 'X', '_', 'O', '_', '_', '_', '1']),
        Err(Error::InvalidPosition)
    );
}

#[test]
fn test_board_is_full() {
    assert!(Board::from_position("XOX XXO OXO").unwrap().is_full());
    assert!(Board::from_position("XOX OXO XOX").unwrap().is_full());
    assert!(!Board::from_position("XOX OXO XO_").unwrap().is_full());
    assert!(!Board::from_position("_OX OXO XOX").unwrap().is_full());
    assert!(Board::new(Bitboard::full(), Bitboard::empty()).is_full());
    assert!(Board::new(Bitboard::full(), Bitboard::full()).is_full());
    assert!(!Board::new(Bitboard(0x3ff), Bitboard::empty()).is_full());
}

#[test]
fn test_board_outcome_of_each_line() {
    let lines = [
        "XXX ___ ___",
        "___ XXX ___",
        "___ ___ XXX",
        "X__ X__ X__",
        "_X_ _X_ _X_",
        "__X __X __X",
        "X__ _X_ __X",
        "__X _X_ X__",
    ];
    for line in lines {
        let board = Board::from_position(line).unwrap();
        assert_eq!(board.get_outcome(), Outcome::Victory(Player::X));
        assert_eq!(board.get_active_player(), None);
        let mirrored = Board::from_position(&line.replace('X', "O")).unwrap();
        assert_eq!(mirrored.get_outcome(), Outcome::Victory(Player::O));
        assert_eq!(mirrored.get_active_player(), None);
    }
}

#[test]
fn test_board_legal_moves_are_listed_row_by_row() {
    assert_eq!(
        Board::empty().get_legal_moves(),
        vec![
            Move::new(0, 0),
            Move::new(0, 1),
            Move::new(0, 2),
            Move::new(1, 0),
            Move::new(1, 1),
            Move::new(1, 2),
            Move::new(2, 0),
            Move::new(2, 1),
            Move::new(2, 2),
        ]
    );
    assert_eq!(
        Board::from_position("X_X O_O ___").unwrap().get_legal_moves(),
        vec![
            Move::new(0, 1),
            Move::new(1, 1),
            Move::new(2, 0),
            Move::new(2, 1),
            Move::new(2, 2),
        ]
    );
    assert_eq!(
        Board::from_position("XOX XXO OXO").unwrap().get_legal_moves(),
        vec![]
    );
    assert_eq!(
        Board::from_position("XXX OO_ ___").unwrap().get_legal_moves(),
        vec![
            Move::new(1, 2),
            Move::new(2, 0),
            Move::new(2, 1),
            Move::new(2, 2),
        ]
    );
}

#[test]
fn test_board_rejects_a_move_to_an_occupied_cell() {
    let start = Board::from_position("XO_ ___ ___").unwrap();
    let mut board = start;
    assert_eq!(
        board.make_move(Player::X, Move::new(0, 0)),
        Err(Error::CellOccupied)
    );
    assert_eq!(board, start);
    assert_eq!(
        board.make_move(Player::X, Move::new(0, 1)),
        Err(Error::CellOccupied)
    );
    assert_eq!(board, start);
    assert_eq!(
        start.with_move_made(Player::X, Move::new(0, 1)),
        Err(Error::CellOccupied)
    );
}

#[test]
fn test_board_rejects_a_move_out_of_turn() {
    let start = Board::from_position("XO_ ___ ___").unwrap();
    let mut board = start;
    assert_eq!(
        board.make_move(Player::O, Move::new(2, 2)),
        Err(Error::NotPlayersTurn)
    );
    assert_eq!(board, start);
    assert_eq!(
        board.make_move(Player::O, Move::new(0, 0)),
        Err(Error::NotPlayersTurn)
    );
    assert_eq!(board, start);
    assert_eq!(
        start.with_move_made(Player::O, Move::new(2, 2)),
        Err(Error::NotPlayersTurn)
    );
}

#[test]
fn test_board_rejects_a_move_after_the_game() {
    let start = Board::from_position("XXX OO_ ___").unwrap();
    let mut board = start;
    assert_eq!(
        board.make_move(Player::O, Move::new(2, 2)),
        Err(Error::NotPlayersTurn)
    );
    assert_eq!(
        board.make_move(Player::X, Move::new(2, 2)),
        Err(Error::NotPlayersTurn)
    );
    assert_eq!(board, start);
}

#[test]
fn test_board_with_move_made() {
    let start = Board::from_position("XO_ ___ ___").unwrap();
    assert_eq!(
        start.with_move_made(Player::X, Move::new(1, 1)),
        Ok(Board::from_position("XO_ _X_ ___").unwrap())
    );
    assert_eq!(start, Board::from_position("XO_ ___ ___").unwrap());
}

#[test]
fn test_players_take_turns() {
    let moves = [
        Move::new(1, 1),
        Move::new(0, 0),
        Move::new(0, 2),
        Move::new(2, 0),
        Move::new(1, 0),
        Move::new(1, 2),
        Move::new(0, 1),
        Move::new(2, 1),
        Move::new(2, 2),
    ];
    let mut board = Board::empty();
    let mut expected = Player::X;
    for (n, m) in moves.iter().enumerate() {
        assert_eq!(board.get_outcome(), Outcome::InProgress);
        assert_eq!(board.get_active_player(), Some(expected));
        assert_eq!(board.get_legal_moves().len(), 9 - n);
        assert_eq!(board.make_move(expected, *m), Ok(()));
        expected = match expected {
            Player::X => Player::O,
            Player::O => Player::X,
        };
    }
    assert_eq!(board.get_outcome(), Outcome::Draw);
    assert_eq!(board.get_active_player(), None);
    assert!(board.is_full());
    assert_eq!(board, Board::from_position("OXX XXO OOX").unwrap());
}

#[test]
fn test_turns_end_with_a_victory() {
    let mut board = Board::empty();
    assert_eq!(board.make_move(Player::X, Move::new(0, 0)), Ok(()));
    assert_eq!(board.make_move(Player::O, Move::new(1, 0)), Ok(()));
    assert_eq!(board.make_move(Player::X, Move::new(0, 1)), Ok(()));
    assert_eq!(board.make_move(Player::O, Move::new(1, 1)), Ok(()));
    assert_eq!(board.get_active_player(), Some(Player::X));
    assert_eq!(board.make_move(Player::X, Move::new(0, 2)), Ok(()));
    assert_eq!(board.get_outcome(), Outcome::Victory(Player::X));
    assert_eq!(board.get_active_player(), None);
    assert!(!board.is_full());
}

#[test]
fn test_error_to_string() {
    assert_eq!(Error::InvalidPosition.to_string(), "Invalid position string");
    assert_eq!(Error::InvalidMove.to_string(), "Invalid move string");
    assert_eq!(Error::NotPlayersTurn.to_string(), "It is not this player's turn");
    assert_eq!(Error::CellOccupied.to_string(), "This move has already been made");
    assert_eq!(Error::GameOver.to_string(), "The game is already over.");
}
