use tictactoe::bitboard::Bitboard;
use tictactoe::error::Error;

#[test]
fn test_bitboard_instantiates() {
    let mut bitboard = Bitboard::empty();
    assert_eq!(bitboard, Bitboard(0));
    bitboard.set(1, 2);
    bitboard.set(2, 2);
    assert_eq!(bitboard, Bitboard::from_binary("000001001").unwrap());

    let mut bitboard_2 = Bitboard::empty();
    bitboard_2.set(2, 1);
    assert_eq!(bitboard_2, Bitboard(2));

    let other_bitboard = Bitboard::from_binary("110000001").unwrap();
    let combined_bitboard = bitboard.union(&other_bitboard);
    assert_eq!(combined_bitboard, Bitboard::from_binary("110001001").unwrap());

    let intersected_bitboard = bitboard.intersection(&other_bitboard);
    assert_eq!(intersected_bitboard, Bitboard::from_binary("000000001").unwrap());
}

#[test]
fn test_bitboard_cell_positions() {
    for row in 0..3usize {
        for col in 0..3usize {
            let mut bitboard = Bitboard::empty();
            bitboard.set(row, col);
            assert_eq!(bitboard, Bitboard(1 << (8 - (3 * row + col))));
            for r in 0..3usize {
                for c in 0..3usize {
                    assert_eq!(bitboard.is_set(r, c), r == row && c == col);
                }
            }
        }
    }
}

#[test]
fn test_bitboard_set_is_idempotent() {
    let mut bitboard = Bitboard::empty();
    bitboard.set(0, 0);
    bitboard.set(0, 0);
    assert_eq!(bitboard, Bitboard(0b100000000));
    assert_eq!(bitboard.n_set(), 1);
}

#[test]
fn test_bitboard_empty_and_full() {
    assert!(Bitboard::empty().is_empty());
    assert!(Bitboard::default().is_empty());
    assert!(!Bitboard::full().is_empty());
    assert!(!Bitboard(0x8000).is_empty());
    assert_eq!(Bitboard::full(), Bitboard(0b111111111));
    assert_eq!(Bitboard::full(), Bitboard::from_binary("111111111").unwrap());
    assert_eq!(Bitboard::empty(), Bitboard::from_binary("000000000").unwrap());
}

#[test]
fn test_bitboard_difference() {
    let a = Bitboard(0b110001001);
    let b = Bitboard(0b100001010);
    assert_eq!(a.difference(&b), Bitboard(0b010000001));
    assert_eq!(b.difference(&a), Bitboard(0b000000010));
    assert_eq!(a.difference(&a), Bitboard::empty());
    assert_eq!(a.difference(&Bitboard::empty()), a);
}

#[test]
fn test_bitboard_contains() {
    let a = Bitboard(0b110001001);
    assert!(a.contains(Bitboard(0b100001000)));
    assert!(a.contains(a));
    assert!(a.contains(Bitboard::empty()));
    assert!(!a.contains(Bitboard(0b000000010)));
    assert!(!a.contains(Bitboard::full()));
    assert!(Bitboard::full().contains(a));
}

#[test]
fn test_bitboard_n_set() {
    assert_eq!(Bitboard::empty().n_set(), 0);
    assert_eq!(Bitboard::full().n_set(), 9);
    assert_eq!(Bitboard(0b110001001).n_set(), 4);
    assert_eq!(Bitboard(0b000000001).n_set(), 1);
    assert_eq!(Bitboard(0b100000000).n_set(), 1);
    assert_eq!(Bitboard(0xffff).n_set(), 16);
    assert_eq!(Bitboard(0x8000).n_set(), 1);
}

#[test]
fn test_bitboard_victory_lines() {
    let lines = [
        "111000000",
        "000111000",
        "000000111",
        "100100100",
        "010010010",
        "001001001",
        "100010001",
        "001010100",
    ];
    for line in lines {
        let bitboard = Bitboard::from_binary(line).unwrap();
        assert!(bitboard.is_victory());
        assert!(bitboard.union(&Bitboard(0b000000000)).is_victory());
        for bit in 0..9 {
            let fewer = bitboard.difference(&Bitboard(1 << bit));
            if fewer != bitboard {
                assert!(!fewer.is_victory());
            }
        }
    }
    assert!(Bitboard::full().is_victory());
    assert!(!Bitboard::empty().is_victory());
    assert!(!Bitboard::from_binary("110011000").unwrap().is_victory());
    assert!(!Bitboard::from_binary("101010010").unwrap().is_victory());
    assert!(Bitboard::from_binary("101110100").unwrap().is_victory());
}

#[test]
fn test_bitboard_from_binary_rejects() {
    assert_eq!(Bitboard::from_binary(""), Err(Error::InvalidPosition));
    assert_eq!(Bitboard::from_binary("00000000"), Err(Error::InvalidPosition));
    assert_eq!(Bitboard::from_binary("0000000000"), Err(Error::InvalidPosition));
    assert_eq!(Bitboard::from_binary("000020000"), Err(Error::InvalidPosition));
    assert_eq!(Bitboard::from_binary("00000000x"), Err(Error::InvalidPosition));
    assert_eq!(Bitboard::from_binary("0000 0000"), Err(Error::InvalidPosition));
    assert_eq!(Bitboard::from_binary("000 000 000"), Err(Error::InvalidPosition));
    assert_eq!(Bitboard::from_binary("0000000é"), Err(Error::InvalidPosition));
    assert_eq!(Bitboard::from_binary("00000000é"), Err(Error::InvalidPosition));
}

#[test]
fn test_bitboard_from_binary_reads_the_first_digit_as_the_top_left_cell() {
    let bitboard = Bitboard::from_binary("100000010").unwrap();
    assert_eq!(bitboard, Bitboard(0b100000010));
    assert!(bitboard.is_set(0, 0));
    assert!(bitboard.is_set(2, 1));
    assert!(!bitboard.is_set(1, 2));
    assert_eq!(bitboard.n_set(), 2);
}
