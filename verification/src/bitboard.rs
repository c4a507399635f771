//! Nine-cell occupancy masks.
//!
//! A [`Bitboard`] records which cells of the 3×3 grid one player has marked.
//! The cell in row `row` and column `col` (both counted from zero, rows from
//! the top, columns from the left) lives at bit position `8 - (3 * row + col)`,
//! so the top-left cell is the most significant of the nine bits and a mask
//! written in binary reads like the grid written row by row.
//!
//! Contracts speak of a bitboard through its view: the set of bit positions
//! that are set.

use crate::error::Error;
use vstd::prelude::*;

verus! {

/// Whether bit `i` of `mask` is set. False for every `i` outside `0..16`.
pub open spec fn bit(mask: u16, i: int) -> bool {
    0 <= i < 16 && mask & (1u16 << (i as u16)) != 0
}

/// The bit position of the cell in row `row`, column `col`.
pub open spec fn cell_index(row: int, col: int) -> int {
    8 - (3 * row + col)
}

/// The bit positions that stand for cells of the grid.
pub open spec fn grid() -> Set<int> {
    Set::new(|i: int| 0 <= i < 9)
}

/// The set bits of `mask` below position `n`.
pub open spec fn bits_below(mask: u16, n: int) -> Set<int> {
    Set::new(|i: int| i < n && bit(mask, i))
}

/// Whether `cells` holds the three cells of row `row`.
pub open spec fn holds_row(cells: Set<int>, row: int) -> bool {
    &&& cells.contains(cell_index(row, 0))
    &&& cells.contains(cell_index(row, 1))
    &&& cells.contains(cell_index(row, 2))
}

/// Whether `cells` holds the three cells of column `col`.
pub open spec fn holds_column(cells: Set<int>, col: int) -> bool {
    &&& cells.contains(cell_index(0, col))
    &&& cells.contains(cell_index(1, col))
    &&& cells.contains(cell_index(2, col))
}

/// Whether `cells` holds the diagonal that starts at the top-left cell.
pub open spec fn holds_diagonal(cells: Set<int>) -> bool {
    &&& cells.contains(cell_index(0, 0))
    &&& cells.contains(cell_index(1, 1))
    &&& cells.contains(cell_index(2, 2))
}

/// Whether `cells` holds the diagonal that starts at the top-right cell.
pub open spec fn holds_antidiagonal(cells: Set<int>) -> bool {
    &&& cells.contains(cell_index(0, 2))
    &&& cells.contains(cell_index(1, 1))
    &&& cells.contains(cell_index(2, 0))
}

/// Whether `cells` holds one of the eight winning lines: a row, a column or
/// a diagonal of the grid.
pub open spec fn has_line(cells: Set<int>) -> bool {
    ||| holds_row(cells, 0)
    ||| holds_row(cells, 1)
    ||| holds_row(cells, 2)
    ||| holds_column(cells, 0)
    ||| holds_column(cells, 1)
    ||| holds_column(cells, 2)
    ||| holds_diagonal(cells)
    ||| holds_antidiagonal(cells)
}

/// Whether `text` writes a mask out: nine characters, each `0` or `1`.
pub open spec fn is_binary(text: Seq<char>) -> bool {
    &&& text.len() == 9
    &&& forall|k: int| 0 <= k < 9 ==> text[k] == '0' || text[k] == '1'
}

/// The bit positions that `text` marks with `symbol`. The first character
/// of the text stands for the top-left cell, the last for the bottom-right.
pub open spec fn marked(text: Seq<char>, symbol: char) -> Set<int> {
    Set::new(|i: int| 0 <= i < 9 && 8 - i < text.len() && text[8 - i] == symbol)
}

/// The marks of one player, one bit per cell.
#[derive(Copy, Clone, Debug, PartialEq, Eq, Structural)]
pub struct Bitboard(pub u16);

impl View for Bitboard {
    type V = Set<int>;

    open spec fn view(&self) -> Set<int> {
        Set::new(|i: int| bit(self.0, i))
    }
}

proof fn lemma_bitwise(a: u16, b: u16, i: u16)
    by (bit_vector)
    requires
        i < 16,
    ensures
        ((a | b) & (1u16 << i) != 0) == (a & (1u16 << i) != 0 || b & (1u16 << i) != 0),
        ((a & b) & (1u16 << i) != 0) == (a & (1u16 << i) != 0 && b & (1u16 << i) != 0),
        ((a & !b) & (1u16 << i) != 0) == (a & (1u16 << i) != 0 && !(b & (1u16 << i) != 0)),
{
}

proof fn lemma_constants(k: u16, i: u16)
    by (bit_vector)
    requires
        k < 16,
        i < 16,
    ensures
        0u16 & (1u16 << i) == 0,
        (0x1ffu16 & (1u16 << i) != 0) == (i < 9),
        ((1u16 << k) & (1u16 << i) != 0) == (i == k),
{
}

proof fn lemma_equal_bits(a: u16, b: u16)
    by (bit_vector)
    requires
        (a & (1u16 << 0) != 0) == (b & (1u16 << 0) != 0),
        (a & (1u16 << 1) != 0) == (b & (1u16 << 1) != 0),
        (a & (1u16 << 2) != 0) == (b & (1u16 << 2) != 0),
        (a & (1u16 << 3) != 0) == (b & (1u16 << 3) != 0),
        (a & (1u16 << 4) != 0) == (b & (1u16 << 4) != 0),
        (a & (1u16 << 5) != 0) == (b & (1u16 << 5) != 0),
        (a & (1u16 << 6) != 0) == (b & (1u16 << 6) != 0),
        (a & (1u16 << 7) != 0) == (b & (1u16 << 7) != 0),
        (a & (1u16 << 8) != 0) == (b & (1u16 << 8) != 0),
        (a & (1u16 << 9) != 0) == (b & (1u16 << 9) != 0),
        (a & (1u16 << 10) != 0) == (b & (1u16 << 10) != 0),
        (a & (1u16 << 11) != 0) == (b & (1u16 << 11) != 0),
        (a & (1u16 << 12) != 0) == (b & (1u16 << 12) != 0),
        (a & (1u16 << 13) != 0) == (b & (1u16 << 13) != 0),
        (a & (1u16 << 14) != 0) == (b & (1u16 << 14) != 0),
        (a & (1u16 << 15) != 0) == (b & (1u16 << 15) != 0),
    ensures
        a == b,
{
}

proof fn lemma_line_masks(i: u16)
    by (bit_vector)
    requires
        i < 16,
    ensures
        (0b111000000u16 & (1u16 << i) != 0) == (i == 8 || i == 7 || i == 6),
        (0b000111000u16 & (1u16 << i) != 0) == (i == 5 || i == 4 || i == 3),
        (0b000000111u16 & (1u16 << i) != 0) == (i == 2 || i == 1 || i == 0),
        (0b100100100u16 & (1u16 << i) != 0) == (i == 8 || i == 5 || i == 2),
        (0b010010010u16 & (1u16 << i) != 0) == (i == 7 || i == 4 || i == 1),
        (0b001001001u16 & (1u16 << i) != 0) == (i == 6 || i == 3 || i == 0),
        (0b100010001u16 & (1u16 << i) != 0) == (i == 8 || i == 4 || i == 0),
        (0b001010100u16 & (1u16 << i) != 0) == (i == 6 || i == 4 || i == 2),
{
}

/// The set bits below a position form a finite set, which grows by at most
/// the next position.
pub proof fn lemma_bits_below(mask: u16, n: int)
    requires
        0 <= n,
    ensures
        bits_below(mask, n).finite(),
        bits_below(mask, n).len() <= n,
        bits_below(mask, n + 1) == if bit(mask, n) {
            bits_below(mask, n).insert(n)
        } else {
            bits_below(mask, n)
        },
        bits_below(mask, n + 1).len() == bits_below(mask, n).len() + if bit(mask, n) {
            1int
        } else {
            0int
        },
    decreases n,
{
    if n == 0 {
        assert(bits_below(mask, 0) =~= Set::<int>::empty());
    } else {
        lemma_bits_below(mask, n - 1);
    }
}

/// Two bitboards with the same view are the same bitboard.
pub proof fn lemma_view_injective(a: Bitboard, b: Bitboard)
    requires
        a@ == b@,
    ensures
        a == b,
{
    assert forall|i: int| bit(a.0, i) == bit(b.0, i) by {
        assert(b@.contains(i) == bit(b.0, i));
    }
    assert(bit(a.0, 0) == bit(b.0, 0));
    assert(bit(a.0, 1) == bit(b.0, 1));
    assert(bit(a.0, 2) == bit(b.0, 2));
    assert(bit(a.0, 3) == bit(b.0, 3));
    assert(bit(a.0, 4) == bit(b.0, 4));
    assert(bit(a.0, 5) == bit(b.0, 5));
    assert(bit(a.0, 6) == bit(b.0, 6));
    assert(bit(a.0, 7) == bit(b.0, 7));
    assert(bit(a.0, 8) == bit(b.0, 8));
    assert(bit(a.0, 9) == bit(b.0, 9));
    assert(bit(a.0, 10) == bit(b.0, 10));
    assert(bit(a.0, 11) == bit(b.0, 11));
    assert(bit(a.0, 12) == bit(b.0, 12));
    assert(bit(a.0, 13) == bit(b.0, 13));
    assert(bit(a.0, 14) == bit(b.0, 14));
    assert(bit(a.0, 15) == bit(b.0, 15));
    lemma_equal_bits(a.0, b.0);
}

impl Bitboard {
    /// Whether the cell in row `row`, column `col` is marked.
    pub open spec fn has(self, row: int, col: int) -> bool {
        self@.contains(cell_index(row, col))
    }

    /// The board with no cell marked.
    pub fn empty() -> (r: Self)
        ensures
            r@ == Set::<int>::empty(),
    {
        let r = Bitboard(0);
        proof {
            assert forall|i: int| !bit(r.0, i) by {
                if 0 <= i < 16 {
                    lemma_constants(0, i as u16);
                }
            }
        }
        r
    }

    /// Whether no bit is set.
    pub fn is_empty(&self) -> (r: bool)
        ensures
            r == (self@ == Set::<int>::empty()),
    {
        proof {
            let e = Bitboard(0);
            assert forall|i: int| !bit(e.0, i) by {
                if 0 <= i < 16 {
                    lemma_constants(0, i as u16);
                }
            }
            assert(e@ =~= Set::<int>::empty());
            if self@ == Set::<int>::empty() {
                lemma_view_injective(*self, e);
            }
        }
        self.0 == 0
    }

    /// The board with all nine cells marked.
    pub fn full() -> (r: Self)
        ensures
            r@ == grid(),
    {
        let r = Bitboard(0b111111111);
        proof {
            assert forall|i: int| bit(r.0, i) == (0 <= i < 9) by {
                if 0 <= i < 16 {
                    lemma_constants(0, i as u16);
                }
            }
        }
        r
    }

    /// The cells marked in either board.
    pub fn union(&self, other: &Self) -> (r: Self)
        ensures
            r@ == self@.union(other@),
    {
        let r = Bitboard(self.0 | other.0);
        proof {
            assert forall|i: int| bit(r.0, i) == (bit(self.0, i) || bit(other.0, i)) by {
                if 0 <= i < 16 {
                    lemma_bitwise(self.0, other.0, i as u16);
                }
            }
        }
        r
    }

    /// The cells marked in both boards.
    pub fn intersection(&self, other: &Self) -> (r: Self)
        ensures
            r@ == self@.intersect(other@),
    {
        let r = Bitboard(self.0 & other.0);
        proof {
            assert forall|i: int| bit(r.0, i) == (bit(self.0, i) && bit(other.0, i)) by {
                if 0 <= i < 16 {
                    lemma_bitwise(self.0, other.0, i as u16);
                }
            }
        }
        r
    }

    /// The cells marked in this board and not in the other.
    pub fn difference(&self, other: &Self) -> (r: Self)
        ensures
            r@ == self@.difference(other@),
    {
        let r = Bitboard(self.0 & !other.0);
        proof {
            assert forall|i: int| bit(r.0, i) == (bit(self.0, i) && !bit(other.0, i)) by {
                if 0 <= i < 16 {
                    lemma_bitwise(self.0, other.0, i as u16);
                }
            }
        }
        r
    }

    /// Whether every bit of `other` is set in this board too.
    pub fn contains(&self, other: Self) -> (r: bool)
        ensures
            r == other@.subset_of(self@),
    {
        let both = self.intersection(&other);
        proof {
            if other@.subset_of(self@) {
                assert(both@ =~= other@);
                lemma_view_injective(both, other);
            }
        }
        both == other
    }

    /// Whether the board holds a winning line.
    pub fn is_victory(&self) -> (r: bool)
        ensures
            r == has_line(self@),
    {
        proof {
            assert forall|i: int| 0 <= i < 16 implies {
                &&& bit(0b111000000u16, i) == (i == 8 || i == 7 || i == 6)
                &&& bit(0b000111000u16, i) == (i == 5 || i == 4 || i == 3)
                &&& bit(0b000000111u16, i) == (i == 2 || i == 1 || i == 0)
                &&& bit(0b100100100u16, i) == (i == 8 || i == 5 || i == 2)
                &&& bit(0b010010010u16, i) == (i == 7 || i == 4 || i == 1)
                &&& bit(0b001001001u16, i) == (i == 6 || i == 3 || i == 0)
                &&& bit(0b100010001u16, i) == (i == 8 || i == 4 || i == 0)
                &&& bit(0b001010100u16, i) == (i == 6 || i == 4 || i == 2)
            } by {
                lemma_line_masks(i as u16);
            }
        }
        if self.contains(Bitboard(0b111000000)) {
            return true;
        }
        if self.contains(Bitboard(0b000111000)) {
            return true;
        }
        if self.contains(Bitboard(0b000000111)) {
            return true;
        }
        if self.contains(Bitboard(0b100100100)) {
            return true;
        }
        if self.contains(Bitboard(0b010010010)) {
            return true;
        }
        if self.contains(Bitboard(0b001001001)) {
            return true;
        }
        if self.contains(Bitboard(0b100010001)) {
            return true;
        }
        if self.contains(Bitboard(0b001010100)) {
            return true;
        }
        false
    }

    /// Reads a mask written as nine binary digits, the top-left cell first.
    pub fn from_binary(binary: &str) -> (r: Result<Self, Error>)
        ensures
            match r {
                Ok(board) => is_binary(binary@) && board@ == marked(binary@, '1'),
                Err(e) => e == Error::InvalidPosition && !is_binary(binary@),
            },
    {
        if binary.unicode_len() != 9 {
            return Err(Error::InvalidPosition);
        }
        let mut bitboard = Bitboard::empty();
        let mut i: usize = 0;
        let mut j: usize = 0;
        for c in it: binary.chars()
            invariant
                it.seq() == binary@,
                binary@.len() == 9,
                3 * i + j == it.index(),
                j < 3,
                bitboard@ == marked(binary@.take(it.index() as int), '1'),
                forall|k: int|
                    0 <= k < it.index() ==> binary@[k] == '0' || binary@[k] == '1',
        {
            if c == '1' {
                bitboard.set(i, j);
            } else if c != '0' {
                return Err(Error::InvalidPosition);
            }
            if j == 2 {
                j = 0;
                i += 1;
            } else {
                j += 1;
            }
        }
        Ok(bitboard)
    }

    /// Marks the cell in row `row`, column `col`.
    pub fn set(&mut self, row: usize, col: usize)
        requires
            row < 3,
            col < 3,
        ensures
            final(self)@ == old(self)@.insert(cell_index(row as int, col as int)),
    {
        let shift: u16 = ((2 - row) * 3 + (2 - col)) as u16;
        let mark: u16 = 1u16 << shift;
        proof {
            assert forall|i: int|
                bit(self.0 | mark, i) == (bit(self.0, i) || i == shift) by {
                if 0 <= i < 16 {
                    lemma_bitwise(self.0, mark, i as u16);
                    lemma_constants(shift, i as u16);
                }
            }
            let after = Bitboard(self.0 | mark);
            assert forall|i: int| after@.contains(i) == self@.insert(shift as int).contains(i) by {
                assert(self@.contains(i) == bit(self.0, i));
            }
        }
        self.0 = self.0 | mark;
    }

    /// The number of bits that are set.
    pub fn n_set(&self) -> (r: usize)
        ensures
            self@.finite(),
            r == self@.len(),
    {
        let mut count: usize = 0;
        let mut i: u16 = 0;
        proof {
            lemma_bits_below(self.0, 0);
        }
        while i < 16
            invariant
                i <= 16,
                count == bits_below(self.0, i as int).len(),
            decreases 16 - i,
        {
            proof {
                lemma_bits_below(self.0, i as int);
            }
            if self.0 & (1u16 << i) != 0 {
                count += 1;
            }
            i += 1;
        }
        proof {
            lemma_bits_below(self.0, 16);
            assert(self@ =~= bits_below(self.0, 16));
        }
        count
    }

    /// Whether the cell in row `row`, column `col` is marked.
    pub fn is_set(&self, row: usize, col: usize) -> (r: bool)
        requires
            row < 3,
            col < 3,
        ensures
            r == self.has(row as int, col as int),
    {
        let shift: u16 = ((2 - row) * 3 + (2 - col)) as u16;
        self.0 & (1u16 << shift) != 0
    }
}

impl Default for Bitboard {
    /// The board with no cell marked.
    fn default() -> (r: Self)
        ensures
            r@ == Set::<int>::empty(),
    {
        Bitboard::empty()
    }
}

} // verus!
