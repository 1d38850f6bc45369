//! A 64-square occupancy mask.
//!
//! Square index `i` is held by bit `63 - i` of the word, so that index 0 is the
//! most significant bit.
use vstd::prelude::*;

use crate::position::{normal_of, on_board, Normalizable, Position};

verus! {

/// Whether index `i` is set in the word `x`.
pub open spec fn bit(x: u64, i: u64) -> bool {
    (x >> ((63 - i) as u64)) & 1u64 == 1u64
}

/// The word with only index `i` set.
pub open spec fn index_mask(i: u64) -> u64 {
    1u64 << ((63 - i) as u64)
}

/// Whether the index `i` is set in `x`, for an index given as an integer.
pub open spec fn has(x: u64, i: int) -> bool {
    0 <= i < 64 && bit(x, i as u64)
}

/// What setting one index does to every index.
pub proof fn lemma_bit_set(x: u64, i: u64, j: u64)
    requires
        i < 64,
        j < 64,
    ensures
        bit(x | index_mask(i), j) == (i == j || bit(x, j)),
        bit(x & !index_mask(i), j) == (i != j && bit(x, j)),
        bit(index_mask(i), j) == (i == j),
        (x & index_mask(i) != 0) == bit(x, i),
{
    assert(bit(x | index_mask(i), j) == (i == j || bit(x, j))) by (bit_vector)
        requires
            i < 64,
            j < 64,
    ;
    assert(bit(x & !index_mask(i), j) == (i != j && bit(x, j))) by (bit_vector)
        requires
            i < 64,
            j < 64,
    ;
    assert(bit(index_mask(i), j) == (i == j)) by (bit_vector)
        requires
            i < 64,
            j < 64,
    ;
    assert((x & index_mask(i) != 0) == bit(x, i)) by (bit_vector)
        requires
            i < 64,
    ;
}

/// What `&`, `|` and `!` do to every index.
pub proof fn lemma_bit_ops(x: u64, y: u64, j: u64)
    requires
        j < 64,
    ensures
        bit(x & y, j) == (bit(x, j) && bit(y, j)),
        bit(x | y, j) == (bit(x, j) || bit(y, j)),
        bit(!x, j) == !bit(x, j),
        !bit(0u64, j),
{
    assert(bit(x & y, j) == (bit(x, j) && bit(y, j))) by (bit_vector)
        requires
            j < 64,
    ;
    assert(bit(x | y, j) == (bit(x, j) || bit(y, j))) by (bit_vector)
        requires
            j < 64,
    ;
    assert(bit(!x, j) == !bit(x, j)) by (bit_vector)
        requires
            j < 64,
    ;
    assert(!bit(0u64, j)) by (bit_vector)
        requires
            j < 64,
    ;
}

/// The word with only index `i` set.
pub fn mask_at(i: u64) -> (r: u64)
    requires
        i < 64,
    ensures
        r == index_mask(i),
{
    1u64 << (63 - i)
}

/// Whether index `i` is set in `x`.
pub fn test_bit(x: u64, i: u64) -> (r: bool)
    requires
        i < 64,
    ensures
        r == bit(x, i),
{
    proof {
        lemma_bit_set(x, i, i);
    }
    x & mask_at(i) != 0
}

/// A 64-square mask: index `i` is set when square `i` is occupied or flagged.
#[derive(Clone, Copy, Debug)]
pub struct BitBoard {
    pub num: u64,
}

impl BitBoard {
    /// Whether square `i` is set.
    pub open spec fn at(self, i: int) -> bool {
        has(self.num, i)
    }

    /// A mask with no square set.
    pub fn new() -> (r: BitBoard)
        ensures
            r.num == 0,
            forall|i: int| !#[trigger] r.at(i),
    {
        proof {
            assert forall|i: int| !#[trigger] has(0u64, i) by {
                if 0 <= i < 64 {
                    lemma_bit_ops(0, 0, i as u64);
                }
            }
        }
        BitBoard { num: 0 }
    }

    /// The mask held by a word.
    pub fn from_bitarray(arr: u64) -> (r: BitBoard)
        ensures
            r.num == arr,
    {
        BitBoard { num: arr }
    }

    /// Whether the square is set.
    pub fn position(&self, pos: Position) -> (r: bool)
        requires
            on_board(pos),
        ensures
            r == self.at(normal_of(pos)),
    {
        let i = pos.normal();
        test_bit(self.num, i as u64)
    }

    /// Sets the square and returns a copy of the result. A square with a
    /// coordinate below 1, or whose index is 64 or more, leaves the mask as it was.
    pub fn set(&mut self, pos: Position) -> (r: BitBoard)
        ensures
            r == *final(self),
            (pos.0 >= 1 && pos.1 >= 1 && normal_of(pos) < 64) ==> forall|i: int|
                #[trigger] final(self).at(i) == (i == normal_of(pos) || old(self).at(i)),
            !(pos.0 >= 1 && pos.1 >= 1 && normal_of(pos) < 64) ==> *final(self) == *old(self),
    {
        if pos.0 < 1 || pos.1 < 1 || pos.1 > 8 || pos.0 > 64 {
            return *self;
        }
        let n = (pos.1 - 1) * 8 + (pos.0 - 1);
        if n >= 64 {
            return *self;
        }
        let ghost before = self.num;
        self.num = self.num | mask_at(n);
        proof {
            assert forall|i: int| #[trigger] self.at(i) == (i == normal_of(pos) || has(before, i)) by {
                if 0 <= i < 64 {
                    lemma_bit_set(before, n, i as u64);
                }
            }
        }
        *self
    }

    /// Sets every index in `r.start..r.end` and returns a copy of the result.
    pub fn fill_range(&mut self, r: std::ops::Range<u8>) -> (res: BitBoard)
        requires
            r.end <= 64,
        ensures
            res == *final(self),
            forall|i: int| #[trigger]
                final(self).at(i) == ((r.start <= i < r.end) || old(self).at(i)),
    {
        let mut k: u8 = r.start;
        let ghost before = *self;
        if k < r.end {
            while k < r.end
                invariant
                    r.start <= k <= r.end <= 64,
                    forall|i: int| #[trigger]
                        self.at(i) == ((r.start <= i < k) || before.at(i)),
                decreases r.end - k,
            {
                let ghost prevb = *self;
                self.num = self.num | mask_at(k as u64);
                proof {
                    assert forall|i: int| #[trigger]
                        self.at(i) == ((r.start <= i < k + 1) || before.at(i)) by {
                        assert(prevb.at(i) == ((r.start <= i < k) || before.at(i)));
                        if 0 <= i < 64 {
                            lemma_bit_set(prevb.num, k as u64, i as u64);
                        }
                    }
                }
                k = k + 1;
            }
        }
        *self
    }

    /// The mask as 64 characters `0` or `1`, index 0 first.
    pub fn to_string(self) -> (r: String)
        ensures
            r@.len() == 64,
            forall|i: int| 0 <= i < 64 ==> #[trigger] r@[i] == if self.at(i) { '1' } else { '0' },
    {
        let mut s = String::new();
        let mut i: u64 = 0;
        while i < 64
            invariant
                i <= 64,
                s@.len() == i,
                forall|j: int| 0 <= j < i ==> #[trigger] s@[j] == if self.at(j) { '1' } else { '0' },
            decreases 64 - i,
        {
            let c = if test_bit(self.num, i) { '1' } else { '0' };
            crate::position::push_char(&mut s, c);
            i = i + 1;
        }
        s
    }
}

} // verus!
