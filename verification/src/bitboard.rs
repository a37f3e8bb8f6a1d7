//! A 384-bit occupancy mask over the 361 squares of the grid, stored as six
//! 64-bit words. Bit `i` stands for square `i`; bits 361 through 383 are
//! carried by the representation but denote no square.

use vstd::prelude::*;

verus! {

use crate::types::Square;

/// Whether bit `j` of word `w` is set.
pub open spec fn nth(w: u64, j: u64) -> bool {
    (w >> j) & 1 == 1
}

/// A fixed-width bit-vector of 384 bits over six 64-bit words.
#[derive(Clone, Copy, Debug, PartialEq, Eq, Structural)]
pub struct Bitboard {
    pub w0: u64,
    pub w1: u64,
    pub w2: u64,
    pub w3: u64,
    pub w4: u64,
    pub w5: u64,
}

impl Bitboard {
    /// The `k`-th 64-bit word of the buffer.
    pub open spec fn word(self, k: int) -> u64 {
        if k == 0 {
            self.w0
        } else if k == 1 {
            self.w1
        } else if k == 2 {
            self.w2
        } else if k == 3 {
            self.w3
        } else if k == 4 {
            self.w4
        } else {
            self.w5
        }
    }

    /// Whether bit `i` of the 384-bit buffer is set.
    pub open spec fn bit(self, i: int) -> bool {
        nth(self.word(i / 64), (i % 64) as u64)
    }

    /// Agreement on every bit of the buffer makes two masks equal as
    /// values.
    pub proof fn lemma_bit_ext(self, other: Bitboard)
        requires
            forall|i: int| 0 <= i < 384 ==> self.bit(i) == other.bit(i),
        ensures
            self == other,
    {
        assert forall|k: int| 0 <= k < 6 implies self.word(k) == other.word(k) by {
            assert forall|j: u64| j < 64 implies nth(self.word(k), j) == nth(other.word(k), j) by {
                let i = 64 * k + j;
                assert(i / 64 == k && i % 64 == j);
                assert(self.bit(i) == other.bit(i));
            }
            lemma_nth_ext(self.word(k), other.word(k));
        }
        assert(self.w0 == other.w0 && self.w1 == other.w1 && self.w2 == other.w2 && self.w3
            == other.w3 && self.w4 == other.w4 && self.w5 == other.w5) by {
            assert(self.word(0) == other.word(0));
            assert(self.word(1) == other.word(1));
            assert(self.word(2) == other.word(2));
            assert(self.word(3) == other.word(3));
            assert(self.word(4) == other.word(4));
            assert(self.word(5) == other.word(5));
        }
    }

    pub fn new() -> (r: Self)
        ensures
            forall|i: int| 0 <= i < 384 ==> !r.bit(i),
    {
        proof {
            lemma_zero_word();
        }
        Bitboard { w0: 0, w1: 0, w2: 0, w3: 0, w4: 0, w5: 0 }
    }

    /// The six words of the buffer, lowest first.
    pub fn raw_buffer(&self) -> (r: [u64; 6])
        ensures
            r@ == seq![self.w0, self.w1, self.w2, self.w3, self.w4, self.w5],
    {
        let r = [self.w0, self.w1, self.w2, self.w3, self.w4, self.w5];
        proof {
            assert(r@ =~= seq![self.w0, self.w1, self.w2, self.w3, self.w4, self.w5]);
        }
        r
    }

    /// Whether the square with index `sq.0` is occupied.
    pub fn get_square(&self, sq: Square) -> (r: bool)
        requires
            sq.0 < 384,
        ensures
            r == self.bit(sq.0 as int),
    {
        let i = sq.0;
        let w: u64 = if i < 64 {
            self.w0
        } else if i < 128 {
            self.w1
        } else if i < 192 {
            self.w2
        } else if i < 256 {
            self.w3
        } else if i < 320 {
            self.w4
        } else {
            self.w5
        };
        assert(w == self.word(i as int / 64));
        ((w >> ((i % 64) as u32)) & 1) == 1
    }

    /// Set the bit of square `sq`, leaving every other bit unchanged.
    pub fn set_square(&mut self, sq: Square)
        requires
            sq.0 < 384,
        ensures
            forall|i: int| 0 <= i < 384 ==> final(self).bit(i) == (i == sq.0 as int || old(self).bit(i)),
    {
        let i = sq.0;
        let m: u64 = 1u64 << ((i % 64) as u32);
        if i < 64 {
            self.w0 = self.w0 | m;
        } else if i < 128 {
            self.w1 = self.w1 | m;
        } else if i < 192 {
            self.w2 = self.w2 | m;
        } else if i < 256 {
            self.w3 = self.w3 | m;
        } else if i < 320 {
            self.w4 = self.w4 | m;
        } else {
            self.w5 = self.w5 | m;
        }
        proof {
            lemma_or_single_bit();
            let s = i as int;
            assert forall|b: int| 0 <= b < 384 implies self.bit(b) == (b == s || old(self).bit(b)) by {
                assert(b == 64 * (b / 64) + b % 64);
                assert(s == 64 * (s / 64) + s % 64);
                if b / 64 == s / 64 {
                    assert(self.word(b / 64) == old(self).word(b / 64) | (1u64 << ((s % 64) as u64)));
                } else {
                    assert(self.word(b / 64) == old(self).word(b / 64));
                }
            }
        }
    }

    /// Clear the bit of square `sq`, leaving every other bit unchanged.
    pub fn rst_square(&mut self, sq: Square)
        requires
            sq.0 < 384,
        ensures
            forall|i: int| 0 <= i < 384 ==> final(self).bit(i) == (i != sq.0 as int && old(self).bit(i)),
    {
        let i = sq.0;
        let m: u64 = !(1u64 << ((i % 64) as u32));
        if i < 64 {
            self.w0 = self.w0 & m;
        } else if i < 128 {
            self.w1 = self.w1 & m;
        } else if i < 192 {
            self.w2 = self.w2 & m;
        } else if i < 256 {
            self.w3 = self.w3 & m;
        } else {
            if i < 320 {
                self.w4 = self.w4 & m;
            } else {
                self.w5 = self.w5 & m;
            }
        }
        proof {
            lemma_clear_single_bit();
            let s = i as int;
            assert forall|b: int| 0 <= b < 384 implies self.bit(b) == (b != s && old(self).bit(b)) by {
                assert(b == 64 * (b / 64) + b % 64);
                assert(s == 64 * (s / 64) + s % 64);
                if b / 64 == s / 64 {
                    assert(self.word(b / 64) == old(self).word(b / 64) & !(1u64 << ((s % 64) as u64)));
                } else {
                    assert(self.word(b / 64) == old(self).word(b / 64));
                }
            }
        }
    }

    /// Toggle the bit of square `sq`, leaving every other bit unchanged.
    pub fn swp_square(&mut self, sq: Square)
        requires
            sq.0 < 384,
        ensures
            forall|i: int| 0 <= i < 384 ==> final(self).bit(i) == (if i == sq.0 as int {
                !old(self).bit(i)
            } else {
                old(self).bit(i)
            }),
    {
        let i = sq.0;
        let m: u64 = 1u64 << ((i % 64) as u32);
        if i < 64 {
            self.w0 = self.w0 ^ m;
        } else if i < 128 {
            self.w1 = self.w1 ^ m;
        } else if i < 192 {
            self.w2 = self.w2 ^ m;
        } else if i < 256 {
            self.w3 = self.w3 ^ m;
        } else if i < 320 {
            self.w4 = self.w4 ^ m;
        } else {
            self.w5 = self.w5 ^ m;
        }
        proof {
            lemma_xor_single_bit();
            let s = i as int;
            assert forall|b: int| 0 <= b < 384 implies self.bit(b) == (if b == s {
                !old(self).bit(b)
            } else {
                old(self).bit(b)
            }) by {
                assert(b == 64 * (b / 64) + b % 64);
                assert(s == 64 * (s / 64) + s % 64);
                if b / 64 == s / 64 {
                    assert(self.word(b / 64) == old(self).word(b / 64) ^ (1u64 << ((s % 64) as u64)));
                } else {
                    assert(self.word(b / 64) == old(self).word(b / 64));
                }
            }
        }
    }

    /// Bitwise intersection.
    pub fn and(&self, other: &Bitboard) -> (r: Bitboard)
        ensures
            forall|i: int| 0 <= i < 384 ==> r.bit(i) == (self.bit(i) && other.bit(i)),
    {
        proof {
            lemma_and_bits();
        }
        Bitboard {
            w0: self.w0 & other.w0,
            w1: self.w1 & other.w1,
            w2: self.w2 & other.w2,
            w3: self.w3 & other.w3,
            w4: self.w4 & other.w4,
            w5: self.w5 & other.w5,
        }
    }

    /// Bitwise union.
    pub fn or(&self, other: &Bitboard) -> (r: Bitboard)
        ensures
            forall|i: int| 0 <= i < 384 ==> r.bit(i) == (self.bit(i) || other.bit(i)),
    {
        proof {
            lemma_or_bits();
        }
        Bitboard {
            w0: self.w0 | other.w0,
            w1: self.w1 | other.w1,
            w2: self.w2 | other.w2,
            w3: self.w3 | other.w3,
            w4: self.w4 | other.w4,
            w5: self.w5 | other.w5,
        }
    }

    /// Bitwise symmetric difference.
    pub fn xor(&self, other: &Bitboard) -> (r: Bitboard)
        ensures
            forall|i: int| 0 <= i < 384 ==> r.bit(i) == (self.bit(i) != other.bit(i)),
    {
        proof {
            lemma_xor_bits();
        }
        Bitboard {
            w0: self.w0 ^ other.w0,
            w1: self.w1 ^ other.w1,
            w2: self.w2 ^ other.w2,
            w3: self.w3 ^ other.w3,
            w4: self.w4 ^ other.w4,
            w5: self.w5 ^ other.w5,
        }
    }

    /// Bitwise complement over the whole 384-bit buffer, the 23 bits above
    /// square 360 included.
    pub fn not(&self) -> (r: Bitboard)
        ensures
            forall|i: int| 0 <= i < 384 ==> r.bit(i) == !self.bit(i),
    {
        proof {
            lemma_not_bits();
        }
        Bitboard { w0: !self.w0, w1: !self.w1, w2: !self.w2, w3: !self.w3, w4: !self.w4, w5: !self.w5 }
    }

    /// Whether no bit of the buffer is set.
    pub fn is_empty(&self) -> (r: bool)
        ensures
            r == (forall|i: int| 0 <= i < 384 ==> !self.bit(i)),
    {
        let mut i: u16 = 0;
        while i < 384
            invariant
                i <= 384,
                forall|b: int| 0 <= b < i ==> !self.bit(b),
            decreases 384 - i,
        {
            if self.get_square(Square(i)) {
                return false;
            }
            i = i + 1;
        }
        true
    }

    /// The number of set bits in the buffer.
    pub fn len(&self) -> (r: usize)
        ensures
            r == count_bits(*self, 384),
    {
        let mut count: usize = 0;
        let mut i: u16 = 0;
        while i < 384
            invariant
                i <= 384,
                count == count_bits(*self, i as int),
                count <= i,
            decreases 384 - i,
        {
            if self.get_square(Square(i)) {
                count = count + 1;
            }
            i = i + 1;
        }
        count
    }

    /// Shift the whole 384-bit buffer toward lower indices by `c` bits,
    /// carrying bits across the word boundaries.
    fn shr_words(&self, c: u64) -> (r: Bitboard)
        requires
            1 <= c < 64,
        ensures
            forall|i: int| 0 <= i < 384 ==> r.bit(i) == (i + c < 384 && self.bit(i + c)),
    {
        let r = Bitboard {
            w0: (self.w0 >> c) | (self.w1 << (64 - c)),
            w1: (self.w1 >> c) | (self.w2 << (64 - c)),
            w2: (self.w2 >> c) | (self.w3 << (64 - c)),
            w3: (self.w3 >> c) | (self.w4 << (64 - c)),
            w4: (self.w4 >> c) | (self.w5 << (64 - c)),
            w5: self.w5 >> c,
        };
        proof {
            assert forall|i: int| 0 <= i < 384 implies r.bit(i) == (i + c < 384 && self.bit(i + c)) by {
                let k = i / 64;
                let j = (i % 64) as u64;
                assert(i == 64 * k + j);
                if k < 5 {
                    lemma_shr_pair(r.word(k), self.word(k), self.word(k + 1), c, j);
                    if j + c < 64 {
                        vstd::arithmetic::div_mod::lemma_fundamental_div_mod_converse(
                            i + c, 64, k, j + c);
                    } else {
                        vstd::arithmetic::div_mod::lemma_fundamental_div_mod_converse(
                            i + c, 64, k + 1, j + c - 64);
                    }
                } else {
                    lemma_shr_last(r.w5, self.w5, c, j);
                    if j + c < 64 {
                        vstd::arithmetic::div_mod::lemma_fundamental_div_mod_converse(
                            i + c, 64, 5, j + c);
                    }
                }
            }
        }
        r
    }

    /// Shift the whole 384-bit buffer toward higher indices by `c` bits,
    /// carrying bits across the word boundaries.
    fn shl_words(&self, c: u64) -> (r: Bitboard)
        requires
            1 <= c < 64,
        ensures
            forall|i: int| 0 <= i < 384 ==> r.bit(i) == (c <= i && self.bit(i - c)),
    {
        let r = Bitboard {
            w0: self.w0 << c,
            w1: (self.w1 << c) | (self.w0 >> (64 - c)),
            w2: (self.w2 << c) | (self.w1 >> (64 - c)),
            w3: (self.w3 << c) | (self.w2 >> (64 - c)),
            w4: (self.w4 << c) | (self.w3 >> (64 - c)),
            w5: (self.w5 << c) | (self.w4 >> (64 - c)),
        };
        proof {
            assert forall|i: int| 0 <= i < 384 implies r.bit(i) == (c <= i && self.bit(i - c)) by {
                let k = i / 64;
                let j = (i % 64) as u64;
                assert(i == 64 * k + j);
                if k == 0 {
                    lemma_shl_first(r.w0, self.w0, c, j);
                    if j >= c {
                        vstd::arithmetic::div_mod::lemma_fundamental_div_mod_converse(
                            i - c, 64, 0, j - c);
                    }
                } else {
                    lemma_shl_pair(r.word(k), self.word(k), self.word(k - 1), c, j);
                    if j >= c {
                        vstd::arithmetic::div_mod::lemma_fundamental_div_mod_converse(
                            i - c, 64, k, j - c);
                    } else {
                        vstd::arithmetic::div_mod::lemma_fundamental_div_mod_converse(
                            i - c, 64, k - 1, j + 64 - c);
                    }
                }
            }
        }
        r
    }

    /// The mask of the 19 squares of file 0, one per row.
    pub fn left_edge() -> (r: Bitboard)
        ensures
            forall|i: int| 0 <= i < 384 ==> r.bit(i) == (i < 361 && i % 19 == 0),
    {
        let mut bb = Bitboard::new();
        let mut k: u16 = 0;
        while k < 19
            invariant
                k <= 19,
                forall|i: int| 0 <= i < 384 ==> bb.bit(i) == (i < 19 * k && i % 19 == 0),
            decreases 19 - k,
        {
            bb.set_square(Square(19 * k));
            proof {
                assert(19 * k as int % 19 == 0) by (nonlinear_arith);
                assert forall|i: int| 0 <= i < 384 implies bb.bit(i) == (i < 19 * (k + 1) && i % 19
                    == 0) by {
                    if i % 19 == 0 && i < 19 * (k + 1) && i != 19 * k {
                        assert(i == 19 * (i / 19));
                        assert(i / 19 < k + 1) by (nonlinear_arith)
                            requires
                                i == 19 * (i / 19),
                                i < 19 * (k + 1),
                        ;
                        assert(i / 19 != k as int);
                        assert(i < 19 * k) by (nonlinear_arith)
                            requires
                                i == 19 * (i / 19),
                                i / 19 < k as int,
                        ;
                    }
                }
            }
            k = k + 1;
        }
        bb
    }

    /// The mask of the 19 squares of file 18, one per row.
    pub fn right_edge() -> (r: Bitboard)
        ensures
            forall|i: int| 0 <= i < 384 ==> r.bit(i) == (i < 361 && i % 19 == 18),
    {
        let mut bb = Bitboard::new();
        let mut k: u16 = 0;
        while k < 19
            invariant
                k <= 19,
                forall|i: int| 0 <= i < 384 ==> bb.bit(i) == (i < 19 * k && i % 19 == 18),
            decreases 19 - k,
        {
            bb.set_square(Square(19 * k + 18));
            proof {
                assert((19 * k as int + 18) % 19 == 18) by (nonlinear_arith);
                assert forall|i: int| 0 <= i < 384 implies bb.bit(i) == (i < 19 * (k + 1) && i % 19
                    == 18) by {
                    if i % 19 == 18 && i < 19 * (k + 1) && i != 19 * k + 18 {
                        assert(i == 19 * (i / 19) + 18);
                        assert(i / 19 < k + 1) by (nonlinear_arith)
                            requires
                                i == 19 * (i / 19) + 18,
                                i < 19 * (k + 1),
                        ;
                        assert(i / 19 != k as int);
                        assert(i < 19 * k + 18) by (nonlinear_arith)
                            requires
                                i == 19 * (i / 19) + 18,
                                i / 19 < k as int,
                        ;
                    }
                }
            }
            k = k + 1;
        }
        bb
    }

    /// The mask of the 19 squares of the bottom rank.
    pub fn bottom_edge() -> (r: Bitboard)
        ensures
            forall|i: int| 0 <= i < 384 ==> r.bit(i) == (342 <= i < 361),
    {
        let mut bb = Bitboard::new();
        let mut k: u16 = 342;
        while k < 361
            invariant
                342 <= k <= 361,
                forall|i: int| 0 <= i < 384 ==> bb.bit(i) == (342 <= i < k),
            decreases 361 - k,
        {
            bb.set_square(Square(k));
            k = k + 1;
        }
        bb
    }

    /// Shift every occupied square one row toward rank 0; the top row falls
    /// off the edge.
    pub fn shift_up(&self) -> (r: Bitboard)
        ensures
            is_shift_up(*self, r),
    {
        self.shr_words(19)
    }

    /// Shift every occupied square one row away from rank 0; the bottom-edge
    /// band is masked out first so its bits do not reappear at the top.
    pub fn shift_down(&self) -> (r: Bitboard)
        ensures
            is_shift_down(*self, r),
    {
        let masked = self.and(&Self::bottom_edge().not());
        masked.shl_words(19)
    }

    /// Shift every occupied square one column toward file 0; squares already
    /// on file 0 are masked out so they do not wrap to the previous row.
    pub fn shift_left(&self) -> (r: Bitboard)
        ensures
            is_shift_left(*self, r),
    {
        let masked = self.and(&Self::left_edge().not());
        masked.shr_words(1)
    }

    /// Shift every occupied square one column away from file 0; squares on
    /// file 18 are masked out so they do not wrap to the next row.
    pub fn shift_right(&self) -> (r: Bitboard)
        ensures
            is_shift_right(*self, r),
    {
        let masked = self.and(&Self::right_edge().not());
        masked.shl_words(1)
    }
}

/// `r` is `a` shifted one row toward rank 0.
pub open spec fn is_shift_up(a: Bitboard, r: Bitboard) -> bool {
    forall|i: int| 0 <= i < 384 ==> r.bit(i) == (i + 19 < 384 && a.bit(i + 19))
}

/// `r` is `a` shifted one row away from rank 0, the bottom rank masked out.
pub open spec fn is_shift_down(a: Bitboard, r: Bitboard) -> bool {
    forall|i: int| 0 <= i < 384 ==> r.bit(i) == (19 <= i && a.bit(i - 19) && !(342 <= i - 19 < 361))
}

/// `r` is `a` shifted one column toward file 0, file 0 masked out.
pub open spec fn is_shift_left(a: Bitboard, r: Bitboard) -> bool {
    forall|i: int|
        0 <= i < 384 ==> r.bit(i) == (i + 1 < 384 && a.bit(i + 1) && !((i + 1) < 361 && (i + 1) % 19
            == 0))
}

/// `r` is `a` shifted one column away from file 0, file 18 masked out.
pub open spec fn is_shift_right(a: Bitboard, r: Bitboard) -> bool {
    forall|i: int|
        0 <= i < 384 ==> r.bit(i) == (1 <= i && a.bit(i - 1) && !((i - 1) < 361 && (i - 1) % 19
            == 18))
}

/// Shifting up and then down reproduces the original mask on the valid
/// squares, minus exactly the top row, which fell off the edge.
pub proof fn lemma_shift_up_down_round_trip(a: Bitboard, u: Bitboard, d: Bitboard)
    requires
        is_shift_up(a, u),
        is_shift_down(u, d),
    ensures
        forall|i: int| 0 <= i < 361 ==> d.bit(i) == (a.bit(i) && 19 <= i),
{
}

/// Shifting left and then right reproduces the original mask on the valid
/// squares, minus exactly the file-0 column, which fell off the edge.
pub proof fn lemma_shift_left_right_round_trip(a: Bitboard, l: Bitboard, r: Bitboard)
    requires
        is_shift_left(a, l),
        is_shift_right(l, r),
    ensures
        forall|i: int| 0 <= i < 361 ==> r.bit(i) == (a.bit(i) && i % 19 != 0),
{
    assert forall|i: int| 0 <= i < 361 implies r.bit(i) == (a.bit(i) && i % 19 != 0) by {
        if 1 <= i {
            assert((i - 1) % 19 == 18 <==> i % 19 == 0) by (nonlinear_arith)
                requires
                    1 <= i < 361,
            ;
        }
    }
}

/// The number of set bits among the first `n` bits of `bb`.
pub open spec fn count_bits(bb: Bitboard, n: int) -> int
    decreases n,
{
    if n <= 0 {
        0
    } else {
        count_bits(bb, n - 1) + if bb.bit(n - 1) {
            1int
        } else {
            0int
        }
    }
}

proof fn lemma_zero_word()
    by (bit_vector)
    ensures
        forall|j: u64| j < 64 ==> !nth(0u64, j),
{
}

/// The word whose low `n` bits are set.
pub open spec fn low_mask(n: u64) -> u64 {
    ((1u64 << n) - 1) as u64
}

proof fn lemma_mask_step(a: u64, b: u64, n: u64)
    by (bit_vector)
    requires
        n < 64,
        a & low_mask(n) == b & low_mask(n),
        nth(a, n) == nth(b, n),
    ensures
        n == 63 ==> a == b,
        n < 63 ==> a & low_mask((n + 1) as u64) == b & low_mask((n + 1) as u64),
{
}

proof fn lemma_nth_ext_up(a: u64, b: u64, n: u64)
    requires
        n < 64,
        a & low_mask(n) == b & low_mask(n),
        forall|j: u64| j < 64 ==> #[trigger] nth(a, j) == nth(b, j),
    ensures
        a == b,
    decreases 64 - n,
{
    lemma_mask_step(a, b, n);
    if n < 63 {
        lemma_nth_ext_up(a, b, (n + 1) as u64);
    }
}

/// Two words equal on every bit position are equal.
proof fn lemma_nth_ext(a: u64, b: u64)
    requires
        forall|j: u64| j < 64 ==> #[trigger] nth(a, j) == nth(b, j),
    ensures
        a == b,
{
    assert(a & low_mask(0) == b & low_mask(0)) by (bit_vector);
    lemma_nth_ext_up(a, b, 0);
}

proof fn lemma_or_single_bit()
    by (bit_vector)
    ensures
        forall|w: u64, k: u64, j: u64|
            k < 64 && j < 64 ==> #[trigger] nth(w | (1u64 << k), j) == (j == k || nth(w, j)),
{
}

proof fn lemma_clear_single_bit()
    by (bit_vector)
    ensures
        forall|w: u64, k: u64, j: u64|
            k < 64 && j < 64 ==> #[trigger] nth(w & !(1u64 << k), j) == (j != k && nth(w, j)),
{
}

proof fn lemma_xor_single_bit()
    by (bit_vector)
    ensures
        forall|w: u64, k: u64, j: u64|
            k < 64 && j < 64 ==> #[trigger] nth(w ^ (1u64 << k), j) == (if j == k {
                !nth(w, j)
            } else {
                nth(w, j)
            }),
{
}

proof fn lemma_and_bits()
    by (bit_vector)
    ensures
        forall|a: u64, b: u64, j: u64|
            j < 64 ==> #[trigger] nth(a & b, j) == (nth(a, j) && nth(b, j)),
{
}

proof fn lemma_or_bits()
    by (bit_vector)
    ensures
        forall|a: u64, b: u64, j: u64|
            j < 64 ==> #[trigger] nth(a | b, j) == (nth(a, j) || nth(b, j)),
{
}

proof fn lemma_xor_bits()
    by (bit_vector)
    ensures
        forall|a: u64, b: u64, j: u64|
            j < 64 ==> #[trigger] nth(a ^ b, j) == (nth(a, j) != nth(b, j)),
{
}

proof fn lemma_shr_pair(x: u64, lo: u64, hi: u64, c: u64, j: u64)
    by (bit_vector)
    requires
        1 <= c < 64,
        j < 64,
        x == (lo >> c) | (hi << ((64 - c) as u64)),
    ensures
        nth(x, j) == (if j + c < 64 {
            nth(lo, (j + c) as u64)
        } else {
            nth(hi, ((j + c) - 64) as u64)
        }),
{
}

proof fn lemma_shr_last(x: u64, lo: u64, c: u64, j: u64)
    by (bit_vector)
    requires
        1 <= c < 64,
        j < 64,
        x == lo >> c,
    ensures
        nth(x, j) == (j + c < 64 && nth(lo, (j + c) as u64)),
{
}

proof fn lemma_shl_pair(x: u64, hi: u64, lo: u64, c: u64, j: u64)
    by (bit_vector)
    requires
        1 <= c < 64,
        j < 64,
        x == (hi << c) | (lo >> ((64 - c) as u64)),
    ensures
        nth(x, j) == (if j >= c {
            nth(hi, (j - c) as u64)
        } else {
            nth(lo, ((j + 64) - c) as u64)
        }),
{
}

proof fn lemma_shl_first(x: u64, hi: u64, c: u64, j: u64)
    by (bit_vector)
    requires
        1 <= c < 64,
        j < 64,
        x == hi << c,
    ensures
        nth(x, j) == (j >= c && nth(hi, (j - c) as u64)),
{
}

proof fn lemma_not_bits()
    by (bit_vector)
    ensures
        forall|a: u64, j: u64| j < 64 ==> #[trigger] nth(!a, j) == !nth(a, j),
{
}

} // verus!
