//! The fixed-point score: one signed 16-bit value whose range splits into a
//! central band of ordinary centipoint values and two symmetric extreme
//! bands that encode forced-mate distances, so that plain integer
//! comparison orders all three kinds correctly.

use vstd::prelude::*;

verus! {

/// Scores at or above this value encode "mate in N".
pub const MATE_BAND_LOW: i16 = 32412;

/// The score of a mate in zero plies; `mate_in(n)` is this minus `n`.
pub const MATE_IN_ZERO: i16 = 32667;

/// A single signed fixed-point score value.
#[derive(Clone, Copy, Debug, PartialEq, Eq, Structural, PartialOrd, Ord)]
pub struct Score(pub i16);

/// The three logical kinds a score value can carry.
#[derive(Clone, Copy, Debug, PartialEq, Eq, Structural)]
pub enum ScoreKind {
    Centipoint(i16),
    MateIn(u8),
    MatedIn(u8),
}

/// The value that encodes a mate in `n` plies; closer mates are higher.
pub open spec fn mate_in_val(n: int) -> int {
    32667 - n
}

/// The value that encodes being mated in `n` plies: the exact negation of
/// `mate_in_val(n)`.
pub open spec fn mated_in_val(n: int) -> int {
    n - 32667
}

/// The kind a raw score value carries: the top band holds mate distances,
/// the bottom band mated distances, everything between is centipoints.
pub open spec fn kind_spec(v: int) -> ScoreKind {
    if v >= 32412 {
        ScoreKind::MateIn((32667 - v) as u8)
    } else if v <= -32412 {
        ScoreKind::MatedIn((v + 32667) as u8)
    } else {
        ScoreKind::Centipoint(v as i16)
    }
}

/// Clamp a value back into the ordinary centipoint band, so that summing
/// evaluations can never produce a spurious mate-band value.
pub open spec fn sat_band(x: int) -> int {
    if x < -32411 {
        -32411
    } else if x > 32411 {
        32411
    } else {
        x
    }
}

impl Score {
    /// The zero score.
    pub fn zero() -> (r: Score)
        ensures
            r.0 == 0,
    {
        Score(0)
    }

    /// The score of a drawn position.
    pub fn draw() -> (r: Score)
        ensures
            r.0 == 0,
    {
        Score(0)
    }

    /// The greatest score value, used as the initial beta bound.
    pub fn max() -> (r: Score)
        ensures
            r.0 == i16::MAX,
    {
        Score(i16::MAX)
    }

    /// The least score value in use: the exact negation of `max`, so the
    /// negamax negation never overflows.
    pub fn min() -> (r: Score)
        ensures
            r.0 == -32767,
    {
        Score(-32767)
    }

    /// The smallest positive score step.
    pub fn unit() -> (r: Score)
        ensures
            r.0 == 1,
    {
        Score(1)
    }

    /// An ordinary centipoint score.
    pub fn cp(centipoints: i16) -> (r: Score)
        ensures
            r.0 == centipoints,
    {
        Score(centipoints)
    }

    /// The score of mating in `plies_to_mate` plies.
    pub fn mate_in(plies_to_mate: u8) -> (r: Score)
        ensures
            r.0 == mate_in_val(plies_to_mate as int),
    {
        Score(MATE_IN_ZERO - plies_to_mate as i16)
    }

    /// The score of being mated in `plies_to_mate` plies.
    pub fn mated_in(plies_to_mate: u8) -> (r: Score)
        ensures
            r.0 == mated_in_val(plies_to_mate as int),
    {
        Score(plies_to_mate as i16 - MATE_IN_ZERO)
    }

    /// Which of the three kinds this value carries, and its distance or
    /// centipoint amount.
    pub fn kind(self) -> (r: ScoreKind)
        ensures
            r == kind_spec(self.0 as int),
    {
        let v = self.0;
        if v >= MATE_BAND_LOW {
            let d: i16 = MATE_IN_ZERO - v;
            ScoreKind::MateIn(#[verifier::truncate] (d as u8))
        } else if v <= -MATE_BAND_LOW {
            let d: i16 = v + MATE_IN_ZERO;
            ScoreKind::MatedIn(#[verifier::truncate] (d as u8))
        } else {
            ScoreKind::Centipoint(v)
        }
    }

    /// The negation, as under a turn flip; total on every value in use
    /// since the least value is the negation of the greatest.
    pub fn neg(self) -> (r: Score)
        requires
            self.0 > i16::MIN,
        ensures
            r.0 == -self.0,
    {
        Score(-self.0)
    }

    /// Whether this score is strictly better than `other`.
    pub fn gt(self, other: Score) -> (r: bool)
        ensures
            r == (self.0 > other.0),
    {
        self.0 > other.0
    }

    /// Whether this score is strictly worse than `other`.
    pub fn lt(self, other: Score) -> (r: bool)
        ensures
            r == (self.0 < other.0),
    {
        self.0 < other.0
    }

    /// Add, saturating and clamped back inside the centipoint band.
    pub fn saturating_add(self, other: Score) -> (r: Score)
        ensures
            r.0 == sat_band(self.0 + other.0),
    {
        let sum: i32 = self.0 as i32 + other.0 as i32;
        Score(clamp_band(sum))
    }

    /// Subtract, saturating and clamped back inside the centipoint band.
    pub fn saturating_sub(self, other: Score) -> (r: Score)
        ensures
            r.0 == sat_band(self.0 - other.0),
    {
        let diff: i32 = self.0 as i32 - other.0 as i32;
        Score(clamp_band(diff))
    }

    /// Multiply by a plain factor, saturating and clamped back inside the
    /// centipoint band.
    pub fn saturating_mul(self, other: i16) -> (r: Score)
        ensures
            r.0 == sat_band(self.0 * other),
    {
        proof {
            assert(-2147483648 <= self.0 as int * other as int <= 2147483647) by (nonlinear_arith)
                requires
                    -32768 <= self.0 as int <= 32767,
                    -32768 <= other as int <= 32767,
            ;
        }
        let prod: i32 = self.0 as i32 * other as i32;
        Score(clamp_band(prod))
    }
}

impl Default for Score {
    /// The zero score.
    fn default() -> (r: Score)
        ensures
            r.0 == 0,
    {
        Score(0)
    }
}

/// Clamp a wide intermediate value into the centipoint band.
fn clamp_band(x: i32) -> (r: i16)
    ensures
        r as int == sat_band(x as int),
{
    if x < -32411 {
        -32411
    } else if x > 32411 {
        32411
    } else {
        x as i16
    }
}

/// The total order of the three score kinds: for any two mate distances
/// `n1 < n2`, a mate in `n1` beats a mate in `n2`, any mate beats any
/// centipoint value, any centipoint value beats being mated, and a nearer
/// mated distance is worse; the mated encoding is the exact negation of the
/// mate encoding.
pub proof fn lemma_score_ordering(n1: u8, n2: u8, c: int)
    requires
        n1 < n2,
        kind_spec(c) is Centipoint,
        -32767 <= c <= 32767,
    ensures
        mate_in_val(n1 as int) > mate_in_val(n2 as int),
        mate_in_val(n2 as int) > c,
        c > mated_in_val(n2 as int),
        mated_in_val(n2 as int) > mated_in_val(n1 as int),
        mated_in_val(n1 as int) == -mate_in_val(n1 as int),
{
}

} // verus!
