//! The pattern-classification table: a 65536-entry lookup that classifies
//! the 9-cell window around a square along one axis into an alignment
//! (three, open three, four, open four, five), in constant time. The key
//! encodes the 8 non-center cells with 2 bits each, relative to the center
//! cell's color, so one table serves both players.

use vstd::prelude::*;

verus! {

use crate::board::Board;
use crate::types::{shift_wrap, step_ok, Direction, Square, Stone};
use vstd::string::StrSliceExecFns;

/// The classification of the run of same-color stones through a point along
/// a single axis, ordered from weakest to strongest.
#[derive(Clone, Copy, Debug, PartialEq, Eq, Structural, PartialOrd, Ord)]
pub enum Alignment {
    NoAlign,
    Three,
    OpenThree,
    Four,
    OpenFour,
    Five,
}

/// The strength of an alignment: its position in the declaration order.
pub open spec fn align_rank(a: Alignment) -> int {
    match a {
        Alignment::NoAlign => 0,
        Alignment::Three => 1,
        Alignment::OpenThree => 2,
        Alignment::Four => 3,
        Alignment::OpenFour => 4,
        Alignment::Five => 5,
    }
}

/// An axis classification together with whether the evaluated cell's own
/// color materially contributes to the run.
#[derive(Clone, Copy, Debug, PartialEq, Eq, Structural)]
pub struct OwnedAlignment {
    pub align: Alignment,
    pub owned: bool,
}

impl OwnedAlignment {
    /// The axis classification alone.
    pub fn align(&self) -> (r: Alignment)
        ensures
            r == self.align,
    {
        self.align
    }
}

/// The combined classification of the four axes through a point, ordered
/// from weakest to strongest threat.
#[derive(Clone, Copy, Debug, PartialEq, Eq, Structural, PartialOrd, Ord)]
pub enum CrossAlignment {
    NoAlign,
    Three,
    OpenThree,
    Four,
    OpenFour,
    DoubleThree,
    DoubleOpenThree,
    FourThree,
    OpenFourThree,
    FourFour,
    Five,
}

/// The strength of an aggregate threat: its position in the declaration
/// order.
pub open spec fn cross_order(a: CrossAlignment) -> int {
    match a {
        CrossAlignment::NoAlign => 0,
        CrossAlignment::Three => 1,
        CrossAlignment::OpenThree => 2,
        CrossAlignment::Four => 3,
        CrossAlignment::OpenFour => 4,
        CrossAlignment::DoubleThree => 5,
        CrossAlignment::DoubleOpenThree => 6,
        CrossAlignment::FourThree => 7,
        CrossAlignment::OpenFourThree => 8,
        CrossAlignment::FourFour => 9,
        CrossAlignment::Five => 10,
    }
}

/// A per-square aggregate classification, kept alongside its ownership
/// flag.
#[derive(Clone, Copy, Debug, PartialEq, Eq, Structural)]
pub struct SquareAlignment {
    pub cross_align: CrossAlignment,
    pub owned: bool,
}

/// The 2-bit code of one window cell relative to the window's center color:
/// 0 for empty, 1 for the center's own color, 2 for the opposite color.
pub open spec fn stone_code(center: Stone, s: Stone) -> int {
    if s == Stone::Empty {
        0
    } else if s == center {
        1
    } else {
        2
    }
}

/// The 16-bit table key of a 9-cell window: the four cells after the center
/// fill the low bit pairs, the four cells before it fill the high bit
/// pairs, outermost last.
pub open spec fn mask_spec(s: Seq<Stone>) -> int {
    stone_code(s[4], s[5]) + stone_code(s[4], s[6]) * 4 + stone_code(s[4], s[7]) * 16 + stone_code(
        s[4],
        s[8],
    ) * 64 + stone_code(s[4], s[3]) * 256 + stone_code(s[4], s[2]) * 1024 + stone_code(s[4], s[1])
        * 4096 + stone_code(s[4], s[0]) * 16384
}

/// Every window key fits the table: the key of any window is below 65536.
pub proof fn lemma_mask_spec_bounds(s: Seq<Stone>)
    ensures
        0 <= mask_spec(s) < 65536,
{
}

/// The table key of the 9-cell window `stones`.
#[verifier::rlimit(50)]
pub fn stones_to_mask(stones: &[Stone; 9]) -> (r: u16)
    ensures
        r as int == mask_spec(stones@),
{
    let main_stone = stones[4];
    let c5 = code_of(main_stone, stones[5]);
    let c6 = code_of(main_stone, stones[6]);
    let c7 = code_of(main_stone, stones[7]);
    let c8 = code_of(main_stone, stones[8]);
    let c3 = code_of(main_stone, stones[3]);
    let c2 = code_of(main_stone, stones[2]);
    let c1 = code_of(main_stone, stones[1]);
    let c0 = code_of(main_stone, stones[0]);
    c5 + c6 * 4 + c7 * 16 + c8 * 64 + c3 * 256 + c2 * 1024 + c1 * 4096 + c0 * 16384
}

/// The 2-bit cell code as an executable value.
fn code_of(center: Stone, s: Stone) -> (r: u16)
    ensures
        r as int == stone_code(center, s),
{
    if s == Stone::Empty {
        0
    } else if s == center {
        1
    } else {
        2
    }
}

/// The precomputed classification table, one entry per 16-bit window key.
/// Built once at startup and read-only afterwards.
pub struct MagicTable {
    pub entries: Vec<OwnedAlignment>,
}

impl MagicTable {
    /// The table is complete: it has an entry for every 16-bit key.
    pub open spec fn wf(self) -> bool {
        self.entries@.len() == 65536
    }

    /// The entry of window key `key`; total, since every key is below the
    /// table's length.
    pub fn lookup(&self, key: u16) -> (r: OwnedAlignment)
        requires
            self.wf(),
        ensures
            r == self.entries@[key as int],
    {
        self.entries[key as usize]
    }
}

/// The failure of reading a malformed pattern description.
#[derive(Clone, Copy, Debug, PartialEq, Eq, Structural)]
pub struct PatternError;

/// A canonical stone pattern, written with '.' for empty, 'x' for the run's
/// own color and 'o' for the opponent.
pub struct StonePattern(pub Vec<Stone>);

/// The stone a pattern character denotes.
pub open spec fn char_stone(c: char) -> Stone {
    if c == 'x' {
        Stone::Black
    } else if c == 'o' {
        Stone::White
    } else {
        Stone::Empty
    }
}

/// Whether every character of a pattern description is one of '.', 'x',
/// 'o'.
pub open spec fn pattern_ok(s: Seq<char>) -> bool {
    forall|i: int| 0 <= i < s.len() ==> (s[i] == '.' || s[i] == 'x' || s[i] == 'o')
}

/// The stones a pattern description denotes, character by character.
pub open spec fn pattern_stones(s: Seq<char>) -> Seq<Stone> {
    Seq::new(s.len(), |i: int| char_stone(s[i]))
}

impl StonePattern {
    /// Read a pattern description; fails exactly on a character other than
    /// '.', 'x', 'o'.
    pub fn parse(s: &str) -> (r: Result<StonePattern, PatternError>)
        ensures
            r is Ok <==> pattern_ok(s@),
            r is Ok ==> r.unwrap().0@ == pattern_stones(s@),
    {
        let n = s.unicode_len();
        let mut v: Vec<Stone> = Vec::new();
        let mut i: usize = 0;
        while i < n
            invariant
                i <= n,
                n == s@.len(),
                v@.len() == i,
                forall|k: int|
                    0 <= k < i ==> (s@[k] == '.' || s@[k] == 'x' || s@[k] == 'o') && v@[k]
                        == char_stone(s@[k]),
            decreases n - i,
        {
            let c = s.get_char(i);
            if c == '.' {
                v.push(Stone::Empty);
            } else if c == 'x' {
                v.push(Stone::Black);
            } else if c == 'o' {
                v.push(Stone::White);
            } else {
                return Result::Err(PatternError);
            }
            i = i + 1;
        }
        proof {
            assert(v@ =~= pattern_stones(s@));
        }
        Result::Ok(StonePattern(v))
    }

    /// The stones of the pattern.
    pub fn into_inner(self) -> (r: Vec<Stone>)
        ensures
            r == self.0,
    {
        self.0
    }
}


/// The square reached from `sq` after `k` single steps along `dir`, or -1
/// if any step leaves the board or crosses a row boundary.
pub open spec fn ray_sq(sq: int, dir: Direction, k: int) -> int
    decreases k,
{
    if k <= 0 {
        sq
    } else {
        let prev = ray_sq(sq, dir, k - 1);
        if prev < 0 {
            -1
        } else if step_ok(prev, dir) {
            shift_wrap(prev, dir)
        } else {
            -1
        }
    }
}

/// Once a ray has left the board it never comes back.
proof fn lemma_ray_dead(sq: int, dir: Direction, i: int, k: int)
    requires
        0 <= i <= k,
        ray_sq(sq, dir, i) < 0,
    ensures
        ray_sq(sq, dir, k) < 0,
    decreases k - i,
{
    if k > i {
        lemma_ray_dead(sq, dir, i, k - 1);
    }
}

/// Cell `j` of the 9-cell window centered on `sq` along the axis
/// `(dir, opp)`: cells 5 through 8 look outward along `dir`, cells 3 down
/// to 0 along `opp`, and a cell past the edge of the board is empty.
pub open spec fn window_cell(
    stones: Seq<Stone>,
    sq: int,
    dir: Direction,
    opp: Direction,
    j: int,
) -> Stone {
    if j >= 4 {
        let p = ray_sq(sq, dir, j - 4);
        if p < 0 {
            Stone::Empty
        } else {
            stones[p]
        }
    } else {
        let p = ray_sq(sq, opp, 4 - j);
        if p < 0 {
            Stone::Empty
        } else {
            stones[p]
        }
    }
}

/// The 9-cell window centered on `sq` along the axis `(dir, opp)`.
pub open spec fn window(stones: Seq<Stone>, sq: int, dir: Direction, opp: Direction) -> Seq<
    Stone,
> {
    Seq::new(9, |j: int| window_cell(stones, sq, dir, opp, j))
}

/// The same window with a hypothetical color in the center cell, for "what
/// would happen if I played here" queries.
pub open spec fn window_after(
    stones: Seq<Stone>,
    sq: int,
    turn: Stone,
    dir: Direction,
    opp: Direction,
) -> Seq<Stone> {
    Seq::new(
        9,
        |j: int|
            if j == 4 {
                turn
            } else {
                window_cell(stones, sq, dir, opp, j)
            },
    )
}

impl OwnedAlignment {
    /// Classify the window around `sq` along the axis `(dir, opp_dir)`: scan
    /// up to 4 cells outward each way, stopping early at the edge of the
    /// board, and look the window's key up in the table.
    pub fn from(
        board: &Board,
        sq: Square,
        dir: Direction,
        opp_dir: Direction,
        table: &MagicTable,
    ) -> (r: OwnedAlignment)
        requires
            board.wf(),
            sq.0 < 361,
            table.wf(),
        ensures
            r == table.entries@[mask_spec(window(board@.stones, sq.0 as int, dir, opp_dir))],
    {
        let ghost stones = board@.stones;
        let ghost s0 = sq.0 as int;
        let mut stone_buffer: [Stone; 9] = [Stone::Empty; 9];
        let mut s = sq;
        let mut i: usize = 0;
        let mut alive = true;
        while i <= 4 && alive
            invariant
                board.wf(),
                stones == board@.stones,
                s0 == sq.0 as int,
                0 <= s0 < 361,
                i <= 5,
                alive ==> s.0 < 361 && ray_sq(s0, dir, i as int) == s.0 as int,
                !alive ==> ray_sq(s0, dir, i as int) < 0,
                forall|j: int|
                    4 <= j < 4 + i ==> stone_buffer@[j] == window_cell(stones, s0, dir, opp_dir, j),
                forall|j: int| 0 <= j < 4 ==> stone_buffer@[j] == Stone::Empty,
                forall|j: int| 4 + i <= j < 9 ==> stone_buffer@[j] == Stone::Empty,
            decreases 5 - i,
        {
            stone_buffer[4 + i] = board.stone_at(s);
            let next = s.shift(dir);
            if !next.is_valid() || s.distance(next) > 1 {
                alive = false;
            } else {
                s = next;
            }
            i = i + 1;
        }
        proof {
            if !alive {
                assert forall|j: int| 4 + i <= j < 9 implies window_cell(
                    stones, s0, dir, opp_dir, j) == Stone::Empty by {
                    lemma_ray_dead(s0, dir, i as int, j - 4);
                }
            }
        }
        let mut t = sq;
        let mut b: usize = 0;
        let mut alive_b = true;
        while b < 4 && alive_b
            invariant
                board.wf(),
                stones == board@.stones,
                s0 == sq.0 as int,
                0 <= s0 < 361,
                b <= 4,
                alive_b ==> t.0 < 361 && ray_sq(s0, opp_dir, b as int) == t.0 as int,
                !alive_b ==> ray_sq(s0, opp_dir, b as int) < 0,
                forall|j: int|
                    4 <= j < 9 ==> stone_buffer@[j] == window_cell(stones, s0, dir, opp_dir, j),
                forall|j: int|
                    4 - b <= j < 4 ==> stone_buffer@[j] == window_cell(
                        stones, s0, dir, opp_dir, j),
                forall|j: int| 0 <= j < 4 - b ==> stone_buffer@[j] == Stone::Empty,
            decreases 4 - b,
        {
            let next = t.shift(opp_dir);
            if !next.is_valid() || t.distance(next) > 1 {
                alive_b = false;
            } else {
                t = next;
                stone_buffer[3 - b] = board.stone_at(t);
            }
            b = b + 1;
        }
        proof {
            if !alive_b {
                assert forall|j: int| 0 <= j < 4 - b implies window_cell(
                    stones, s0, dir, opp_dir, j) == Stone::Empty by {
                    lemma_ray_dead(s0, opp_dir, b as int, 4 - j);
                }
            }
            assert(stone_buffer@ =~= window(stones, s0, dir, opp_dir));
        }
        let key = stones_to_mask(&stone_buffer);
        table.lookup(key)
    }

    /// The same scan with a hypothetical color substituted at the center,
    /// without mutating the board.
    pub fn after(
        board: &Board,
        sq: Square,
        turn: Stone,
        dir: Direction,
        opp_dir: Direction,
        table: &MagicTable,
    ) -> (r: OwnedAlignment)
        requires
            board.wf(),
            sq.0 < 361,
            table.wf(),
        ensures
            r == table.entries@[mask_spec(
                window_after(board@.stones, sq.0 as int, turn, dir, opp_dir),
            )],
    {
        let ghost stones = board@.stones;
        let ghost s0 = sq.0 as int;
        let mut stone_buffer: [Stone; 9] = [Stone::Empty; 9];
        stone_buffer[4] = turn;
        let mut s = sq;
        let mut i: usize = 1;
        let mut alive = true;
        while i <= 4 && alive
            invariant
                board.wf(),
                stones == board@.stones,
                s0 == sq.0 as int,
                0 <= s0 < 361,
                1 <= i <= 5,
                alive ==> s.0 < 361 && ray_sq(s0, dir, i as int - 1) == s.0 as int,
                !alive ==> ray_sq(s0, dir, i as int - 1) < 0,
                stone_buffer@[4] == turn,
                forall|j: int|
                    4 < j < 4 + i ==> stone_buffer@[j] == window_cell(stones, s0, dir, opp_dir, j),
                forall|j: int| 0 <= j < 4 ==> stone_buffer@[j] == Stone::Empty,
                forall|j: int| 4 + i <= j < 9 ==> stone_buffer@[j] == Stone::Empty,
            decreases 5 - i,
        {
            let next = s.shift(dir);
            if !next.is_valid() || s.distance(next) > 1 {
                alive = false;
            } else {
                s = next;
                stone_buffer[4 + i] = board.stone_at(s);
            }
            i = i + 1;
        }
        proof {
            if !alive {
                assert forall|j: int| 4 + i <= j < 9 implies window_cell(
                    stones, s0, dir, opp_dir, j) == Stone::Empty by {
                    lemma_ray_dead(s0, dir, i as int - 1, j - 4);
                }
            }
        }
        let mut t = sq;
        let mut b: usize = 0;
        let mut alive_b = true;
        while b < 4 && alive_b
            invariant
                board.wf(),
                stones == board@.stones,
                s0 == sq.0 as int,
                0 <= s0 < 361,
                b <= 4,
                alive_b ==> t.0 < 361 && ray_sq(s0, opp_dir, b as int) == t.0 as int,
                !alive_b ==> ray_sq(s0, opp_dir, b as int) < 0,
                stone_buffer@[4] == turn,
                forall|j: int|
                    4 < j < 9 ==> stone_buffer@[j] == window_cell(stones, s0, dir, opp_dir, j),
                forall|j: int|
                    4 - b <= j < 4 ==> stone_buffer@[j] == window_cell(
                        stones, s0, dir, opp_dir, j),
                forall|j: int| 0 <= j < 4 - b ==> stone_buffer@[j] == Stone::Empty,
            decreases 4 - b,
        {
            let next = t.shift(opp_dir);
            if !next.is_valid() || t.distance(next) > 1 {
                alive_b = false;
            } else {
                t = next;
                stone_buffer[3 - b] = board.stone_at(t);
            }
            b = b + 1;
        }
        proof {
            if !alive_b {
                assert forall|j: int| 0 <= j < 4 - b implies window_cell(
                    stones, s0, dir, opp_dir, j) == Stone::Empty by {
                    lemma_ray_dead(s0, opp_dir, b as int, 4 - j);
                }
            }
            assert(stone_buffer@ =~= window_after(stones, s0, turn, dir, opp_dir));
        }
        let key = stones_to_mask(&stone_buffer);
        table.lookup(key)
    }
}

/// The stronger of two alignments; the strength order is the declaration
/// order.
pub open spec fn amax(x: Alignment, y: Alignment) -> Alignment {
    if align_rank(x) >= align_rank(y) {
        x
    } else {
        y
    }
}

/// The weaker of two alignments.
pub open spec fn amin(x: Alignment, y: Alignment) -> Alignment {
    if align_rank(x) >= align_rank(y) {
        y
    } else {
        x
    }
}

/// The fixed precedence that combines the strongest and second-strongest
/// axis classifications of a square into one aggregate threat.
pub open spec fn cross_combine(best: Alignment, second: Alignment) -> CrossAlignment {
    match (best, second) {
        (Alignment::Five, _) => CrossAlignment::Five,
        (
            Alignment::OpenFour | Alignment::Four,
            Alignment::OpenFour | Alignment::Four,
        ) => CrossAlignment::FourFour,
        (Alignment::OpenFour, Alignment::OpenThree | Alignment::Three) =>
            CrossAlignment::OpenFourThree,
        (Alignment::Four, Alignment::OpenThree) => CrossAlignment::OpenFourThree,
        (Alignment::Four, Alignment::Three) => CrossAlignment::FourThree,
        (Alignment::OpenThree, Alignment::OpenThree) => CrossAlignment::DoubleOpenThree,
        (
            Alignment::OpenThree | Alignment::Three,
            Alignment::OpenThree | Alignment::Three,
        ) => CrossAlignment::DoubleThree,
        (Alignment::OpenFour, _) => CrossAlignment::OpenFour,
        (Alignment::Four, _) => CrossAlignment::Four,
        (Alignment::OpenThree, _) => CrossAlignment::OpenThree,
        (Alignment::Three, _) => CrossAlignment::Three,
        _ => CrossAlignment::NoAlign,
    }
}

/// The aggregate threat of four axis classifications: the precedence table
/// applied to the two strongest of them.
pub open spec fn cross_of(a0: Alignment, a1: Alignment, a2: Alignment, a3: Alignment) -> CrossAlignment {
    let h1 = amax(a0, a1);
    let l1 = amin(a0, a1);
    let h2 = amax(a2, a3);
    let l2 = amin(a2, a3);
    let best = amax(h1, h2);
    let second = if align_rank(h1) >= align_rank(h2) {
        amax(h2, l1)
    } else {
        amax(h1, l2)
    };
    cross_combine(best, second)
}

/// The axis classification the table gives the window around `sq` along
/// `(dir, opp)`.
pub open spec fn axis_align(
    stones: Seq<Stone>,
    sq: int,
    table: Seq<OwnedAlignment>,
    dir: Direction,
    opp: Direction,
) -> Alignment {
    table[mask_spec(window(stones, sq, dir, opp))].align
}

/// The aggregate threat of `sq` over the four axes of the grid.
#[verifier::opaque]
pub open spec fn cross_from_spec(stones: Seq<Stone>, sq: int, table: Seq<OwnedAlignment>) -> CrossAlignment {
    cross_of(
        axis_align(stones, sq, table, Direction::South, Direction::North),
        axis_align(stones, sq, table, Direction::East, Direction::West),
        axis_align(stones, sq, table, Direction::SouthEast, Direction::NorthWest),
        axis_align(stones, sq, table, Direction::SouthWest, Direction::NorthEast),
    )
}

/// The axis classification of the window around `sq` with a hypothetical
/// center color.
pub open spec fn axis_align_after(
    stones: Seq<Stone>,
    sq: int,
    turn: Stone,
    table: Seq<OwnedAlignment>,
    dir: Direction,
    opp: Direction,
) -> Alignment {
    table[mask_spec(window_after(stones, sq, turn, dir, opp))].align
}

/// The aggregate threat `sq` would carry if `turn` stood on it.
#[verifier::opaque]
pub open spec fn cross_after_spec(
    stones: Seq<Stone>,
    sq: int,
    turn: Stone,
    table: Seq<OwnedAlignment>,
) -> CrossAlignment {
    cross_of(
        axis_align_after(stones, sq, turn, table, Direction::South, Direction::North),
        axis_align_after(stones, sq, turn, table, Direction::East, Direction::West),
        axis_align_after(stones, sq, turn, table, Direction::SouthEast, Direction::NorthWest),
        axis_align_after(stones, sq, turn, table, Direction::SouthWest, Direction::NorthEast),
    )
}

/// The strength of an alignment as an executable value.
fn align_value(a: Alignment) -> (r: u8)
    ensures
        r as int == align_rank(a),
{
    match a {
        Alignment::NoAlign => 0,
        Alignment::Three => 1,
        Alignment::OpenThree => 2,
        Alignment::Four => 3,
        Alignment::OpenFour => 4,
        Alignment::Five => 5,
    }
}

/// The stronger of two alignments, as executable code.
fn amax_exec(x: Alignment, y: Alignment) -> (r: Alignment)
    ensures
        r == amax(x, y),
{
    if align_value(x) >= align_value(y) {
        x
    } else {
        y
    }
}

/// The weaker of two alignments, as executable code.
fn amin_exec(x: Alignment, y: Alignment) -> (r: Alignment)
    ensures
        r == amin(x, y),
{
    if align_value(x) >= align_value(y) {
        y
    } else {
        x
    }
}

impl CrossAlignment {
    /// The precedence table on the strongest and second-strongest axis
    /// classifications.
    fn alignments_to_cross(best: Alignment, second: Alignment) -> (r: CrossAlignment)
        ensures
            r == cross_combine(best, second),
    {
        match (best, second) {
            (Alignment::Five, _) => CrossAlignment::Five,
            (
                Alignment::OpenFour | Alignment::Four,
                Alignment::OpenFour | Alignment::Four,
            ) => CrossAlignment::FourFour,
            (Alignment::OpenFour, Alignment::OpenThree | Alignment::Three) =>
                CrossAlignment::OpenFourThree,
            (Alignment::Four, Alignment::OpenThree) => CrossAlignment::OpenFourThree,
            (Alignment::Four, Alignment::Three) => CrossAlignment::FourThree,
            (Alignment::OpenThree, Alignment::OpenThree) => CrossAlignment::DoubleOpenThree,
            (
                Alignment::OpenThree | Alignment::Three,
                Alignment::OpenThree | Alignment::Three,
            ) => CrossAlignment::DoubleThree,
            (Alignment::OpenFour, _) => CrossAlignment::OpenFour,
            (Alignment::Four, _) => CrossAlignment::Four,
            (Alignment::OpenThree, _) => CrossAlignment::OpenThree,
            (Alignment::Three, _) => CrossAlignment::Three,
            _ => CrossAlignment::NoAlign,
        }
    }

    /// Combine four axis classifications into the aggregate threat: find the
    /// two strongest and apply the precedence table.
    fn combine(a0: Alignment, a1: Alignment, a2: Alignment, a3: Alignment) -> (r: CrossAlignment)
        ensures
            r == cross_of(a0, a1, a2, a3),
    {
        let h1 = amax_exec(a0, a1);
        let l1 = amin_exec(a0, a1);
        let h2 = amax_exec(a2, a3);
        let l2 = amin_exec(a2, a3);
        let best = amax_exec(h1, h2);
        let second = if align_value(h1) >= align_value(h2) {
            amax_exec(h2, l1)
        } else {
            amax_exec(h1, l2)
        };
        Self::alignments_to_cross(best, second)
    }

    /// The aggregate threat of `sq` on `board`: classify all four axes and
    /// combine them.
    pub fn from(board: &Board, sq: Square, table: &MagicTable) -> (r: CrossAlignment)
        requires
            board.wf(),
            sq.0 < 361,
            table.wf(),
        ensures
            r == cross_from_spec(board@.stones, sq.0 as int, table.entries@),
    {
        let a0 = OwnedAlignment::from(board, sq, Direction::South, Direction::North, table).align();
        let a1 = OwnedAlignment::from(board, sq, Direction::East, Direction::West, table).align();
        let a2 = OwnedAlignment::from(
            board, sq, Direction::SouthEast, Direction::NorthWest, table).align();
        let a3 = OwnedAlignment::from(
            board, sq, Direction::SouthWest, Direction::NorthEast, table).align();
        proof {
            reveal(crate::magic::cross_from_spec);
        }
        Self::combine(a0, a1, a2, a3)
    }

    /// The aggregate threat `sq` would carry if `turn` played there, without
    /// mutating the board.
    pub fn after(board: &Board, sq: Square, turn: Stone, table: &MagicTable) -> (r: CrossAlignment)
        requires
            board.wf(),
            sq.0 < 361,
            table.wf(),
        ensures
            r == cross_after_spec(board@.stones, sq.0 as int, turn, table.entries@),
    {
        let a0 = OwnedAlignment::after(
            board, sq, turn, Direction::South, Direction::North, table).align();
        let a1 = OwnedAlignment::after(
            board, sq, turn, Direction::East, Direction::West, table).align();
        let a2 = OwnedAlignment::after(
            board, sq, turn, Direction::SouthEast, Direction::NorthWest, table).align();
        let a3 = OwnedAlignment::after(
            board, sq, turn, Direction::SouthWest, Direction::NorthEast, table).align();
        proof {
            reveal(crate::magic::cross_after_spec);
        }
        Self::combine(a0, a1, a2, a3)
    }
}


/// 3 to the `k`-th power: the number of free-cell fills of `k` cells.
pub open spec fn pow3(k: int) -> int
    decreases k,
{
    if k <= 0 {
        1
    } else {
        3 * pow3(k - 1)
    }
}

proof fn lemma_pow3_pos(k: int)
    ensures
        pow3(k) >= 1,
    decreases k,
{
    if k > 0 {
        lemma_pow3_pos(k - 1);
    }
}

/// The stone a base-3 digit of a fill combination denotes.
pub open spec fn digit_stone(d: int) -> Stone {
    if d == 0 {
        Stone::Empty
    } else if d == 1 {
        Stone::Black
    } else {
        Stone::White
    }
}

/// The 9-cell window of free-cell combination `c`: the leading free cells
/// carry the base-3 digits of `c`, the canonical pattern fills the tail.
#[verifier::opaque]
pub open spec fn combo_window(pattern: Seq<Stone>, c: int) -> Seq<Stone> {
    let free = 9 - pattern.len();
    Seq::new(
        9,
        |q: int|
            if q < free {
                digit_stone(c / pow3(q) % 3)
            } else {
                pattern[q - free]
            },
    )
}

/// The window rotated `r` cells to the left, wrapping.
#[verifier::opaque]
pub open spec fn rotated(w: Seq<Stone>, r: int) -> Seq<Stone> {
    Seq::new(9, |q: int| w[(q + r) % 9])
}

/// The first rotation at or after `t` that lands a stone of the run's own
/// color in the center, or 9 if none does.
pub open spec fn first_black_rot_from(w: Seq<Stone>, t: int) -> int
    decreases 9 - t,
{
    if t >= 9 {
        9
    } else if w[(4 + t) % 9] == Stone::Black {
        t
    } else {
        first_black_rot_from(w, t + 1)
    }
}

/// The first rotation that centers a stone of the run's own color.
pub open spec fn first_black_rot(w: Seq<Stone>) -> int {
    first_black_rot_from(w, 0)
}

proof fn lemma_fbr_range(w: Seq<Stone>, t: int)
    requires
        0 <= t <= 9,
    ensures
        t <= first_black_rot_from(w, t) <= 9,
    decreases 9 - t,
{
    if t < 9 {
        lemma_fbr_range(w, t + 1);
    }
}

/// The rotation the scan finds is the spec-level first rotation.
proof fn lemma_fbr_from_at(w: Seq<Stone>, t: int, r: int)
    requires
        0 <= t <= r < 9,
        w[(4 + r) % 9] == Stone::Black,
        forall|u: int| t <= u < r ==> #[trigger] w[(4 + u) % 9] != Stone::Black,
    ensures
        first_black_rot_from(w, t) == r,
    decreases r - t,
{
    if t < r {
        lemma_fbr_from_at(w, t + 1, r);
    }
}

/// The table after the slide phase: from slide position `e` up to the
/// number of free cells, rotate the window one cell at a time; a window
/// whose center holds another stone of the run's color is registered as not
/// owned, an empty center is skipped, and an opponent center ends the
/// slide.
#[verifier::opaque]
pub open spec fn slide_spec(
    t: Seq<OwnedAlignment>,
    w: Seq<Stone>,
    e: int,
    free: int,
    align: Alignment,
) -> Seq<OwnedAlignment>
    decreases free - e,
{
    if e >= free {
        t
    } else {
        let w2 = rotated(w, 1);
        if w2[4] == Stone::White {
            t
        } else if w2[4] == Stone::Empty {
            slide_spec(t, w2, e + 1, free, align)
        } else {
            slide_spec(
                t.update(mask_spec(w2), OwnedAlignment { align, owned: false }),
                w2,
                e + 1,
                free,
                align,
            )
        }
    }
}

/// How many entries the slide phase writes.
#[verifier::opaque]
pub open spec fn slide_writes(w: Seq<Stone>, e: int, free: int) -> int
    decreases free - e,
{
    if e >= free {
        0
    } else {
        let w2 = rotated(w, 1);
        if w2[4] == Stone::White {
            0
        } else if w2[4] == Stone::Empty {
            slide_writes(w2, e + 1, free)
        } else {
            1 + slide_writes(w2, e + 1, free)
        }
    }
}

proof fn lemma_slide_writes_bound(w: Seq<Stone>, e: int, free: int)
    requires
        0 <= e <= free,
    ensures
        0 <= slide_writes(w, e, free) <= free - e,
    decreases free - e,
{
    reveal(crate::magic::slide_writes);
    if e < free {
        lemma_slide_writes_bound(rotated(w, 1), e + 1, free);
    }
}

/// The table after registering one free-cell combination of the pattern:
/// rotate the filled window until a stone of the run's own color is
/// centered, register that window as owned, then slide onward.
#[verifier::opaque]
pub open spec fn register_combo(
    t: Seq<OwnedAlignment>,
    pattern: Seq<Stone>,
    align: Alignment,
    c: int,
) -> Seq<OwnedAlignment> {
    let base = combo_window(pattern, c);
    let r = first_black_rot(base);
    let w = rotated(base, r);
    slide_spec(
        t.update(mask_spec(w), OwnedAlignment { align, owned: true }),
        w,
        r,
        9 - pattern.len(),
        align,
    )
}

/// How many entries registering one combination writes.
#[verifier::opaque]
pub open spec fn combo_writes(pattern: Seq<Stone>, c: int) -> int {
    let base = combo_window(pattern, c);
    let r = first_black_rot(base);
    1 + slide_writes(rotated(base, r), r, 9 - pattern.len())
}

proof fn lemma_combo_writes_bound(pattern: Seq<Stone>, c: int)
    requires
        1 <= pattern.len() <= 9,
    ensures
        1 <= combo_writes(pattern, c) <= 9,
{
    reveal(crate::magic::combo_writes);
    let base = combo_window(pattern, c);
    let r = first_black_rot(base);
    lemma_fbr_range(base, 0);
    let free = 9 - pattern.len();
    if r < free {
        lemma_slide_writes_bound(rotated(base, r), r, free);
    } else {
        reveal(crate::magic::slide_writes);
    }
}

/// The table after registering the first `n` free-cell combinations of the
/// pattern, in order.
#[verifier::opaque]
pub open spec fn register_pattern_upto(
    t: Seq<OwnedAlignment>,
    pattern: Seq<Stone>,
    align: Alignment,
    n: int,
) -> Seq<OwnedAlignment>
    decreases n,
{
    if n <= 0 {
        t
    } else {
        register_combo(register_pattern_upto(t, pattern, align, n - 1), pattern, align, n - 1)
    }
}

/// How many entries the first `n` combinations write in all.
#[verifier::opaque]
pub open spec fn pattern_writes_upto(pattern: Seq<Stone>, n: int) -> int
    decreases n,
{
    if n <= 0 {
        0
    } else {
        pattern_writes_upto(pattern, n - 1) + combo_writes(pattern, n - 1)
    }
}

proof fn lemma_pattern_writes_bound(pattern: Seq<Stone>, n: int)
    requires
        1 <= pattern.len() <= 9,
        n >= 0,
    ensures
        0 <= pattern_writes_upto(pattern, n) <= 9 * n,
    decreases n,
{
    reveal(crate::magic::pattern_writes_upto);
    if n > 0 {
        lemma_pattern_writes_bound(pattern, n - 1);
        lemma_combo_writes_bound(pattern, n - 1);
    }
}


/// One step of the slide fold, by the center of the rotated window.
proof fn lemma_slide_unfold(
    t: Seq<OwnedAlignment>,
    w: Seq<Stone>,
    e: int,
    free: int,
    align: Alignment,
)
    ensures
        e >= free ==> slide_spec(t, w, e, free, align) == t && slide_writes(w, e, free) == 0,
        e < free && rotated(w, 1)[4] == Stone::White ==> slide_spec(t, w, e, free, align) == t
            && slide_writes(w, e, free) == 0,
        e < free && rotated(w, 1)[4] == Stone::Empty ==> slide_spec(t, w, e, free, align)
            == slide_spec(t, rotated(w, 1), e + 1, free, align) && slide_writes(w, e, free)
            == slide_writes(rotated(w, 1), e + 1, free),
        e < free && rotated(w, 1)[4] != Stone::White && rotated(w, 1)[4] != Stone::Empty
            ==> slide_spec(t, w, e, free, align) == slide_spec(
            t.update(mask_spec(rotated(w, 1)), OwnedAlignment { align, owned: false }),
            rotated(w, 1),
            e + 1,
            free,
            align,
        ) && slide_writes(w, e, free) == 1 + slide_writes(rotated(w, 1), e + 1, free),
{
    reveal(crate::magic::slide_spec);
    reveal(crate::magic::slide_writes);
}

/// One step of the per-pattern registration fold.
proof fn lemma_register_upto_unfold(
    t: Seq<OwnedAlignment>,
    pattern: Seq<Stone>,
    align: Alignment,
    n: int,
)
    ensures
        n <= 0 ==> register_pattern_upto(t, pattern, align, n) == t && pattern_writes_upto(
            pattern,
            n,
        ) == 0,
        n > 0 ==> register_pattern_upto(t, pattern, align, n) == register_combo(
            register_pattern_upto(t, pattern, align, n - 1),
            pattern,
            align,
            n - 1,
        ) && pattern_writes_upto(pattern, n) == pattern_writes_upto(pattern, n - 1)
            + combo_writes(pattern, n - 1),
{
    reveal(crate::magic::register_pattern_upto);
    reveal(crate::magic::pattern_writes_upto);
}

/// Registering one combination is the owned write of the rotated window
/// followed by the slide fold.
proof fn lemma_register_combo_unfold(
    t: Seq<OwnedAlignment>,
    pattern: Seq<Stone>,
    align: Alignment,
    c: int,
)
    ensures
        register_combo(t, pattern, align, c) == ({
            let base = combo_window(pattern, c);
            let r = first_black_rot(base);
            let w = rotated(base, r);
            slide_spec(
                t.update(mask_spec(w), OwnedAlignment { align, owned: true }),
                w,
                r,
                9 - pattern.len(),
                align,
            )
        }),
        combo_writes(pattern, c) == ({
            let base = combo_window(pattern, c);
            let r = first_black_rot(base);
            1 + slide_writes(rotated(base, r), r, 9 - pattern.len())
        }),
{
    reveal(crate::magic::register_combo);
    reveal(crate::magic::combo_writes);
}

/// The table after registering every free-cell combination of the pattern.
pub open spec fn register_pattern_spec(
    t: Seq<OwnedAlignment>,
    pattern: Seq<Stone>,
    align: Alignment,
) -> Seq<OwnedAlignment> {
    register_pattern_upto(t, pattern, align, pow3(9 - pattern.len()))
}

/// How many entries registering the whole pattern writes.
pub open spec fn pattern_writes(pattern: Seq<Stone>) -> int {
    pattern_writes_upto(pattern, pow3(9 - pattern.len()))
}

/// Rotate a 9-cell window one cell to the left, the leftmost cell wrapping
/// to the end.
fn rotate_left_once(w: &mut [Stone; 9])
    ensures
        forall|q: int| 0 <= q < 8 ==> final(w)@[q] == old(w)@[q + 1],
        final(w)@[8] == old(w)@[0],
{
    let first = w[0];
    let mut q: usize = 0;
    while q < 8
        invariant
            q <= 8,
            first == old(w)@[0],
            forall|t: int| 0 <= t < q ==> w@[t] == old(w)@[t + 1],
            forall|t: int| q <= t < 9 ==> w@[t] == old(w)@[t],
        decreases 8 - q,
    {
        w[q] = w[q + 1];
        q = q + 1;
    }
    w[8] = first;
}

/// Register every full window that contains the canonical pattern in the
/// table, under the given alignment: expand the free cells over all stone
/// combinations, rotate the window so its center lands on the run's own
/// color (registered as owned), then slide further and register windows
/// whose center is another stone of the run's color as not owned, stopping
/// at an opponent stone in the center and skipping an empty one. The new
/// table and the returned write count are pinned exactly to the spec-level
/// registration fold.
pub fn magic_init_pattern(
    magic: &mut Vec<OwnedAlignment>,
    pattern: &Vec<Stone>,
    align: Alignment,
) -> (count: u16)
    requires
        old(magic)@.len() == 65536,
        1 <= pattern@.len() <= 9,
        exists|p: int| 0 <= p < pattern@.len() && pattern@[p] == Stone::Black,
    ensures
        final(magic)@.len() == 65536,
        final(magic)@ == register_pattern_spec(old(magic)@, pattern@, align),
        count as int == pattern_writes(pattern@),
{
    let plen = pattern.len();
    let free = 9 - plen;
    let mut base: [Stone; 9] = [Stone::Empty; 9];
    let mut q: usize = 0;
    while q < plen
        invariant
            q <= plen,
            plen == pattern@.len(),
            1 <= plen <= 9,
            free == 9 - plen,
            forall|t: int| free <= t < free + q ==> base@[t] == pattern@[t - free],
        decreases plen - q,
    {
        base[free + q] = pattern[q];
        q = q + 1;
    }
    let range: u32 = match free {
        0 => 1,
        1 => 3,
        2 => 9,
        3 => 27,
        4 => 81,
        5 => 243,
        6 => 729,
        7 => 2187,
        _ => 6561,
    };
    proof {
        assert(range as int == pow3(free as int)) by {
            reveal_with_fuel(crate::magic::pow3, 10);
        }
        lemma_register_upto_unfold(magic@, pattern@, align, 0);
    }
    let mut count: u16 = 0;
    let mut combo: u32 = 0;
    while combo < range
        invariant
            magic@.len() == 65536,
            plen == pattern@.len(),
            1 <= plen <= 9,
            free == 9 - plen,
            range as int == pow3(free as int),
            range <= 6561,
            combo <= range,
            exists|p: int| 0 <= p < pattern@.len() && pattern@[p] == Stone::Black,
            forall|t: int| free <= t < 9 ==> base@[t] == pattern@[t - free],
            magic@ == register_pattern_upto(old(magic)@, pattern@, align, combo as int),
            count as int == pattern_writes_upto(pattern@, combo as int),
        decreases range - combo,
    {
        let mut it = combo;
        let mut v: usize = 0;
        proof {
            assert(pow3(0) == 1);
            assert(combo as int / 1 == combo as int);
        }
        while v < free
            invariant
                v <= free,
                free <= 8,
                plen == pattern@.len(),
                free == 9 - plen,
                it as int == combo as int / pow3(v as int),
                forall|t: int| free <= t < 9 ==> base@[t] == pattern@[t - free],
                forall|t: int|
                    0 <= t < v ==> base@[t] == digit_stone(combo as int / pow3(t) % 3),
            decreases free - v,
        {
            base[v] = if it % 3 == 0 {
                Stone::Empty
            } else if it % 3 == 1 {
                Stone::Black
            } else {
                Stone::White
            };
            proof {
                lemma_pow3_pos(v as int);
                vstd::arithmetic::div_mod::lemma_div_denominator(
                    combo as int, pow3(v as int), 3);
                assert(pow3(v as int + 1) == 3 * pow3(v as int));
            }
            it = it / 3;
            v = v + 1;
        }
        proof {
            assert(base@ =~= combo_window(pattern@, combo as int)) by {
                reveal(crate::magic::combo_window);
            }
        }
        let ghost pw = choose|p: int| 0 <= p < pattern@.len() && pattern@[p] == Stone::Black;
        let ghost bw = free + pw;
        proof {
            assert(base@[bw] == Stone::Black);
        }
        let mut r: usize = 0;
        let mut found = false;
        while r < 9 && !found
            invariant
                r <= 9,
                0 <= bw < 9,
                base@[bw] == Stone::Black,
                found ==> r < 9 && base@[(4 + r) % 9] == Stone::Black,
                forall|t: int| 0 <= t < r ==> #[trigger] base@[(4 + t) % 9] != Stone::Black,
            decreases 9 - r, (if found { 0int } else { 1int }),
        {
            if base[(4 + r) % 9] == Stone::Black {
                found = true;
            } else {
                r = r + 1;
            }
        }
        proof {
            if !found {
                let t0 = if bw >= 4 {
                    bw - 4
                } else {
                    bw + 5
                };
                assert(0 <= t0 < 9);
                assert((4 + t0) % 9 == bw) by (nonlinear_arith)
                    requires
                        0 <= bw < 9,
                        t0 == (if bw >= 4 {
                            bw - 4
                        } else {
                            bw + 5
                        }),
                ;
                assert(base@[(4 + t0) % 9] != Stone::Black);
                assert(false);
            }
            lemma_fbr_from_at(base@, 0, r as int);
            assert(first_black_rot(base@) == r as int);
        }
        let mut shift: [Stone; 9] = [Stone::Empty; 9];
        let mut q2: usize = 0;
        while q2 < 9
            invariant
                q2 <= 9,
                r < 9,
                forall|t: int| 0 <= t < q2 ==> shift@[t] == base@[(t + r) % 9],
            decreases 9 - q2,
        {
            shift[q2] = base[(q2 + r) % 9];
            q2 = q2 + 1;
        }
        proof {
            assert(shift@ =~= rotated(base@, r as int)) by {
                reveal(crate::magic::rotated);
            }
        }
        let key = stones_to_mask(&shift);
        let ghost prev = magic@;
        magic[key as usize] = OwnedAlignment { align, owned: true };
        proof {
            lemma_pattern_writes_bound(pattern@, combo as int);
        }
        count = count + 1;
        let ghost target_table = register_pattern_upto(
            old(magic)@,
            pattern@,
            align,
            combo as int + 1,
        );
        let ghost target_count = pattern_writes_upto(pattern@, combo as int + 1);
        proof {
            lemma_register_upto_unfold(old(magic)@, pattern@, align, combo as int + 1);
            lemma_register_combo_unfold(prev, pattern@, align, combo as int);
            lemma_pattern_writes_bound(pattern@, combo as int + 1);
            assert(magic@ == prev.update(
                mask_spec(shift@),
                OwnedAlignment { align, owned: true },
            ));
            assert(slide_spec(magic@, shift@, r as int, free as int, align) == target_table);
            assert(count as int + slide_writes(shift@, r as int, free as int) == target_count);
            if r as int <= free as int {
                lemma_slide_writes_bound(shift@, r as int, free as int);
            } else {
                lemma_slide_unfold(magic@, shift@, r as int, free as int, align);
            }
        }
        let mut extra = r;
        let mut sliding = true;
        while extra < free && sliding
            invariant
                magic@.len() == 65536,
                r <= extra,
                extra <= free || extra == r,
                r < 9,
                free <= 8,
                plen == pattern@.len(),
                1 <= plen <= 9,
                free == 9 - plen,
                combo < range,
                range <= 6561,
                target_table == register_pattern_upto(
                    old(magic)@,
                    pattern@,
                    align,
                    combo as int + 1,
                ),
                target_count == pattern_writes_upto(pattern@, combo as int + 1),
                target_count <= 9 * (combo as int + 1),
                sliding ==> slide_spec(magic@, shift@, extra as int, free as int, align)
                    == target_table,
                sliding ==> count as int + slide_writes(shift@, extra as int, free as int)
                    == target_count,
                sliding ==> slide_writes(shift@, extra as int, free as int) >= 0,
                !sliding ==> magic@ == target_table,
                !sliding ==> count as int == target_count,
            decreases free - extra, (if sliding { 1int } else { 0int }),
        {
            let ghost w_old = shift@;
            let ghost t_pre = magic@;
            rotate_left_once(&mut shift);
            proof {
                assert(shift@ =~= rotated(w_old, 1)) by {
                    reveal(crate::magic::rotated);
                }
                lemma_slide_unfold(t_pre, w_old, extra as int, free as int, align);
            }
            if shift[4] == Stone::White {
                sliding = false;
            } else if shift[4] == Stone::Empty {
                proof {
                    lemma_slide_writes_bound(shift@, extra as int + 1, free as int);
                }
            } else {
                let key2 = stones_to_mask(&shift);
                magic[key2 as usize] = OwnedAlignment { align, owned: false };
                proof {
                    lemma_slide_writes_bound(shift@, extra as int + 1, free as int);
                    assert(magic@ == t_pre.update(
                        mask_spec(shift@),
                        OwnedAlignment { align, owned: false },
                    ));
                }
                count = count + 1;
            }
            extra = extra + 1;
        }
        proof {
            if sliding {
                lemma_slide_unfold(magic@, shift@, extra as int, free as int, align);
            }
            assert(magic@ == target_table);
            assert(count as int == target_count);
        }
        combo = combo + 1;
    }
    count
}

/// The whole classification table as a value: every entry starts as no
/// alignment, then the canonical five, open-four, four, open-three and
/// three patterns are registered, the strongest family first.
pub open spec fn magic_table_spec() -> Seq<OwnedAlignment> {
    let t0 = Seq::new(65536, |i: int| OwnedAlignment { align: Alignment::NoAlign, owned: false });
    let t1 = register_pattern_spec(t0, seq![Stone::Black, Stone::Black, Stone::Black, Stone::Black, Stone::Black], Alignment::Five);
    let t2 = register_pattern_spec(t1, seq![Stone::Empty, Stone::Black, Stone::Black, Stone::Black, Stone::Black, Stone::Empty], Alignment::OpenFour);
    let t3 = register_pattern_spec(t2, seq![Stone::White, Stone::Black, Stone::Black, Stone::Black, Stone::Black, Stone::Empty], Alignment::Four);
    let t4 = register_pattern_spec(t3, seq![Stone::Empty, Stone::Black, Stone::Black, Stone::Black, Stone::Black, Stone::White], Alignment::Four);
    let t5 = register_pattern_spec(t4, seq![Stone::White, Stone::Black, Stone::Black, Stone::Black, Stone::Black, Stone::White], Alignment::Four);
    let t6 = register_pattern_spec(t5, seq![Stone::Empty, Stone::Black, Stone::Black, Stone::Black, Stone::Empty], Alignment::OpenThree);
    let t7 = register_pattern_spec(t6, seq![Stone::White, Stone::Black, Stone::Black, Stone::Black, Stone::Empty], Alignment::Three);
    let t8 = register_pattern_spec(t7, seq![Stone::Empty, Stone::Black, Stone::Black, Stone::Black, Stone::White], Alignment::Three);
    let t9 = register_pattern_spec(t8, seq![Stone::White, Stone::Black, Stone::Black, Stone::Black, Stone::White], Alignment::Three);
    let t10 = register_pattern_spec(t9, seq![Stone::Empty, Stone::Black, Stone::Empty, Stone::Black, Stone::Black, Stone::Empty], Alignment::OpenThree);
    let t11 = register_pattern_spec(t10, seq![Stone::White, Stone::Black, Stone::Empty, Stone::Black, Stone::Black, Stone::Empty], Alignment::Three);
    let t12 = register_pattern_spec(t11, seq![Stone::Empty, Stone::Black, Stone::Empty, Stone::Black, Stone::Black, Stone::White], Alignment::Three);
    let t13 = register_pattern_spec(t12, seq![Stone::White, Stone::Black, Stone::Empty, Stone::Black, Stone::Black, Stone::White], Alignment::Three);
    let t14 = register_pattern_spec(t13, seq![Stone::Empty, Stone::Black, Stone::Black, Stone::Empty, Stone::Black, Stone::Empty], Alignment::OpenThree);
    let t15 = register_pattern_spec(t14, seq![Stone::White, Stone::Black, Stone::Black, Stone::Empty, Stone::Black, Stone::Empty], Alignment::Three);
    let t16 = register_pattern_spec(t15, seq![Stone::Empty, Stone::Black, Stone::Black, Stone::Empty, Stone::Black, Stone::White], Alignment::Three);
    let t17 = register_pattern_spec(t16, seq![Stone::White, Stone::Black, Stone::Black, Stone::Empty, Stone::Black, Stone::White], Alignment::Three);
    let t18 = register_pattern_spec(t17, seq![Stone::Empty, Stone::Black, Stone::Black, Stone::Empty, Stone::Black, Stone::Black, Stone::Empty], Alignment::Four);
    let t19 = register_pattern_spec(t18, seq![Stone::White, Stone::Black, Stone::Black, Stone::Empty, Stone::Black, Stone::Black, Stone::Empty], Alignment::Four);
    let t20 = register_pattern_spec(t19, seq![Stone::Empty, Stone::Black, Stone::Black, Stone::Empty, Stone::Black, Stone::Black, Stone::White], Alignment::Four);
    let t21 = register_pattern_spec(t20, seq![Stone::White, Stone::Black, Stone::Black, Stone::Empty, Stone::Black, Stone::Black, Stone::White], Alignment::Four);
    t21
}

/// Build the whole classification table: start from `NoAlign` everywhere
/// and register the canonical five, four and three patterns, the strongest
/// first. The pattern descriptions are fixed and well-formed, so the build
/// always succeeds, and the result is exactly `magic_table_spec`.
pub fn build_magic() -> (r: Result<MagicTable, PatternError>)
    ensures
        r is Ok,
        r is Ok ==> r.unwrap().wf(),
        r is Ok ==> r.unwrap().entries@ == magic_table_spec(),
{
    let mut entries: Vec<OwnedAlignment> = Vec::new();
    let mut i: usize = 0;
    while i < 65536
        invariant
            i <= 65536,
            entries@.len() == i,
            forall|k: int|
                0 <= k < i ==> entries@[k] == (OwnedAlignment {
                    align: Alignment::NoAlign,
                    owned: false,
                }),
        decreases 65536 - i,
    {
        entries.push(OwnedAlignment { align: Alignment::NoAlign, owned: false });
        i = i + 1;
    }
    let ghost t0 = Seq::new(
        65536,
        |i: int| OwnedAlignment { align: Alignment::NoAlign, owned: false },
    );
    proof {
        assert(entries@ =~= t0);
    }
    proof {
        reveal_strlit("xxxxx");
        assert(pattern_ok("xxxxx"@));
        assert("xxxxx"@[1] == 'x');
        assert(pattern_stones("xxxxx"@) =~= seq![Stone::Black, Stone::Black, Stone::Black, Stone::Black, Stone::Black]);
    }
    if let Result::Err(e) = init_pattern_text(&mut entries, "xxxxx", Alignment::Five) {
        return Result::Err(e);
    }
    let ghost t1 = register_pattern_spec(t0, seq![Stone::Black, Stone::Black, Stone::Black, Stone::Black, Stone::Black], Alignment::Five);
    proof {
        assert(entries@ == t1);
    }
    proof {
        reveal_strlit(".xxxx.");
        assert(pattern_ok(".xxxx."@));
        assert(".xxxx."@[1] == 'x');
        assert(pattern_stones(".xxxx."@) =~= seq![Stone::Empty, Stone::Black, Stone::Black, Stone::Black, Stone::Black, Stone::Empty]);
    }
    if let Result::Err(e) = init_pattern_text(&mut entries, ".xxxx.", Alignment::OpenFour) {
        return Result::Err(e);
    }
    let ghost t2 = register_pattern_spec(t1, seq![Stone::Empty, Stone::Black, Stone::Black, Stone::Black, Stone::Black, Stone::Empty], Alignment::OpenFour);
    proof {
        assert(entries@ == t2);
    }
    proof {
        reveal_strlit("oxxxx.");
        assert(pattern_ok("oxxxx."@));
        assert("oxxxx."@[1] == 'x');
        assert(pattern_stones("oxxxx."@) =~= seq![Stone::White, Stone::Black, Stone::Black, Stone::Black, Stone::Black, Stone::Empty]);
    }
    if let Result::Err(e) = init_pattern_text(&mut entries, "oxxxx.", Alignment::Four) {
        return Result::Err(e);
    }
    let ghost t3 = register_pattern_spec(t2, seq![Stone::White, Stone::Black, Stone::Black, Stone::Black, Stone::Black, Stone::Empty], Alignment::Four);
    proof {
        assert(entries@ == t3);
    }
    proof {
        reveal_strlit(".xxxxo");
        assert(pattern_ok(".xxxxo"@));
        assert(".xxxxo"@[1] == 'x');
        assert(pattern_stones(".xxxxo"@) =~= seq![Stone::Empty, Stone::Black, Stone::Black, Stone::Black, Stone::Black, Stone::White]);
    }
    if let Result::Err(e) = init_pattern_text(&mut entries, ".xxxxo", Alignment::Four) {
        return Result::Err(e);
    }
    let ghost t4 = register_pattern_spec(t3, seq![Stone::Empty, Stone::Black, Stone::Black, Stone::Black, Stone::Black, Stone::White], Alignment::Four);
    proof {
        assert(entries@ == t4);
    }
    proof {
        reveal_strlit("oxxxxo");
        assert(pattern_ok("oxxxxo"@));
        assert("oxxxxo"@[1] == 'x');
        assert(pattern_stones("oxxxxo"@) =~= seq![Stone::White, Stone::Black, Stone::Black, Stone::Black, Stone::Black, Stone::White]);
    }
    if let Result::Err(e) = init_pattern_text(&mut entries, "oxxxxo", Alignment::Four) {
        return Result::Err(e);
    }
    let ghost t5 = register_pattern_spec(t4, seq![Stone::White, Stone::Black, Stone::Black, Stone::Black, Stone::Black, Stone::White], Alignment::Four);
    proof {
        assert(entries@ == t5);
    }
    proof {
        reveal_strlit(".xxx.");
        assert(pattern_ok(".xxx."@));
        assert(".xxx."@[1] == 'x');
        assert(pattern_stones(".xxx."@) =~= seq![Stone::Empty, Stone::Black, Stone::Black, Stone::Black, Stone::Empty]);
    }
    if let Result::Err(e) = init_pattern_text(&mut entries, ".xxx.", Alignment::OpenThree) {
        return Result::Err(e);
    }
    let ghost t6 = register_pattern_spec(t5, seq![Stone::Empty, Stone::Black, Stone::Black, Stone::Black, Stone::Empty], Alignment::OpenThree);
    proof {
        assert(entries@ == t6);
    }
    proof {
        reveal_strlit("oxxx.");
        assert(pattern_ok("oxxx."@));
        assert("oxxx."@[1] == 'x');
        assert(pattern_stones("oxxx."@) =~= seq![Stone::White, Stone::Black, Stone::Black, Stone::Black, Stone::Empty]);
    }
    if let Result::Err(e) = init_pattern_text(&mut entries, "oxxx.", Alignment::Three) {
        return Result::Err(e);
    }
    let ghost t7 = register_pattern_spec(t6, seq![Stone::White, Stone::Black, Stone::Black, Stone::Black, Stone::Empty], Alignment::Three);
    proof {
        assert(entries@ == t7);
    }
    proof {
        reveal_strlit(".xxxo");
        assert(pattern_ok(".xxxo"@));
        assert(".xxxo"@[1] == 'x');
        assert(pattern_stones(".xxxo"@) =~= seq![Stone::Empty, Stone::Black, Stone::Black, Stone::Black, Stone::White]);
    }
    if let Result::Err(e) = init_pattern_text(&mut entries, ".xxxo", Alignment::Three) {
        return Result::Err(e);
    }
    let ghost t8 = register_pattern_spec(t7, seq![Stone::Empty, Stone::Black, Stone::Black, Stone::Black, Stone::White], Alignment::Three);
    proof {
        assert(entries@ == t8);
    }
    proof {
        reveal_strlit("oxxxo");
        assert(pattern_ok("oxxxo"@));
        assert("oxxxo"@[1] == 'x');
        assert(pattern_stones("oxxxo"@) =~= seq![Stone::White, Stone::Black, Stone::Black, Stone::Black, Stone::White]);
    }
    if let Result::Err(e) = init_pattern_text(&mut entries, "oxxxo", Alignment::Three) {
        return Result::Err(e);
    }
    let ghost t9 = register_pattern_spec(t8, seq![Stone::White, Stone::Black, Stone::Black, Stone::Black, Stone::White], Alignment::Three);
    proof {
        assert(entries@ == t9);
    }
    proof {
        reveal_strlit(".x.xx.");
        assert(pattern_ok(".x.xx."@));
        assert(".x.xx."@[1] == 'x');
        assert(pattern_stones(".x.xx."@) =~= seq![Stone::Empty, Stone::Black, Stone::Empty, Stone::Black, Stone::Black, Stone::Empty]);
    }
    if let Result::Err(e) = init_pattern_text(&mut entries, ".x.xx.", Alignment::OpenThree) {
        return Result::Err(e);
    }
    let ghost t10 = register_pattern_spec(t9, seq![Stone::Empty, Stone::Black, Stone::Empty, Stone::Black, Stone::Black, Stone::Empty], Alignment::OpenThree);
    proof {
        assert(entries@ == t10);
    }
    proof {
        reveal_strlit("ox.xx.");
        assert(pattern_ok("ox.xx."@));
        assert("ox.xx."@[1] == 'x');
        assert(pattern_stones("ox.xx."@) =~= seq![Stone::White, Stone::Black, Stone::Empty, Stone::Black, Stone::Black, Stone::Empty]);
    }
    if let Result::Err(e) = init_pattern_text(&mut entries, "ox.xx.", Alignment::Three) {
        return Result::Err(e);
    }
    let ghost t11 = register_pattern_spec(t10, seq![Stone::White, Stone::Black, Stone::Empty, Stone::Black, Stone::Black, Stone::Empty], Alignment::Three);
    proof {
        assert(entries@ == t11);
    }
    proof {
        reveal_strlit(".x.xxo");
        assert(pattern_ok(".x.xxo"@));
        assert(".x.xxo"@[1] == 'x');
        assert(pattern_stones(".x.xxo"@) =~= seq![Stone::Empty, Stone::Black, Stone::Empty, Stone::Black, Stone::Black, Stone::White]);
    }
    if let Result::Err(e) = init_pattern_text(&mut entries, ".x.xxo", Alignment::Three) {
        return Result::Err(e);
    }
    let ghost t12 = register_pattern_spec(t11, seq![Stone::Empty, Stone::Black, Stone::Empty, Stone::Black, Stone::Black, Stone::White], Alignment::Three);
    proof {
        assert(entries@ == t12);
    }
    proof {
        reveal_strlit("ox.xxo");
        assert(pattern_ok("ox.xxo"@));
        assert("ox.xxo"@[1] == 'x');
        assert(pattern_stones("ox.xxo"@) =~= seq![Stone::White, Stone::Black, Stone::Empty, Stone::Black, Stone::Black, Stone::White]);
    }
    if let Result::Err(e) = init_pattern_text(&mut entries, "ox.xxo", Alignment::Three) {
        return Result::Err(e);
    }
    let ghost t13 = register_pattern_spec(t12, seq![Stone::White, Stone::Black, Stone::Empty, Stone::Black, Stone::Black, Stone::White], Alignment::Three);
    proof {
        assert(entries@ == t13);
    }
    proof {
        reveal_strlit(".xx.x.");
        assert(pattern_ok(".xx.x."@));
        assert(".xx.x."@[1] == 'x');
        assert(pattern_stones(".xx.x."@) =~= seq![Stone::Empty, Stone::Black, Stone::Black, Stone::Empty, Stone::Black, Stone::Empty]);
    }
    if let Result::Err(e) = init_pattern_text(&mut entries, ".xx.x.", Alignment::OpenThree) {
        return Result::Err(e);
    }
    let ghost t14 = register_pattern_spec(t13, seq![Stone::Empty, Stone::Black, Stone::Black, Stone::Empty, Stone::Black, Stone::Empty], Alignment::OpenThree);
    proof {
        assert(entries@ == t14);
    }
    proof {
        reveal_strlit("oxx.x.");
        assert(pattern_ok("oxx.x."@));
        assert("oxx.x."@[1] == 'x');
        assert(pattern_stones("oxx.x."@) =~= seq![Stone::White, Stone::Black, Stone::Black, Stone::Empty, Stone::Black, Stone::Empty]);
    }
    if let Result::Err(e) = init_pattern_text(&mut entries, "oxx.x.", Alignment::Three) {
        return Result::Err(e);
    }
    let ghost t15 = register_pattern_spec(t14, seq![Stone::White, Stone::Black, Stone::Black, Stone::Empty, Stone::Black, Stone::Empty], Alignment::Three);
    proof {
        assert(entries@ == t15);
    }
    proof {
        reveal_strlit(".xx.xo");
        assert(pattern_ok(".xx.xo"@));
        assert(".xx.xo"@[1] == 'x');
        assert(pattern_stones(".xx.xo"@) =~= seq![Stone::Empty, Stone::Black, Stone::Black, Stone::Empty, Stone::Black, Stone::White]);
    }
    if let Result::Err(e) = init_pattern_text(&mut entries, ".xx.xo", Alignment::Three) {
        return Result::Err(e);
    }
    let ghost t16 = register_pattern_spec(t15, seq![Stone::Empty, Stone::Black, Stone::Black, Stone::Empty, Stone::Black, Stone::White], Alignment::Three);
    proof {
        assert(entries@ == t16);
    }
    proof {
        reveal_strlit("oxx.xo");
        assert(pattern_ok("oxx.xo"@));
        assert("oxx.xo"@[1] == 'x');
        assert(pattern_stones("oxx.xo"@) =~= seq![Stone::White, Stone::Black, Stone::Black, Stone::Empty, Stone::Black, Stone::White]);
    }
    if let Result::Err(e) = init_pattern_text(&mut entries, "oxx.xo", Alignment::Three) {
        return Result::Err(e);
    }
    let ghost t17 = register_pattern_spec(t16, seq![Stone::White, Stone::Black, Stone::Black, Stone::Empty, Stone::Black, Stone::White], Alignment::Three);
    proof {
        assert(entries@ == t17);
    }
    proof {
        reveal_strlit(".xx.xx.");
        assert(pattern_ok(".xx.xx."@));
        assert(".xx.xx."@[1] == 'x');
        assert(pattern_stones(".xx.xx."@) =~= seq![Stone::Empty, Stone::Black, Stone::Black, Stone::Empty, Stone::Black, Stone::Black, Stone::Empty]);
    }
    if let Result::Err(e) = init_pattern_text(&mut entries, ".xx.xx.", Alignment::Four) {
        return Result::Err(e);
    }
    let ghost t18 = register_pattern_spec(t17, seq![Stone::Empty, Stone::Black, Stone::Black, Stone::Empty, Stone::Black, Stone::Black, Stone::Empty], Alignment::Four);
    proof {
        assert(entries@ == t18);
    }
    proof {
        reveal_strlit("oxx.xx.");
        assert(pattern_ok("oxx.xx."@));
        assert("oxx.xx."@[1] == 'x');
        assert(pattern_stones("oxx.xx."@) =~= seq![Stone::White, Stone::Black, Stone::Black, Stone::Empty, Stone::Black, Stone::Black, Stone::Empty]);
    }
    if let Result::Err(e) = init_pattern_text(&mut entries, "oxx.xx.", Alignment::Four) {
        return Result::Err(e);
    }
    let ghost t19 = register_pattern_spec(t18, seq![Stone::White, Stone::Black, Stone::Black, Stone::Empty, Stone::Black, Stone::Black, Stone::Empty], Alignment::Four);
    proof {
        assert(entries@ == t19);
    }
    proof {
        reveal_strlit(".xx.xxo");
        assert(pattern_ok(".xx.xxo"@));
        assert(".xx.xxo"@[1] == 'x');
        assert(pattern_stones(".xx.xxo"@) =~= seq![Stone::Empty, Stone::Black, Stone::Black, Stone::Empty, Stone::Black, Stone::Black, Stone::White]);
    }
    if let Result::Err(e) = init_pattern_text(&mut entries, ".xx.xxo", Alignment::Four) {
        return Result::Err(e);
    }
    let ghost t20 = register_pattern_spec(t19, seq![Stone::Empty, Stone::Black, Stone::Black, Stone::Empty, Stone::Black, Stone::Black, Stone::White], Alignment::Four);
    proof {
        assert(entries@ == t20);
    }
    proof {
        reveal_strlit("oxx.xxo");
        assert(pattern_ok("oxx.xxo"@));
        assert("oxx.xxo"@[1] == 'x');
        assert(pattern_stones("oxx.xxo"@) =~= seq![Stone::White, Stone::Black, Stone::Black, Stone::Empty, Stone::Black, Stone::Black, Stone::White]);
    }
    if let Result::Err(e) = init_pattern_text(&mut entries, "oxx.xxo", Alignment::Four) {
        return Result::Err(e);
    }
    let ghost t21 = register_pattern_spec(t20, seq![Stone::White, Stone::Black, Stone::Black, Stone::Empty, Stone::Black, Stone::Black, Stone::White], Alignment::Four);
    proof {
        assert(entries@ == t21);
    }
    proof {
        assert(entries@ == magic_table_spec());
    }
    Result::Ok(MagicTable { entries })
}

/// Read one canonical pattern description and register it in the table.
fn init_pattern_text(
    magic: &mut Vec<OwnedAlignment>,
    text: &str,
    align: Alignment,
) -> (r: Result<u16, PatternError>)
    requires
        old(magic)@.len() == 65536,
    ensures
        final(magic)@.len() == 65536,
        pattern_ok(text@) && 1 <= text@.len() <= 9 && (exists|p: int|
            0 <= p < text@.len() && text@[p] == 'x') ==> r is Ok,
        r is Ok ==> final(magic)@ == register_pattern_spec(
            old(magic)@,
            pattern_stones(text@),
            align,
        ),
        r is Err ==> final(magic)@ == old(magic)@,
    {
    let parsed = match StonePattern::parse(text) {
        Result::Ok(sp) => sp,
        Result::Err(e) => {
            return Result::Err(e);
        },
    };
    let v = parsed.into_inner();
    let n = v.len();
    if n < 1 || n > 9 {
        return Result::Err(PatternError);
    }
    let mut has_black = false;
    let mut t: usize = 0;
    while t < n && !has_black
        invariant
            t <= n,
            n == v@.len(),
            has_black ==> exists|p: int| 0 <= p < v@.len() && v@[p] == Stone::Black,
            !has_black ==> forall|p: int| 0 <= p < t ==> v@[p] != Stone::Black,
        decreases n - t, (if has_black { 0int } else { 1int }),
    {
        if v[t] == Stone::Black {
            has_black = true;
        } else {
            t = t + 1;
        }
    }
    if !has_black {
        proof {
            if pattern_ok(text@) && exists|p: int| 0 <= p < text@.len() && text@[p] == 'x' {
                let p = choose|p: int| 0 <= p < text@.len() && text@[p] == 'x';
                assert(v@[p] == char_stone(text@[p]));
                assert(false);
            }
        }
        return Result::Err(PatternError);
    }
    Result::Ok(magic_init_pattern(magic, &v, align))
}

} // verus!
