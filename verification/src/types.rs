//! Coordinate types of the 19x19 grid: files, ranks, squares, compass
//! directions, and the stone occupying a cell.

use vstd::prelude::*;

verus! {

/// Width of the grid: squares are numbered `file + rank * ROW_SIZE`.
pub const ROW_SIZE: u16 = 19;

/// Number of valid squares on the grid.
pub const SQUARE_COUNT: u16 = 361;

/// `SQUARE_COUNT` as a usize, for table sizes.
pub const BOARD_SIZE: usize = 361;

/// A column of the grid, 0 through 18.
#[derive(Clone, Copy, Debug, PartialEq, Eq, Structural)]
pub struct File(pub u8);

/// A row of the grid, 0 through 18.
#[derive(Clone, Copy, Debug, PartialEq, Eq, Structural)]
pub struct Rank(pub u8);

/// A cell of the grid, numbered `file + rank * 19`; values 0 through 360
/// are on the board.
#[derive(Clone, Copy, Debug, PartialEq, Eq, Structural)]
pub struct Square(pub u16);

/// One of the 8 compass directions, each a fixed linear delta on square
/// indices.
#[derive(Clone, Copy, Debug, PartialEq, Eq, Structural)]
pub enum Direction {
    North,
    South,
    East,
    West,
    NorthEast,
    NorthWest,
    SouthEast,
    SouthWest,
}

/// The occupant of a cell.
#[derive(Clone, Copy, Debug, PartialEq, Eq, Structural)]
pub enum Stone {
    Empty,
    Black,
    White,
}

impl File {
    pub fn new(value: u8) -> (r: Self)
        ensures
            r.0 == value,
    {
        File(value)
    }
}

impl Rank {
    pub fn new(value: u8) -> (r: Self)
        ensures
            r.0 == value,
    {
        Rank(value)
    }
}

/// The file (column) of square index `i`.
pub open spec fn sq_file(i: int) -> int {
    i % 19
}

/// The rank (row) of square index `i`.
pub open spec fn sq_rank(i: int) -> int {
    i / 19
}

/// The signed index delta of one step in direction `dir`. North decreases
/// the rank, East increases the file.
pub open spec fn dir_delta(dir: Direction) -> int {
    match dir {
        Direction::North => -19,
        Direction::South => 19,
        Direction::East => 1,
        Direction::West => -1,
        Direction::NorthEast => -18,
        Direction::NorthWest => -20,
        Direction::SouthEast => 20,
        Direction::SouthWest => 18,
    }
}

/// The square index reached from `v` by one step in direction `dir`, with
/// the index arithmetic wrapping as 16-bit arithmetic does. A step off the
/// board wraps to an index that fails the validity or distance check.
pub open spec fn shift_wrap(v: int, dir: Direction) -> int {
    (v + dir_delta(dir) + 0x10000) % 0x10000
}

/// Chebyshev distance between two squares: the larger of the file distance
/// and the rank distance.
pub open spec fn sq_distance(a: int, b: int) -> int {
    let df = if sq_file(a) >= sq_file(b) {
        sq_file(a) - sq_file(b)
    } else {
        sq_file(b) - sq_file(a)
    };
    let dr = if sq_rank(a) >= sq_rank(b) {
        sq_rank(a) - sq_rank(b)
    } else {
        sq_rank(b) - sq_rank(a)
    };
    if df >= dr {
        df
    } else {
        dr
    }
}

/// Whether a scan may step from valid square `s` in direction `dir`: the
/// shifted index must be a valid square and the step must not cross a row
/// boundary (a crossing shows up as a Chebyshev distance above 1).
pub open spec fn step_ok(s: int, dir: Direction) -> bool {
    let t = shift_wrap(s, dir);
    0 <= t < 361 && sq_distance(s, t) <= 1
}

impl Square {
    pub fn new(value: u16) -> (r: Self)
        ensures
            r.0 == value,
    {
        Square(value)
    }

    pub fn from(file: File, rank: Rank) -> (r: Self)
        requires
            file.0 + rank.0 * 19 <= u16::MAX,
        ensures
            r.0 == file.0 + rank.0 * 19,
    {
        Square(file.0 as u16 + rank.0 as u16 * ROW_SIZE)
    }

    pub fn file(&self) -> (r: File)
        ensures
            r.0 == sq_file(self.0 as int),
    {
        File::new((self.0 % ROW_SIZE) as u8)
    }

    pub fn rank(&self) -> (r: Rank)
        requires
            self.0 < 361,
        ensures
            r.0 == sq_rank(self.0 as int),
    {
        Rank::new((self.0 / ROW_SIZE) as u8)
    }

    pub fn value(&self) -> (r: u16)
        ensures
            r == self.0,
    {
        self.0
    }

    /// Whether this index denotes a square on the board.
    pub fn is_valid(&self) -> (r: bool)
        ensures
            r == (self.0 < 361),
    {
        self.0 < SQUARE_COUNT
    }

    /// One step in direction `dir`, with wrapping index arithmetic; a step
    /// off the board yields an index that `is_valid` or `distance` rejects.
    pub fn shift(self, dir: Direction) -> (r: Self)
        ensures
            r.0 == shift_wrap(self.0 as int, dir),
    {
        let v: u32 = self.0 as u32;
        let shifted: u32 = match dir {
            Direction::North => (v + 0x10000 - 19) % 0x10000,
            Direction::South => (v + 19) % 0x10000,
            Direction::East => (v + 1) % 0x10000,
            Direction::West => (v + 0x10000 - 1) % 0x10000,
            Direction::NorthEast => (v + 0x10000 - 18) % 0x10000,
            Direction::NorthWest => (v + 0x10000 - 20) % 0x10000,
            Direction::SouthEast => (v + 20) % 0x10000,
            Direction::SouthWest => (v + 18) % 0x10000,
        };
        Square(shifted as u16)
    }

    /// Chebyshev distance to `other`: the larger of the file and rank
    /// deltas. A unit step that crossed a row boundary has distance above 1.
    pub fn distance(&self, other: Square) -> (r: u8)
        requires
            self.0 < 361,
            other.0 < 361,
        ensures
            r == sq_distance(self.0 as int, other.0 as int),
    {
        let f1: u8 = (self.0 % ROW_SIZE) as u8;
        let f2: u8 = (other.0 % ROW_SIZE) as u8;
        let r1: u8 = (self.0 / ROW_SIZE) as u8;
        let r2: u8 = (other.0 / ROW_SIZE) as u8;
        let df: u8 = if f1 >= f2 {
            f1 - f2
        } else {
            f2 - f1
        };
        let dr: u8 = if r1 >= r2 {
            r1 - r2
        } else {
            r2 - r1
        };
        if df >= dr {
            df
        } else {
            dr
        }
    }
}

/// The side opposite to `s`; `Empty` flips to itself.
pub open spec fn flip_stone(s: Stone) -> Stone {
    match s {
        Stone::Black => Stone::White,
        Stone::White => Stone::Black,
        Stone::Empty => Stone::Empty,
    }
}

impl Stone {
    pub fn flip(&self) -> (r: Stone)
        ensures
            r == flip_stone(*self),
    {
        match *self {
            Stone::Black => Stone::White,
            Stone::White => Stone::Black,
            Stone::Empty => Stone::Empty,
        }
    }

    /// The text form of a stone: 'x' for Black, 'o' for White, '.' for an
    /// empty cell.
    pub fn as_char(&self) -> (r: char)
        ensures
            r == (match *self {
                Stone::Black => 'x',
                Stone::White => 'o',
                Stone::Empty => '.',
            }),
    {
        match *self {
            Stone::Black => 'x',
            Stone::White => 'o',
            Stone::Empty => '.',
        }
    }
}

} // verus!
