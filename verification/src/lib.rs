//! Engine-agnostic rule core of a grid puzzle: board state, legal group
//! moves along beam links, support analysis, level progress, and the PBC1
//! level codec.

use vstd::prelude::*;

pub mod board;
pub mod movement;
pub mod pbc1;
pub mod level;
pub mod support;
pub mod element;
pub mod grid;

verus! {

/// Largest number of rows a board may have.
pub const MAX_BOARD_ROWS: usize = 15;

/// Largest number of columns a board may have.
pub const MAX_BOARD_COLS: usize = 15;

/// Color carried by tiles and particles.
#[derive(Debug, Clone, Copy, PartialEq, Eq, Structural)]
pub enum Tint {
    White,
    Green,
    Yellow,
    Red,
}

impl Tint {
    /// Inverse of the codec's 2-bit tint code: 0 White, 1 Green, 2 Yellow, 3 Red.
    pub fn from_repr(repr: u8) -> (r: Option<Tint>)
        ensures
            r == spec_tint_from_repr(repr),
    {
        match repr {
            0 => Some(Tint::White),
            1 => Some(Tint::Green),
            2 => Some(Tint::Yellow),
            3 => Some(Tint::Red),
            _ => None,
        }
    }
}

pub open spec fn spec_tint_from_repr(repr: u8) -> Option<Tint> {
    match repr {
        0 => Some(Tint::White),
        1 => Some(Tint::Green),
        2 => Some(Tint::Yellow),
        3 => Some(Tint::Red),
        _ => None,
    }
}

/// One of the four cardinal directions on the grid.
#[derive(Debug, Clone, Copy, PartialEq, Eq, Structural)]
pub enum Direction {
    Up,
    Left,
    Down,
    Right,
}

impl Direction {
    pub fn orientation(self) -> (r: Orientation)
        ensures
            r == self.spec_orientation(),
    {
        match self {
            Self::Up | Self::Down => Orientation::Vertical,
            Self::Left | Self::Right => Orientation::Horizontal,
        }
    }

    pub open spec fn spec_orientation(self) -> Orientation {
        match self {
            Direction::Up | Direction::Down => Orientation::Vertical,
            Direction::Left | Direction::Right => Orientation::Horizontal,
        }
    }
}

/// Axis of a border grid: horizontal borders separate rows, vertical ones
/// separate columns.
#[derive(Debug, Clone, Copy, PartialEq, Eq, Structural)]
pub enum Orientation {
    Horizontal,
    Vertical,
}

impl Orientation {
    pub fn flip(self) -> (r: Orientation)
        ensures
            r == self.spec_flip(),
    {
        match self {
            Self::Horizontal => Orientation::Vertical,
            Self::Vertical => Orientation::Horizontal,
        }
    }

    pub open spec fn spec_flip(self) -> Orientation {
        match self {
            Orientation::Horizontal => Orientation::Vertical,
            Orientation::Vertical => Orientation::Horizontal,
        }
    }
}

/// Board size in rows and columns.
#[derive(Debug, Clone, Copy, PartialEq, Eq, Structural)]
pub struct Dimensions {
    pub rows: usize,
    pub cols: usize,
}

/// A cell position: zero-based row and column.
#[derive(Debug, Default, Clone, Copy, PartialEq, Eq, Structural)]
pub struct BoardCoords {
    pub row: usize,
    pub col: usize,
}

impl Dimensions {
    pub fn new(rows: usize, cols: usize) -> (r: Dimensions)
        ensures
            r.rows == rows && r.cols == cols,
    {
        Dimensions { rows, cols }
    }

    pub open spec fn spec_contains(self, coords: BoardCoords) -> bool {
        coords.row < self.rows && coords.col < self.cols
    }

    pub fn contains(&self, coords: BoardCoords) -> (r: bool)
        ensures
            r == self.spec_contains(coords),
    {
        (coords.row < self.rows) && (coords.col < self.cols)
    }

    /// Row-major index of a cell.
    pub open spec fn spec_index(self, coords: BoardCoords) -> int {
        coords.row * self.cols + coords.col
    }

    /// Cell of a row-major index.
    pub open spec fn spec_coords(self, idx: int) -> BoardCoords
        recommends
            self.cols > 0,
    {
        BoardCoords { row: (idx / self.cols as int) as usize, col: (idx % self.cols as int) as usize }
    }

    /// Number of cells.
    pub open spec fn area(self) -> int {
        self.rows * self.cols
    }

    /// Dimensions small enough that all index arithmetic stays in bounds.
    pub open spec fn bounded(self) -> bool {
        self.rows <= 16 && self.cols <= 16
    }

    pub fn index(&self, coords: BoardCoords) -> (r: usize)
        requires
            self.bounded(),
            self.spec_contains(coords),
        ensures
            r == self.spec_index(coords),
    {
        proof {
            assert(coords.row * self.cols + coords.col < 256) by (nonlinear_arith)
                requires
                    coords.row < self.rows,
                    coords.col < self.cols,
                    self.rows <= 16,
                    self.cols <= 16,
            ;
        }
        coords.row * self.cols + coords.col
    }

    pub fn coords(&self, idx: usize) -> (r: BoardCoords)
        requires
            self.bounded(),
            self.cols > 0,
            idx < self.area(),
        ensures
            r == self.spec_coords(idx as int),
            self.spec_contains(r),
            self.spec_index(r) == idx,
    {
        proof {
            vstd::arithmetic::div_mod::lemma_fundamental_div_mod(idx as int, self.cols as int);
            vstd::arithmetic::div_mod::lemma_mod_bound(idx as int, self.cols as int);
            let q = idx as int / self.cols as int;
            let m = idx as int % self.cols as int;
            assert(0 <= q && q < self.rows && q * self.cols + m == idx) by (nonlinear_arith)
                requires
                    idx == self.cols * q + m,
                    0 <= m < self.cols,
                    0 <= idx < self.rows * self.cols,
                    self.cols >= 1,
            ;
        }
        BoardCoords::new(idx / self.cols, idx % self.cols)
    }

    /// All cells in row-major order.
    pub fn iter(self) -> (r: Vec<BoardCoords>)
        requires
            self.bounded(),
        ensures
            r@.len() == self.area(),
            forall|k: int|
                0 <= k < r@.len() ==> #[trigger] r@[k] == self.spec_coords(k)
                    && self.spec_contains(r@[k]) && self.spec_index(r@[k]) == k,
    {
        let mut result: Vec<BoardCoords> = Vec::new();
        let mut row: usize = 0;
        while row < self.rows
            invariant
                self.bounded(),
                row <= self.rows,
                result@.len() == row * self.cols,
                forall|k: int|
                    0 <= k < result@.len() ==> #[trigger] result@[k] == self.spec_coords(k)
                        && self.spec_contains(result@[k]) && self.spec_index(result@[k]) == k,
            decreases self.rows - row,
        {
            let mut col: usize = 0;
            while col < self.cols
                invariant
                    self.bounded(),
                    row < self.rows,
                    col <= self.cols,
                    result@.len() == row * self.cols + col,
                    forall|k: int|
                        0 <= k < result@.len() ==> #[trigger] result@[k] == self.spec_coords(k)
                            && self.spec_contains(result@[k]) && self.spec_index(result@[k]) == k,
                decreases self.cols - col,
            {
                let c = BoardCoords::new(row, col);
                proof {
                    let k = result@.len() as int;
                    vstd::arithmetic::div_mod::lemma_fundamental_div_mod_converse(
                        k,
                        self.cols as int,
                        row as int,
                        col as int,
                    );
                }
                result.push(c);
                col = col + 1;
            }
            proof {
                assert((row + 1) * self.cols == row * self.cols + self.cols) by (nonlinear_arith);
            }
            row = row + 1;
        }
        proof {
            assert(self.rows * self.cols == self.area());
        }
        result
    }
}

/// The cell of a row-major index within the area lies inside the dimensions,
/// and indexing it again gives the index back.
pub proof fn lemma_coords_of_index(dims: Dimensions, i: int)
    requires
        0 <= i < dims.area(),
    ensures
        dims.cols > 0,
        dims.spec_contains(dims.spec_coords(i)),
        dims.spec_index(dims.spec_coords(i)) == i,
{
    assert(dims.cols > 0 && dims.rows > 0) by (nonlinear_arith)
        requires
            0 <= i < dims.rows * dims.cols,
    ;
    vstd::arithmetic::div_mod::lemma_fundamental_div_mod(i, dims.cols as int);
    vstd::arithmetic::div_mod::lemma_mod_bound(i, dims.cols as int);
    let q = i / dims.cols as int;
    let m = i % dims.cols as int;
    assert(0 <= q && q < dims.rows && q * dims.cols + m == i) by (nonlinear_arith)
        requires
            i == dims.cols * q + m,
            0 <= m < dims.cols,
            0 <= i < dims.rows * dims.cols,
            dims.cols >= 1,
    ;
}

/// Indexing and then recovering the cell gives the cell back.
pub proof fn lemma_index_coords_roundtrip(dims: Dimensions, c: BoardCoords)
    requires
        dims.spec_contains(c),
    ensures
        0 <= dims.spec_index(c) < dims.area(),
        dims.spec_coords(dims.spec_index(c)) == c,
{
    lemma_index_in_range(dims, c);
    vstd::arithmetic::div_mod::lemma_fundamental_div_mod_converse(
        dims.spec_index(c),
        dims.cols as int,
        c.row as int,
        c.col as int,
    );
}

/// The row-major index of a cell inside the dimensions lies within the area.
pub proof fn lemma_index_in_range(dims: Dimensions, coords: BoardCoords)
    requires
        dims.spec_contains(coords),
    ensures
        0 <= dims.spec_index(coords) < dims.area(),
{
    assert(0 <= coords.row * dims.cols + coords.col < dims.rows * dims.cols) by (nonlinear_arith)
        requires
            coords.row < dims.rows,
            coords.col < dims.cols,
    ;
}

impl BoardCoords {
    pub fn new(row: usize, col: usize) -> (r: BoardCoords)
        ensures
            r.row == row && r.col == col,
    {
        BoardCoords { row, col }
    }

    /// Border slot adjacent to this cell in the given direction, on the
    /// border grid of the flipped orientation.
    pub open spec fn spec_to_border_coords(self, direction: Direction) -> BoardCoords {
        match direction {
            Direction::Up | Direction::Left => self,
            Direction::Down => BoardCoords { row: (self.row + 1) as usize, col: self.col },
            Direction::Right => BoardCoords { row: self.row, col: (self.col + 1) as usize },
        }
    }

    pub fn to_border_coords(self, direction: Direction) -> (r: BoardCoords)
        requires
            self.row < usize::MAX,
            self.col < usize::MAX,
        ensures
            r == self.spec_to_border_coords(direction),
    {
        match direction {
            Direction::Up | Direction::Left => self,
            Direction::Down => BoardCoords::new(self.row + 1, self.col),
            Direction::Right => BoardCoords::new(self.row, self.col + 1),
        }
    }
}

} // verus!
