//! The full grid state for one level: tiles, borders and pieces, with
//! neighbor lookups and beam targeting.

use vstd::prelude::*;

use crate::element::{BeamTarget, BeamTargetKind, Border, Manipulator, Piece, Tile};
use crate::grid::{Grid, GridMap};
use crate::{BoardCoords, Dimensions, Direction, Orientation, MAX_BOARD_COLS, MAX_BOARD_ROWS};

verus! {

/// Step from a cell to its neighbor in a direction, `None` at the edge of
/// the dimensions.
pub open spec fn sp_neighbor(dims: Dimensions, c: BoardCoords, d: Direction) -> Option<
    BoardCoords,
> {
    match d {
        Direction::Up => if c.row > 0 {
            Some(BoardCoords { row: (c.row - 1) as usize, col: c.col })
        } else {
            None
        },
        Direction::Left => if c.col > 0 {
            Some(BoardCoords { row: c.row, col: (c.col - 1) as usize })
        } else {
            None
        },
        Direction::Down => if c.row + 1 < dims.rows {
            Some(BoardCoords { row: (c.row + 1) as usize, col: c.col })
        } else {
            None
        },
        Direction::Right => if c.col + 1 < dims.cols {
            Some(BoardCoords { row: c.row, col: (c.col + 1) as usize })
        } else {
            None
        },
    }
}

pub open spec fn spec_opposite(d: Direction) -> Direction {
    match d {
        Direction::Up => Direction::Down,
        Direction::Down => Direction::Up,
        Direction::Left => Direction::Right,
        Direction::Right => Direction::Left,
    }
}

fn opposite(d: Direction) -> (r: Direction)
    ensures
        r == spec_opposite(d),
{
    match d {
        Direction::Up => Direction::Down,
        Direction::Down => Direction::Up,
        Direction::Left => Direction::Right,
        Direction::Right => Direction::Left,
    }
}

/// The piece grid after every member of `members` slides one cell in `d`:
/// a cell receives the piece of its member neighbor against `d`, a member
/// cell nothing moved into empties, and all other cells keep their piece.
pub open spec fn sp_moved_pieces(
    dims: Dimensions,
    pieces: Seq<Option<Piece>>,
    members: Seq<bool>,
    d: Direction,
) -> Seq<Option<Piece>> {
    Seq::new(
        pieces.len(),
        |i: int|
            {
                let x = dims.spec_coords(i);
                let src = sp_neighbor(dims, x, spec_opposite(d));
                if src is Some && members[dims.spec_index(src->Some_0)] {
                    pieces[dims.spec_index(src->Some_0)]
                } else if members[i] {
                    None
                } else {
                    pieces[i]
                }
            },
    )
}

/// Previous cell in reverse row-major order, wrapping from (0, 0) to the
/// last cell.
pub open spec fn sp_prev_pos(dims: Dimensions, c: BoardCoords) -> BoardCoords {
    if c.col > 0 {
        BoardCoords { row: c.row, col: (c.col - 1) as usize }
    } else {
        let col = (dims.cols - 1) as usize;
        if c.row > 0 {
            BoardCoords { row: (c.row - 1) as usize, col }
        } else {
            BoardCoords { row: (dims.rows - 1) as usize, col }
        }
    }
}

/// Next cell in row-major order, wrapping from the last cell to (0, 0).
pub open spec fn sp_next_pos(dims: Dimensions, c: BoardCoords) -> BoardCoords {
    if c.col + 1 < dims.cols {
        BoardCoords { row: c.row, col: (c.col + 1) as usize }
    } else if c.row + 1 < dims.rows {
        BoardCoords { row: (c.row + 1) as usize, col: 0 }
    } else {
        BoardCoords { row: 0, col: 0 }
    }
}

pub struct Board {
    pub dims: Dimensions,
    pub tiles: GridMap<Tile>,
    pub horz_borders: GridMap<Border>,
    pub vert_borders: GridMap<Border>,
    pub pieces: GridMap<Piece>,
}

impl Board {
    /// Dimensions within the supported maximum and all four grids sized to
    /// them: horizontal borders form a (rows+1) x cols grid, vertical ones
    /// a rows x (cols+1) grid.
    pub open spec fn wf(self) -> bool {
        &&& self.dims.rows <= MAX_BOARD_ROWS
        &&& self.dims.cols <= MAX_BOARD_COLS
        &&& self.tiles.wf()
        &&& self.tiles.spec_dims() == self.dims
        &&& self.horz_borders.wf()
        &&& self.horz_borders.spec_dims() == (Dimensions {
            rows: (self.dims.rows + 1) as usize,
            cols: self.dims.cols,
        })
        &&& self.vert_borders.wf()
        &&& self.vert_borders.spec_dims() == (Dimensions {
            rows: self.dims.rows,
            cols: (self.dims.cols + 1) as usize,
        })
        &&& self.pieces.wf()
        &&& self.pieces.spec_dims() == self.dims
    }

    pub fn new(rows: usize, cols: usize) -> (r: Board)
        requires
            rows <= MAX_BOARD_ROWS,
            cols <= MAX_BOARD_COLS,
        ensures
            r.wf(),
            r.dims == (Dimensions { rows, cols }),
            forall|i: int| 0 <= i < r.tiles@.len() ==> r.tiles@[i] is None,
            forall|i: int| 0 <= i < r.horz_borders@.len() ==> r.horz_borders@[i] is None,
            forall|i: int| 0 <= i < r.vert_borders@.len() ==> r.vert_borders@[i] is None,
            forall|i: int| 0 <= i < r.pieces@.len() ==> r.pieces@[i] is None,
    {
        let dims = Dimensions::new(rows, cols);
        let tiles = GridMap::new(rows, cols);
        let horz_borders = GridMap::new(rows + 1, cols);
        let vert_borders = GridMap::new(rows, cols + 1);
        let pieces = GridMap::new(rows, cols);
        Board { dims, tiles, horz_borders, vert_borders, pieces }
    }

    /// Overwrite this board's contents with another board's of the same size.
    pub fn copy_state_from(&mut self, other: &Board)
        requires
            old(self).wf(),
            other.wf(),
            old(self).dims == other.dims,
        ensures
            final(self).wf(),
            final(self).dims == old(self).dims,
            final(self).tiles@ == other.tiles@,
            final(self).horz_borders@ == other.horz_borders@,
            final(self).vert_borders@ == other.vert_borders@,
            final(self).pieces@ == other.pieces@,
    {
        self.tiles.mirror(&other.tiles);
        self.horz_borders.mirror(&other.horz_borders);
        self.vert_borders.mirror(&other.vert_borders);
        self.pieces.mirror(&other.pieces);
    }

    pub open spec fn spec_neighbor(self, c: BoardCoords, d: Direction) -> Option<BoardCoords> {
        sp_neighbor(self.dims, c, d)
    }

    pub fn neighbor(&self, coords: BoardCoords, direction: Direction) -> (r: Option<BoardCoords>)
        requires
            self.wf(),
            self.dims.spec_contains(coords),
        ensures
            r == self.spec_neighbor(coords, direction),
            r matches Some(n) ==> self.dims.spec_contains(n),
    {
        match direction {
            Direction::Up => if coords.row > 0 {
                Some(BoardCoords::new(coords.row - 1, coords.col))
            } else {
                None
            },
            Direction::Left => if coords.col > 0 {
                Some(BoardCoords::new(coords.row, coords.col - 1))
            } else {
                None
            },
            Direction::Down => if coords.row + 1 < self.dims.rows {
                Some(BoardCoords::new(coords.row + 1, coords.col))
            } else {
                None
            },
            Direction::Right => if coords.col + 1 < self.dims.cols {
                Some(BoardCoords::new(coords.row, coords.col + 1))
            } else {
                None
            },
        }
    }

    pub open spec fn spec_borders(self, orientation: Orientation) -> GridMap<Border> {
        match orientation {
            Orientation::Horizontal => self.horz_borders,
            Orientation::Vertical => self.vert_borders,
        }
    }

    pub fn borders(&self, orientation: Orientation) -> (r: &GridMap<Border>)
        ensures
            *r == self.spec_borders(orientation),
    {
        match orientation {
            Orientation::Horizontal => &self.horz_borders,
            Orientation::Vertical => &self.vert_borders,
        }
    }

    /// The border stored in the slot a piece at `c` would cross when moving
    /// in `d`: the slot lies on the border grid of the flipped orientation.
    pub open spec fn spec_border_at(self, c: BoardCoords, d: Direction) -> Option<Border> {
        self.spec_borders(d.spec_orientation().spec_flip()).spec_get(c.spec_to_border_coords(d))
    }

    /// The border slot of a cell within the dimensions lies within its
    /// border grid.
    pub proof fn lemma_border_coords_contained(self, c: BoardCoords, d: Direction)
        requires
            self.wf(),
            self.dims.spec_contains(c),
        ensures
            self.spec_borders(d.spec_orientation().spec_flip()).spec_dims().spec_contains(
                c.spec_to_border_coords(d),
            ),
    {
    }

    /// Measure for the ray cast: cells remaining before the board edge in
    /// direction `d`.
    pub open spec fn sp_beam_fuel(self, c: BoardCoords, d: Direction) -> int {
        match d {
            Direction::Up => c.row as int,
            Direction::Left => c.col as int,
            Direction::Down => self.dims.rows - c.row,
            Direction::Right => self.dims.cols - c.col,
        }
    }

    /// First obstruction of a beam cast from `c` in direction `d`: the
    /// nearest Wall border slot or occupied cell, else the boundary slot.
    pub open spec fn sp_beam_target(self, c: BoardCoords, d: Direction) -> BeamTarget
        decreases self.sp_beam_fuel(c, d),
    {
        let bc = c.spec_to_border_coords(d);
        if self.spec_border_at(c, d) == Some(Border::Wall) {
            BeamTarget { kind: BeamTargetKind::Border, coords: bc }
        } else {
            match self.spec_neighbor(c, d) {
                None => BeamTarget { kind: BeamTargetKind::Border, coords: bc },
                Some(n) => if self.pieces.spec_get(n) is Some {
                    BeamTarget { kind: BeamTargetKind::Piece, coords: n }
                } else {
                    self.sp_beam_target(n, d)
                },
            }
        }
    }

    /// A beam target of kind Piece points at an occupied cell within the
    /// dimensions.
    pub proof fn lemma_beam_target_valid(self, c: BoardCoords, d: Direction)
        requires
            self.wf(),
            self.dims.spec_contains(c),
        ensures
            self.sp_beam_target(c, d).kind is Piece ==> {
                &&& self.dims.spec_contains(self.sp_beam_target(c, d).coords)
                &&& self.pieces.spec_get(self.sp_beam_target(c, d).coords) is Some
            },
        decreases self.sp_beam_fuel(c, d),
    {
        if self.spec_border_at(c, d) != Some(Border::Wall) {
            match self.spec_neighbor(c, d) {
                None => {},
                Some(n) => {
                    if self.pieces.spec_get(n) is None {
                        self.lemma_beam_target_valid(n, d);
                    }
                },
            }
        }
    }

    /// Beam targets depend only on dimensions, borders and piece occupancy:
    /// two boards that agree on those ray-cast identically.
    pub proof fn lemma_beam_target_congruent(self, other: Board, c: BoardCoords, d: Direction)
        requires
            self.wf(),
            other.wf(),
            self.dims == other.dims,
            self.horz_borders@ == other.horz_borders@,
            self.vert_borders@ == other.vert_borders@,
            forall|i: int|
                0 <= i < self.pieces@.len() ==> (#[trigger] self.pieces@[i] is Some
                    <==> other.pieces@[i] is Some),
            self.dims.spec_contains(c),
        ensures
            self.sp_beam_target(c, d) == other.sp_beam_target(c, d),
        decreases self.sp_beam_fuel(c, d),
    {
        if self.spec_border_at(c, d) != Some(Border::Wall) {
            match self.spec_neighbor(c, d) {
                None => {},
                Some(n) => {
                    crate::lemma_index_in_range(self.dims, n);
                    if self.pieces.spec_get(n) is None {
                        self.lemma_beam_target_congruent(other, n, d);
                    }
                },
            }
        }
    }

    /// A beam target that may be stored in a manipulator: of kind Piece only
    /// if it points at an occupied cell within the dimensions.
    pub open spec fn target_valid(self, t: BeamTarget) -> bool {
        t.kind is Piece ==> self.dims.spec_contains(t.coords) && self.pieces.spec_get(
            t.coords,
        ) is Some
    }

    /// Every manipulator's cached targets are filled for its emitter
    /// directions and point at real pieces. Established by `retarget_beams`
    /// and invalidated by any later piece, border or tile mutation.
    pub open spec fn targets_ready(self) -> bool {
        forall|i: int|
            0 <= i < self.pieces@.len() ==> match #[trigger] self.pieces@[i] {
                Some(Piece::Manipulator(m)) => m.targets_ok() && forall|d: Direction|
                    m.spec_emits(d) ==> self.target_valid(#[trigger] m.spec_target(d)->Some_0),
                _ => true,
            }
    }

    /// What a manipulator's cached targets must be right after a retarget
    /// pass: the ray-cast result for each emitter direction, the stale slot
    /// for the others.
    pub open spec fn sp_retargeted_piece(self, c: BoardCoords, p: Option<Piece>, q: Option<
        Piece,
    >) -> bool {
        match p {
            None => q is None,
            Some(Piece::Particle(t)) => q == Some(Piece::Particle(t)),
            Some(Piece::Manipulator(m)) => match q {
                Some(Piece::Manipulator(m2)) => {
                    &&& m2.emitters == m.emitters
                    &&& forall|d: Direction|
                        #[trigger] m2.spec_target(d) == if m.spec_emits(d) {
                            Some(self.sp_beam_target(c, d))
                        } else {
                            m.spec_target(d)
                        }
                },
                _ => false,
            },
        }
    }

    /// Re-run beam targeting for every manipulator and overwrite its cached
    /// targets. Tiles, borders and piece occupancy are untouched.
    pub fn retarget_beams(&mut self)
        requires
            old(self).wf(),
        ensures
            final(self).wf(),
            final(self).dims == old(self).dims,
            final(self).tiles@ == old(self).tiles@,
            final(self).horz_borders@ == old(self).horz_borders@,
            final(self).vert_borders@ == old(self).vert_borders@,
            final(self).pieces@.len() == old(self).pieces@.len(),
            forall|i: int|
                0 <= i < old(self).pieces@.len() ==> old(self).sp_retargeted_piece(
                    old(self).dims.spec_coords(i),
                    old(self).pieces@[i],
                    #[trigger] final(self).pieces@[i],
                ),
            final(self).targets_ready(),
    {
        let mut new_pieces = GridMap::<Piece>::like(&self.pieces);
        let cells = self.dims.iter();
        let n = cells.len();
        let mut k: usize = 0;
        while k < n
            invariant
                self == old(self),
                self.wf(),
                n == cells@.len(),
                n == self.dims.area(),
                k <= n,
                forall|j: int|
                    0 <= j < n ==> #[trigger] cells@[j] == self.dims.spec_coords(j)
                        && self.dims.spec_contains(cells@[j]) && self.dims.spec_index(cells@[j])
                        == j,
                new_pieces.wf(),
                new_pieces.spec_dims() == self.dims,
                new_pieces@.len() == self.pieces@.len(),
                forall|j: int|
                    k <= j < n ==> #[trigger] new_pieces@[j] is None,
                forall|j: int|
                    0 <= j < k ==> self.sp_retargeted_piece(
                        self.dims.spec_coords(j),
                        self.pieces@[j],
                        #[trigger] new_pieces@[j],
                    ),
            decreases n - k,
        {
            let c = cells[k];
            proof {
                crate::lemma_index_in_range(self.dims, c);
            }
            match self.pieces.get(c) {
                None => {},
                Some(Piece::Particle(p)) => {
                    new_pieces.set(c, Some(Piece::Particle(p)));
                },
                Some(Piece::Manipulator(m)) => {
                    let mut m2 = m;
                    if m2.emits(Direction::Up) {
                        let t = self.find_beam_target(c, Direction::Up);
                        m2.set_target(Direction::Up, t);
                    }
                    if m2.emits(Direction::Left) {
                        let t = self.find_beam_target(c, Direction::Left);
                        m2.set_target(Direction::Left, t);
                    }
                    if m2.emits(Direction::Down) {
                        let t = self.find_beam_target(c, Direction::Down);
                        m2.set_target(Direction::Down, t);
                    }
                    if m2.emits(Direction::Right) {
                        let t = self.find_beam_target(c, Direction::Right);
                        m2.set_target(Direction::Right, t);
                    }
                    proof {
                        assert forall|d: Direction| #[trigger]
                            m2.spec_target(d) == if m.spec_emits(d) {
                                Some(self.sp_beam_target(c, d))
                            } else {
                                m.spec_target(d)
                            } by {
                            match d {
                                Direction::Up => {},
                                Direction::Left => {},
                                Direction::Down => {},
                                Direction::Right => {},
                            }
                        }
                    }
                    new_pieces.set(c, Some(Piece::Manipulator(m2)));
                },
            }
            k = k + 1;
        }
        self.pieces = new_pieces;
        proof {
            assert forall|i: int|
                0 <= i < self.pieces@.len() implies match #[trigger] self.pieces@[i] {
                Some(Piece::Manipulator(m)) => m.targets_ok() && forall|d: Direction|
                    m.spec_emits(d) ==> self.target_valid(#[trigger] m.spec_target(d)->Some_0),
                _ => true,
            } by {
                crate::lemma_coords_of_index(self.dims, i);
                let c = self.dims.spec_coords(i);
                assert(old(self).sp_retargeted_piece(c, old(self).pieces@[i], self.pieces@[i]));
                match self.pieces@[i] {
                    Some(Piece::Manipulator(m)) => {
                        assert forall|d: Direction|
                            m.spec_emits(d) implies self.target_valid(
                            #[trigger] m.spec_target(d)->Some_0,
                        ) by {
                            old(self).lemma_beam_target_valid(c, d);
                            let t = old(self).sp_beam_target(c, d);
                            if t.kind is Piece {
                                crate::lemma_index_in_range(self.dims, t.coords);
                            }
                        }
                    },
                    _ => {},
                }
            }
        }
    }

    /// Take the piece at `from_coords` and put it at `to_coords`.
    pub fn move_piece(&mut self, from_coords: BoardCoords, to_coords: BoardCoords)
        requires
            old(self).wf(),
            old(self).dims.spec_contains(from_coords),
            old(self).dims.spec_contains(to_coords),
        ensures
            final(self).wf(),
            final(self).dims == old(self).dims,
            final(self).tiles@ == old(self).tiles@,
            final(self).horz_borders@ == old(self).horz_borders@,
            final(self).vert_borders@ == old(self).vert_borders@,
            final(self).pieces@ == old(self).pieces@.update(
                old(self).dims.spec_index(from_coords),
                None,
            ).update(
                old(self).dims.spec_index(to_coords),
                old(self).pieces.spec_get(from_coords),
            ),
    {
        let piece = self.pieces.take(from_coords);
        self.pieces.set(to_coords, piece);
    }

    /// Slide every piece of `move_set` one cell in `direction` as a unit.
    /// Every member must hold a piece, have a neighbor in the direction, and
    /// may only move into a cell that is empty or vacated by another member.
    pub fn move_pieces(&mut self, move_set: &crate::grid::GridSet, direction: Direction)
        requires
            old(self).wf(),
            move_set.wf(),
            move_set.spec_dims() == old(self).dims,
            forall|c: BoardCoords|
                old(self).dims.spec_contains(c) && #[trigger] move_set.spec_contains(c) ==> {
                    &&& old(self).pieces.spec_get(c) is Some
                    &&& old(self).spec_neighbor(c, direction) is Some
                    &&& (!move_set.spec_contains(old(self).spec_neighbor(c, direction)->Some_0)
                        ==> old(self).pieces.spec_get(
                        old(self).spec_neighbor(c, direction)->Some_0,
                    ) is None)
                },
        ensures
            final(self).wf(),
            final(self).dims == old(self).dims,
            final(self).tiles@ == old(self).tiles@,
            final(self).horz_borders@ == old(self).horz_borders@,
            final(self).vert_borders@ == old(self).vert_borders@,
            final(self).pieces@ =~= sp_moved_pieces(
                old(self).dims,
                old(self).pieces@,
                move_set@,
                direction,
            ),
    {
        let mut new_pieces = GridMap::<Piece>::like(&self.pieces);
        let cells = self.dims.iter();
        let n = cells.len();
        let back = opposite(direction);
        let ghost goal = sp_moved_pieces(self.dims, self.pieces@, move_set@, direction);
        let mut k: usize = 0;
        while k < n
            invariant
                self == old(self),
                self.wf(),
                move_set.wf(),
                move_set.spec_dims() == self.dims,
                back == spec_opposite(direction),
                n == cells@.len(),
                n == self.dims.area(),
                k <= n,
                forall|j: int|
                    0 <= j < n ==> #[trigger] cells@[j] == self.dims.spec_coords(j)
                        && self.dims.spec_contains(cells@[j]) && self.dims.spec_index(cells@[j])
                        == j,
                new_pieces.wf(),
                new_pieces.spec_dims() == self.dims,
                new_pieces@.len() == self.pieces@.len(),
                goal == sp_moved_pieces(self.dims, self.pieces@, move_set@, direction),
                goal.len() == self.pieces@.len(),
                forall|j: int| 0 <= j < k ==> #[trigger] new_pieces@[j] == goal[j],
            decreases n - k,
        {
            let c = cells[k];
            proof {
                crate::lemma_index_in_range(self.dims, c);
            }
            let src = self.neighbor(c, back);
            let value = match src {
                Some(s) => {
                    proof {
                        crate::lemma_index_in_range(self.dims, s);
                    }
                    if move_set.contains(s) {
                        self.pieces.get(s)
                    } else if move_set.contains(c) {
                        None
                    } else {
                        self.pieces.get(c)
                    }
                },
                None => {
                    if move_set.contains(c) {
                        None
                    } else {
                        self.pieces.get(c)
                    }
                },
            };
            new_pieces.set(c, value);
            k = k + 1;
        }
        self.pieces = new_pieces;
    }

    pub open spec fn sp_is_manipulator(self, c: BoardCoords) -> bool {
        self.pieces.spec_get(c) matches Some(Piece::Manipulator(_))
    }

    /// Walk up to `steps` cells from `c` (forward in row-major order, or
    /// backward), wrapping at the ends, and stop at the first manipulator.
    pub open spec fn sp_scan_manipulator(
        self,
        c: BoardCoords,
        steps: nat,
        forward: bool,
    ) -> Option<BoardCoords>
        decreases steps,
    {
        if steps == 0 {
            None
        } else {
            let c2 = if forward {
                sp_next_pos(self.dims, c)
            } else {
                sp_prev_pos(self.dims, c)
            };
            if self.sp_is_manipulator(c2) {
                Some(c2)
            } else {
                self.sp_scan_manipulator(c2, (steps - 1) as nat, forward)
            }
        }
    }

    /// The nearest manipulator strictly before `coords` in reverse
    /// row-major order, wrapping around; starts from (0, 0) when `coords`
    /// is `None`.
    pub fn prev_manipulator(&self, coords: Option<BoardCoords>) -> (r: Option<BoardCoords>)
        requires
            self.wf(),
            self.dims.rows >= 1,
            self.dims.cols >= 1,
            coords matches Some(c) ==> self.dims.spec_contains(c),
        ensures
            r == self.sp_scan_manipulator(
                match coords {
                    Some(c) => c,
                    None => BoardCoords { row: 0, col: 0 },
                },
                self.dims.area() as nat,
                false,
            ),
            r matches Some(c2) ==> self.dims.spec_contains(c2) && self.sp_is_manipulator(c2),
    {
        let mut c = match coords {
            Some(c) => c,
            None => BoardCoords::new(0, 0),
        };
        let ghost goal = self.sp_scan_manipulator(c, self.dims.area() as nat, false);
        proof {
            assert(self.dims.area() <= 256) by (nonlinear_arith)
                requires
                    self.dims.area() == self.dims.rows * self.dims.cols,
                    self.dims.rows <= 16,
                    self.dims.cols <= 16,
            ;
        }
        let mut remaining: usize = self.dims.rows * self.dims.cols;
        while remaining > 0
            invariant
                self.wf(),
                self.dims.rows >= 1,
                self.dims.cols >= 1,
                self.dims.spec_contains(c),
                self.sp_scan_manipulator(c, remaining as nat, false) == goal,
                goal == self.sp_scan_manipulator(
                    match coords {
                        Some(cc) => cc,
                        None => BoardCoords { row: 0, col: 0 },
                    },
                    self.dims.area() as nat,
                    false,
                ),
            decreases remaining,
        {
            let ghost c0 = c;
            if c.col > 0 {
                c.col = c.col - 1;
            } else {
                c.col = self.dims.cols - 1;
                if c.row > 0 {
                    c.row = c.row - 1;
                } else {
                    c.row = self.dims.rows - 1;
                }
            }
            proof {
                assert(c == sp_prev_pos(self.dims, c0));
                assert(self.sp_scan_manipulator(c0, remaining as nat, false) == (
                if self.sp_is_manipulator(c) {
                    Some(c)
                } else {
                    self.sp_scan_manipulator(c, (remaining - 1) as nat, false)
                }));
            }
            if let Some(Piece::Manipulator(_)) = self.pieces.get(c) {
                proof {
                    assert(self.sp_is_manipulator(c));
                    assert(goal == Some(c));
                }
                return Some(c);
            }
            remaining = remaining - 1;
        }
        None
    }

    /// The nearest manipulator strictly after `coords` in row-major order,
    /// wrapping around; starts from the last cell when `coords` is `None`.
    pub fn next_manipulator(&self, coords: Option<BoardCoords>) -> (r: Option<BoardCoords>)
        requires
            self.wf(),
            self.dims.rows >= 1,
            self.dims.cols >= 1,
            coords matches Some(c) ==> self.dims.spec_contains(c),
        ensures
            r == self.sp_scan_manipulator(
                match coords {
                    Some(c) => c,
                    None => BoardCoords {
                        row: (self.dims.rows - 1) as usize,
                        col: (self.dims.cols - 1) as usize,
                    },
                },
                self.dims.area() as nat,
                true,
            ),
            r matches Some(c2) ==> self.dims.spec_contains(c2) && self.sp_is_manipulator(c2),
    {
        let max_row = self.dims.rows - 1;
        let max_col = self.dims.cols - 1;
        let mut c = match coords {
            Some(c) => c,
            None => BoardCoords::new(max_row, max_col),
        };
        let ghost goal = self.sp_scan_manipulator(c, self.dims.area() as nat, true);
        proof {
            assert(self.dims.area() <= 256) by (nonlinear_arith)
                requires
                    self.dims.area() == self.dims.rows * self.dims.cols,
                    self.dims.rows <= 16,
                    self.dims.cols <= 16,
            ;
        }
        let mut remaining: usize = self.dims.rows * self.dims.cols;
        while remaining > 0
            invariant
                self.wf(),
                self.dims.rows >= 1,
                self.dims.cols >= 1,
                max_row == self.dims.rows - 1,
                max_col == self.dims.cols - 1,
                self.dims.spec_contains(c),
                self.sp_scan_manipulator(c, remaining as nat, true) == goal,
                goal == self.sp_scan_manipulator(
                    match coords {
                        Some(cc) => cc,
                        None => BoardCoords {
                            row: (self.dims.rows - 1) as usize,
                            col: (self.dims.cols - 1) as usize,
                        },
                    },
                    self.dims.area() as nat,
                    true,
                ),
            decreases remaining,
        {
            let ghost c0 = c;
            if c.col < max_col {
                c.col = c.col + 1;
            } else {
                c.col = 0;
                if c.row < max_row {
                    c.row = c.row + 1;
                } else {
                    c.row = 0;
                }
            }
            proof {
                assert(c == sp_next_pos(self.dims, c0));
                assert(self.sp_scan_manipulator(c0, remaining as nat, true) == (
                if self.sp_is_manipulator(c) {
                    Some(c)
                } else {
                    self.sp_scan_manipulator(c, (remaining - 1) as nat, true)
                }));
            }
            if let Some(Piece::Manipulator(_)) = self.pieces.get(c) {
                proof {
                    assert(self.sp_is_manipulator(c));
                    assert(goal == Some(c));
                }
                return Some(c);
            }
            remaining = remaining - 1;
        }
        None
    }

    pub fn remove_piece(&mut self, coords: BoardCoords)
        requires
            old(self).wf(),
            old(self).dims.spec_contains(coords),
        ensures
            final(self).wf(),
            final(self).dims == old(self).dims,
            final(self).tiles@ == old(self).tiles@,
            final(self).horz_borders@ == old(self).horz_borders@,
            final(self).vert_borders@ == old(self).vert_borders@,
            final(self).pieces@ == old(self).pieces@.update(
                old(self).dims.spec_index(coords),
                None,
            ),
    {
        self.pieces.take(coords);
    }

    /// Step cell by cell from `coords` along `direction` until a Wall border
    /// slot, the board edge, or an occupied cell stops the beam.
    pub fn find_beam_target(&self, coords: BoardCoords, direction: Direction) -> (r: BeamTarget)
        requires
            self.wf(),
            self.dims.spec_contains(coords),
        ensures
            r == self.sp_beam_target(coords, direction),
    {
        let mut piece_coords = coords;
        let border_orientation = direction.orientation().flip();

        loop
            invariant
                self.wf(),
                self.dims.spec_contains(piece_coords),
                border_orientation == direction.spec_orientation().spec_flip(),
                self.sp_beam_target(piece_coords, direction) == self.sp_beam_target(
                    coords,
                    direction,
                ),
            decreases self.sp_beam_fuel(piece_coords, direction),
        {
            let border_coords = piece_coords.to_border_coords(direction);
            proof {
                self.lemma_border_coords_contained(piece_coords, direction);
            }
            if let Some(Border::Wall) = self.borders(border_orientation).get(border_coords) {
                return BeamTarget::border(border_coords);
            }
            piece_coords = match self.neighbor(piece_coords, direction) {
                Some(neighbor) => neighbor,
                None => {
                    return BeamTarget::border(border_coords);
                },
            };
            if self.pieces.get(piece_coords).is_some() {
                return BeamTarget::piece(piece_coords);
            }
        }
    }
}

} // verus!
