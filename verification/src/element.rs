//! Things that occupy a board: tiles, borders, and pieces, plus the cached
//! beam targets of a manipulator.

use vstd::prelude::*;

use crate::{BoardCoords, Direction, Tint};

verus! {

/// A colored platform or collector occupying a cell.
#[derive(Debug, Clone, Copy, PartialEq, Eq, Structural)]
pub struct Tile {
    pub kind: TileKind,
    pub tint: Tint,
}

#[derive(Debug, Clone, Copy, PartialEq, Eq, Structural)]
pub enum TileKind {
    Platform,
    Collector,
}

impl TileKind {
    /// Inverse of the codec's 1-bit tile-kind code: 0 Platform, 1 Collector.
    pub fn from_repr(repr: u8) -> (r: Option<TileKind>)
        ensures
            r == spec_tile_kind_from_repr(repr),
    {
        match repr {
            0 => Some(TileKind::Platform),
            1 => Some(TileKind::Collector),
            _ => None,
        }
    }
}

pub open spec fn spec_tile_kind_from_repr(repr: u8) -> Option<TileKind> {
    match repr {
        0 => Some(TileKind::Platform),
        1 => Some(TileKind::Collector),
        _ => None,
    }
}

impl Tile {
    pub fn new(kind: TileKind, tint: Tint) -> (r: Tile)
        ensures
            r == (Tile { kind, tint }),
    {
        Tile { kind, tint }
    }
}

/// A wall or window on a cell edge. Walls stop beams and pieces; windows let
/// beams through but still stop pieces.
#[derive(Debug, Clone, Copy, PartialEq, Eq, Structural)]
pub enum Border {
    Wall,
    Window,
}

/// A particle or manipulator occupying a cell.
#[derive(Debug, Clone, Copy)]
pub enum Piece {
    Particle(Particle),
    Manipulator(Manipulator),
}

impl Piece {
    pub fn as_manipulator(&self) -> (r: Option<Manipulator>)
        ensures
            r == (match *self {
                Piece::Manipulator(m) => Some(m),
                _ => None::<Manipulator>,
            }),
    {
        if let Piece::Manipulator(manipulator) = self {
            Some(*manipulator)
        } else {
            None
        }
    }
}

/// A colored piece; white particles do not exist.
#[derive(Debug, Clone, Copy)]
pub struct Particle {
    pub tint: Tint,
}

impl Particle {
    pub fn new(tint: Tint) -> (r: Particle)
        requires
            tint != Tint::White,
        ensures
            r.tint == tint,
    {
        Particle { tint }
    }
}

/// Cached beam targets of a manipulator, one slot per direction.
#[derive(Debug, Clone, Copy)]
pub struct TargetMap {
    pub up: Option<BeamTarget>,
    pub left: Option<BeamTarget>,
    pub down: Option<BeamTarget>,
    pub right: Option<BeamTarget>,
}

/// A piece that projects one or two directional beams.
#[derive(Debug, Clone, Copy)]
pub struct Manipulator {
    pub emitters: Emitters,
    pub targets: TargetMap,
}

impl Manipulator {
    /// Cached target in the given direction; `None` until a retarget pass
    /// fills the slot.
    pub open spec fn spec_target(self, direction: Direction) -> Option<BeamTarget> {
        match direction {
            Direction::Up => self.targets.up,
            Direction::Left => self.targets.left,
            Direction::Down => self.targets.down,
            Direction::Right => self.targets.right,
        }
    }

    pub open spec fn spec_emits(self, direction: Direction) -> bool {
        self.emitters.spec_emits(direction)
    }

    /// Every emitter direction has a cached target.
    pub open spec fn targets_ok(self) -> bool {
        forall|d: Direction| self.spec_emits(d) ==> #[trigger] self.spec_target(d) is Some
    }

    /// Targets of the emitter directions, in the fixed direction order
    /// Up, Left, Down, Right.
    pub open spec fn spec_targets(self) -> Seq<BeamTarget> {
        self.spec_dir_target(Direction::Up) + self.spec_dir_target(Direction::Left)
            + self.spec_dir_target(Direction::Down) + self.spec_dir_target(Direction::Right)
    }

    pub open spec fn spec_dir_target(self, d: Direction) -> Seq<BeamTarget> {
        if self.spec_emits(d) {
            seq![self.spec_target(d)->Some_0]
        } else {
            Seq::empty()
        }
    }

    pub fn new(emitters: Emitters) -> (r: Manipulator)
        ensures
            r.emitters == emitters,
            forall|d: Direction| #[trigger] r.spec_target(d) is None,
    {
        let r = Manipulator {
            emitters,
            targets: TargetMap { up: None, left: None, down: None, right: None },
        };
        proof {
            assert forall|d: Direction| #[trigger] r.spec_target(d) is None by {
                match d {
                    Direction::Up => {},
                    Direction::Left => {},
                    Direction::Down => {},
                    Direction::Right => {},
                }
            }
        }
        r
    }

    pub fn emits(&self, direction: Direction) -> (r: bool)
        ensures
            r == self.spec_emits(direction),
    {
        self.emitters.directions().contains(direction)
    }

    pub fn target(&self, direction: Direction) -> (r: Option<BeamTarget>)
        ensures
            r == self.spec_target(direction),
    {
        match direction {
            Direction::Up => self.targets.up,
            Direction::Left => self.targets.left,
            Direction::Down => self.targets.down,
            Direction::Right => self.targets.right,
        }
    }

    pub(crate) fn set_target(&mut self, direction: Direction, target: BeamTarget)
        ensures
            final(self).emitters == old(self).emitters,
            final(self).spec_target(direction) == Some(target),
            forall|d: Direction|
                d != direction ==> #[trigger] final(self).spec_target(d) == old(self).spec_target(
                    d,
                ),
    {
        match direction {
            Direction::Up => self.targets.up = Some(target),
            Direction::Left => self.targets.left = Some(target),
            Direction::Down => self.targets.down = Some(target),
            Direction::Right => self.targets.right = Some(target),
        }
        proof {
            assert forall|d: Direction|
                d != direction implies #[trigger] final(self).spec_target(d) == old(
                self,
            ).spec_target(d) by {
                match d {
                    Direction::Up => {},
                    Direction::Left => {},
                    Direction::Down => {},
                    Direction::Right => {},
                }
            }
        }
    }

    /// Targets of all emitter directions, in the fixed direction order.
    pub fn iter_targets(&self) -> (r: Vec<BeamTarget>)
        requires
            self.targets_ok(),
        ensures
            r@ == self.spec_targets(),
    {
        let mut result: Vec<BeamTarget> = Vec::new();
        if self.emits(Direction::Up) {
            result.push(self.target(Direction::Up).unwrap());
        }
        if self.emits(Direction::Left) {
            result.push(self.target(Direction::Left).unwrap());
        }
        if self.emits(Direction::Down) {
            result.push(self.target(Direction::Down).unwrap());
        }
        if self.emits(Direction::Right) {
            result.push(self.target(Direction::Right).unwrap());
        }
        proof {
            assert(result@ =~= self.spec_targets());
        }
        result
    }
}

/// The ten emitter layouts a manipulator can have: one or two beams.
#[derive(Debug, Clone, Copy, PartialEq, Eq, Structural)]
pub enum Emitters {
    Left,
    Up,
    Right,
    Down,
    LeftUp,
    LeftDown,
    RightUp,
    RightDown,
    LeftRight,
    UpDown,
}

impl Emitters {
    pub open spec fn spec_emits(self, d: Direction) -> bool {
        match self {
            Emitters::Left => d == Direction::Left,
            Emitters::Up => d == Direction::Up,
            Emitters::Right => d == Direction::Right,
            Emitters::Down => d == Direction::Down,
            Emitters::LeftUp => d == Direction::Left || d == Direction::Up,
            Emitters::LeftDown => d == Direction::Left || d == Direction::Down,
            Emitters::RightUp => d == Direction::Right || d == Direction::Up,
            Emitters::RightDown => d == Direction::Right || d == Direction::Down,
            Emitters::LeftRight => d == Direction::Left || d == Direction::Right,
            Emitters::UpDown => d == Direction::Up || d == Direction::Down,
        }
    }

    /// The set of directions this layout emits in.
    pub fn directions(self) -> (r: DirectionSet)
        ensures
            forall|d: Direction| #[trigger] r.spec_contains(d) == self.spec_emits(d),
    {
        let mut set = DirectionSet::empty();
        match self {
            Emitters::Left => set.insert(Direction::Left),
            Emitters::Up => set.insert(Direction::Up),
            Emitters::Right => set.insert(Direction::Right),
            Emitters::Down => set.insert(Direction::Down),
            Emitters::LeftUp => {
                set.insert(Direction::Left);
                set.insert(Direction::Up);
            },
            Emitters::LeftDown => {
                set.insert(Direction::Left);
                set.insert(Direction::Down);
            },
            Emitters::RightUp => {
                set.insert(Direction::Right);
                set.insert(Direction::Up);
            },
            Emitters::RightDown => {
                set.insert(Direction::Right);
                set.insert(Direction::Down);
            },
            Emitters::LeftRight => {
                set.insert(Direction::Left);
                set.insert(Direction::Right);
            },
            Emitters::UpDown => {
                set.insert(Direction::Up);
                set.insert(Direction::Down);
            },
        }
        set
    }

    /// Inverse of the codec's manipulator code: 0 to 9 in declaration order.
    pub fn from_repr(repr: u8) -> (r: Option<Emitters>)
        ensures
            r == spec_emitters_from_repr(repr),
    {
        match repr {
            0 => Some(Emitters::Left),
            1 => Some(Emitters::Up),
            2 => Some(Emitters::Right),
            3 => Some(Emitters::Down),
            4 => Some(Emitters::LeftUp),
            5 => Some(Emitters::LeftDown),
            6 => Some(Emitters::RightUp),
            7 => Some(Emitters::RightDown),
            8 => Some(Emitters::LeftRight),
            9 => Some(Emitters::UpDown),
            _ => None,
        }
    }
}

pub open spec fn spec_emitters_from_repr(repr: u8) -> Option<Emitters> {
    match repr {
        0 => Some(Emitters::Left),
        1 => Some(Emitters::Up),
        2 => Some(Emitters::Right),
        3 => Some(Emitters::Down),
        4 => Some(Emitters::LeftUp),
        5 => Some(Emitters::LeftDown),
        6 => Some(Emitters::RightUp),
        7 => Some(Emitters::RightDown),
        8 => Some(Emitters::LeftRight),
        9 => Some(Emitters::UpDown),
        _ => None,
    }
}

/// A small set of directions.
#[derive(Debug, Clone, Copy, PartialEq, Eq, Structural)]
pub struct DirectionSet {
    up: bool,
    left: bool,
    down: bool,
    right: bool,
}

impl DirectionSet {
    pub closed spec fn spec_contains(self, d: Direction) -> bool {
        match d {
            Direction::Up => self.up,
            Direction::Left => self.left,
            Direction::Down => self.down,
            Direction::Right => self.right,
        }
    }

    pub fn empty() -> (r: DirectionSet)
        ensures
            forall|d: Direction| !#[trigger] r.spec_contains(d),
    {
        let r = DirectionSet { up: false, left: false, down: false, right: false };
        proof {
            assert forall|d: Direction| !#[trigger] r.spec_contains(d) by {
                match d {
                    Direction::Up => {},
                    Direction::Left => {},
                    Direction::Down => {},
                    Direction::Right => {},
                }
            }
        }
        r
    }

    pub fn insert(&mut self, direction: Direction)
        ensures
            final(self).spec_contains(direction),
            forall|d: Direction|
                d != direction ==> #[trigger] final(self).spec_contains(d) == old(
                    self,
                ).spec_contains(d),
    {
        match direction {
            Direction::Up => self.up = true,
            Direction::Left => self.left = true,
            Direction::Down => self.down = true,
            Direction::Right => self.right = true,
        }
        proof {
            assert forall|d: Direction|
                d != direction implies #[trigger] final(self).spec_contains(d) == old(
                self,
            ).spec_contains(d) by {
                match d {
                    Direction::Up => {},
                    Direction::Left => {},
                    Direction::Down => {},
                    Direction::Right => {},
                }
            }
        }
    }

    pub fn contains(&self, direction: Direction) -> (r: bool)
        ensures
            r == self.spec_contains(direction),
    {
        match direction {
            Direction::Up => self.up,
            Direction::Left => self.left,
            Direction::Down => self.down,
            Direction::Right => self.right,
        }
    }
}

/// The first obstruction a beam meets: a piece or a border slot.
#[derive(Debug, Clone, Copy, PartialEq, Eq, Structural)]
pub struct BeamTarget {
    pub kind: BeamTargetKind,
    pub coords: BoardCoords,
}

#[derive(Debug, Clone, Copy, PartialEq, Eq, Structural)]
pub enum BeamTargetKind {
    Piece,
    Border,
}

impl BeamTarget {
    pub fn border(coords: BoardCoords) -> (r: BeamTarget)
        ensures
            r == (BeamTarget { kind: BeamTargetKind::Border, coords }),
    {
        BeamTarget { kind: BeamTargetKind::Border, coords }
    }

    pub fn piece(coords: BoardCoords) -> (r: BeamTarget)
        ensures
            r == (BeamTarget { kind: BeamTargetKind::Piece, coords }),
    {
        BeamTarget { kind: BeamTargetKind::Piece, coords }
    }
}

} // verus!
