//! Support analysis behavior: anchored pieces hold their beam-linked
//! neighbors up, and everything out of reach falls.

use beamcore::board::Board;
use beamcore::element::{Emitters, Manipulator, Particle, Piece, Tile, TileKind};
use beamcore::support::unsupported_pieces;
use beamcore::{BoardCoords, Tint};

fn add_tile(board: &mut Board, coords: BoardCoords, kind: TileKind, tint: Tint) {
    board.tiles.set(coords, Some(Tile::new(kind, tint)));
}

fn add_manipulator(board: &mut Board, coords: BoardCoords, emitters: Emitters) {
    board
        .pieces
        .set(coords, Some(Piece::Manipulator(Manipulator::new(emitters))));
}

fn add_particle(board: &mut Board, coords: BoardCoords, tint: Tint) {
    board
        .pieces
        .set(coords, Some(Piece::Particle(Particle::new(tint))));
}

#[test]
fn support_smoke_test() {
    let mut board = Board::new(3, 2);
    add_tile(&mut board, BoardCoords::new(1, 1), TileKind::Platform, Tint::White);
    add_manipulator(&mut board, BoardCoords::new(0, 0), Emitters::RightDown);
    add_particle(&mut board, BoardCoords::new(0, 1), Tint::Red);
    add_manipulator(&mut board, BoardCoords::new(1, 0), Emitters::UpDown);
    add_manipulator(&mut board, BoardCoords::new(2, 0), Emitters::RightUp);
    add_particle(&mut board, BoardCoords::new(2, 1), Tint::Green);

    add_manipulator(&mut board, BoardCoords::new(1, 1), Emitters::Down);
    board.retarget_beams();
    let set = unsupported_pieces(&board);
    assert!(set.contains(BoardCoords::new(0, 0)));
    assert!(set.contains(BoardCoords::new(0, 1)));
    assert!(set.contains(BoardCoords::new(1, 0)));
    assert!(!set.contains(BoardCoords::new(1, 1)));
    assert!(set.contains(BoardCoords::new(2, 0)));
    assert!(!set.contains(BoardCoords::new(2, 1)));

    add_manipulator(&mut board, BoardCoords::new(1, 1), Emitters::Left);
    board.retarget_beams();
    let set = unsupported_pieces(&board);
    assert!(!set.contains(BoardCoords::new(0, 0)));
    assert!(!set.contains(BoardCoords::new(0, 1)));
    assert!(!set.contains(BoardCoords::new(1, 0)));
    assert!(!set.contains(BoardCoords::new(1, 1)));
    assert!(!set.contains(BoardCoords::new(2, 0)));
    assert!(!set.contains(BoardCoords::new(2, 1)));
}

#[test]
fn anchored_piece_never_unsupported() {
    let mut board = Board::new(2, 2);
    add_tile(&mut board, BoardCoords::new(0, 0), TileKind::Platform, Tint::White);
    add_particle(&mut board, BoardCoords::new(0, 0), Tint::Green);
    add_particle(&mut board, BoardCoords::new(1, 1), Tint::Red);
    board.retarget_beams();

    let set = board.unsupported_pieces();
    assert!(!set.contains(BoardCoords::new(0, 0)));
    assert!(set.contains(BoardCoords::new(1, 1)));
}

#[test]
fn removal_of_anchor_drops_chain() {
    // a manipulator on a tile holds a particle through its beam; removing
    // the anchor leaves the particle unsupported
    let mut board = Board::new(1, 3);
    add_tile(&mut board, BoardCoords::new(0, 0), TileKind::Platform, Tint::White);
    add_manipulator(&mut board, BoardCoords::new(0, 0), Emitters::Right);
    add_particle(&mut board, BoardCoords::new(0, 2), Tint::Green);
    board.retarget_beams();

    let set = board.unsupported_pieces();
    assert!(!set.contains(BoardCoords::new(0, 0)));
    assert!(!set.contains(BoardCoords::new(0, 2)));

    board.remove_piece(BoardCoords::new(0, 0));
    board.retarget_beams();
    let set = board.unsupported_pieces();
    assert!(set.contains(BoardCoords::new(0, 2)));
}
