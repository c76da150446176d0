//! Level progress: counting on a fresh board, and the outcome severity
//! order under simultaneous events.

use beamcore::board::Board;
use beamcore::element::{Emitters, Manipulator, Particle, Piece, Tile, TileKind};
use beamcore::level::{LevelOutcome, LevelProgress};
use beamcore::{BoardCoords, Tint};

fn add_tile(board: &mut Board, coords: BoardCoords, kind: TileKind, tint: Tint) {
    board.tiles.set(coords, Some(Tile::new(kind, tint)));
}

#[test]
fn new_counts_manipulators_and_uncollected_particles() {
    let mut board = Board::new(2, 3);
    board.pieces.set(
        BoardCoords::new(0, 0),
        Some(Piece::Manipulator(Manipulator::new(Emitters::Right))),
    );
    board.pieces.set(
        BoardCoords::new(0, 1),
        Some(Piece::Particle(Particle::new(Tint::Green))),
    );
    // a particle already resting on a matching Collector is collected
    add_tile(&mut board, BoardCoords::new(1, 0), TileKind::Collector, Tint::Red);
    board.pieces.set(
        BoardCoords::new(1, 0),
        Some(Piece::Particle(Particle::new(Tint::Red))),
    );
    // one on a white Collector as well
    add_tile(&mut board, BoardCoords::new(1, 1), TileKind::Collector, Tint::White);
    board.pieces.set(
        BoardCoords::new(1, 1),
        Some(Piece::Particle(Particle::new(Tint::Yellow))),
    );

    let progress = LevelProgress::new(&board);
    assert_eq!(progress.manipulators_left, 1);
    assert_eq!(progress.uncollected_particles, 1);
    assert!(progress.outcome.is_none());
}

#[test]
fn collecting_last_particle_wins() {
    let mut progress =
        LevelProgress { manipulators_left: 2, uncollected_particles: 1, outcome: None };
    progress.particle_collected();
    assert_eq!(progress.outcome, Some(LevelOutcome::Victory));
}

#[test]
fn victory_overrides_loss_lost_first() {
    let mut progress =
        LevelProgress { manipulators_left: 1, uncollected_particles: 1, outcome: None };
    progress.piece_lost(&Piece::Particle(Particle::new(Tint::Green)));
    assert_eq!(progress.outcome, Some(LevelOutcome::ParticleLost));
    progress.particle_collected();
    assert_eq!(progress.outcome, Some(LevelOutcome::Victory));
}

#[test]
fn victory_overrides_loss_collected_first() {
    let mut progress =
        LevelProgress { manipulators_left: 1, uncollected_particles: 1, outcome: None };
    progress.particle_collected();
    progress.piece_lost(&Piece::Particle(Particle::new(Tint::Green)));
    assert_eq!(progress.outcome, Some(LevelOutcome::Victory));
}

#[test]
fn losing_last_manipulator_ends_level() {
    let mut progress =
        LevelProgress { manipulators_left: 1, uncollected_particles: 2, outcome: None };
    progress.piece_lost(&Piece::Manipulator(Manipulator::new(Emitters::Up)));
    assert_eq!(progress.outcome, Some(LevelOutcome::NoManipulatorsLeft));
}

#[test]
fn particle_loss_outranks_no_manipulators() {
    let mut progress =
        LevelProgress { manipulators_left: 1, uncollected_particles: 2, outcome: None };
    progress.piece_lost(&Piece::Manipulator(Manipulator::new(Emitters::Up)));
    progress.piece_lost(&Piece::Particle(Particle::new(Tint::Red)));
    assert_eq!(progress.outcome, Some(LevelOutcome::ParticleLost));
}
