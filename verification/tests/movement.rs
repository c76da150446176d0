//! Movement solver behavior: beam cycles, tint and Collector constraints,
//! and full move-set resolution.

use beamcore::board::Board;
use beamcore::element::{Border, Emitters, Manipulator, Particle, Piece, Tile, TileKind};
use beamcore::movement::MoveSolver;
use beamcore::{BoardCoords, Direction, Tint};

fn empty_board(rows: usize, cols: usize) -> Board {
    let mut board = Board::new(rows, cols);
    for coords in board.dims.iter() {
        add_tile(&mut board, coords, TileKind::Platform, Tint::White);
    }
    board
}

fn add_tile(board: &mut Board, coords: BoardCoords, kind: TileKind, tint: Tint) {
    board.tiles.set(coords, Some(Tile::new(kind, tint)));
}

fn add_manipulator(board: &mut Board, coords: BoardCoords, emitters: Emitters) {
    board
        .pieces
        .set(coords, Some(Piece::Manipulator(Manipulator::new(emitters))));
}

fn add_particle(board: &mut Board, coords: BoardCoords, tint: Tint) {
    board
        .pieces
        .set(coords, Some(Piece::Particle(Particle::new(tint))));
}

#[test]
fn cycles() {
    let mut board = empty_board(4, 4);
    add_manipulator(&mut board, BoardCoords::new(1, 1), Emitters::RightDown);
    add_manipulator(&mut board, BoardCoords::new(1, 2), Emitters::LeftDown);
    add_manipulator(&mut board, BoardCoords::new(2, 1), Emitters::RightUp);
    add_manipulator(&mut board, BoardCoords::new(2, 2), Emitters::LeftUp);
    board.retarget_beams();

    let solver = MoveSolver::new(&board, BoardCoords::new(1, 1));
    assert!(solver.clone().can_move(Direction::Up));
    assert!(solver.clone().can_move(Direction::Left));
    assert!(solver.clone().can_move(Direction::Down));
    assert!(solver.clone().can_move(Direction::Right));
}

#[test]
fn tint_mismatch() {
    let mut board = empty_board(1, 3);
    add_manipulator(&mut board, BoardCoords::new(0, 0), Emitters::Right);
    add_particle(&mut board, BoardCoords::new(0, 1), Tint::Green);
    add_tile(&mut board, BoardCoords::new(0, 2), TileKind::Platform, Tint::Red);
    board.retarget_beams();

    assert!(!MoveSolver::new(&board, BoardCoords::new(0, 0)).can_move(Direction::Right));
}

#[test]
fn collected_particles() {
    let mut board = empty_board(1, 3);
    add_manipulator(&mut board, BoardCoords::new(0, 0), Emitters::Right);
    add_particle(&mut board, BoardCoords::new(0, 1), Tint::Green);
    add_tile(&mut board, BoardCoords::new(0, 1), TileKind::Collector, Tint::White);
    board.retarget_beams();

    assert!(!MoveSolver::new(&board, BoardCoords::new(0, 0)).can_move(Direction::Right));
}

#[test]
fn movement_smoke_test() {
    let mut board = empty_board(5, 6);
    add_manipulator(&mut board, BoardCoords::new(1, 1), Emitters::Right);
    add_particle(&mut board, BoardCoords::new(1, 2), Tint::Green);
    add_particle(&mut board, BoardCoords::new(1, 3), Tint::Green);
    add_manipulator(&mut board, BoardCoords::new(2, 1), Emitters::Up);
    add_manipulator(&mut board, BoardCoords::new(2, 2), Emitters::RightDown);
    add_manipulator(&mut board, BoardCoords::new(2, 3), Emitters::RightUp);
    add_particle(&mut board, BoardCoords::new(2, 4), Tint::Green);
    add_manipulator(&mut board, BoardCoords::new(3, 1), Emitters::Up);
    add_manipulator(&mut board, BoardCoords::new(3, 2), Emitters::LeftRight);
    add_manipulator(&mut board, BoardCoords::new(3, 4), Emitters::Up);
    board.horz_borders.set(BoardCoords::new(1, 3), Some(Border::Wall));
    board.horz_borders.set(BoardCoords::new(3, 4), Some(Border::Window));
    board.retarget_beams();

    let set = MoveSolver::new(&board, BoardCoords::new(2, 2)).drag(Direction::Up);
    assert!(set.contains(BoardCoords::new(1, 1)));
    assert!(set.contains(BoardCoords::new(1, 2)));
    assert!(!set.contains(BoardCoords::new(1, 3)));
    assert!(set.contains(BoardCoords::new(2, 1)));
    assert!(set.contains(BoardCoords::new(2, 2)));
    assert!(!set.contains(BoardCoords::new(2, 3)));
    assert!(!set.contains(BoardCoords::new(2, 4)));
    assert!(set.contains(BoardCoords::new(3, 1)));
    assert!(set.contains(BoardCoords::new(3, 2)));
    assert!(!set.contains(BoardCoords::new(3, 4)));
}

#[test]
fn allowed_moves_agree_with_solver_runs() {
    let mut board = empty_board(4, 4);
    add_manipulator(&mut board, BoardCoords::new(1, 1), Emitters::RightDown);
    add_manipulator(&mut board, BoardCoords::new(1, 2), Emitters::LeftDown);
    add_manipulator(&mut board, BoardCoords::new(2, 1), Emitters::RightUp);
    add_manipulator(&mut board, BoardCoords::new(2, 2), Emitters::LeftUp);
    board.retarget_beams();

    let leader = BoardCoords::new(1, 1);
    let allowed = board.compute_allowed_moves(leader);
    for direction in [Direction::Up, Direction::Left, Direction::Down, Direction::Right] {
        let kept = MoveSolver::new(&board, leader).can_move(direction);
        assert_eq!(allowed.contains(direction), kept);
        assert!(kept);
    }
}

#[test]
fn move_set_contains_leader_when_allowed() {
    let mut board = empty_board(1, 3);
    add_manipulator(&mut board, BoardCoords::new(0, 0), Emitters::Right);
    add_particle(&mut board, BoardCoords::new(0, 1), Tint::Green);
    board.retarget_beams();

    let leader = BoardCoords::new(0, 0);
    // dragging right pushes the particle legally: leader and particle move
    assert!(MoveSolver::new(&board, leader).can_move(Direction::Right));
    let set = board.compute_move_set(leader, Direction::Right);
    assert!(set.contains(leader));
    assert!(set.contains(BoardCoords::new(0, 1)));

    // dragging left runs the leader off the board: nothing moves
    assert!(!MoveSolver::new(&board, leader).can_move(Direction::Left));
    let set = board.compute_move_set(leader, Direction::Left);
    assert!(!set.contains(leader));
}
