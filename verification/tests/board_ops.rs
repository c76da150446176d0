//! Board primitives: neighbors, beam targeting, moving and removing
//! pieces, selection cycling, and the grid storage underneath.

use beamcore::board::Board;
use beamcore::element::{
    BeamTarget, Border, DirectionSet, Emitters, Manipulator, Piece, Tile, TileKind,
};
use beamcore::grid::{GridMap, GridQueue, GridSet};
use beamcore::{BoardCoords, Dimensions, Direction, Orientation, Tint};

fn add_manipulator(board: &mut Board, coords: BoardCoords, emitters: Emitters) {
    board
        .pieces
        .set(coords, Some(Piece::Manipulator(Manipulator::new(emitters))));
}

#[test]
fn neighbor_respects_edges() {
    let board = Board::new(2, 3);
    assert_eq!(board.neighbor(BoardCoords::new(0, 0), Direction::Up), None);
    assert_eq!(board.neighbor(BoardCoords::new(0, 0), Direction::Left), None);
    assert_eq!(
        board.neighbor(BoardCoords::new(0, 0), Direction::Down),
        Some(BoardCoords::new(1, 0))
    );
    assert_eq!(
        board.neighbor(BoardCoords::new(0, 0), Direction::Right),
        Some(BoardCoords::new(0, 1))
    );
    assert_eq!(board.neighbor(BoardCoords::new(1, 2), Direction::Down), None);
    assert_eq!(board.neighbor(BoardCoords::new(1, 2), Direction::Right), None);
}

#[test]
fn beam_stops_at_wall_but_not_window() {
    let mut board = Board::new(1, 4);
    add_manipulator(&mut board, BoardCoords::new(0, 0), Emitters::Right);
    // a window between (0,0) and (0,1) lets the beam through
    board.vert_borders.set(BoardCoords::new(0, 1), Some(Border::Window));
    // a wall between (0,2) and (0,3) stops it
    board.vert_borders.set(BoardCoords::new(0, 3), Some(Border::Wall));
    let target = board.find_beam_target(BoardCoords::new(0, 0), Direction::Right);
    assert_eq!(target, BeamTarget::border(BoardCoords::new(0, 3)));

    // with a piece in between, the piece is the target
    board.pieces.set(
        BoardCoords::new(0, 2),
        Some(Piece::Manipulator(Manipulator::new(Emitters::Left))),
    );
    let target = board.find_beam_target(BoardCoords::new(0, 0), Direction::Right);
    assert_eq!(target, BeamTarget::piece(BoardCoords::new(0, 2)));
}

#[test]
fn beam_stops_at_board_edge() {
    let board = Board::new(2, 2);
    let target = board.find_beam_target(BoardCoords::new(1, 0), Direction::Down);
    assert_eq!(target, BeamTarget::border(BoardCoords::new(2, 0)));
}

#[test]
fn move_pieces_shifts_group() {
    let mut board = Board::new(1, 3);
    add_manipulator(&mut board, BoardCoords::new(0, 0), Emitters::Right);
    board.pieces.set(
        BoardCoords::new(0, 1),
        Some(Piece::Particle(beamcore::element::Particle::new(Tint::Green))),
    );
    let mut set = GridSet::like(&board.pieces);
    set.insert(BoardCoords::new(0, 0));
    set.insert(BoardCoords::new(0, 1));
    board.move_pieces(&set, Direction::Right);

    assert!(board.pieces.get(BoardCoords::new(0, 0)).is_none());
    assert!(matches!(
        board.pieces.get(BoardCoords::new(0, 1)),
        Some(Piece::Manipulator(_))
    ));
    assert!(matches!(
        board.pieces.get(BoardCoords::new(0, 2)),
        Some(Piece::Particle(_))
    ));
}

#[test]
fn move_and_remove_single_piece() {
    let mut board = Board::new(2, 2);
    add_manipulator(&mut board, BoardCoords::new(0, 0), Emitters::Down);
    board.move_piece(BoardCoords::new(0, 0), BoardCoords::new(1, 1));
    assert!(board.pieces.get(BoardCoords::new(0, 0)).is_none());
    assert!(board.pieces.get(BoardCoords::new(1, 1)).is_some());
    board.remove_piece(BoardCoords::new(1, 1));
    assert!(board.pieces.get(BoardCoords::new(1, 1)).is_none());
}

#[test]
fn manipulator_selection_cycles() {
    let mut board = Board::new(2, 2);
    add_manipulator(&mut board, BoardCoords::new(0, 1), Emitters::Up);
    add_manipulator(&mut board, BoardCoords::new(1, 0), Emitters::Up);

    assert_eq!(board.next_manipulator(None), Some(BoardCoords::new(0, 1)));
    assert_eq!(
        board.next_manipulator(Some(BoardCoords::new(0, 1))),
        Some(BoardCoords::new(1, 0))
    );
    assert_eq!(board.prev_manipulator(None), Some(BoardCoords::new(1, 0)));
    assert_eq!(
        board.prev_manipulator(Some(BoardCoords::new(1, 0))),
        Some(BoardCoords::new(0, 1))
    );

    let empty = Board::new(2, 2);
    assert_eq!(empty.next_manipulator(None), None);
    assert_eq!(empty.prev_manipulator(None), None);
}

#[test]
fn copy_state_from_mirrors_contents() {
    let mut source = Board::new(2, 2);
    add_manipulator(&mut source, BoardCoords::new(0, 0), Emitters::Right);
    source.tiles.set(
        BoardCoords::new(1, 1),
        Some(Tile::new(TileKind::Collector, Tint::Red)),
    );
    let mut copy = Board::new(2, 2);
    copy.copy_state_from(&source);
    assert!(matches!(
        copy.pieces.get(BoardCoords::new(0, 0)),
        Some(Piece::Manipulator(_))
    ));
    assert_eq!(
        copy.tiles.get(BoardCoords::new(1, 1)),
        Some(Tile::new(TileKind::Collector, Tint::Red))
    );
}

#[test]
fn borders_selected_by_orientation() {
    let mut board = Board::new(2, 2);
    board.horz_borders.set(BoardCoords::new(1, 0), Some(Border::Wall));
    assert_eq!(
        board.borders(Orientation::Horizontal).get(BoardCoords::new(1, 0)),
        Some(Border::Wall)
    );
    assert_eq!(
        board.borders(Orientation::Vertical).get(BoardCoords::new(1, 0)),
        None
    );
}

#[test]
fn grid_map_set_get_take() {
    let mut map = GridMap::<u32>::new(2, 2);
    assert_eq!(map.get(BoardCoords::new(1, 1)), None);
    map.set(BoardCoords::new(1, 1), Some(7));
    assert_eq!(map.get(BoardCoords::new(1, 1)), Some(7));
    assert_eq!(map.take(BoardCoords::new(1, 1)), Some(7));
    assert_eq!(map.get(BoardCoords::new(1, 1)), None);
}

#[test]
fn grid_set_insert_remove() {
    let mut set = GridSet::new(2, 2);
    assert!(set.is_empty());
    set.insert(BoardCoords::new(0, 1));
    assert!(set.contains(BoardCoords::new(0, 1)));
    assert!(!set.contains(BoardCoords::new(1, 0)));
    assert!(!set.is_empty());
    set.remove(BoardCoords::new(0, 1));
    assert!(set.is_empty());
}

#[test]
fn grid_queue_is_first_in_first_out() {
    let set = GridSet::new(2, 2);
    let mut queue = GridQueue::for_grid(&set);
    assert_eq!(queue.pop(), None);
    queue.push(BoardCoords::new(0, 0));
    queue.push(BoardCoords::new(1, 1));
    assert_eq!(queue.pop(), Some(BoardCoords::new(0, 0)));
    assert_eq!(queue.pop(), Some(BoardCoords::new(1, 1)));
    assert_eq!(queue.pop(), None);
}

#[test]
fn dimensions_index_coords_roundtrip() {
    let dims = Dimensions::new(3, 5);
    assert!(dims.contains(BoardCoords::new(2, 4)));
    assert!(!dims.contains(BoardCoords::new(3, 0)));
    let idx = dims.index(BoardCoords::new(2, 3));
    assert_eq!(idx, 13);
    assert_eq!(dims.coords(13), BoardCoords::new(2, 3));
    let all = dims.iter();
    assert_eq!(all.len(), 15);
    assert_eq!(all[0], BoardCoords::new(0, 0));
    assert_eq!(all[14], BoardCoords::new(2, 4));
}

#[test]
fn direction_and_orientation_tables() {
    assert_eq!(Direction::Up.orientation(), Orientation::Vertical);
    assert_eq!(Direction::Left.orientation(), Orientation::Horizontal);
    assert_eq!(Orientation::Horizontal.flip(), Orientation::Vertical);
    assert_eq!(Orientation::Vertical.flip(), Orientation::Horizontal);
    assert_eq!(
        BoardCoords::new(1, 1).to_border_coords(Direction::Down),
        BoardCoords::new(2, 1)
    );
    assert_eq!(
        BoardCoords::new(1, 1).to_border_coords(Direction::Up),
        BoardCoords::new(1, 1)
    );
}

#[test]
fn emitter_direction_sets() {
    let set = Emitters::RightDown.directions();
    assert!(set.contains(Direction::Right));
    assert!(set.contains(Direction::Down));
    assert!(!set.contains(Direction::Up));
    assert!(!set.contains(Direction::Left));

    let empty = DirectionSet::empty();
    assert!(!empty.contains(Direction::Up));

    assert_eq!(Emitters::from_repr(0), Some(Emitters::Left));
    assert_eq!(Emitters::from_repr(9), Some(Emitters::UpDown));
    assert_eq!(Emitters::from_repr(10), None);
    assert_eq!(Tint::from_repr(3), Some(Tint::Red));
    assert_eq!(Tint::from_repr(4), None);
    assert_eq!(TileKind::from_repr(1), Some(TileKind::Collector));
}

#[test]
fn manipulator_targets_after_retarget() {
    let mut board = Board::new(1, 3);
    add_manipulator(&mut board, BoardCoords::new(0, 0), Emitters::Right);
    board.retarget_beams();
    match board.pieces.get(BoardCoords::new(0, 0)) {
        Some(Piece::Manipulator(m)) => {
            assert_eq!(
                m.target(Direction::Right),
                Some(BeamTarget::border(BoardCoords::new(0, 3)))
            );
            assert_eq!(m.target(Direction::Up), None);
            assert_eq!(
                m.iter_targets(),
                vec![BeamTarget::border(BoardCoords::new(0, 3))]
            );
        },
        _ => panic!("expected a manipulator"),
    }
}
