//! PBC1 decoding: a full layout round through the codec, and each way a
//! code can be rejected.

use beamcore::board::Board;
use beamcore::element::{BeamTarget, Border, Emitters, Piece, Tile, TileKind};
use beamcore::pbc1::{decode, Pbc1DecodeError};
use beamcore::{BoardCoords, Direction, Tint};

/// A 2x2 board: a Platform tile and a Right-emitting manipulator at (0,0),
/// a Green particle at (0,1), a Wall/Window border pair at (1,0), a Wall on
/// the right edge of row 0 and a Wall under column 1.
const LEVEL_CODE: &str = ":PBC1:ASJDCdIg";

#[test]
fn decode_full_layout() {
    let board = match Board::from_pbc1(LEVEL_CODE) {
        Ok(board) => board,
        Err(_) => panic!("expected the code to decode"),
    };
    assert_eq!(board.dims.rows, 2);
    assert_eq!(board.dims.cols, 2);

    assert_eq!(
        board.tiles.get(BoardCoords::new(0, 0)),
        Some(Tile::new(TileKind::Platform, Tint::White))
    );
    assert_eq!(board.tiles.get(BoardCoords::new(0, 1)), None);

    match board.pieces.get(BoardCoords::new(0, 0)) {
        Some(Piece::Manipulator(m)) => {
            assert_eq!(m.emitters, Emitters::Right);
            // the beam is targeted as part of decoding
            assert_eq!(
                m.target(Direction::Right),
                Some(BeamTarget::piece(BoardCoords::new(0, 1)))
            );
        },
        _ => panic!("expected a manipulator at (0, 0)"),
    }
    match board.pieces.get(BoardCoords::new(0, 1)) {
        Some(Piece::Particle(p)) => assert_eq!(p.tint, Tint::Green),
        _ => panic!("expected a particle at (0, 1)"),
    }
    assert!(board.pieces.get(BoardCoords::new(1, 0)).is_none());
    assert!(board.pieces.get(BoardCoords::new(1, 1)).is_none());

    assert_eq!(board.horz_borders.get(BoardCoords::new(1, 0)), Some(Border::Wall));
    assert_eq!(board.vert_borders.get(BoardCoords::new(1, 0)), Some(Border::Window));
    assert_eq!(board.vert_borders.get(BoardCoords::new(0, 2)), Some(Border::Wall));
    assert_eq!(board.horz_borders.get(BoardCoords::new(2, 1)), Some(Border::Wall));
}

#[test]
fn decode_empty_board() {
    let board = match decode(":PBC1:AQA=") {
        Ok(board) => board,
        Err(_) => panic!("expected the empty code to decode"),
    };
    assert_eq!(board.dims.rows, 0);
    assert_eq!(board.dims.cols, 0);
}

#[test]
fn missing_signature_is_rejected() {
    assert!(matches!(decode("hello"), Err(Pbc1DecodeError::Signature)));
    assert!(matches!(decode(""), Err(Pbc1DecodeError::Signature)));
    assert!(matches!(decode("PBC1:AQA="), Err(Pbc1DecodeError::Signature)));
}

#[test]
fn invalid_base64_is_rejected() {
    assert!(matches!(decode(":PBC1:????"), Err(Pbc1DecodeError::Base64(_))));
}

#[test]
fn truncated_code_is_rejected() {
    assert!(matches!(decode(":PBC1:ASJD"), Err(Pbc1DecodeError::UnexpectedEnd)));
    assert!(matches!(decode(":PBC1:"), Err(Pbc1DecodeError::UnexpectedEnd)));
}

#[test]
fn wrong_version_is_rejected() {
    assert!(matches!(decode(":PBC1:AiI="), Err(Pbc1DecodeError::Version(2))));
}

#[test]
fn invalid_piece_code_is_rejected() {
    assert!(matches!(
        decode(":PBC1:ARFqAA=="),
        Err(Pbc1DecodeError::InvalidPiece(13))
    ));
}
