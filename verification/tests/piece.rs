use tehtrys::geometry::{Coordinate, Offset};
use tehtrys::piece::{Color, Kind, Piece, Rotation};

const ALL_KINDS: [Kind; 7] = [Kind::O, Kind::I, Kind::T, Kind::L, Kind::J, Kind::S, Kind::Z];
const ALL_ROTATIONS: [Rotation; 4] = [Rotation::N, Rotation::E, Rotation::S, Rotation::W];

#[test]
fn s_piece_positioning() {
    let z = Piece {
        kind: Kind::Z,
        position: Offset::new(5, 6),
        rotation: Rotation::W,
    };

    let expected: Vec<Coordinate> = vec![
        Coordinate::new(5, 6),
        Coordinate::new(5, 7),
        Coordinate::new(6, 7),
        Coordinate::new(6, 8),
    ];
    assert_eq!(z.cells(), Some(expected));
}

#[test]
fn cells_are_four_distinct_coordinates_for_every_kind_and_rotation() {
    for kind in ALL_KINDS {
        for rotation in ALL_ROTATIONS {
            let piece = Piece {
                kind,
                position: Offset::new(4, 10),
                rotation,
            };
            let cells = piece.cells().expect("piece at (4, 10) is in range");
            assert_eq!(cells.len(), 4);
            for i in 0..4 {
                for j in (i + 1)..4 {
                    assert_ne!(cells[i], cells[j], "{:?} {:?}", kind, rotation);
                }
            }
        }
    }
}

#[test]
fn o_piece_footprint_ignores_rotation() {
    let reference = Piece {
        kind: Kind::O,
        position: Offset::new(3, 7),
        rotation: Rotation::N,
    }
    .cells();
    for rotation in ALL_ROTATIONS {
        let rotated = Piece {
            kind: Kind::O,
            position: Offset::new(3, 7),
            rotation,
        }
        .cells();
        assert_eq!(rotated, reference);
    }
}

#[test]
fn t_piece_rotated_east_matches_expected_layout() {
    let t = Piece {
        kind: Kind::T,
        position: Offset::new(0, 0),
        rotation: Rotation::E,
    };
    let expected: Vec<Coordinate> = vec![
        Coordinate::new(1, 2),
        Coordinate::new(1, 1),
        Coordinate::new(1, 0),
        Coordinate::new(2, 1),
    ];
    assert_eq!(t.cells(), Some(expected));
}

#[test]
fn cells_is_deterministic() {
    let piece = Piece {
        kind: Kind::J,
        position: Offset::new(2, 13),
        rotation: Rotation::S,
    };
    assert_eq!(piece.cells(), piece.cells());
}

#[test]
fn cells_rejects_positions_off_the_horizontal_range() {
    let too_far_right = Piece {
        kind: Kind::T,
        position: Offset::new(8, 5),
        rotation: Rotation::N,
    };
    assert_eq!(too_far_right.cells(), None);

    let negative_column = Piece {
        kind: Kind::T,
        position: Offset::new(-1, 5),
        rotation: Rotation::N,
    };
    assert_eq!(negative_column.cells(), None);

    let below_floor = Piece {
        kind: Kind::T,
        position: Offset::new(4, -2),
        rotation: Rotation::N,
    };
    assert_eq!(below_floor.cells(), None);
}

#[test]
fn moved_by_translates_position_only() {
    let piece = Piece {
        kind: Kind::L,
        position: Offset::new(4, 18),
        rotation: Rotation::E,
    };
    let moved = piece.moved_by(Offset::new(2, -3));
    assert_eq!(moved.kind, Kind::L);
    assert_eq!(moved.rotation, Rotation::E);
    assert_eq!(moved.position, Offset::new(6, 15));
}

#[test]
fn every_kind_has_its_fixed_color() {
    assert_eq!(Kind::O.color(), Color::Yellow);
    assert_eq!(Kind::I.color(), Color::Cyan);
    assert_eq!(Kind::T.color(), Color::Purple);
    assert_eq!(Kind::L.color(), Color::Orange);
    assert_eq!(Kind::J.color(), Color::Blue);
    assert_eq!(Kind::S.color(), Color::Green);
    assert_eq!(Kind::Z.color(), Color::Red);
}

#[test]
fn grid_sizes_and_canonical_order() {
    assert_eq!(Kind::I.grid_size(), 4);
    assert_eq!(Kind::O.grid_size(), 3);
    assert_eq!(Kind::T.grid_size(), 3);
    assert_eq!(Kind::all(), ALL_KINDS.to_vec());
}
