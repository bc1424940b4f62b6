use tehtrys::geometry::{Coordinate, GridIncrement, Offset, HEIGHT, WIDTH};
use tehtrys::matrix::{CellIter, Matrix};
use tehtrys::piece::{Color, Kind, Piece, Rotation};

#[test]
fn cell_iter() {
    let mut matrix = Matrix::blank();
    matrix.set(Coordinate::new(2, 0), Some(Color::Blue));
    matrix.set(Coordinate::new(3, 1), Some(Color::Green));

    let mut iter = CellIter::new(&matrix);

    let mut first_five = Vec::new();
    for _ in 0..5 {
        first_five.push(iter.next().unwrap());
    }
    assert_eq!(
        first_five,
        [
            (Coordinate::new(0, 0), None),
            (Coordinate::new(1, 0), None),
            (Coordinate::new(2, 0), Some(Color::Blue)),
            (Coordinate::new(3, 0), None),
            (Coordinate::new(4, 0), None),
        ],
    );

    for _ in 0..8 {
        iter.next().unwrap();
    }
    let other_item = iter.next();
    assert_eq!(
        other_item,
        Some((Coordinate::new(3, 1), Some(Color::Green))),
    );

    while let Some((_, contents)) = iter.next() {
        assert!(contents.is_none());
    }
}

#[test]
fn full_lines_reports_exactly_the_full_rows_ascending() {
    let mut matrix = Matrix::blank();
    for row in [0usize, 5, 19] {
        for x in 0..WIDTH {
            matrix.set(Coordinate::new(x, row), Some(Color::Red));
        }
    }
    // every other row keeps at least one empty cell
    for row in [3usize, 7, 12] {
        for x in 0..WIDTH - 1 {
            matrix.set(Coordinate::new(x, row), Some(Color::Blue));
        }
    }
    assert_eq!(matrix.full_lines(), vec![0, 5, 19]);
}

#[test]
fn full_lines_on_blank_board_is_empty() {
    assert_eq!(Matrix::blank().full_lines(), Vec::<usize>::new());
}

#[test]
fn clear_lines_shifts_survivors_down_and_empties_the_top() {
    let mut matrix = Matrix::blank();
    for row in [0usize, 5, 19] {
        for x in 0..WIDTH {
            matrix.set(Coordinate::new(x, row), Some(Color::Red));
        }
    }
    matrix.set(Coordinate::new(2, 1), Some(Color::Blue));
    matrix.set(Coordinate::new(3, 6), Some(Color::Green));
    matrix.set(Coordinate::new(4, 18), Some(Color::Yellow));

    matrix.clear_lines(&vec![0, 5, 19]);

    // each survivor slid down by the number of cleared rows below it
    assert_eq!(matrix.get(Coordinate::new(2, 0)), Some(Color::Blue));
    assert_eq!(matrix.get(Coordinate::new(3, 4)), Some(Color::Green));
    assert_eq!(matrix.get(Coordinate::new(4, 16)), Some(Color::Yellow));
    // the three rows at the top are now empty
    for y in 17..HEIGHT {
        for x in 0..WIDTH {
            assert_eq!(matrix.get(Coordinate::new(x, y)), None);
        }
    }
    // nothing else is occupied
    for y in 0..17 {
        for x in 0..WIDTH {
            let expected = match (x, y) {
                (2, 0) => Some(Color::Blue),
                (3, 4) => Some(Color::Green),
                (4, 16) => Some(Color::Yellow),
                _ => None,
            };
            assert_eq!(matrix.get(Coordinate::new(x, y)), expected);
        }
    }
}

#[test]
fn clear_lines_with_no_indices_changes_nothing() {
    let mut matrix = Matrix::blank();
    matrix.set(Coordinate::new(7, 11), Some(Color::Cyan));
    matrix.clear_lines(&vec![]);
    assert_eq!(matrix.get(Coordinate::new(7, 11)), Some(Color::Cyan));
    assert_eq!(matrix.get(Coordinate::new(0, 0)), None);
}

#[test]
fn pieces_above_the_board_do_not_clip() {
    let mut matrix = Matrix::blank();
    matrix.set(Coordinate::new(4, 0), Some(Color::Green));
    let above = Piece {
        kind: Kind::T,
        position: Offset::new(4, 20),
        rotation: Rotation::N,
    };
    assert!(!matrix.is_clipping(&above));
}

#[test]
fn overlapping_and_out_of_range_pieces_clip() {
    let mut matrix = Matrix::blank();
    matrix.set(Coordinate::new(4, 0), Some(Color::Green));
    let overlapping = Piece {
        kind: Kind::T,
        position: Offset::new(4, -1),
        rotation: Rotation::N,
    };
    assert!(matrix.is_clipping(&overlapping));

    let out_of_range = Piece {
        kind: Kind::T,
        position: Offset::new(8, 5),
        rotation: Rotation::N,
    };
    assert!(matrix.is_clipping(&out_of_range));
}

#[test]
fn placeability_requires_full_containment_on_vacant_cells() {
    let matrix = Matrix::blank();
    let inside = Piece {
        kind: Kind::T,
        position: Offset::new(4, 5),
        rotation: Rotation::N,
    };
    assert!(matrix.is_placeable(&inside));

    let poking_out_the_top = Piece {
        kind: Kind::T,
        position: Offset::new(4, 18),
        rotation: Rotation::N,
    };
    assert!(!matrix.is_placeable(&poking_out_the_top));

    let mut occupied = Matrix::blank();
    occupied.set(Coordinate::new(5, 6), Some(Color::Red));
    assert!(!occupied.is_placeable(&inside));
}

#[test]
fn set_then_get_round_trips() {
    let mut matrix = Matrix::blank();
    assert_eq!(matrix.get(Coordinate::new(9, 19)), None);
    matrix.set(Coordinate::new(9, 19), Some(Color::Orange));
    assert_eq!(matrix.get(Coordinate::new(9, 19)), Some(Color::Orange));
    assert_eq!(matrix.get(Coordinate::new(8, 19)), None);
}

#[test]
fn grid_increment_walks_in_scan_order() {
    assert_eq!(Coordinate::new(0, 0).grid_incd(), Coordinate::new(1, 0));
    assert_eq!(Coordinate::new(8, 3).grid_incd(), Coordinate::new(9, 3));
    assert_eq!(Coordinate::new(9, 3).grid_incd(), Coordinate::new(0, 4));
    let mut coord = Coordinate::new(9, 19);
    coord.grid_inc();
    assert_eq!(coord, Coordinate::new(0, 20));
}

#[test]
fn coordinate_validity_tests_follow_the_board_bounds() {
    assert!(Matrix::valid_coord(Coordinate::new(9, 25)));
    assert!(!Matrix::valid_coord(Coordinate::new(10, 3)));
    assert!(Matrix::on_matrix(Coordinate::new(9, 19)));
    assert!(!Matrix::on_matrix(Coordinate::new(9, 20)));
}
