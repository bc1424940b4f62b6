use tehtrys::engine::{Engine, MoveKind};
use tehtrys::geometry::{Coordinate, Offset, HEIGHT, WIDTH};
use tehtrys::matrix::Matrix;
use tehtrys::piece::{Color, Kind};

#[test]
fn four_left_moves_succeed_and_the_fifth_is_rejected() {
    let mut engine = Engine::new();
    engine.DEBUG_test_cursor(Kind::T, Offset::new(4, 18));

    for _ in 0..4 {
        assert_eq!(engine.move_cursor(MoveKind::Left), Ok(()));
    }
    assert_eq!(engine.move_cursor(MoveKind::Left), Err(()));

    // the rejected move left the cursor where the fourth move put it
    let (cells, color) = engine.cursor_info().unwrap();
    assert_eq!(color, Color::Purple);
    assert_eq!(
        cells,
        vec![
            Coordinate::new(0, 19),
            Coordinate::new(1, 19),
            Coordinate::new(2, 19),
            Coordinate::new(1, 20),
        ],
    );
}

#[test]
fn moves_without_a_cursor_are_accepted_no_ops() {
    let mut engine = Engine::new();
    assert_eq!(engine.move_cursor(MoveKind::Left), Ok(()));
    assert_eq!(engine.move_cursor(MoveKind::Right), Ok(()));
    assert!(engine.cursor_info().is_none());
}

#[test]
fn hard_drop_on_a_blank_board_rests_on_the_floor() {
    let mut engine = Engine::new();
    engine.DEBUG_test_cursor(Kind::T, Offset::new(4, 18));
    engine.hard_drop();

    assert!(engine.cursor_info().is_none());
    assert_eq!(engine.matrix.get(Coordinate::new(4, 0)), Some(Color::Purple));
    assert_eq!(engine.matrix.get(Coordinate::new(5, 0)), Some(Color::Purple));
    assert_eq!(engine.matrix.get(Coordinate::new(6, 0)), Some(Color::Purple));
    assert_eq!(engine.matrix.get(Coordinate::new(5, 1)), Some(Color::Purple));
    assert_eq!(engine.matrix.get(Coordinate::new(4, 1)), None);
}

#[test]
fn hard_drop_rests_immediately_atop_existing_terrain() {
    let mut matrix = Matrix::blank();
    matrix.set(Coordinate::new(5, 0), Some(Color::Green));
    let mut engine = Engine::with_matrix(matrix);
    engine.DEBUG_test_cursor(Kind::T, Offset::new(4, 18));
    engine.hard_drop();

    assert_eq!(engine.matrix.get(Coordinate::new(5, 0)), Some(Color::Green));
    assert_eq!(engine.matrix.get(Coordinate::new(4, 1)), Some(Color::Purple));
    assert_eq!(engine.matrix.get(Coordinate::new(5, 1)), Some(Color::Purple));
    assert_eq!(engine.matrix.get(Coordinate::new(6, 1)), Some(Color::Purple));
    assert_eq!(engine.matrix.get(Coordinate::new(5, 2)), Some(Color::Purple));
    assert_eq!(engine.matrix.get(Coordinate::new(4, 0)), None);
}

#[test]
fn exhausting_the_bag_draws_each_kind_exactly_once() {
    let mut engine = Engine::new();
    let mut colors: Vec<Color> = Vec::new();
    for _ in 0..7 {
        engine.spawn();
        let (_, color) = engine.cursor_info().unwrap();
        colors.push(color);
        engine.hard_drop();
    }
    // colors identify kinds one-for-one, so seven draws of seven distinct
    // colors are one permutation of the kinds
    for expected in [
        Color::Yellow,
        Color::Cyan,
        Color::Purple,
        Color::Orange,
        Color::Blue,
        Color::Green,
        Color::Red,
    ] {
        assert_eq!(colors.iter().filter(|&&c| c == expected).count(), 1);
    }
}

#[test]
fn bag_refills_only_when_empty() {
    let mut engine = Engine::new();
    assert_eq!(engine.bag.len(), 0);
    engine.spawn();
    assert_eq!(engine.bag.len(), 6);
    engine.hard_drop();
    engine.spawn();
    assert_eq!(engine.bag.len(), 5);
}

#[test]
fn cursor_hits_bottom_exactly_on_the_floor() {
    let mut engine = Engine::new();
    engine.DEBUG_test_cursor(Kind::T, Offset::new(4, 0));
    assert!(!engine.cursor_has_hit_bottom());
    engine.tick_down();
    assert!(engine.cursor_has_hit_bottom());
    let (cells, _) = engine.cursor_info().unwrap();
    assert_eq!(
        cells,
        vec![
            Coordinate::new(4, 0),
            Coordinate::new(5, 0),
            Coordinate::new(6, 0),
            Coordinate::new(5, 1),
        ],
    );
}

#[test]
fn line_clear_removes_full_rows_and_reports_them() {
    let mut matrix = Matrix::blank();
    for x in 0..WIDTH {
        matrix.set(Coordinate::new(x, 0), Some(Color::Red));
    }
    matrix.set(Coordinate::new(3, 1), Some(Color::Blue));
    let mut engine = Engine::with_matrix(matrix);

    let cleared = engine.line_clear();
    assert_eq!(cleared, vec![0]);
    assert_eq!(engine.matrix.get(Coordinate::new(3, 0)), Some(Color::Blue));
    for x in 0..WIDTH {
        for y in 1..HEIGHT {
            assert_eq!(engine.matrix.get(Coordinate::new(x, y)), None);
        }
    }
}

#[test]
fn line_clear_on_a_blank_board_reports_nothing() {
    let mut engine = Engine::new();
    assert_eq!(engine.line_clear(), Vec::<usize>::new());
}

#[test]
fn a_fresh_engine_is_level_one_with_a_blank_board() {
    let engine = Engine::new();
    assert_eq!(engine.level(), 1);
    assert!(engine.cursor_info().is_none());
    let mut iter = engine.cells();
    while let Some((_, contents)) = iter.next() {
        assert!(contents.is_none());
    }
}
