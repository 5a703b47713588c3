use snake_engine::coordinate::Coordinate;
use snake_engine::direction::{Direction, Move};

#[test]
fn it_works() {
    let result = 2 + 2;
    assert_eq!(result, 4);
}

#[test]
fn encode_sets_the_bit_of_the_cell() {
    assert_eq!(Coordinate::new(0, 0).encode(), 1u128);
    assert_eq!(Coordinate::new(1, 0).encode(), 2u128);
    assert_eq!(Coordinate::new(10, 0).encode(), 1u128 << 10);
    assert_eq!(Coordinate::new(0, 1).encode(), 1u128 << 11);
    assert_eq!(Coordinate::new(5, 6).encode(), 1u128 << 71);
    assert_eq!(Coordinate::new(10, 10).encode(), 1u128 << 120);
}

#[test]
fn encode_gives_exactly_one_bit() {
    for y in 0..11 {
        for x in 0..11 {
            assert_eq!(Coordinate::new(x, y).encode().count_ones(), 1);
        }
    }
}

#[test]
fn decode_inverts_encode_on_every_cell() {
    for y in 0..11 {
        for x in 0..11 {
            let c = Coordinate::new(x, y);
            assert_eq!(Coordinate::decode(c.encode()), c);
        }
    }
}

#[test]
fn decode_reads_the_bit_index() {
    assert_eq!(Coordinate::decode(1u128), Coordinate::new(0, 0));
    assert_eq!(Coordinate::decode(1u128 << 11), Coordinate::new(0, 1));
    assert_eq!(Coordinate::decode(1u128 << 120), Coordinate::new(10, 10));
    assert_eq!(Coordinate::decode(1u128 << 27), Coordinate::new(5, 2));
}

#[test]
fn distinct_cells_have_distinct_masks() {
    let a = Coordinate::new(3, 4).encode();
    let b = Coordinate::new(4, 3).encode();
    assert_ne!(a, b);
    assert_eq!(a & b, 0);
    let both = a | b;
    assert_ne!(both & Coordinate::new(3, 4).encode(), 0);
    assert_eq!(both & Coordinate::new(3, 3).encode(), 0);
}

#[test]
fn mask_is_empty_off_the_grid() {
    assert_eq!(Coordinate::new(-1, 0).mask(), 0);
    assert_eq!(Coordinate::new(0, -1).mask(), 0);
    assert_eq!(Coordinate::new(11, 0).mask(), 0);
    assert_eq!(Coordinate::new(0, 11).mask(), 0);
    assert_eq!(Coordinate::new(7, 2).mask(), Coordinate::new(7, 2).encode());
}

#[test]
fn range_test_matches_the_grid() {
    assert!(Coordinate::new(0, 0).is_in_range());
    assert!(Coordinate::new(10, 10).is_in_range());
    assert!(!Coordinate::new(11, 10).is_in_range());
    assert!(!Coordinate::new(10, 11).is_in_range());
    assert!(!Coordinate::new(-1, 5).is_in_range());
}

#[test]
fn coordinates_add_by_component() {
    assert_eq!(Coordinate::new(2, 3) + Coordinate::new(-1, 4), Coordinate::new(1, 7));
    assert_eq!(
        Coordinate::new(2, 3).checked_add(Coordinate::new(5, -3)),
        Some(Coordinate::new(7, 0))
    );
    assert_eq!(Coordinate::new(i32::MAX, 0).checked_add(Coordinate::new(1, 0)), None);
    assert_eq!(Coordinate::new(0, i32::MIN).checked_add(Coordinate::new(0, -1)), None);
}

#[test]
fn default_coordinate_is_the_origin() {
    assert_eq!(Coordinate::default(), Coordinate::new(0, 0));
}

#[test]
fn coordinates_order_by_x_then_y() {
    assert!(Coordinate::new(1, 9) < Coordinate::new(2, 0));
    assert!(Coordinate::new(1, 1) < Coordinate::new(1, 2));
}

#[test]
fn directions_step_one_cell() {
    assert_eq!(Coordinate::from(Direction::Up), Coordinate::new(0, 1));
    assert_eq!(Coordinate::from(Direction::Down), Coordinate::new(0, -1));
    assert_eq!(Coordinate::from(Direction::Left), Coordinate::new(-1, 0));
    assert_eq!(Coordinate::from(Direction::Right), Coordinate::new(1, 0));
}

#[test]
fn directions_have_lowercase_words() {
    assert_eq!(Direction::Up.to_string(), "up");
    assert_eq!(Direction::Down.to_string(), "down");
    assert_eq!(Direction::Left.to_string(), "left");
    assert_eq!(Direction::Right.to_string(), "right");
}

#[test]
fn default_direction_and_move() {
    assert_eq!(Direction::default(), Direction::Up);
    assert_eq!(Move::default(), Move::new(Direction::Up, 0));
    let m = Move::new(Direction::Left, 3);
    assert_eq!(m.direction, Direction::Left);
    assert_eq!(m.id, 3);
}

#[test]
fn conversions_are_inverse_on_every_cell() {
    for y in 0..11 {
        for x in 0..11 {
            let c = Coordinate::new(x, y);
            assert_eq!(u128::from(c), c.encode());
            assert_eq!(Coordinate::from(u128::from(c)), c);
        }
    }
    assert_eq!(Coordinate::from(u128::from(Coordinate::new(10, 10))), Coordinate::new(10, 10));
}

#[test]
fn conversions_are_total() {
    assert_eq!(u128::from(Coordinate::new(-1, 3)), 0);
    assert_eq!(u128::from(Coordinate::new(3, 11)), 0);
    assert_eq!(Coordinate::from(0u128), Coordinate::new(7, 11));
    assert_eq!(Coordinate::from(0b1100u128), Coordinate::new(2, 0));
    assert_eq!(Coordinate::from(1u128 << 127), Coordinate::new(6, 11));
}
