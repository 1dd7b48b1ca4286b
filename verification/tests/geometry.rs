use engine::bitboard::{BitArr2D, BitBoard};
use engine::geometry::{adjacent_squares, creates_mill, mill_masks, mill_squares};

fn set_of(points: &[(usize, usize)]) -> BitBoard {
    let mut board = BitBoard::empty();
    for &(x, y) in points {
        board.set_point(x, y, true);
    }
    board
}

#[test]
fn a_corner_is_joined_to_its_two_ring_neighbours() {
    assert_eq!(adjacent_squares(0, 0).iter_set_points(), vec![(0, 1), (0, 7)]);
    assert_eq!(adjacent_squares(1, 2).iter_set_points(), vec![(1, 1), (1, 3)]);
    assert_eq!(adjacent_squares(2, 6).iter_set_points(), vec![(2, 5), (2, 7)]);
}

#[test]
fn an_outer_midpoint_is_joined_inwards() {
    assert_eq!(
        adjacent_squares(0, 1).iter_set_points(),
        vec![(0, 0), (0, 2), (1, 1)]
    );
    assert_eq!(
        adjacent_squares(0, 7).iter_set_points(),
        vec![(0, 0), (0, 6), (1, 7)]
    );
}

#[test]
fn a_middle_midpoint_is_joined_inwards_and_outwards() {
    assert_eq!(
        adjacent_squares(1, 3).iter_set_points(),
        vec![(0, 3), (1, 2), (1, 4), (2, 3)]
    );
}

#[test]
fn an_inner_midpoint_is_joined_outwards() {
    assert_eq!(
        adjacent_squares(2, 5).iter_set_points(),
        vec![(1, 5), (2, 4), (2, 6)]
    );
}

#[test]
fn adjacency_is_symmetric() {
    for x in 0..3 {
        for y in 0..8 {
            for (a, b) in adjacent_squares(x, y).iter_set_points() {
                assert!(adjacent_squares(a, b).iter_set_points().contains(&(x, y)));
            }
        }
    }
}

#[test]
fn the_board_has_thirty_two_connections() {
    let mut ends = 0;
    for x in 0..3 {
        for y in 0..8 {
            ends += adjacent_squares(x, y).count();
        }
    }
    assert_eq!(ends, 64);
}

#[test]
fn adjacency_wraps_coordinates_out_of_range() {
    assert_eq!(adjacent_squares(3, 8), adjacent_squares(0, 0));
    assert_eq!(adjacent_squares(4, 9), adjacent_squares(1, 1));
}

#[test]
fn there_are_sixteen_mills_of_three_points() {
    let masks = mill_masks();
    assert_eq!(masks.len(), 16);
    for mask in &masks {
        assert_eq!(mask.count(), 3);
    }
}

#[test]
fn no_mill_occurs_twice() {
    let masks = mill_masks();
    for i in 0..masks.len() {
        for j in 0..i {
            assert_ne!(masks[i], masks[j]);
        }
    }
}

#[test]
fn the_mills_are_the_ring_mills_and_the_radial_mills() {
    let masks = mill_masks();
    for ring in 0..3 {
        for corner in [0, 2, 4, 6] {
            let mill = set_of(&[(ring, corner), (ring, corner + 1), (ring, (corner + 2) % 8)]);
            assert!(masks.contains(&mill));
        }
    }
    for position in [1, 3, 5, 7] {
        let mill = set_of(&[(0, position), (1, position), (2, position)]);
        assert!(masks.contains(&mill));
    }
}

#[test]
fn the_mills_come_in_a_fixed_order() {
    let masks = mill_masks();
    assert_eq!(masks[0], set_of(&[(0, 0), (0, 1), (0, 2)]));
    assert_eq!(masks[1], set_of(&[(0, 1), (1, 1), (2, 1)]));
    assert_eq!(masks[6], set_of(&[(0, 6), (0, 7), (0, 0)]));
    assert_eq!(masks[7], set_of(&[(0, 7), (1, 7), (2, 7)]));
    assert_eq!(masks[8], set_of(&[(1, 0), (1, 1), (1, 2)]));
    assert_eq!(masks[11], set_of(&[(1, 6), (1, 7), (1, 0)]));
    assert_eq!(masks[12], set_of(&[(2, 0), (2, 1), (2, 2)]));
    assert_eq!(masks[15], set_of(&[(2, 6), (2, 7), (2, 0)]));
}

#[test]
fn mill_squares_are_the_points_in_standing_mills() {
    assert_eq!(mill_squares(BitBoard::empty()).count(), 0);
    let pieces = set_of(&[(0, 0), (0, 1), (0, 2), (1, 1), (2, 5)]);
    assert_eq!(
        mill_squares(pieces).iter_set_points(),
        vec![(0, 0), (0, 1), (0, 2)]
    );
    let two_mills = set_of(&[(0, 0), (0, 1), (0, 2), (1, 1), (2, 1), (1, 4)]);
    assert_eq!(
        mill_squares(two_mills).iter_set_points(),
        vec![(0, 0), (0, 1), (0, 2), (1, 1), (2, 1)]
    );
    let wrapped = set_of(&[(2, 6), (2, 7), (2, 0), (2, 3)]);
    assert_eq!(
        mill_squares(wrapped).iter_set_points(),
        vec![(2, 0), (2, 6), (2, 7)]
    );
    let none = set_of(&[(0, 1), (0, 2), (0, 3), (1, 1)]);
    assert_eq!(mill_squares(none).count(), 0);
    assert_eq!(mill_squares(BitBoard::empty().complement()).count(), 24);
}

#[test]
fn a_piece_creates_a_mill_when_it_completes_a_line() {
    let pieces = set_of(&[(0, 0), (0, 1), (1, 7), (2, 7)]);
    assert!(creates_mill(pieces, BitBoard::from_point(0, 2)));
    assert!(creates_mill(pieces, BitBoard::from_point(0, 7)));
    assert!(!creates_mill(pieces, BitBoard::from_point(0, 3)));
    assert!(!creates_mill(pieces, BitBoard::from_point(1, 1)));
    assert!(!creates_mill(BitBoard::empty(), BitBoard::from_point(0, 0)));
}

#[test]
fn a_piece_inside_a_standing_mill_creates_none() {
    let pieces = set_of(&[(0, 0), (0, 1), (0, 2)]);
    assert!(!creates_mill(pieces, BitBoard::from_point(0, 1)));
    assert!(!creates_mill(pieces, BitBoard::from_point(0, 3)));
    // a second mill through a point of the first
    let more = set_of(&[(0, 0), (0, 1), (0, 2), (1, 1)]);
    assert!(creates_mill(more, BitBoard::from_point(2, 1)));
}
