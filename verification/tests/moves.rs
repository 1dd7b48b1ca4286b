use engine::moves::{DecodeError, Move, Point, WireField, WireMove};

fn point(ring: usize, position: usize) -> Point {
    Point { ring, position }
}

#[test]
fn a_placement_encodes_its_target_only() {
    let m = Move { to: point(1, 2), from: None, capture: None };
    assert_eq!(
        m.encode(),
        WireMove { square: Some(vec![1, 2]), from_square: None, remove_square: None }
    );
}

#[test]
fn a_capturing_slide_encodes_all_three_points() {
    let m = Move { to: point(0, 7), from: Some(point(0, 0)), capture: Some(point(2, 3)) };
    assert_eq!(
        m.encode(),
        WireMove {
            square: Some(vec![0, 7]),
            from_square: Some(vec![0, 0]),
            remove_square: Some(vec![2, 3]),
        }
    );
}

#[test]
fn decoding_reads_the_three_fields() {
    let wire = WireMove {
        square: Some(vec![2, 7]),
        from_square: Some(vec![2, 6]),
        remove_square: None,
    };
    assert_eq!(
        Move::decode(&wire),
        Ok(Move { to: point(2, 7), from: Some(point(2, 6)), capture: None })
    );
}

#[test]
fn encoding_then_decoding_gives_the_move_back() {
    for ring in 0..3 {
        for position in 0..8 {
            let placement = Move { to: point(ring, position), from: None, capture: None };
            assert_eq!(Move::decode(&placement.encode()), Ok(placement));
            let slide = Move {
                to: point(ring, position),
                from: Some(point((ring + 1) % 3, (position + 3) % 8)),
                capture: Some(point((ring + 2) % 3, (position + 5) % 8)),
            };
            assert_eq!(Move::decode(&slide.encode()), Ok(slide));
        }
    }
}

#[test]
fn a_move_without_target_does_not_decode() {
    let wire = WireMove { square: None, from_square: Some(vec![0, 0]), remove_square: None };
    assert_eq!(Move::decode(&wire), Err(DecodeError::MissingSquare));
    let empty = WireMove { square: None, from_square: None, remove_square: None };
    assert_eq!(Move::decode(&empty), Err(DecodeError::MissingSquare));
}

#[test]
fn an_array_of_the_wrong_length_does_not_decode() {
    let short = WireMove { square: Some(vec![1]), from_square: None, remove_square: None };
    assert_eq!(Move::decode(&short), Err(DecodeError::WrongArity(WireField::Square)));
    let none = WireMove { square: Some(vec![]), from_square: None, remove_square: None };
    assert_eq!(Move::decode(&none), Err(DecodeError::WrongArity(WireField::Square)));
    let long = WireMove {
        square: Some(vec![1, 2]),
        from_square: Some(vec![1, 2, 3]),
        remove_square: None,
    };
    assert_eq!(Move::decode(&long), Err(DecodeError::WrongArity(WireField::FromSquare)));
    let last = WireMove {
        square: Some(vec![1, 2]),
        from_square: None,
        remove_square: Some(vec![0]),
    };
    assert_eq!(Move::decode(&last), Err(DecodeError::WrongArity(WireField::RemoveSquare)));
}

#[test]
fn a_coordinate_out_of_range_does_not_decode() {
    let ring = WireMove { square: Some(vec![3, 0]), from_square: None, remove_square: None };
    assert_eq!(Move::decode(&ring), Err(DecodeError::OutOfRange(WireField::Square)));
    let position = WireMove { square: Some(vec![0, 8]), from_square: None, remove_square: None };
    assert_eq!(Move::decode(&position), Err(DecodeError::OutOfRange(WireField::Square)));
    let from = WireMove {
        square: Some(vec![2, 7]),
        from_square: Some(vec![0, 100]),
        remove_square: None,
    };
    assert_eq!(Move::decode(&from), Err(DecodeError::OutOfRange(WireField::FromSquare)));
    let remove = WireMove {
        square: Some(vec![2, 7]),
        from_square: Some(vec![0, 0]),
        remove_square: Some(vec![usize::MAX, 0]),
    };
    assert_eq!(Move::decode(&remove), Err(DecodeError::OutOfRange(WireField::RemoveSquare)));
}

#[test]
fn the_first_fault_is_reported() {
    let wire = WireMove {
        square: Some(vec![9, 9]),
        from_square: Some(vec![1]),
        remove_square: Some(vec![5, 5]),
    };
    assert_eq!(Move::decode(&wire), Err(DecodeError::OutOfRange(WireField::Square)));
    let wire = WireMove {
        square: Some(vec![0, 0]),
        from_square: Some(vec![1]),
        remove_square: Some(vec![5, 5]),
    };
    assert_eq!(Move::decode(&wire), Err(DecodeError::WrongArity(WireField::FromSquare)));
    let wire = WireMove {
        square: Some(vec![9, 9, 9]),
        from_square: None,
        remove_square: None,
    };
    assert_eq!(Move::decode(&wire), Err(DecodeError::WrongArity(WireField::Square)));
}

#[test]
fn moves_are_equal_when_their_points_are() {
    let a = Move { to: point(1, 2), from: None, capture: None };
    let b = Move { to: point(1, 2), from: None, capture: None };
    let c = Move { to: point(1, 2), from: Some(point(1, 1)), capture: None };
    let d = Move { to: point(1, 2), from: None, capture: Some(point(0, 0)) };
    assert_eq!(a, b);
    assert_ne!(a, c);
    assert_ne!(a, d);
    assert_ne!(c, d);
}
