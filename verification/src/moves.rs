//! Moves, the order in which they are listed, and their form on the wire.

use vstd::prelude::*;
use crate::bitboard::{point_index, POSITIONS, RINGS};

verus! {

/// A point of the board, by ring (0 is the outermost) and position on the
/// ring (0 is the top left corner, counting clockwise).
#[derive(Clone, Copy, Debug, PartialEq, Eq, Structural)]
pub struct Point {
    pub ring: usize,
    pub position: usize,
}

impl Point {
    /// Whether the coordinates name a point of the board.
    pub open spec fn in_range(self) -> bool {
        self.ring < 3 && self.position < 8
    }

    /// The linear index of the point.
    pub open spec fn index(self) -> int {
        point_index(self.ring as int, self.position as int)
    }
}

/// A move: a piece arrives on `to`. It comes from `from` unless it is placed
/// from the hand, and it takes the opponent's piece on `capture` where the
/// move closes a mill.
#[derive(Clone, Copy, Debug, PartialEq, Eq, Structural)]
pub struct Move {
    pub to: Point,
    pub from: Option<Point>,
    pub capture: Option<Point>,
}

/// The place of an optional point in the order of moves: an absent point
/// comes before every point.
pub open spec fn rank(point: Option<Point>) -> int {
    match point {
        None => -1,
        Some(p) => p.index(),
    }
}

/// `a` is listed before `b`: moves are ordered by target, then by source,
/// then by captured point, each by ascending linear index.
pub open spec fn move_precedes(a: Move, b: Move) -> bool {
    ||| a.to.index() < b.to.index()
    ||| a.to.index() == b.to.index() && rank(a.from) < rank(b.from)
    ||| a.to.index() == b.to.index() && rank(a.from) == rank(b.from) && rank(a.capture) < rank(
        b.capture,
    )
}

/// Every move of the list is listed before those that follow it.
pub open spec fn ascending(moves: Seq<Move>) -> bool {
    forall|i: int, j: int|
        0 <= i < j < moves.len() ==> move_precedes(#[trigger] moves[i], #[trigger] moves[j])
}

impl Move {
    /// Whether every point of the move is a point of the board.
    pub open spec fn in_range(self) -> bool {
        &&& self.to.in_range()
        &&& self.from matches Some(p) ==> p.in_range()
        &&& self.capture matches Some(p) ==> p.in_range()
    }
}

/// The point with linear index `p`.
pub open spec fn point_at(p: int) -> Point {
    Point { ring: (p / 8) as usize, position: (p % 8) as usize }
}

/// The optional point with rank `code - 1`: none for 0.
pub open spec fn optional_point_at(code: int) -> Option<Point> {
    if code == 0 {
        None
    } else {
        Some(point_at(code - 1))
    }
}

/// Number of moves whose points are on the board: 24 targets, each with 25
/// sources and 25 captures, counting the absent ones.
pub open spec fn candidate_count() -> int {
    15000
}

/// The `n`-th of the moves whose points are on the board, in the order of
/// moves.
pub open spec fn candidate(n: int) -> Move {
    Move {
        to: point_at(n / 625),
        from: optional_point_at(n / 25 % 25),
        capture: optional_point_at(n % 25),
    }
}

/// The place of a move among the candidates.
pub open spec fn place_of(m: Move) -> int {
    m.to.index() * 625 + (rank(m.from) + 1) * 25 + (rank(m.capture) + 1)
}

/// A point of the board is the point at its index.
proof fn lemma_point_at(point: Point)
    requires
        point.in_range(),
    ensures
        0 <= point.index() < 24,
        point_at(point.index()) == point,
{
}

/// A place among the candidates splits into a target, a source and a
/// capture in one way only.
proof fn lemma_place_splits(to: int, from: int, capture: int)
    requires
        0 <= to < 24,
        0 <= from < 25,
        0 <= capture < 25,
    ensures
        0 <= to * 625 + from * 25 + capture < candidate_count(),
        (to * 625 + from * 25 + capture) / 625 == to,
        (to * 625 + from * 25 + capture) / 25 % 25 == from,
        (to * 625 + from * 25 + capture) % 25 == capture,
{
    let n = to * 625 + from * 25 + capture;
    assert(n == (to * 25 + from) * 25 + capture);
    assert(n / 25 == to * 25 + from);
}

/// A move whose points are on the board has its place among the candidates.
pub proof fn lemma_place_of(m: Move)
    requires
        m.in_range(),
    ensures
        0 <= place_of(m) < candidate_count(),
        candidate(place_of(m)) == m,
{
    lemma_point_at(m.to);
    if let Some(p) = m.from {
        lemma_point_at(p);
    }
    if let Some(p) = m.capture {
        lemma_point_at(p);
    }
    lemma_place_splits(m.to.index(), rank(m.from) + 1, rank(m.capture) + 1);
}

/// The target, the source and the capture of the `n`-th candidate are on
/// the board, and the candidate has the place `n`.
pub proof fn lemma_candidate(n: int)
    requires
        0 <= n < candidate_count(),
    ensures
        candidate(n).in_range(),
        place_of(candidate(n)) == n,
{
    let to = n / 625;
    let from = n / 25 % 25;
    let capture = n % 25;
    assert(0 <= to < 24 && 0 <= from < 25 && 0 <= capture < 25);
    assert(point_at(to).index() == to);
    if from > 0 {
        assert(point_at(from - 1).index() == from - 1);
    }
    if capture > 0 {
        assert(point_at(capture - 1).index() == capture - 1);
    }
    assert(n == (n / 25) * 25 + n % 25);
    assert(n / 25 == (n / 25 / 25) * 25 + n / 25 % 25);
    assert(n / 25 / 25 == n / 625);
}

/// The candidates are in ascending order.
pub proof fn lemma_candidates_ascend(a: int, b: int)
    requires
        0 <= a < b < candidate_count(),
    ensures
        move_precedes(candidate(a), candidate(b)),
{
    lemma_candidate(a);
    lemma_candidate(b);
    let x = candidate(a);
    let y = candidate(b);
    assert(a == x.to.index() * 625 + (rank(x.from) + 1) * 25 + (rank(x.capture) + 1));
    assert(b == y.to.index() * 625 + (rank(y.from) + 1) * 25 + (rank(y.capture) + 1));
    assert(0 <= rank(x.from) + 1 < 25 && 0 <= rank(x.capture) + 1 < 25);
    assert(0 <= rank(y.from) + 1 < 25 && 0 <= rank(y.capture) + 1 < 25);
}

/// Two ascending lists that hold the same moves are the same list.
pub proof fn lemma_ascending_lists_agree(a: Seq<Move>, b: Seq<Move>)
    requires
        ascending(a),
        ascending(b),
        forall|m: Move| a.contains(m) <==> b.contains(m),
    ensures
        a == b,
    decreases a.len(),
{
    if a.len() == 0 {
        if b.len() > 0 {
            assert(b.contains(b[0]));
            assert(a.contains(b[0]));
        }
        assert(a =~= b);
    } else {
        let last = a.len() - 1;
        assert(a.contains(a[last]));
        assert(b.contains(a[last]));
        let end = b.len() - 1;
        assert(b.contains(b[end]));
        assert(a.contains(b[end]));
        let i = choose|i: int| 0 <= i < a.len() && a[i] == b[end];
        let j = choose|j: int| 0 <= j < b.len() && b[j] == a[last];
        if j < end {
            assert(move_precedes(b[j], b[end]));
            if i < last {
                assert(move_precedes(a[i], a[last]));
            }
        }
        assert(a[last] == b[end]);
        let a_rest = a.drop_last();
        let b_rest = b.drop_last();
        assert forall|m: Move| a_rest.contains(m) <==> b_rest.contains(m) by {
            if a_rest.contains(m) {
                let k = choose|k: int| 0 <= k < a_rest.len() && a_rest[k] == m;
                assert(a[k] == m);
                assert(move_precedes(a[k], a[last]));
                assert(a.contains(m));
                let l = choose|l: int| 0 <= l < b.len() && b[l] == m;
                assert(b_rest[l] == m);
            }
            if b_rest.contains(m) {
                let k = choose|k: int| 0 <= k < b_rest.len() && b_rest[k] == m;
                assert(b[k] == m);
                assert(move_precedes(b[k], b[end]));
                assert(b.contains(m));
                let l = choose|l: int| 0 <= l < a.len() && a[l] == m;
                assert(a_rest[l] == m);
            }
        }
        lemma_ascending_lists_agree(a_rest, b_rest);
        assert(a =~= a_rest.push(a[last]));
        assert(b =~= b_rest.push(b[end]));
    }
}

/// A list made of two ascending lists is ascending if every move of the
/// first is listed before every move of the second.
pub proof fn lemma_ascending_concat(a: Seq<Move>, b: Seq<Move>)
    requires
        ascending(a),
        ascending(b),
        forall|i: int, j: int|
            0 <= i < a.len() && 0 <= j < b.len() ==> move_precedes(#[trigger] a[i], #[trigger] b[j]),
    ensures
        ascending(a + b),
{
    let joined = a + b;
    assert forall|i: int, j: int| 0 <= i < j < joined.len() implies move_precedes(
        #[trigger] joined[i],
        #[trigger] joined[j],
    ) by {
        if j < a.len() {
            assert(joined[i] == a[i] && joined[j] == a[j]);
        } else if i < a.len() {
            assert(joined[i] == a[i] && joined[j] == b[j - a.len()]);
        } else {
            assert(joined[i] == b[i - a.len()] && joined[j] == b[j - a.len()]);
        }
    }
}

/// A move as it crosses the wire: an object of three fields, each of them
/// null or an array `[ring, position]`.
#[derive(Debug, PartialEq, Eq)]
pub struct WireMove {
    pub square: Option<Vec<usize>>,
    pub from_square: Option<Vec<usize>>,
    pub remove_square: Option<Vec<usize>>,
}

/// What a `WireMove` holds.
pub struct WireModel {
    pub square: Option<Seq<usize>>,
    pub from_square: Option<Seq<usize>>,
    pub remove_square: Option<Seq<usize>>,
}

/// What an optional array holds.
pub open spec fn field_view(field: Option<Vec<usize>>) -> Option<Seq<usize>> {
    match field {
        None => None,
        Some(array) => Some(array@),
    }
}

impl View for WireMove {
    type V = WireModel;

    open spec fn view(&self) -> WireModel {
        WireModel {
            square: field_view(self.square),
            from_square: field_view(self.from_square),
            remove_square: field_view(self.remove_square),
        }
    }
}

/// A field of a move on the wire.
#[derive(Clone, Copy, Debug, PartialEq, Eq, Structural)]
pub enum WireField {
    Square,
    FromSquare,
    RemoveSquare,
}

/// Why a move on the wire does not decode.
#[derive(Clone, Copy, Debug, PartialEq, Eq, Structural)]
pub enum DecodeError {
    /// The target is missing: `square` is null.
    MissingSquare,
    /// The array of the field has not exactly two elements.
    WrongArity(WireField),
    /// The ring is not below 3, or the position is not below 8.
    OutOfRange(WireField),
}

/// The array that stands for a point on the wire.
pub open spec fn encode_point(point: Point) -> Seq<usize> {
    seq![point.ring, point.position]
}

/// The wire form of a move.
pub open spec fn encode_move(m: Move) -> WireModel {
    WireModel {
        square: Some(encode_point(m.to)),
        from_square: match m.from {
            None => None,
            Some(p) => Some(encode_point(p)),
        },
        remove_square: match m.capture {
            None => None,
            Some(p) => Some(encode_point(p)),
        },
    }
}

/// The point that an array of `field` stands for. The array must have two
/// elements, a ring below 3 and a position below 8.
pub open spec fn decode_point(field: WireField, array: Seq<usize>) -> Result<Point, DecodeError> {
    if array.len() != 2 {
        Err(DecodeError::WrongArity(field))
    } else if array[0] >= 3 || array[1] >= 8 {
        Err(DecodeError::OutOfRange(field))
    } else {
        Ok(Point { ring: array[0], position: array[1] })
    }
}

/// The optional point that `value` stands for: none where it is null.
pub open spec fn decode_optional(field: WireField, value: Option<Seq<usize>>) -> Result<
    Option<Point>,
    DecodeError,
> {
    match value {
        None => Ok(None),
        Some(array) => match decode_point(field, array) {
            Ok(point) => Ok(Some(point)),
            Err(e) => Err(e),
        },
    }
}

/// The move that `wire` stands for, or the first fault met when reading
/// `square`, `from_square` and `remove_square` in this order.
pub open spec fn decode_move(wire: WireModel) -> Result<Move, DecodeError> {
    match wire.square {
        None => Err(DecodeError::MissingSquare),
        Some(array) => match decode_point(WireField::Square, array) {
            Err(e) => Err(e),
            Ok(to) => match decode_optional(WireField::FromSquare, wire.from_square) {
                Err(e) => Err(e),
                Ok(from) => match decode_optional(WireField::RemoveSquare, wire.remove_square) {
                    Err(e) => Err(e),
                    Ok(capture) => Ok(Move { to, from, capture }),
                },
            },
        },
    }
}

/// Encoding a move whose points are on the board and decoding the result
/// gives the move back.
pub proof fn lemma_decode_inverts_encode(m: Move)
    requires
        m.in_range(),
    ensures
        decode_move(encode_move(m)) == Ok::<Move, DecodeError>(m),
{
}

/// Whatever decodes has its points on the board, and encodes to the wire
/// form that it came from.
pub proof fn lemma_encode_inverts_decode(wire: WireModel)
    requires
        decode_move(wire) is Ok,
    ensures
        decode_move(wire).unwrap().in_range(),
        encode_move(decode_move(wire).unwrap()) == wire,
{
    let m = decode_move(wire).unwrap();
    assert(wire.square.unwrap() =~= encode_point(m.to));
    if let Some(array) = wire.from_square {
        assert(array =~= encode_point(m.from.unwrap()));
    }
    if let Some(array) = wire.remove_square {
        assert(array =~= encode_point(m.capture.unwrap()));
    }
}

fn encode_pair(point: Point) -> (array: Vec<usize>)
    ensures
        array@ == encode_point(point),
{
    let mut array: Vec<usize> = Vec::new();
    array.push(point.ring);
    array.push(point.position);
    assert(array@ =~= encode_point(point));
    array
}

fn decode_pair(field: WireField, array: &Vec<usize>) -> (r: Result<Point, DecodeError>)
    ensures
        r == decode_point(field, array@),
{
    if array.len() != 2 {
        Err(DecodeError::WrongArity(field))
    } else if array[0] >= RINGS || array[1] >= POSITIONS {
        Err(DecodeError::OutOfRange(field))
    } else {
        Ok(Point { ring: array[0], position: array[1] })
    }
}

fn decode_field(field: WireField, value: &Option<Vec<usize>>) -> (r: Result<
    Option<Point>,
    DecodeError,
>)
    ensures
        r == decode_optional(field, field_view(*value)),
{
    match value {
        None => Ok(None),
        Some(array) => match decode_pair(field, array) {
            Ok(point) => Ok(Some(point)),
            Err(e) => Err(e),
        },
    }
}

impl Move {
    /// The wire form of the move.
    pub fn encode(&self) -> (wire: WireMove)
        ensures
            wire@ == encode_move(*self),
    {
        WireMove {
            square: Some(encode_pair(self.to)),
            from_square: match self.from {
                None => None,
                Some(p) => Some(encode_pair(p)),
            },
            remove_square: match self.capture {
                None => None,
                Some(p) => Some(encode_pair(p)),
            },
        }
    }

    /// Reads a move from its wire form. An array of the wrong length or with
    /// a coordinate out of range is refused, never folded into range.
    pub fn decode(wire: &WireMove) -> (r: Result<Move, DecodeError>)
        ensures
            r == decode_move(wire@),
    {
        match &wire.square {
            None => Err(DecodeError::MissingSquare),
            Some(array) => match decode_pair(WireField::Square, array) {
                Err(e) => Err(e),
                Ok(to) => match decode_field(WireField::FromSquare, &wire.from_square) {
                    Err(e) => Err(e),
                    Ok(from) => match decode_field(WireField::RemoveSquare, &wire.remove_square) {
                        Err(e) => Err(e),
                        Ok(capture) => Ok(Move { to, from, capture }),
                    },
                },
            },
        }
    }
}

} // verus!
