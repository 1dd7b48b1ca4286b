//! The state of a game, the moves that are legal in it, and what a move does
//! to it.

use vstd::prelude::*;
use crate::bitboard::{lemma_view_is_point_set, lists_points, pair_index, BitArr2D, BitBoard};
use crate::geometry::{adjacent_squares, completes_mill, creates_mill, mill_squares};
use crate::moves::{ascending, lemma_ascending_concat, move_precedes, Move, Point};
use crate::rules::{capture_among, lemma_legal_move_is_in_range, lemma_legal_move_keeps_invariant, lemma_legal_move_list_is_unique, lemma_legal_moves_are_listed, source_among, BoardModel};

verus! {

/// A side with fewer pieces than this has lost, once all pieces are placed; a
/// side with exactly this many may fly.
pub const MIN_PIECES: u8 = 3;

/// Number of pieces that each side places.
pub const MAX_PIECES: u8 = 9;

/// The point that a coordinate pair names.
spec fn point_of(pair: (usize, usize)) -> Point {
    Point { ring: pair.0, position: pair.1 }
}

/// The points of an optional board.
spec fn optional_points(board: Option<BitBoard>) -> Option<Set<int>> {
    match board {
        None => None,
        Some(b) => Some(b@),
    }
}

/// Whether `point` is named by one of the first `upto` pairs of `list`.
spec fn listed(point: Point, list: Seq<(usize, usize)>, upto: int) -> bool {
    exists|j: int| 0 <= j < upto && point_of(#[trigger] list[j]) == point
}

/// A list that names the points of a set names exactly the points whose
/// coordinates are in range and whose index is in the set.
proof fn lemma_listed_points(list: Seq<(usize, usize)>, points: Set<int>, point: Point)
    requires
        lists_points(list, points),
    ensures
        listed(point, list, list.len() as int) <==> point.in_range() && points.contains(
            point.index(),
        ),
{
    if listed(point, list, list.len() as int) {
        let j = choose|j: int| 0 <= j < list.len() && point_of(#[trigger] list[j]) == point;
        assert(pair_index(list[j]) == point.index());
    }
    if point.in_range() && points.contains(point.index()) {
        let j = choose|j: int| 0 <= j < list.len() && pair_index(#[trigger] list[j]) == point.index();
        assert(point_of(list[j]) == point);
    }
}

/// A list with one more move holds that move and what it held before.
proof fn lemma_push_contains(list: Seq<Move>, last: Move, m: Move)
    ensures
        list.push(last).contains(m) <==> list.contains(m) || m == last,
{
    let longer = list.push(last);
    if list.contains(m) {
        let i = choose|i: int| 0 <= i < list.len() && list[i] == m;
        assert(longer[i] == m);
    }
    if m == last {
        assert(longer[list.len() as int] == m);
    }
    if longer.contains(m) {
        let i = choose|i: int| 0 <= i < longer.len() && longer[i] == m;
        if i < list.len() {
            assert(list[i] == m);
        }
    }
}

/// Two lists joined hold what either of them holds.
proof fn lemma_concat_contains(a: Seq<Move>, b: Seq<Move>, m: Move)
    ensures
        (a + b).contains(m) <==> a.contains(m) || b.contains(m),
{
    let joined = a + b;
    if a.contains(m) {
        let i = choose|i: int| 0 <= i < a.len() && a[i] == m;
        assert(joined[i] == m);
    }
    if b.contains(m) {
        let i = choose|i: int| 0 <= i < b.len() && b[i] == m;
        assert(joined[a.len() + i] == m);
    }
    if joined.contains(m) {
        let i = choose|i: int| 0 <= i < joined.len() && joined[i] == m;
        if i < a.len() {
            assert(a[i] == m);
        } else {
            assert(b[i - a.len()] == m);
        }
    }
}

/// Moves are gathered group by group, one group for each point of `list` in
/// turn; `key` says which point a move belongs to. If the moves gathered so
/// far are the wanted moves of the first `i` points, in ascending order, and
/// `added` holds the wanted moves of the next point, in ascending order, then
/// both together are the wanted moves of the first `i + 1` points, in
/// ascending order.
proof fn lemma_next_group(
    wanted: spec_fn(Move) -> bool,
    key: spec_fn(Move) -> Point,
    list: Seq<(usize, usize)>,
    points: Set<int>,
    i: int,
    before: Seq<Move>,
    added: Seq<Move>,
)
    requires
        0 <= i < list.len(),
        lists_points(list, points),
        forall|x: Move, y: Move|
            #![trigger wanted(x), wanted(y)]
            wanted(x) && wanted(y) && key(x).index() < key(y).index() ==> move_precedes(x, y),
        ascending(before),
        ascending(added),
        forall|m: Move| #[trigger] before.contains(m) <==> wanted(m) && listed(key(m), list, i),
        forall|m: Move| #[trigger] added.contains(m) <==> wanted(m) && key(m) == point_of(list[i]),
    ensures
        ascending(before + added),
        forall|m: Move|
            #[trigger] (before + added).contains(m) <==> wanted(m) && listed(key(m), list, i + 1),
{
    assert forall|a: int, b: int|
        0 <= a < before.len() && 0 <= b < added.len() implies move_precedes(
        #[trigger] before[a],
        #[trigger] added[b],
    ) by {
        let x = before[a];
        let y = added[b];
        assert(before.contains(x));
        assert(added.contains(y));
        let j = choose|j: int| 0 <= j < i && point_of(#[trigger] list[j]) == key(x);
        assert(pair_index(list[j]) < pair_index(list[i]));
        assert(key(x).index() == pair_index(list[j]));
        assert(key(y).index() == pair_index(list[i]));
        assert(wanted(x) && wanted(y));
    }
    lemma_ascending_concat(before, added);
    assert forall|m: Move|
        #[trigger] (before + added).contains(m) <==> wanted(m) && listed(
            key(m),
            list,
            i + 1,
        ) by {
        lemma_concat_contains(before, added, m);
        if wanted(m) && listed(key(m), list, i + 1) {
            let j = choose|j: int| 0 <= j < i + 1 && point_of(#[trigger] list[j]) == key(m);
            if j < i {
                assert(listed(key(m), list, i));
            }
        }
        if before.contains(m) {
            let j = choose|j: int| 0 <= j < i && point_of(#[trigger] list[j]) == key(m);
            assert(listed(key(m), list, i + 1));
        }
        if added.contains(m) {
            assert(point_of(list[i]) == key(m));
            assert(listed(key(m), list, i + 1));
        }
    }
}

/// On a board where the game goes on, the legal moves onto an empty point
/// are those whose source the phase allows and whose capture fits the mill
/// test.
proof fn lemma_moves_onto(board: BoardModel, square: Point, added: Seq<Move>)
    requires
        !board.game_over(),
        square.in_range(),
        board.empty_points().contains(square.index()),
        forall|m: Move|
            added.contains(m) <==> {
                &&& m.to == square
                &&& source_among(m.from, board.sources(square.index()))
                &&& capture_among(
                    m.capture,
                    completes_mill(board.mine(), square.index()),
                    board.capturable(),
                )
            },
    ensures
        forall|m: Move| #[trigger] added.contains(m) <==> board.is_legal(m) && m.to == square,
{
}

/// The moves of one piece onto one point: where the move closes a mill, one
/// move for each piece that may be taken, by ascending point; else the one
/// move that takes nothing.
fn capture_moves(
    to: Point,
    from: Option<Point>,
    mill: bool,
    captures: &Vec<(usize, usize)>,
    Ghost(capturable): Ghost<Set<int>>,
) -> (moves: Vec<Move>)
    requires
        lists_points(captures@, capturable),
    ensures
        ascending(moves@),
        forall|m: Move|
            moves@.contains(m) <==> m.to == to && m.from == from && capture_among(
                m.capture,
                mill,
                capturable,
            ),
{
    let mut moves: Vec<Move> = Vec::new();
    if mill {
        let mut k: usize = 0;
        while k < captures.len()
            invariant
                k <= captures.len(),
                moves.len() == k,
                forall|i: int|
                    0 <= i < k ==> #[trigger] moves[i] == (Move {
                        to,
                        from,
                        capture: Some(point_of(captures[i])),
                    }),
            decreases captures.len() - k,
        {
            let pair = captures[k];
            moves.push(Move { to, from, capture: Some(Point { ring: pair.0, position: pair.1 }) });
            k += 1;
        }
        proof {
            assert forall|i: int, j: int| 0 <= i < j < moves.len() implies move_precedes(
                #[trigger] moves[i],
                #[trigger] moves[j],
            ) by {
                assert(pair_index(captures[i]) < pair_index(captures[j]));
            }
            assert forall|m: Move|
                moves@.contains(m) <==> m.to == to && m.from == from && capture_among(
                    m.capture,
                    mill,
                    capturable,
                ) by {
                if moves@.contains(m) {
                    let i = choose|i: int| 0 <= i < moves.len() && moves[i] == m;
                    assert(point_of(captures[i]) == m.capture.unwrap());
                    lemma_listed_points(captures@, capturable, m.capture.unwrap());
                }
                if m.to == to && m.from == from && capture_among(m.capture, mill, capturable) {
                    let point = m.capture.unwrap();
                    lemma_listed_points(captures@, capturable, point);
                    let j = choose|j: int|
                        0 <= j < captures.len() && point_of(#[trigger] captures[j]) == point;
                    assert(moves[j] == m);
                }
            }
        }
    } else {
        let only = Move { to, from, capture: None };
        moves.push(only);
        proof {
            assert forall|m: Move|
                moves@.contains(m) <==> m.to == to && m.from == from && capture_among(
                    m.capture,
                    mill,
                    capturable,
                ) by {
                lemma_push_contains(Seq::<Move>::empty(), only, m);
                assert(moves@ =~= Seq::<Move>::empty().push(only));
            }
        }
    }
    moves
}

/// The moves onto one empty point, by ascending source and then by ascending
/// captured point. The piece comes from the hand where `from_squares` is
/// `None`, else from any of the points of `from_squares`. The move closes a
/// mill if a piece on `square` next to `my_squares` does.
fn generate_moves(
    square: Point,
    from_squares: Option<BitBoard>,
    my_squares: BitBoard,
    opp_removable_squares: BitBoard,
) -> (moves: Vec<Move>)
    requires
        square.in_range(),
    ensures
        ascending(moves@),
        forall|m: Move|
            moves@.contains(m) <==> {
                &&& m.to == square
                &&& source_among(m.from, optional_points(from_squares))
                &&& capture_among(
                    m.capture,
                    completes_mill(my_squares@, square.index()),
                    opp_removable_squares@,
                )
            },
{
    let target = BitBoard::from_point(square.ring, square.position);
    let mill = creates_mill(my_squares, target);
    assert(my_squares@.union(target@) =~= my_squares@.insert(square.index()));
    let captures = opp_removable_squares.iter_set_points();
    let ghost capturable = opp_removable_squares@;
    match from_squares {
        None => capture_moves(square, None, mill, &captures, Ghost(capturable)),
        Some(sources) => {
            let froms = sources.iter_set_points();
            let mut moves: Vec<Move> = Vec::new();
            let mut i: usize = 0;
            while i < froms.len()
                invariant
                    i <= froms.len(),
                    lists_points(froms@, sources@),
                    lists_points(captures@, capturable),
                    ascending(moves@),
                    forall|m: Move|
                        #[trigger] moves@.contains(m) <==> {
                            &&& m.to == square
                            &&& m.from is Some
                            &&& capture_among(m.capture, mill, capturable)
                            &&& listed(m.from.unwrap(), froms@, i as int)
                        },
                decreases froms.len() - i,
            {
                let pair = froms[i];
                let from = Point { ring: pair.0, position: pair.1 };
                let mut batch = capture_moves(square, Some(from), mill, &captures, Ghost(capturable));
                let ghost before = moves@;
                let ghost added = batch@;
                moves.append(&mut batch);
                proof {
                    assert(point_of(froms[i as int]) == from);
                    lemma_next_group(
                        |m: Move|
                            {
                                &&& m.to == square
                                &&& m.from is Some
                                &&& capture_among(m.capture, mill, capturable)
                            },
                        |m: Move| m.from.unwrap(),
                        froms@,
                        sources@,
                        i as int,
                        before,
                        added,
                    );
                }
                i += 1;
            }
            proof {
                assert forall|m: Move|
                    moves@.contains(m) <==> {
                        &&& m.to == square
                        &&& source_among(m.from, optional_points(from_squares))
                        &&& capture_among(m.capture, mill, capturable)
                    } by {
                    if let Some(p) = m.from {
                        lemma_listed_points(froms@, sources@, p);
                    }
                }
            }
            moves
        },
    }
}

/// The error of a step that is not accepted: a move that is not legal, or a
/// pass while a legal move exists.
#[derive(Clone, Copy, Debug, PartialEq, Eq, Structural)]
pub struct IllegalMove;

impl IllegalMove {
    /// The error in words.
    pub fn message(&self) -> (text: &'static str)
        ensures
            text@ == "Illegal move"@,
    {
        "Illegal move"
    }
}

/// Whether `m` is one of `moves`.
fn contains_move(moves: &Vec<Move>, m: &Move) -> (found: bool)
    ensures
        found == moves@.contains(*m),
{
    let mut i: usize = 0;
    while i < moves.len()
        invariant
            i <= moves.len(),
            forall|j: int| 0 <= j < i ==> moves[j] != *m,
        decreases moves.len() - i,
    {
        if moves[i] == *m {
            return true;
        }
        i += 1;
    }
    false
}

/// The state of a game.
#[derive(Debug, PartialEq, Eq)]
pub struct Board {
    black_squares: BitBoard,
    white_squares: BitBoard,
    initial_placed: u8,
    num_black_pieces: u8,
    num_white_pieces: u8,
    blacks_turn: bool,
}

impl View for Board {
    type V = BoardModel;

    closed spec fn view(&self) -> BoardModel {
        BoardModel {
            black: self.black_squares@,
            white: self.white_squares@,
            placements_made: self.initial_placed as nat,
            black_count: self.num_black_pieces as nat,
            white_count: self.num_white_pieces as nat,
            black_to_move: self.blacks_turn,
        }
    }
}

impl Clone for Board {
    fn clone(&self) -> (board: Self)
        ensures
            board@ == self@,
    {
        proof {
            use_type_invariant(self);
        }
        Board {
            black_squares: self.black_squares,
            white_squares: self.white_squares,
            initial_placed: self.initial_placed,
            num_black_pieces: self.num_black_pieces,
            num_white_pieces: self.num_white_pieces,
            blacks_turn: self.blacks_turn,
        }
    }
}

impl Board {
    /// The invariant of a board. It holds of every board that a program
    /// holds.
    #[verifier::type_invariant]
    pub open spec fn wf(&self) -> bool {
        self@.wf()
    }

    /// The board before the first move.
    pub fn new() -> (board: Board)
        ensures
            board@ == BoardModel::initial(),
            board.wf(),
    {
        let board = Board {
            black_squares: BitBoard::empty(),
            white_squares: BitBoard::empty(),
            initial_placed: 0,
            num_black_pieces: 0,
            num_white_pieces: 0,
            blacks_turn: true,
        };
        proof {
            broadcast use vstd::set::group_set_axioms;

        }
        board
    }

    /// The board on which black holds `black_squares` and white holds
    /// `white_squares`, after `initial_placed` placements, with black to move
    /// if `blacks_turn`. There is no such board if a point is held by both.
    pub fn with_pieces(
        black_squares: BitBoard,
        white_squares: BitBoard,
        initial_placed: u8,
        blacks_turn: bool,
    ) -> (r: Option<Board>)
        ensures
            r is Some <==> black_squares@.disjoint(white_squares@),
            r matches Some(board) ==> board.wf() && board@ == (BoardModel {
                black: black_squares@,
                white: white_squares@,
                placements_made: initial_placed as nat,
                black_count: black_squares@.len(),
                white_count: white_squares@.len(),
                black_to_move: blacks_turn,
            }),
    {
        if !black_squares.is_disjoint(&white_squares) {
            return None;
        }
        let num_black_pieces = black_squares.count();
        let num_white_pieces = white_squares.count();
        proof {
            lemma_view_is_point_set(black_squares);
            lemma_view_is_point_set(white_squares);
        }
        Some(
            Board {
                black_squares,
                white_squares,
                initial_placed,
                num_black_pieces: num_black_pieces as u8,
                num_white_pieces: num_white_pieces as u8,
                blacks_turn,
            },
        )
    }

    /// The points that black holds.
    pub fn black_squares(&self) -> (r: BitBoard)
        ensures
            r@ == self@.black,
    {
        self.black_squares
    }

    /// The points that white holds.
    pub fn white_squares(&self) -> (r: BitBoard)
        ensures
            r@ == self@.white,
    {
        self.white_squares
    }

    /// The number of placements made so far, by both sides together.
    pub fn initial_placed(&self) -> (n: u8)
        ensures
            n == self@.placements_made,
    {
        self.initial_placed
    }

    /// The number of pieces that black has on the board.
    pub fn num_black_pieces(&self) -> (n: u8)
        ensures
            n == self@.black_count,
    {
        self.num_black_pieces
    }

    /// The number of pieces that white has on the board.
    pub fn num_white_pieces(&self) -> (n: u8)
        ensures
            n == self@.white_count,
    {
        self.num_white_pieces
    }

    /// Whether it is black's turn.
    pub fn is_blacks_turn(&self) -> (r: bool)
        ensures
            r == self@.black_to_move,
    {
        self.blacks_turn
    }

    /// The points that hold no piece.
    fn empty_squares(&self) -> (r: BitBoard)
        ensures
            r@ == self@.empty_points(),
    {
        self.black_squares.union(&self.white_squares).complement()
    }

    /// Whether one side has won.
    pub fn is_game_over(&self) -> (r: bool)
        ensures
            r == self@.game_over(),
    {
        self.is_black_winner() || self.is_white_winner()
    }

    /// Whether black has won.
    pub fn is_black_winner(&self) -> (r: bool)
        ensures
            r == self@.black_wins(),
    {
        self.is_movement_phase() && self.num_white_pieces < MIN_PIECES
    }

    /// Whether white has won.
    pub fn is_white_winner(&self) -> (r: bool)
        ensures
            r == self@.white_wins(),
    {
        self.is_movement_phase() && self.num_black_pieces < MIN_PIECES
    }

    /// Whether pieces are still being placed: fewer than 18 have been. The
    /// 18th placement is the last one.
    fn is_placement_phase(&self) -> (r: bool)
        ensures
            r == self@.placement_phase(),
    {
        self.initial_placed < MAX_PIECES * 2
    }

    /// Whether all pieces have been placed.
    fn is_movement_phase(&self) -> (r: bool)
        ensures
            r == self@.movement_phase(),
    {
        !self.is_placement_phase()
    }

    /// Whether the side to move may fly: all pieces have been placed and it
    /// has exactly three left.
    fn is_flying_phase(&self) -> (r: bool)
        ensures
            r == self@.flying_phase(),
    {
        self.is_movement_phase() && (if self.blacks_turn {
            self.num_black_pieces == MIN_PIECES
        } else {
            self.num_white_pieces == MIN_PIECES
        })
    }

    /// The points of the side to move, and those of the other side.
    fn get_player_squares(&self) -> (r: (BitBoard, BitBoard))
        ensures
            r.0@ == self@.mine(),
            r.1@ == self@.theirs(),
    {
        if self.blacks_turn {
            (self.black_squares, self.white_squares)
        } else {
            (self.white_squares, self.black_squares)
        }
    }

    /// The legal moves of the side to move, ordered by target, then by
    /// source, then by captured point. There is none once the game is over.
    pub fn legal_moves(&self) -> (moves: Vec<Move>)
        ensures
            self@.is_legal_move_list(moves@),
            moves@ == self@.legal_moves(),
            self@.game_over() ==> moves@.len() == 0,
    {
        if self.is_game_over() {
            let moves: Vec<Move> = Vec::new();
            proof {
                assert forall|m: Move| moves@.contains(m) <==> self@.is_legal(m) by {}
                lemma_legal_moves_are_listed(self@);
                lemma_legal_move_list_is_unique(self@, moves@, self@.legal_moves());
            }
            return moves;
        }
        let ghost board = self@;
        let empty_squares = self.empty_squares();
        let (my_squares, opp_squares) = self.get_player_squares();
        let opp_removable_squares = opp_squares.subtract(&mill_squares(opp_squares));
        let placement = self.is_placement_phase();
        let flying = self.is_flying_phase();
        let targets = empty_squares.iter_set_points();
        let mut moves: Vec<Move> = Vec::new();
        let mut i: usize = 0;
        while i < targets.len()
            invariant
                i <= targets.len(),
                lists_points(targets@, board.empty_points()),
                !board.game_over(),
                my_squares@ == board.mine(),
                opp_removable_squares@ == board.capturable(),
                placement == board.placement_phase(),
                flying == board.flying_phase(),
                ascending(moves@),
                forall|m: Move|
                    #[trigger] moves@.contains(m) <==> board.is_legal(m) && listed(
                        m.to,
                        targets@,
                        i as int,
                    ),
            decreases targets.len() - i,
        {
            let pair = targets[i];
            let square = Point { ring: pair.0, position: pair.1 };
            let from_squares = if placement {
                None
            } else if flying {
                Some(my_squares)
            } else {
                Some(adjacent_squares(square.ring, square.position).intersect(&my_squares))
            };
            let mut batch = generate_moves(square, from_squares, my_squares, opp_removable_squares);
            let ghost before = moves@;
            let ghost added = batch@;
            moves.append(&mut batch);
            proof {
                assert(point_of(targets[i as int]) == square);
                assert(board.empty_points().contains(pair_index(targets[i as int])));
                assert(optional_points(from_squares) == board.sources(square.index()));
                lemma_moves_onto(board, square, added);
                lemma_next_group(
                    |m: Move| board.is_legal(m),
                    |m: Move| m.to,
                    targets@,
                    board.empty_points(),
                    i as int,
                    before,
                    added,
                );
            }
            i += 1;
        }
        proof {
            assert forall|m: Move| moves@.contains(m) <==> board.is_legal(m) by {
                lemma_listed_points(targets@, board.empty_points(), m.to);
            }
            lemma_legal_moves_are_listed(board);
            lemma_legal_move_list_is_unique(board, moves@, board.legal_moves());
        }
        moves
    }

    /// Makes a step: the move `m` for `Some(m)`, a pass for `None`. A move is
    /// accepted if it is one of the legal moves, a pass if there is no legal
    /// move; the result is then the board after the step, with the other
    /// side to move. Any other step is refused. `self` stays as it is.
    pub fn make_move(&self, maybe_move: Option<Move>) -> (r: Result<Board, IllegalMove>)
        ensures
            r is Ok <==> self@.accepts(maybe_move),
            r matches Ok(board) ==> {
                &&& board@ == self@.successor(maybe_move)
                &&& board.wf()
                &&& board@.black_to_move == !self@.black_to_move
            },
    {
        proof {
            use_type_invariant(self);
        }
        let legal_moves = self.legal_moves();
        match maybe_move {
            Some(move_) => {
                if !contains_move(&legal_moves, &move_) {
                    return Err(IllegalMove);
                }
                proof {
                    lemma_legal_move_is_in_range(self@, move_);
                    lemma_legal_move_keeps_invariant(self@, move_);
                    lemma_view_is_point_set(self.black_squares);
                    lemma_view_is_point_set(self.white_squares);
                    if let Some(p) = move_.capture {
                        vstd::set::axiom_set_contains_len(self@.theirs(), p.index());
                    }
                }
                let (mut my_squares, mut opp_squares) = self.get_player_squares();
                let mut num_my_pieces = if self.blacks_turn {
                    self.num_black_pieces
                } else {
                    self.num_white_pieces
                };
                let mut num_opp_pieces = if self.blacks_turn {
                    self.num_white_pieces
                } else {
                    self.num_black_pieces
                };
                let mut initial_placed = self.initial_placed;
                my_squares.set_point(move_.to.ring, move_.to.position, true);
                match move_.from {
                    Some(from_square) => {
                        my_squares.set_point(from_square.ring, from_square.position, false);
                    },
                    None => {
                        num_my_pieces += 1;
                        initial_placed += 1;
                    },
                }
                match move_.capture {
                    Some(remove_square) => {
                        opp_squares.set_point(remove_square.ring, remove_square.position, false);
                        num_opp_pieces -= 1;
                    },
                    None => {},
                }
                let board = if self.blacks_turn {
                    Board {
                        black_squares: my_squares,
                        white_squares: opp_squares,
                        initial_placed,
                        num_black_pieces: num_my_pieces,
                        num_white_pieces: num_opp_pieces,
                        blacks_turn: false,
                    }
                } else {
                    Board {
                        black_squares: opp_squares,
                        white_squares: my_squares,
                        initial_placed,
                        num_black_pieces: num_opp_pieces,
                        num_white_pieces: num_my_pieces,
                        blacks_turn: true,
                    }
                };
                assert(board@ == self@.apply(move_));
                Ok(board)
            },
            None => {
                if legal_moves.len() != 0 {
                    assert(legal_moves@.contains(legal_moves@[0]));
                    return Err(IllegalMove);
                }
                proof {
                    assert forall|m: Move| !self@.is_legal(m) by {
                        if self@.is_legal(m) {
                            assert(legal_moves@.contains(m));
                        }
                    }
                }
                // a pass: only the turn changes
                Ok(
                    Board {
                        black_squares: self.black_squares,
                        white_squares: self.white_squares,
                        initial_placed: self.initial_placed,
                        num_black_pieces: self.num_black_pieces,
                        num_white_pieces: self.num_white_pieces,
                        blacks_turn: !self.blacks_turn,
                    },
                )
            },
        }
    }
}

} // verus!
