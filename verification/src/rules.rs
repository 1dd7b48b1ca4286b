//! The rules of the game, stated over what a board holds: the phases, the
//! legal moves, what a move does, and what holds of every game.

use vstd::prelude::*;
use crate::bitboard::{all_points, lemma_point_set_is_small};
use crate::geometry::{adjacency, completes_mill, mill_cover};
use crate::moves::{ascending, candidate, candidate_count, decode_move, encode_move, lemma_ascending_lists_agree, lemma_candidate, lemma_candidates_ascend, lemma_decode_inverts_encode, lemma_place_of, move_precedes, place_of, DecodeError, Move, Point};

verus! {

/// What a `Board` holds: the points of either side, the number of pieces
/// placed so far by both sides together, the number of pieces that either
/// side has on the board, and whose turn it is.
pub struct BoardModel {
    pub black: Set<int>,
    pub white: Set<int>,
    pub placements_made: nat,
    pub black_count: nat,
    pub white_count: nat,
    pub black_to_move: bool,
}

/// Whether `from` is a source that a move may have: no source at all where
/// `sources` is `None` (the piece comes from the hand), else a point of
/// `sources`.
pub open spec fn source_among(from: Option<Point>, sources: Option<Set<int>>) -> bool {
    match sources {
        None => from is None,
        Some(points) => from matches Some(p) && p.in_range() && points.contains(p.index()),
    }
}

/// Whether `capture` is what a move may take: a point of `capturable` where
/// the move closes a mill, and nothing where it does not.
pub open spec fn capture_among(capture: Option<Point>, mill: bool, capturable: Set<int>) -> bool {
    if mill {
        capture matches Some(p) && p.in_range() && capturable.contains(p.index())
    } else {
        capture is None
    }
}

impl BoardModel {
    /// The board before the first move: no pieces, black to move.
    pub open spec fn initial() -> BoardModel {
        BoardModel {
            black: Set::empty(),
            white: Set::empty(),
            placements_made: 0,
            black_count: 0,
            white_count: 0,
            black_to_move: true,
        }
    }

    /// The invariant of a board: both sides stand on points of the board, no
    /// point holds two pieces, and the counts are the numbers of points held.
    pub open spec fn wf(self) -> bool {
        &&& self.black.subset_of(all_points())
        &&& self.white.subset_of(all_points())
        &&& self.black.disjoint(self.white)
        &&& self.black_count == self.black.len()
        &&& self.white_count == self.white.len()
    }

    /// Pieces are still being placed: fewer than 18 have been, 9 for each
    /// side. The 18th placement is the last one.
    pub open spec fn placement_phase(self) -> bool {
        self.placements_made < 18
    }

    /// All pieces have been placed.
    pub open spec fn movement_phase(self) -> bool {
        !self.placement_phase()
    }

    /// The points of the side to move.
    pub open spec fn mine(self) -> Set<int> {
        if self.black_to_move {
            self.black
        } else {
            self.white
        }
    }

    /// The points of the other side.
    pub open spec fn theirs(self) -> Set<int> {
        if self.black_to_move {
            self.white
        } else {
            self.black
        }
    }

    /// The piece count of black if `black`, else of white.
    pub open spec fn count_of(self, black: bool) -> nat {
        if black {
            self.black_count
        } else {
            self.white_count
        }
    }

    /// The piece count of the side to move.
    pub open spec fn mover_count(self) -> nat {
        self.count_of(self.black_to_move)
    }

    /// The piece count of the other side.
    pub open spec fn opponent_count(self) -> nat {
        self.count_of(!self.black_to_move)
    }

    /// The side to move may fly: all pieces are placed and it has exactly
    /// three left.
    pub open spec fn flying_phase(self) -> bool {
        self.movement_phase() && self.mover_count() == 3
    }

    /// Black has won: all pieces are placed and white has fewer than three.
    pub open spec fn black_wins(self) -> bool {
        self.movement_phase() && self.white_count < 3
    }

    /// White has won: all pieces are placed and black has fewer than three.
    pub open spec fn white_wins(self) -> bool {
        self.movement_phase() && self.black_count < 3
    }

    /// One side has won.
    pub open spec fn game_over(self) -> bool {
        self.black_wins() || self.white_wins()
    }

    /// The points that hold no piece.
    pub open spec fn empty_points(self) -> Set<int> {
        all_points().difference(self.black.union(self.white))
    }

    /// The opponent's points that may be taken: those outside its mills.
    pub open spec fn capturable(self) -> Set<int> {
        self.theirs().difference(mill_cover(self.theirs()))
    }

    /// Where a piece that arrives on `to` may come from: from the hand while
    /// pieces are placed (`None`), from any point of the mover when flying,
    /// else from those of the mover's points that are joined to `to`.
    pub open spec fn sources(self, to: int) -> Option<Set<int>> {
        if self.placement_phase() {
            None
        } else if self.flying_phase() {
            Some(self.mine())
        } else {
            Some(adjacency(to).intersect(self.mine()))
        }
    }

    /// Whether `m` is a legal move. The game is not over; the target is an
    /// empty point; the source is one that the phase allows; and the move
    /// takes a capturable piece if and only if it closes a mill, the mill
    /// being tested with the piece still on its source. A move that closes
    /// a mill while nothing is capturable is not legal.
    pub open spec fn is_legal(self, m: Move) -> bool {
        &&& !self.game_over()
        &&& m.to.in_range()
        &&& self.empty_points().contains(m.to.index())
        &&& source_among(m.from, self.sources(m.to.index()))
        &&& capture_among(m.capture, completes_mill(self.mine(), m.to.index()), self.capturable())
    }

    /// Whether the side to move has a legal move.
    pub open spec fn has_legal_move(self) -> bool {
        exists|m: Move| self.is_legal(m)
    }

    /// Whether `moves` is the list of the legal moves: it holds every legal
    /// move and nothing else, in ascending order.
    pub open spec fn is_legal_move_list(self, moves: Seq<Move>) -> bool {
        &&& forall|m: Move| moves.contains(m) <==> self.is_legal(m)
        &&& ascending(moves)
    }

    /// The legal moves among the first `n` candidates, in the order of
    /// moves.
    pub open spec fn legal_candidates(self, n: int) -> Seq<Move>
        decreases n,
    {
        if n <= 0 {
            Seq::empty()
        } else if self.is_legal(candidate(n - 1)) {
            self.legal_candidates(n - 1).push(candidate(n - 1))
        } else {
            self.legal_candidates(n - 1)
        }
    }

    /// The list of the legal moves: the legal ones among all the moves whose
    /// points are on the board, in the order of moves.
    pub open spec fn legal_moves(self) -> Seq<Move> {
        self.legal_candidates(candidate_count())
    }

    /// The board after the move `m`: the piece arrives on its target and
    /// leaves its source, or comes from the hand and is counted; the captured
    /// piece leaves the board; the turn passes.
    pub open spec fn apply(self, m: Move) -> BoardModel {
        let mine = match m.from {
            Some(p) => self.mine().insert(m.to.index()).remove(p.index()),
            None => self.mine().insert(m.to.index()),
        };
        let theirs = match m.capture {
            Some(p) => self.theirs().remove(p.index()),
            None => self.theirs(),
        };
        let my_count = match m.from {
            Some(_) => self.mover_count(),
            None => self.mover_count() + 1,
        };
        let their_count = match m.capture {
            Some(_) => (self.opponent_count() - 1) as nat,
            None => self.opponent_count(),
        };
        let placements_made = match m.from {
            Some(_) => self.placements_made,
            None => self.placements_made + 1,
        };
        if self.black_to_move {
            BoardModel {
                black: mine,
                white: theirs,
                placements_made,
                black_count: my_count,
                white_count: their_count,
                black_to_move: false,
            }
        } else {
            BoardModel {
                black: theirs,
                white: mine,
                placements_made,
                black_count: their_count,
                white_count: my_count,
                black_to_move: true,
            }
        }
    }

    /// The board after a pass: only the turn changes.
    pub open spec fn pass(self) -> BoardModel {
        BoardModel { black_to_move: !self.black_to_move, ..self }
    }

    /// Whether the step is accepted: a move if it is legal, a pass if no
    /// move is.
    pub open spec fn accepts(self, step: Option<Move>) -> bool {
        match step {
            Some(m) => self.is_legal(m),
            None => !self.has_legal_move(),
        }
    }

    /// The board after an accepted step.
    pub open spec fn successor(self, step: Option<Move>) -> BoardModel {
        match step {
            Some(m) => self.apply(m),
            None => self.pass(),
        }
    }
}

/// The board that a sequence of steps leads to from `start`.
pub open spec fn play(start: BoardModel, steps: Seq<Option<Move>>) -> BoardModel
    decreases steps.len(),
{
    if steps.len() == 0 {
        start
    } else {
        play(start, steps.drop_last()).successor(steps.last())
    }
}

/// Whether every step of the sequence is accepted by the board that it is
/// made on.
pub open spec fn accepted_play(start: BoardModel, steps: Seq<Option<Move>>) -> bool
    decreases steps.len(),
{
    steps.len() == 0 || (accepted_play(start, steps.drop_last()) && play(
        start,
        steps.drop_last(),
    ).accepts(steps.last()))
}

/// Whether a game can reach `board`: a sequence of accepted steps leads to
/// it from the initial board.
pub open spec fn reachable(board: BoardModel) -> bool {
    exists|steps: Seq<Option<Move>>|
        accepted_play(BoardModel::initial(), steps) && #[trigger] play(
            BoardModel::initial(),
            steps,
        ) == board
}

/// A legal move has its points on the board: its target is empty, its source
/// holds a piece of the mover and its capture a piece of the opponent.
pub proof fn lemma_legal_move_is_in_range(board: BoardModel, m: Move)
    requires
        board.is_legal(m),
    ensures
        m.in_range(),
        !board.black.contains(m.to.index()),
        !board.white.contains(m.to.index()),
        m.from matches Some(p) ==> board.mine().contains(p.index()),
        m.capture matches Some(p) ==> board.theirs().contains(p.index()),
        m.from is None <==> board.placement_phase(),
{
}

/// A legal move keeps the invariant of the board.
pub proof fn lemma_legal_move_keeps_invariant(board: BoardModel, m: Move)
    requires
        board.wf(),
        board.is_legal(m),
    ensures
        board.apply(m).wf(),
{
    broadcast use vstd::set::group_set_axioms;

    lemma_legal_move_is_in_range(board, m);
    lemma_point_set_is_small(board.black);
    lemma_point_set_is_small(board.white);
    let after = board.apply(m);
    let to = m.to.index();
    assert(all_points().contains(to));
    let arrived = board.mine().insert(to);
    assert(arrived.len() == board.mine().len() + 1);
    if let Some(p) = m.from {
        assert(arrived.remove(p.index()).len() == board.mine().len());
    }
    if let Some(p) = m.capture {
        assert(board.theirs().remove(p.index()).len() == board.theirs().len() - 1);
    }
    assert(after.black.disjoint(after.white));
}

/// Every board that a game can reach satisfies the invariant: no point
/// holds pieces of both sides, and each count is the number of points that
/// the side holds. No more than 18 pieces are ever placed.
pub proof fn lemma_reachable_boards_are_valid(board: BoardModel)
    requires
        reachable(board),
    ensures
        board.wf(),
        board.black.disjoint(board.white),
        board.black_count == board.black.len(),
        board.white_count == board.white.len(),
        board.placements_made <= 18,
{
    let steps = choose|steps: Seq<Option<Move>>|
        accepted_play(BoardModel::initial(), steps) && #[trigger] play(
            BoardModel::initial(),
            steps,
        ) == board;
    lemma_play_keeps_invariant(BoardModel::initial(), steps);
}

/// Accepted steps lead from a valid board to valid boards only.
pub proof fn lemma_play_keeps_invariant(start: BoardModel, steps: Seq<Option<Move>>)
    requires
        start.wf(),
        start.placements_made <= 18,
        accepted_play(start, steps),
    ensures
        play(start, steps).wf(),
        play(start, steps).placements_made <= 18,
    decreases steps.len(),
{
    if steps.len() > 0 {
        lemma_play_keeps_invariant(start, steps.drop_last());
        let before = play(start, steps.drop_last());
        if let Some(m) = steps.last() {
            lemma_legal_move_keeps_invariant(before, m);
        }
    }
}

/// The legal moves among the first `n` candidates are listed in ascending
/// order, and each of them once.
proof fn lemma_legal_candidates(board: BoardModel, n: int)
    requires
        0 <= n <= candidate_count(),
    ensures
        ascending(board.legal_candidates(n)),
        forall|m: Move| #[trigger]
            board.legal_candidates(n).contains(m) <==> board.is_legal(m) && m.in_range() && place_of(
                m,
            ) < n,
    decreases n,
{
    let list = board.legal_candidates(n);
    if n == 0 {
        assert forall|m: Move| #[trigger]
            list.contains(m) <==> board.is_legal(m) && m.in_range() && place_of(m) < n by {
            if m.in_range() {
                lemma_place_of(m);
            }
        }
    } else {
        lemma_legal_candidates(board, n - 1);
        let rest = board.legal_candidates(n - 1);
        let next = candidate(n - 1);
        lemma_candidate(n - 1);
        if board.is_legal(next) {
            assert(list == rest.push(next));
            assert forall|i: int, j: int| 0 <= i < j < list.len() implies move_precedes(
                #[trigger] list[i],
                #[trigger] list[j],
            ) by {
                if j == rest.len() {
                    assert(rest.contains(rest[i]));
                    lemma_place_of(rest[i]);
                    lemma_candidates_ascend(place_of(rest[i]), n - 1);
                } else {
                    assert(move_precedes(rest[i], rest[j]));
                }
            }
        }
        assert forall|m: Move| #[trigger]
            list.contains(m) <==> board.is_legal(m) && m.in_range() && place_of(m) < n by {
            if board.is_legal(next) {
                if list.contains(m) {
                    let i = choose|i: int| 0 <= i < list.len() && list[i] == m;
                    if i < rest.len() {
                        assert(rest[i] == m);
                    }
                }
                if rest.contains(m) {
                    let i = choose|i: int| 0 <= i < rest.len() && rest[i] == m;
                    assert(list[i] == m);
                }
                if m == next {
                    assert(list[rest.len() as int] == m);
                }
            }
            if m.in_range() && place_of(m) == n - 1 {
                lemma_place_of(m);
            }
        }
    }
}

/// Every board has its list of legal moves.
pub proof fn lemma_legal_moves_are_listed(board: BoardModel)
    ensures
        board.is_legal_move_list(board.legal_moves()),
{
    lemma_legal_candidates(board, candidate_count());
    assert forall|m: Move| board.legal_moves().contains(m) <==> board.is_legal(m) by {
        if board.is_legal(m) {
            lemma_place_of(m);
        }
    }
}

/// Once the game is over there is no legal move, and the list of legal moves
/// is empty.
pub proof fn lemma_no_legal_move_when_game_is_over(board: BoardModel, moves: Seq<Move>)
    requires
        board.game_over(),
        board.is_legal_move_list(moves),
    ensures
        !board.has_legal_move(),
        moves.len() == 0,
{
    if moves.len() > 0 {
        assert(moves.contains(moves[0]));
    }
}

/// Every move of the list of legal moves is accepted, and the board that
/// follows has the other side to move.
pub proof fn lemma_listed_move_passes_the_turn(board: BoardModel, moves: Seq<Move>, m: Move)
    requires
        board.is_legal_move_list(moves),
        moves.contains(m),
    ensures
        board.accepts(Some(m)),
        board.successor(Some(m)).black_to_move == !board.black_to_move,
{
}

/// The list of legal moves is determined by the board: two lists of the
/// legal moves of one board are equal.
pub proof fn lemma_legal_move_list_is_unique(board: BoardModel, first: Seq<Move>, second: Seq<Move>)
    requires
        board.is_legal_move_list(first),
        board.is_legal_move_list(second),
    ensures
        first == second,
{
    lemma_ascending_lists_agree(first, second);
}

/// A legal placement raises the number of placements by one and the mover's
/// count by one. It lowers the opponent's count by one if it captures, and
/// leaves it as it is if it does not.
pub proof fn lemma_placement_counts(board: BoardModel, m: Move)
    requires
        board.wf(),
        board.is_legal(m),
        m.from is None,
    ensures
        board.apply(m).placements_made == board.placements_made + 1,
        board.apply(m).count_of(board.black_to_move) == board.count_of(board.black_to_move) + 1,
        m.capture is None ==> board.apply(m).count_of(!board.black_to_move) == board.count_of(
            !board.black_to_move,
        ),
        m.capture is Some ==> board.apply(m).count_of(!board.black_to_move) == board.count_of(
            !board.black_to_move,
        ) - 1,
{
    broadcast use vstd::set::group_set_axioms;

    lemma_legal_move_is_in_range(board, m);
    lemma_point_set_is_small(board.theirs());
}

/// Every legal move crosses the wire unchanged: decoding its wire form gives
/// the move back.
pub proof fn lemma_legal_move_survives_the_wire(board: BoardModel, m: Move)
    requires
        board.is_legal(m),
    ensures
        decode_move(encode_move(m)) == Ok::<Move, DecodeError>(m),
{
    lemma_legal_move_is_in_range(board, m);
    lemma_decode_inverts_encode(m);
}

} // verus!
