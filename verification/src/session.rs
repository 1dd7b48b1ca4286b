//! One game against the engine: what a request of the player does to the
//! game, and what is answered.

use vstd::prelude::*;
use vstd::pervasive::unreached;
use crate::board::Board;
use crate::moves::{decode_move, move_precedes, DecodeError, Move, WireModel, WireMove};
use crate::rules::BoardModel;

verus! {

/// What the player asks for.
#[derive(Debug, PartialEq, Eq)]
pub enum Request {
    /// Start the game; the player has black if the flag is set.
    Start(bool),
    /// Make a step, given in wire form: a move, or a pass for `None`.
    Move(Option<WireMove>),
}

/// What the player is told.
#[derive(Debug, PartialEq, Eq)]
pub enum Reply {
    /// The game waits for the player, who has these legal moves.
    LegalMoves(Vec<Move>),
    /// The engine has made the step `selected` (a pass for `None`), and the
    /// player has these legal moves.
    Moved { selected: Option<Move>, legal_moves: Vec<Move> },
    /// The game is over. The flag is set if black has won.
    End(bool),
}

/// What a `Reply` holds.
pub enum ReplyModel {
    LegalMoves(Seq<Move>),
    Moved { selected: Option<Move>, legal_moves: Seq<Move> },
    End(bool),
}

impl View for Reply {
    type V = ReplyModel;

    open spec fn view(&self) -> ReplyModel {
        match *self {
            Reply::LegalMoves(moves) => ReplyModel::LegalMoves(moves@),
            Reply::Moved { selected, legal_moves } => ReplyModel::Moved {
                selected,
                legal_moves: legal_moves@,
            },
            Reply::End(black_wins) => ReplyModel::End(black_wins),
        }
    }
}

/// Why a request is refused.
#[derive(Clone, Copy, Debug, PartialEq, Eq, Structural)]
pub enum SessionError {
    /// A step was asked for before the game was started.
    NotStarted,
    /// The step does not decode.
    Malformed(DecodeError),
    /// The step is not accepted by the board.
    IllegalMove,
}

/// What a `Game` holds.
pub struct GameModel {
    pub started: bool,
    pub player_is_black: bool,
    pub board: BoardModel,
}

/// The winner of a finished game: `Some(true)` for black, `Some(false)` for
/// white, `None` while the game goes on. Black is named where both sides are
/// below three pieces.
pub open spec fn outcome(board: BoardModel) -> Option<bool> {
    if board.black_wins() {
        Some(true)
    } else if board.white_wins() {
        Some(false)
    } else {
        None
    }
}

/// Whether `m` is the first of the legal moves: it is legal, and listed
/// before every other legal move.
pub open spec fn is_first_legal_move(board: BoardModel, m: Move) -> bool {
    board.is_legal(m) && forall|other: Move|
        #[trigger] board.is_legal(other) && other != m ==> move_precedes(m, other)
}

/// The step that the engine makes: the first of the legal moves, or a pass
/// if there is none.
pub open spec fn engine_step(board: BoardModel) -> Option<Move> {
    if board.has_legal_move() {
        Some(choose|m: Move| is_first_legal_move(board, m))
    } else {
        None
    }
}

/// The board after the engine's step.
pub open spec fn engine_board(board: BoardModel) -> BoardModel {
    board.successor(engine_step(board))
}

/// The answer after the engine's step: the end of the game if the step
/// ended it, else the step and the player's legal moves.
pub open spec fn engine_reply(board: BoardModel) -> ReplyModel {
    let after = engine_board(board);
    match outcome(after) {
        Some(black_wins) => ReplyModel::End(black_wins),
        None => ReplyModel::Moved { selected: engine_step(board), legal_moves: after.legal_moves() },
    }
}

/// What a step of the player leads to: the board after it and the answer.
/// If the step ends the game, that is the answer; else the engine makes its
/// step on the board that the player left.
pub open spec fn player_step(board: BoardModel, step: Option<Move>) -> (BoardModel, ReplyModel) {
    let after = board.successor(step);
    match outcome(after) {
        Some(black_wins) => (after, ReplyModel::End(black_wins)),
        None => (engine_board(after), engine_reply(after)),
    }
}

/// The step in wire form, decoded: a pass for `None`.
pub open spec fn decode_step(wire: Option<WireModel>) -> Result<Option<Move>, DecodeError> {
    match wire {
        None => Ok(None),
        Some(w) => match decode_move(w) {
            Ok(m) => Ok(Some(m)),
            Err(e) => Err(e),
        },
    }
}

/// What a wire step holds.
pub open spec fn step_view(wire: Option<WireMove>) -> Option<WireModel> {
    match wire {
        None => None,
        Some(w) => Some(w@),
    }
}

/// A start with `player_is_black` leads from `before` to `after` with the
/// answer `reply`.
pub open spec fn started_game(
    before: GameModel,
    player_is_black: bool,
    after: GameModel,
    reply: ReplyModel,
) -> bool {
    &&& after.started
    &&& after.player_is_black == player_is_black
    &&& if player_is_black {
        &&& after.board == before.board
        &&& reply == ReplyModel::LegalMoves(before.board.legal_moves())
    } else {
        &&& after.board == engine_board(before.board)
        &&& reply == engine_reply(before.board)
    }
}

/// The player's step leads from `before` to `after` with the result `r`: it
/// fails, and changes nothing, exactly if the board does not accept the
/// step.
pub open spec fn stepped_game(
    before: GameModel,
    step: Option<Move>,
    after: GameModel,
    r: Result<Reply, SessionError>,
) -> bool {
    if before.board.accepts(step) {
        &&& r is Ok
        &&& after == (GameModel { board: player_step(before.board, step).0, ..before })
        &&& r.unwrap()@ == player_step(before.board, step).1
    } else {
        &&& r == Err::<Reply, SessionError>(SessionError::IllegalMove)
        &&& after == before
    }
}

/// The first move of the list of legal moves is the first legal move, and no
/// other move is.
pub proof fn lemma_first_of_the_list(board: BoardModel, moves: Seq<Move>)
    requires
        board.is_legal_move_list(moves),
    ensures
        engine_step(board) == (if moves.len() == 0 {
            None
        } else {
            Some(moves[0])
        }),
{
    if moves.len() == 0 {
        assert forall|m: Move| !board.is_legal(m) by {
            assert(!moves.contains(m));
        }
    } else {
        let head = moves[0];
        assert(moves.contains(head));
        assert forall|other: Move| #[trigger]
            board.is_legal(other) && other != head implies move_precedes(head, other) by {
            assert(moves.contains(other));
            let i = choose|i: int| 0 <= i < moves.len() && moves[i] == other;
            assert(move_precedes(moves[0], moves[i]));
        }
        assert(is_first_legal_move(board, head));
        let chosen = choose|m: Move| is_first_legal_move(board, m);
        if chosen != head {
            assert(move_precedes(head, chosen));
            assert(move_precedes(chosen, head));
        }
    }
}

/// A game against the engine.
pub struct Game {
    started: bool,
    player_is_black: bool,
    board: Board,
}

impl View for Game {
    type V = GameModel;

    closed spec fn view(&self) -> GameModel {
        GameModel {
            started: self.started,
            player_is_black: self.player_is_black,
            board: self.board@,
        }
    }
}

impl Game {
    /// A game that has not started, on the initial board.
    pub fn new() -> (game: Game)
        ensures
            game@ == (GameModel {
                started: false,
                player_is_black: true,
                board: BoardModel::initial(),
            }),
    {
        Game { started: false, player_is_black: true, board: Board::new() }
    }

    /// The board of the game.
    pub fn board(&self) -> (board: &Board)
        ensures
            board@ == self@.board,
    {
        &self.board
    }

    /// Whether the game has been started.
    pub fn is_started(&self) -> (r: bool)
        ensures
            r == self@.started,
    {
        self.started
    }

    /// Whether the player has black.
    pub fn player_is_black(&self) -> (r: bool)
        ensures
            r == self@.player_is_black,
    {
        self.player_is_black
    }

    /// Answers a request. A start is always answered. A step is refused
    /// before the game has started, if it does not decode, or if the board
    /// does not accept it; the game is then as it was.
    pub fn handle_message(&mut self, request: &Request) -> (r: Result<Reply, SessionError>)
        ensures
            match *request {
                Request::Start(player_is_black) => {
                    &&& r is Ok
                    &&& started_game(old(self)@, player_is_black, final(self)@, r.unwrap()@)
                },
                Request::Move(wire) => {
                    if !old(self)@.started {
                        r == Err::<Reply, SessionError>(SessionError::NotStarted) && final(self)@
                            == old(self)@
                    } else {
                        match decode_step(step_view(wire)) {
                            Err(e) => r == Err::<Reply, SessionError>(SessionError::Malformed(e))
                                && final(self)@ == old(self)@,
                            Ok(step) => stepped_game(old(self)@, step, final(self)@, r),
                        }
                    }
                },
            },
    {
        match request {
            Request::Start(player_is_black) => Ok(self.handle_start(*player_is_black)),
            Request::Move(wire) => {
                if !self.started {
                    return Err(SessionError::NotStarted);
                }
                let maybe_move = match wire {
                    None => None,
                    Some(w) => match Move::decode(w) {
                        Ok(m) => Some(m),
                        Err(e) => {
                            return Err(SessionError::Malformed(e));
                        },
                    },
                };
                self.handle_move(maybe_move)
            },
        }
    }

    /// Starts the game. If the player has black, the answer is the list of
    /// the player's legal moves; else the engine makes the first step. The
    /// board is not reset: a game that is started again goes on where it
    /// was.
    pub fn handle_start(&mut self, player_is_black: bool) -> (reply: Reply)
        ensures
            started_game(old(self)@, player_is_black, final(self)@, reply@),
    {
        self.started = true;
        self.player_is_black = player_is_black;
        if player_is_black {
            Reply::LegalMoves(self.board.legal_moves())
        } else {
            self.make_engine_move()
        }
    }

    /// Makes the player's step. If the board refuses it, the game stays as
    /// it was. If it ends the game, that is the answer; else the engine
    /// makes its step.
    pub fn handle_move(&mut self, maybe_move: Option<Move>) -> (r: Result<Reply, SessionError>)
        ensures
            stepped_game(old(self)@, maybe_move, final(self)@, r),
    {
        match self.board.make_move(maybe_move) {
            Err(_) => Err(SessionError::IllegalMove),
            Ok(board) => {
                self.board = board;
                match self.check_game_over() {
                    Some(black_wins) => Ok(Reply::End(black_wins)),
                    None => Ok(self.make_engine_move()),
                }
            },
        }
    }

    /// Lets the engine make its step: the first legal move, or a pass if
    /// there is none. The board always accepts it.
    pub fn make_engine_move(&mut self) -> (reply: Reply)
        ensures
            final(self)@ == (GameModel { board: engine_board(old(self)@.board), ..old(self)@ }),
            reply@ == engine_reply(old(self)@.board),
    {
        let legal_moves = self.board.legal_moves();
        let selected_move = if legal_moves.len() > 0 {
            Some(legal_moves[0])
        } else {
            None
        };
        proof {
            lemma_first_of_the_list(self@.board, legal_moves@);
            if legal_moves.len() > 0 {
                assert(legal_moves@.contains(legal_moves@[0]));
            }
        }
        self.board = match self.board.make_move(selected_move) {
            Ok(board) => board,
            Err(_) => unreached(),
        };
        match self.check_game_over() {
            Some(black_wins) => Reply::End(black_wins),
            None => Reply::Moved { selected: selected_move, legal_moves: self.board.legal_moves() },
        }
    }

    /// The winner, if the game is over: `Some(true)` for black,
    /// `Some(false)` for white.
    pub fn check_game_over(&self) -> (r: Option<bool>)
        ensures
            r == outcome(self@.board),
    {
        if self.board.is_black_winner() {
            Some(true)
        } else if self.board.is_white_winner() {
            Some(false)
        } else {
            None
        }
    }
}

} // verus!
