use engine::board::Board;
use engine::moves::{DecodeError, Move, Point, WireField, WireMove};
use engine::session::{Game, Reply, Request, SessionError};

fn place(ring: usize, position: usize) -> Move {
    Move { to: Point { ring, position }, from: None, capture: None }
}

fn wire(square: &[usize]) -> Option<WireMove> {
    Some(WireMove { square: Some(square.to_vec()), from_square: None, remove_square: None })
}

fn legal_moves_of(reply: &Reply) -> Vec<Move> {
    match reply {
        Reply::LegalMoves(moves) => moves.clone(),
        Reply::Moved { legal_moves, .. } => legal_moves.clone(),
        Reply::End(_) => panic!("the game is over"),
    }
}

#[test]
fn a_new_game_has_not_started() {
    let game = Game::new();
    assert!(!game.is_started());
    assert!(game.player_is_black());
    assert_eq!(*game.board(), Board::new());
}

#[test]
fn a_step_before_the_start_is_refused() {
    let mut game = Game::new();
    let r = game.handle_message(&Request::Move(wire(&[0, 0])));
    assert_eq!(r.err(), Some(SessionError::NotStarted));
    assert!(!game.is_started());
    assert_eq!(*game.board(), Board::new());
    // the game has not started, whatever the step is
    let r = game.handle_message(&Request::Move(wire(&[9, 9])));
    assert_eq!(r.err(), Some(SessionError::NotStarted));
    let r = game.handle_message(&Request::Move(None));
    assert_eq!(r.err(), Some(SessionError::NotStarted));
}

#[test]
fn black_is_told_its_legal_moves_at_the_start() {
    let mut game = Game::new();
    let reply = game.handle_message(&Request::Start(true)).ok().unwrap();
    assert!(game.is_started());
    assert!(game.player_is_black());
    assert_eq!(*game.board(), Board::new());
    match reply {
        Reply::LegalMoves(moves) => assert_eq!(moves, Board::new().legal_moves()),
        _ => panic!("expected the legal moves"),
    }
}

#[test]
fn the_engine_opens_when_the_player_has_white() {
    let mut game = Game::new();
    let reply = game.handle_message(&Request::Start(false)).ok().unwrap();
    assert!(game.is_started());
    assert!(!game.player_is_black());
    let after = Board::new().make_move(Some(place(0, 0))).unwrap();
    assert_eq!(*game.board(), after);
    match reply {
        Reply::Moved { selected, legal_moves } => {
            assert_eq!(selected, Some(place(0, 0)));
            assert_eq!(legal_moves, after.legal_moves());
            assert_eq!(legal_moves.len(), 23);
        },
        _ => panic!("expected a move of the engine"),
    }
}

#[test]
fn the_engine_answers_a_step_with_its_first_legal_move() {
    let mut game = Game::new();
    game.handle_start(true);
    let reply = game.handle_message(&Request::Move(wire(&[0, 0]))).ok().unwrap();
    let after_player = Board::new().make_move(Some(place(0, 0))).unwrap();
    let after_engine = after_player.make_move(Some(place(0, 1))).unwrap();
    assert_eq!(*game.board(), after_engine);
    match reply {
        Reply::Moved { selected, legal_moves } => {
            assert_eq!(selected, Some(place(0, 1)));
            assert_eq!(legal_moves, after_engine.legal_moves());
            assert_eq!(legal_moves.len(), 22);
        },
        _ => panic!("expected a move of the engine"),
    }
}

#[test]
fn a_step_that_does_not_decode_changes_nothing() {
    let mut game = Game::new();
    game.handle_start(true);
    let r = game.handle_message(&Request::Move(wire(&[3, 0])));
    assert_eq!(
        r.err(),
        Some(SessionError::Malformed(DecodeError::OutOfRange(WireField::Square)))
    );
    let r = game.handle_message(&Request::Move(wire(&[0])));
    assert_eq!(
        r.err(),
        Some(SessionError::Malformed(DecodeError::WrongArity(WireField::Square)))
    );
    let no_target = WireMove { square: None, from_square: None, remove_square: None };
    let r = game.handle_message(&Request::Move(Some(no_target)));
    assert_eq!(r.err(), Some(SessionError::Malformed(DecodeError::MissingSquare)));
    assert_eq!(*game.board(), Board::new());
    assert!(game.is_started());
}

#[test]
fn a_step_that_is_not_legal_changes_nothing() {
    let mut game = Game::new();
    game.handle_start(true);
    game.handle_move(Some(place(0, 0))).ok().unwrap();
    let before = game.board().clone();
    // the point is taken
    let r = game.handle_message(&Request::Move(wire(&[0, 0])));
    assert_eq!(r.err(), Some(SessionError::IllegalMove));
    let r = game.handle_move(Some(place(0, 1)));
    assert_eq!(r.err(), Some(SessionError::IllegalMove));
    // a pass while moves are legal
    let r = game.handle_message(&Request::Move(None));
    assert_eq!(r.err(), Some(SessionError::IllegalMove));
    assert_eq!(*game.board(), before);
}

#[test]
fn a_second_start_goes_on_with_the_board() {
    let mut game = Game::new();
    game.handle_start(true);
    game.handle_move(Some(place(1, 1))).ok().unwrap();
    let before = game.board().clone();
    let reply = game.handle_message(&Request::Start(true)).ok().unwrap();
    assert_eq!(*game.board(), before);
    assert_eq!(legal_moves_of(&reply), before.legal_moves());
    // started as white, the engine moves for the side whose turn it is
    let reply = game.handle_start(false);
    assert!(!game.player_is_black());
    assert_eq!(game.board().initial_placed(), 3);
    match reply {
        Reply::Moved { selected, .. } => assert_eq!(selected, Some(place(0, 1))),
        _ => panic!("expected a move of the engine"),
    }
}

#[test]
fn nobody_has_won_at_the_start() {
    let mut game = Game::new();
    assert_eq!(game.check_game_over(), None);
    game.handle_start(true);
    game.handle_move(Some(place(2, 2))).ok().unwrap();
    assert_eq!(game.check_game_over(), None);
}

#[test]
fn the_engine_moves_on_its_own() {
    let mut game = Game::new();
    let reply = game.make_engine_move();
    assert_eq!(game.board().initial_placed(), 1);
    assert_eq!(game.board().num_black_pieces(), 1);
    assert!(!game.board().is_blacks_turn());
    assert_eq!(legal_moves_of(&reply).len(), 23);
}

#[test]
fn a_game_is_played_to_its_end() {
    // the player always makes the last of its legal moves, or passes
    let mut game = Game::new();
    let mut reply = game.handle_message(&Request::Start(true)).ok().unwrap();
    let mut steps = 0;
    let winner = loop {
        let moves = match &reply {
            Reply::End(black_wins) => break *black_wins,
            other => legal_moves_of(other),
        };
        assert_eq!(moves, game.board().legal_moves());
        assert!(game.board().is_blacks_turn());
        assert_eq!(game.check_game_over(), None);
        let step = moves.last().map(|m| m.encode());
        reply = game.handle_message(&Request::Move(step)).ok().unwrap();
        steps += 1;
        assert!(steps <= 19);
    };
    assert!(winner);
    assert_eq!(steps, 19);
    assert_eq!(game.check_game_over(), Some(true));
    assert!(game.board().is_game_over());
    assert!(game.board().is_black_winner());
    assert!(!game.board().is_white_winner());
    assert_eq!(game.board().num_white_pieces(), 2);
    assert_eq!(game.board().initial_placed(), 18);
    assert!(game.board().legal_moves().is_empty());
}
