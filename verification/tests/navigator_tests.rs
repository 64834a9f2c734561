use nixchess::board::Board;
use nixchess::navigator::{BoardState, GamePhase};
use nixchess::record::{Date, InsertionError, ParsedChessGame, Time, SAN};
use nixchess::store::Store;

fn game(white: &str, black: &str, moves: &[&str]) -> ParsedChessGame {
    ParsedChessGame {
        event: "Match".to_string(),
        date: Date { year: 2020, month: 7, day: 4 },
        time: Time { hour: 9, minute: 15, second: 30 },
        white: white.to_string(),
        black: black.to_string(),
        white_elo: Some(2000),
        black_elo: Some(1990),
        moves: moves.iter().map(|m| SAN(m.to_string())).collect(),
    }
}

fn navigator(moves: &[&str]) -> (Store, BoardState) {
    let mut store = Store::new();
    let gid = game("Alice", "Bob", moves).insert(&mut store).unwrap();
    let nav = BoardState::build(&store, gid.id, 0).unwrap();
    (store, nav)
}

#[test]
fn build_fails_on_an_unknown_game() {
    let store = Store::new();
    assert_eq!(
        BoardState::build(&store, 1, 0).unwrap_err(),
        InsertionError::NotFound
    );
}

#[test]
fn boundaries_clamp_and_never_error() {
    let (_store, mut nav) = navigator(&["e4", "e5"]);
    assert_eq!(nav.current_ply(), 0);
    // Retreat at ply zero is a no-op.
    nav.retreat();
    assert_eq!(nav.current_ply(), 0);
    nav.advance();
    nav.advance();
    assert_eq!(nav.current_ply(), 2);
    // Advance at the final ply is a no-op.
    nav.advance();
    assert_eq!(nav.current_ply(), 2);
    nav.retreat();
    assert_eq!(nav.current_ply(), 1);
}

#[test]
fn phases_follow_the_current_ply() {
    let (_store, mut nav) = navigator(&["e4", "e5"]);
    assert_eq!(nav.phase(), GamePhase::AtStart);
    nav.advance();
    assert_eq!(nav.phase(), GamePhase::MidGame);
    nav.advance();
    assert_eq!(nav.phase(), GamePhase::AtEnd);
    nav.retreat();
    assert_eq!(nav.phase(), GamePhase::MidGame);
}

#[test]
fn current_board_replays_the_first_plies() {
    let (_store, mut nav) = navigator(&["e4", "e5", "Nf3"]);
    nav.advance();
    nav.advance();
    let b = nav.current_board();
    let mut expected = Board::new();
    assert!(expected.try_play("e4"));
    assert!(expected.try_play("e5"));
    assert_eq!(b.fingerprint(), expected.fingerprint());
    // The stored fingerprint of ply 2 agrees with the replayed board.
    assert_eq!(nav.current_fingerprint(), Some(expected.fingerprint()));
}

#[test]
fn current_fingerprint_is_absent_at_the_start() {
    let (_store, nav) = navigator(&["e4"]);
    assert_eq!(nav.current_fingerprint(), None);
    assert!(nav.current_related().is_none());
    assert_eq!(nav.last_move_from_square(), None);
    assert_eq!(nav.last_move_to_square(), None);
}

#[test]
fn last_move_squares_follow_the_notation() {
    let (_store, mut nav) = navigator(&["e4", "Nf6"]);
    nav.advance();
    // e2 -> e4: squares 12 and 28.
    assert_eq!(nav.last_move_from_square(), Some(12));
    assert_eq!(nav.last_move_to_square(), Some(28));
    nav.advance();
    // g8 -> f6: squares 62 and 45.
    assert_eq!(nav.last_move_from_square(), Some(62));
    assert_eq!(nav.last_move_to_square(), Some(45));
}

#[test]
fn an_empty_game_stays_at_start() {
    let (_store, mut nav) = navigator(&[]);
    assert_eq!(nav.phase(), GamePhase::AtStart);
    nav.advance();
    assert_eq!(nav.current_ply(), 0);
    assert_eq!(nav.current_fingerprint(), None);
    let b = nav.current_board();
    assert_eq!(b.fingerprint(), Board::new().fingerprint());
}

#[test]
fn related_results_swap_in_per_ply() {
    let mut store = Store::new();
    let g1 = game("Alice", "Bob", &["e4", "e5", "Nf3"]).insert(&mut store).unwrap();
    let _g2 = game("Carol", "Dan", &["e4", "e5", "Nc3"]).insert(&mut store).unwrap();
    let mut nav = BoardState::build(&store, g1.id, 1).unwrap();
    nav.advance();
    // Ply 1 is at or below the threshold: excluded, so empty.
    assert!(nav.current_related().unwrap().is_empty());
    nav.advance();
    // Ply 2 is shared with the second game.
    let related = nav.current_related().unwrap();
    assert_eq!(related.len(), 1);
    assert_eq!(related[0].1.white, "Carol");
    nav.advance();
    assert!(nav.current_related().unwrap().is_empty());
}
