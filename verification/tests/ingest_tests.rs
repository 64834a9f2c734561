use nixchess::board::Board;
use nixchess::record::{Date, InsertionError, ParsedChessGame, PGNParser, Time, SAN};
use nixchess::store::{insert_games, Store};
use nixchess::queries::{games_from_player, movements_from_game};

fn game(white: &str, black: &str, moves: &[&str]) -> ParsedChessGame {
    ParsedChessGame {
        event: "Test Event".to_string(),
        date: Date { year: 2023, month: 5, day: 12 },
        time: Time { hour: 10, minute: 0, second: 0 },
        white: white.to_string(),
        black: black.to_string(),
        white_elo: Some(1500),
        black_elo: Some(1480),
        moves: moves.iter().map(|m| SAN(m.to_string())).collect(),
    }
}

#[test]
fn a_legal_game_commits_whole() {
    let mut store = Store::new();
    let gid = game("Alice", "Bob", &["e4", "e5", "Nf3", "Nc6"])
        .insert(&mut store)
        .expect("legal game");
    assert_eq!(gid.id, 1);
    let moves = movements_from_game(&store, gid).unwrap();
    assert_eq!(moves.len(), 4);
    for (k, m) in moves.iter().enumerate() {
        assert_eq!(m.game_round, (k as i32) + 1);
        assert_eq!(m.game_id, gid);
    }
    assert_eq!(moves[0].san_plus.0, "e4");
    assert_eq!(moves[3].san_plus.0, "Nc6");
}

#[test]
fn stored_fingerprints_reproduce_under_replay() {
    let mut store = Store::new();
    let gid = game("Alice", "Bob", &["d4", "d5", "c4", "e6", "Nc3"])
        .insert(&mut store)
        .expect("legal game");
    let moves = movements_from_game(&store, gid).unwrap();
    let mut board = Board::new();
    for m in moves.iter() {
        assert!(board.try_play(m.san_plus.0.as_str()));
        assert_eq!(board.fingerprint(), m.board);
    }
}

#[test]
fn an_illegal_move_rejects_the_game_whole() {
    let mut store = Store::new();
    // The fourth move is illegal: the knight cannot reach e5 from g8.
    let err = game("Alice", "Bob", &["e4", "e5", "Nf3", "Ne5"])
        .insert(&mut store)
        .unwrap_err();
    assert_eq!(err, InsertionError::IlegalMove(SAN("Ne5".to_string())));
    // No rows of any kind are visible.
    assert_eq!(store.game_count(), 0);
    assert_eq!(store.move_count(), 0);
    assert!(games_from_player(&store, "Alice").unwrap().is_empty());
}

#[test]
fn player_upsert_is_idempotent() {
    let mut store = Store::new();
    game("Alice", "Bob", &["e4"]).insert(&mut store).unwrap();
    game("Alice", "Carol", &["d4"]).insert(&mut store).unwrap();
    game("Dan", "Alice", &["c4"]).insert(&mut store).unwrap();
    // Alice played three games but has exactly one player row, so her games
    // are found under one name, and ids stay dense.
    let alices = games_from_player(&store, "Alice").unwrap();
    assert_eq!(alices.len(), 3);
    assert_eq!(store.game_count(), 3);
    let ids: Vec<i32> = alices.iter().map(|g| g.id.id).collect();
    assert_eq!(ids, vec![1, 2, 3]);
}

#[test]
fn batch_ingestion_isolates_failures() {
    let mut store = Store::new();
    let inputs = vec![
        Err(InsertionError::IncompleteDataError("White".to_string())),
        Ok(game("Alice", "Bob", &["e4", "e5"])),
        Ok(game("Carol", "Dan", &["e4", "Ke2"])),
        Ok(game("Erin", "Frank", &["d4"])),
    ];
    let report = insert_games(&mut store, inputs);
    assert_eq!(report.committed, 2);
    assert_eq!(report.failures.len(), 2);
    assert_eq!(
        report.failures[0],
        (0, InsertionError::IncompleteDataError("White".to_string()))
    );
    assert_eq!(
        report.failures[1],
        (2, InsertionError::IlegalMove(SAN("Ke2".to_string())))
    );
    assert_eq!(store.game_count(), 2);
    assert_eq!(games_from_player(&store, "Alice").unwrap().len(), 1);
    assert_eq!(games_from_player(&store, "Erin").unwrap().len(), 1);
    assert!(games_from_player(&store, "Carol").unwrap().is_empty());
}

#[test]
fn batch_of_one_incomplete_game_commits_nothing() {
    let mut store = Store::new();
    let inputs = vec![Err(InsertionError::IncompleteDataError("White".to_string()))];
    let report = insert_games(&mut store, inputs);
    assert_eq!(report.committed, 0);
    assert_eq!(report.failures.len(), 1);
    assert_eq!(
        report.failures[0],
        (0, InsertionError::IncompleteDataError("White".to_string()))
    );
    assert_eq!(store.game_count(), 0);
    assert_eq!(store.move_count(), 0);
}

#[test]
fn a_source_with_a_missing_white_header_reports_and_continues() {
    // Two games arrive from the same token stream; the first lacks its
    // White header.  The batch commits the second and reports the first.
    let mut parser = PGNParser::new();
    let mut inputs = Vec::new();

    parser.header("Event", "Casual");
    parser.header("UTCDate", "2023.05.12");
    parser.header("UTCTime", "10:00:00");
    parser.header("Black", "Bob");
    parser.san(SAN("e4".to_string()));
    inputs.push(parser.end_game());

    parser.header("Event", "Casual");
    parser.header("UTCDate", "2023.05.12");
    parser.header("UTCTime", "11:00:00");
    parser.header("White", "Carol");
    parser.header("Black", "Dan");
    parser.san(SAN("d4".to_string()));
    parser.san(SAN("d5".to_string()));
    inputs.push(parser.end_game());

    let mut store = Store::new();
    let report = insert_games(&mut store, inputs);
    assert_eq!(report.committed, 1);
    assert_eq!(
        report.failures,
        vec![(0, InsertionError::IncompleteDataError("White".to_string()))]
    );
    assert_eq!(store.game_count(), 1);
    assert_eq!(games_from_player(&store, "Carol").unwrap().len(), 1);
    assert!(games_from_player(&store, "Bob").unwrap().is_empty());
}

#[test]
fn a_game_with_no_moves_commits_with_no_move_rows() {
    let mut store = Store::new();
    let gid = game("Alice", "Bob", &[]).insert(&mut store).expect("empty game is legal");
    assert_eq!(gid.id, 1);
    assert_eq!(store.game_count(), 1);
    assert_eq!(store.move_count(), 0);
    assert!(movements_from_game(&store, gid).unwrap().is_empty());
}

#[test]
fn one_player_on_both_sides_gets_one_row() {
    let mut store = Store::new();
    game("Alice", "Alice", &["e4"]).insert(&mut store).unwrap();
    // Found once per game, not once per color.
    assert_eq!(games_from_player(&store, "Alice").unwrap().len(), 1);
}

#[test]
fn reingestion_duplicates_games_but_not_players() {
    let mut store = Store::new();
    game("Alice", "Bob", &["e4", "e5"]).insert(&mut store).unwrap();
    game("Alice", "Bob", &["e4", "e5"]).insert(&mut store).unwrap();
    // Games are duplicated by design; the players are not.
    assert_eq!(store.game_count(), 2);
    assert_eq!(games_from_player(&store, "Alice").unwrap().len(), 2);
}
