use nixchess::record::{Date, InsertionError, ParsedChessGame, Time, SAN};
use nixchess::store::Store;
use nixchess::queries::{
    game_from_id, game_from_move, games_from_player, movement_and_games_from_position,
    movements_from_game, movements_from_position, movements_from_position_limited,
    related_games_from_game,
};

fn game(white: &str, black: &str, moves: &[&str]) -> ParsedChessGame {
    ParsedChessGame {
        event: "Open".to_string(),
        date: Date { year: 2021, month: 1, day: 2 },
        time: Time { hour: 18, minute: 30, second: 0 },
        white: white.to_string(),
        black: black.to_string(),
        white_elo: None,
        black_elo: None,
        moves: moves.iter().map(|m| SAN(m.to_string())).collect(),
    }
}

#[test]
fn games_are_found_by_either_color() {
    let mut store = Store::new();
    game("Alice", "Bob", &["e4"]).insert(&mut store).unwrap();
    game("Bob", "Carol", &["d4"]).insert(&mut store).unwrap();
    let bobs = games_from_player(&store, "Bob").unwrap();
    assert_eq!(bobs.len(), 2);
    assert_eq!(bobs[0].id.id, 1);
    assert_eq!(bobs[1].id.id, 2);
    assert!(games_from_player(&store, "Nobody").unwrap().is_empty());
}

#[test]
fn game_lookup_by_id_and_not_found() {
    let mut store = Store::new();
    game("Alice", "Bob", &["e4"]).insert(&mut store).unwrap();
    let g = game_from_id(&store, 1).unwrap();
    assert_eq!(g.white, "Alice");
    assert_eq!(g.black, "Bob");
    assert_eq!(game_from_id(&store, 2).unwrap_err(), InsertionError::NotFound);
    assert_eq!(game_from_id(&store, 0).unwrap_err(), InsertionError::NotFound);
    assert_eq!(game_from_id(&store, -3).unwrap_err(), InsertionError::NotFound);
}

#[test]
fn game_is_found_from_a_move_row() {
    let mut store = Store::new();
    let gid = game("Alice", "Bob", &["e4", "c5"]).insert(&mut store).unwrap();
    let moves = movements_from_game(&store, gid).unwrap();
    let g = game_from_move(&store, &moves[1]).unwrap();
    assert_eq!(g.id, gid);
    assert_eq!(g.white, "Alice");
}

#[test]
fn positions_are_found_across_games() {
    let mut store = Store::new();
    let g1 = game("Alice", "Bob", &["e4", "e5", "Nf3"]).insert(&mut store).unwrap();
    let g2 = game("Carol", "Dan", &["e4", "e5", "Nc3"]).insert(&mut store).unwrap();
    let m1 = movements_from_game(&store, g1).unwrap();
    // The position after 1.e4 e5 was reached in both games.
    let shared = movements_from_position(&store, m1[1].board).unwrap();
    assert_eq!(shared.len(), 2);
    assert_eq!(shared[0].game_id, g1);
    assert_eq!(shared[1].game_id, g2);
    // The position after 2.Nf3 was reached only in the first.
    let only = movements_from_position(&store, m1[2].board).unwrap();
    assert_eq!(only.len(), 1);
    assert_eq!(only[0].game_id, g1);
}

#[test]
fn position_lookup_respects_the_result_limit() {
    let mut store = Store::new();
    let g1 = game("Alice", "Bob", &["e4", "e5"]).insert(&mut store).unwrap();
    game("Carol", "Dan", &["e4", "e5"]).insert(&mut store).unwrap();
    game("Erin", "Frank", &["e4", "e5"]).insert(&mut store).unwrap();
    let m1 = movements_from_game(&store, g1).unwrap();
    let fp = m1[1].board;
    assert_eq!(movements_from_position(&store, fp).unwrap().len(), 3);
    let limited = movements_from_position_limited(&store, fp, 2).unwrap();
    assert_eq!(limited.len(), 2);
    assert_eq!(limited[0].game_id.id, 1);
    assert_eq!(limited[1].game_id.id, 2);
    assert_eq!(movements_from_position_limited(&store, fp, 9).unwrap().len(), 3);
    assert!(movements_from_position_limited(&store, fp, 0).unwrap().is_empty());
}

#[test]
fn position_lookup_pairs_moves_with_their_games() {
    let mut store = Store::new();
    let g1 = game("Alice", "Bob", &["e4", "e5"]).insert(&mut store).unwrap();
    let _g2 = game("Carol", "Dan", &["e4", "e5"]).insert(&mut store).unwrap();
    let m1 = movements_from_game(&store, g1).unwrap();
    let pairs = movement_and_games_from_position(&store, m1[1].board).unwrap();
    assert_eq!(pairs.len(), 2);
    assert_eq!(pairs[0].1.white, "Alice");
    assert_eq!(pairs[1].1.white, "Carol");
    assert_eq!(pairs[0].0.game_round, 2);
    assert_eq!(pairs[1].0.game_round, 2);
}

#[test]
fn transposition_query_finds_the_sibling_game() {
    // Both games open 1.e4 e5; with the exclusion threshold below ply 2 the
    // post-ply-2 position of the first game fans out to the second.
    let mut store = Store::new();
    let g1 = game("Alice", "Bob", &["e4", "e5", "Nf3"]).insert(&mut store).unwrap();
    let g2 = game("Carol", "Dan", &["e4", "e5", "Nc3"]).insert(&mut store).unwrap();
    let related = related_games_from_game(&store, g1.id, 1).unwrap();
    assert_eq!(related.len(), 3);
    // Ply 1 is at or below the threshold: excluded.
    assert!(related[0].is_empty());
    // Ply 2: game 2 reached the same position at its ply 2.
    assert_eq!(related[1].len(), 1);
    let (ref mv, ref g) = related[1][0];
    assert_eq!(g.id, g2);
    assert_eq!(g.white, "Carol");
    assert_eq!(mv.game_round, 2);
    assert_eq!(mv.san_plus.0, "e5");
    // Ply 3: the games diverged, nothing is related.
    assert!(related[2].is_empty());
}

#[test]
fn transposition_query_sees_transpositions_at_other_plies() {
    // The two games reach the same position after 3 plies via different
    // move orders.
    let mut store = Store::new();
    let g1 = game("Alice", "Bob", &["Nf3", "d5", "d4"]).insert(&mut store).unwrap();
    let _g2 = game("Carol", "Dan", &["d4", "d5", "Nf3"]).insert(&mut store).unwrap();
    let related = related_games_from_game(&store, g1.id, 2).unwrap();
    assert_eq!(related.len(), 3);
    assert!(related[0].is_empty());
    assert!(related[1].is_empty());
    assert_eq!(related[2].len(), 1);
    assert_eq!(related[2][0].1.white, "Carol");
    assert_eq!(related[2][0].0.game_round, 3);
}

#[test]
fn transposition_query_excludes_the_origin_game() {
    let mut store = Store::new();
    let g1 = game("Alice", "Bob", &["e4", "e5"]).insert(&mut store).unwrap();
    let related = related_games_from_game(&store, g1.id, 0).unwrap();
    assert_eq!(related.len(), 2);
    assert!(related[0].is_empty());
    assert!(related[1].is_empty());
    assert_eq!(
        related_games_from_game(&store, 99, 0).unwrap_err(),
        InsertionError::NotFound
    );
}
