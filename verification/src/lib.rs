//! A chess game database core: games are parsed into records, validated by
//! replaying their moves, stored in a position index keyed by a per-ply
//! position fingerprint, and browsed ply by ply with transposition lookup.

pub mod board;
pub mod navigator;
pub mod queries;
pub mod record;
pub mod store;
pub mod text;

pub use board::Board;
pub use navigator::{BoardState, GamePhase};
pub use queries::{
    game_from_id, game_from_move, games_from_player, movement_and_games_from_position,
    movements_from_game, movements_from_position, movements_from_position_limited,
    related_games_from_game,
};
pub use record::{Date, InsertionError, PGNParser, ParsedChessGame, Time, Timestamp, SAN};
pub use store::{insert_games, Game, GameId, IngestReport, Move, Store};
