use nixchess::record::{parse_date, parse_elo, parse_time, Date, InsertionError, PGNParser, Time, SAN};

#[test]
fn date_parsing_reads_valid_dates() {
    assert_eq!(
        parse_date("2023.05.12"),
        Some(Date { year: 2023, month: 5, day: 12 })
    );
    assert_eq!(
        parse_date("1999.12.31"),
        Some(Date { year: 1999, month: 12, day: 31 })
    );
}

#[test]
fn date_parsing_rejects_malformed_dates() {
    assert_eq!(parse_date("2023-05-12"), None);
    assert_eq!(parse_date("2023.13.01"), None);
    assert_eq!(parse_date("2023.00.01"), None);
    assert_eq!(parse_date("2023.05.32"), None);
    assert_eq!(parse_date("23.05.12"), None);
    assert_eq!(parse_date(""), None);
}

#[test]
fn time_parsing_reads_valid_times() {
    assert_eq!(
        parse_time("10:42:07"),
        Some(Time { hour: 10, minute: 42, second: 7 })
    );
    assert_eq!(
        parse_time("00:00:00"),
        Some(Time { hour: 0, minute: 0, second: 0 })
    );
    assert_eq!(
        parse_time("23:59:59"),
        Some(Time { hour: 23, minute: 59, second: 59 })
    );
}

#[test]
fn time_parsing_rejects_malformed_times() {
    assert_eq!(parse_time("24:00:00"), None);
    assert_eq!(parse_time("10:60:00"), None);
    assert_eq!(parse_time("10:00:60"), None);
    assert_eq!(parse_time("10.00.00"), None);
    assert_eq!(parse_time("10:00"), None);
}

#[test]
fn elo_parsing_reads_numerals_and_rejects_the_rest() {
    assert_eq!(parse_elo("1500"), Some(1500));
    assert_eq!(parse_elo("0"), Some(0));
    assert_eq!(parse_elo("0001500"), Some(1500));
    assert_eq!(parse_elo("2147483647"), Some(2147483647));
    assert_eq!(parse_elo("2147483648"), None);
    assert_eq!(parse_elo(""), None);
    assert_eq!(parse_elo("15a0"), None);
    assert_eq!(parse_elo("-100"), None);
}

#[test]
fn builder_assembles_a_complete_game() {
    let mut p = PGNParser::new();
    p.header("Event", "Club Championship");
    p.header("UTCDate", "2023.05.12");
    p.header("UTCTime", "10:00:00");
    p.header("White", "Alice");
    p.header("Black", "Bob");
    p.header("WhiteElo", "1500");
    p.header("BlackElo", "abc");
    p.header("Opening", "King's Pawn");
    p.san(SAN("e4".to_string()));
    p.san(SAN("e5".to_string()));
    let g = p.end_game().expect("complete game");
    assert_eq!(g.event, "Club Championship");
    assert_eq!(g.date, Date { year: 2023, month: 5, day: 12 });
    assert_eq!(g.time, Time { hour: 10, minute: 0, second: 0 });
    assert_eq!(g.white, "Alice");
    assert_eq!(g.black, "Bob");
    assert_eq!(g.white_elo, Some(1500));
    assert_eq!(g.black_elo, None);
    assert_eq!(g.moves, vec![SAN("e4".to_string()), SAN("e5".to_string())]);
}

#[test]
fn builder_reports_first_missing_required_header() {
    let mut p = PGNParser::new();
    p.header("UTCDate", "2023.05.12");
    p.header("UTCTime", "10:00:00");
    p.header("White", "Alice");
    p.header("Black", "Bob");
    let e = p.end_game().unwrap_err();
    assert_eq!(e, InsertionError::IncompleteDataError("Event".to_string()));
}

#[test]
fn builder_reports_missing_white_player() {
    let mut p = PGNParser::new();
    p.header("Event", "Casual");
    p.header("UTCDate", "2023.05.12");
    p.header("UTCTime", "10:00:00");
    p.header("Black", "Bob");
    let e = p.end_game().unwrap_err();
    assert_eq!(e, InsertionError::IncompleteDataError("White".to_string()));
}

#[test]
fn builder_resets_at_the_game_boundary() {
    let mut p = PGNParser::new();
    p.header("Event", "First");
    p.header("UTCDate", "2023.05.12");
    p.header("UTCTime", "10:00:00");
    p.header("White", "Alice");
    p.header("Black", "Bob");
    let _ = p.end_game().expect("complete game");
    // The builder starts the next game from nothing.
    let e = p.end_game().unwrap_err();
    assert_eq!(e, InsertionError::IncompleteDataError("Event".to_string()));
}

#[test]
fn builder_treats_invalid_date_as_missing() {
    let mut p = PGNParser::new();
    p.header("Event", "Casual");
    p.header("UTCDate", "not-a-date");
    p.header("UTCTime", "10:00:00");
    p.header("White", "Alice");
    p.header("Black", "Bob");
    let e = p.end_game().unwrap_err();
    assert_eq!(e, InsertionError::IncompleteDataError("Date".to_string()));
}
