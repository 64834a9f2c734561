//! The game-record builder: folds a stream of header fields and move tokens
//! into an immutable parsed game, reporting a missing required header as a
//! recoverable per-game error at the game boundary.

use vstd::prelude::*;
use vstd::string::StrSliceExecFns;

use crate::text::{all_digits, dec_val, is_digit_char, parse_digits, pow10, str_eq};

verus! {

/// A move in standard algebraic notation, kept verbatim as text.
#[derive(Clone, Debug, PartialEq, Eq)]
pub struct SAN(pub String);

impl View for SAN {
    type V = Seq<char>;

    open spec fn view(&self) -> Seq<char> {
        self.0@
    }
}

impl SAN {
    /// A copy holding the same characters.
    pub fn duplicate(&self) -> (r: SAN)
        ensures
            r@ == self@,
    {
        SAN(self.0.clone())
    }
}

/// A calendar date, as the `YYYY.MM.DD` header writes it.
#[derive(Clone, Copy, Debug, PartialEq, Eq, Structural)]
pub struct Date {
    pub year: u16,
    pub month: u8,
    pub day: u8,
}

/// A wall-clock time, as the `HH:MM:SS` header writes it.
#[derive(Clone, Copy, Debug, PartialEq, Eq, Structural)]
pub struct Time {
    pub hour: u8,
    pub minute: u8,
    pub second: u8,
}

/// A date and time combined, the timestamp a game carries.
#[derive(Clone, Copy, Debug, PartialEq, Eq, Structural)]
pub struct Timestamp {
    pub date: Date,
    pub time: Time,
}

/// The errors of parsing, validation, storage and lookup.
#[derive(Clone, Debug, PartialEq, Eq)]
pub enum InsertionError {
    /// A store-level failure, with a description.
    DbError(String),
    /// Input that is not a well-formed game record at all.
    ParsingError,
    /// A required header was absent at the game boundary; holds the field name.
    IncompleteDataError(String),
    /// A move that is not legal from the position it was played in.
    IlegalMove(SAN),
    /// A lookup by id with no matching row.
    NotFound,
}

/// The mathematical value of an `InsertionError`.
#[verifier::ext_equal]
pub ghost enum InsErrV {
    DbError(Seq<char>),
    ParsingError,
    IncompleteData(Seq<char>),
    IlegalMove(Seq<char>),
    NotFound,
}

impl View for InsertionError {
    type V = InsErrV;

    open spec fn view(&self) -> InsErrV {
        match self {
            InsertionError::DbError(s) => InsErrV::DbError(s@),
            InsertionError::ParsingError => InsErrV::ParsingError,
            InsertionError::IncompleteDataError(s) => InsErrV::IncompleteData(s@),
            InsertionError::IlegalMove(s) => InsErrV::IlegalMove(s@),
            InsertionError::NotFound => InsErrV::NotFound,
        }
    }
}

/// A fully parsed, not yet validated game: the builder's output and the
/// ingestion pipeline's input.
#[derive(Clone, Debug)]
pub struct ParsedChessGame {
    pub event: String,
    pub date: Date,
    pub time: Time,
    pub white: String,
    pub black: String,
    pub white_elo: Option<i32>,
    pub black_elo: Option<i32>,
    pub moves: Vec<SAN>,
}

/// The mathematical value of a `ParsedChessGame`.
#[verifier::ext_equal]
pub ghost struct ParsedGameV {
    pub event: Seq<char>,
    pub date: Date,
    pub time: Time,
    pub white: Seq<char>,
    pub black: Seq<char>,
    pub white_elo: Option<i32>,
    pub black_elo: Option<i32>,
    pub moves: Seq<Seq<char>>,
}

impl View for ParsedChessGame {
    type V = ParsedGameV;

    open spec fn view(&self) -> ParsedGameV {
        ParsedGameV {
            event: self.event@,
            date: self.date,
            time: self.time,
            white: self.white@,
            black: self.black@,
            white_elo: self.white_elo,
            black_elo: self.black_elo,
            moves: self.moves@.map_values(|m: SAN| m@),
        }
    }
}

/// `s` has the shape `YYYY.MM.DD` with a month of 1 to 12 and a day of
/// 1 to 31.
pub open spec fn date_str_valid(s: Seq<char>) -> bool {
    &&& s.len() == 10
    &&& s[4] == '.'
    &&& s[7] == '.'
    &&& all_digits(s.subrange(0, 4))
    &&& all_digits(s.subrange(5, 7))
    &&& all_digits(s.subrange(8, 10))
    &&& 1 <= dec_val(s.subrange(5, 7)) <= 12
    &&& 1 <= dec_val(s.subrange(8, 10)) <= 31
}

/// The date that a valid `YYYY.MM.DD` string denotes.
pub open spec fn spec_date_of(s: Seq<char>) -> Date {
    Date {
        year: dec_val(s.subrange(0, 4)) as u16,
        month: dec_val(s.subrange(5, 7)) as u8,
        day: dec_val(s.subrange(8, 10)) as u8,
    }
}

/// `s` has the shape `HH:MM:SS` with an hour below 24 and minutes and
/// seconds below 60.
pub open spec fn time_str_valid(s: Seq<char>) -> bool {
    &&& s.len() == 8
    &&& s[2] == ':'
    &&& s[5] == ':'
    &&& all_digits(s.subrange(0, 2))
    &&& all_digits(s.subrange(3, 5))
    &&& all_digits(s.subrange(6, 8))
    &&& dec_val(s.subrange(0, 2)) <= 23
    &&& dec_val(s.subrange(3, 5)) <= 59
    &&& dec_val(s.subrange(6, 8)) <= 59
}

/// The time that a valid `HH:MM:SS` string denotes.
pub open spec fn spec_time_of(s: Seq<char>) -> Time {
    Time {
        hour: dec_val(s.subrange(0, 2)) as u8,
        minute: dec_val(s.subrange(3, 5)) as u8,
        second: dec_val(s.subrange(6, 8)) as u8,
    }
}

/// `s` is a plain decimal numeral whose value fits an `i32`.
pub open spec fn elo_str_valid(s: Seq<char>) -> bool {
    s.len() > 0 && all_digits(s) && dec_val(s) <= 0x7fff_ffff
}

/// The rating that a valid numeral denotes.
pub open spec fn spec_elo_of(s: Seq<char>) -> i32 {
    dec_val(s) as i32
}

/// Reads a `YYYY.MM.DD` header value.
pub fn parse_date(s: &str) -> (r: Option<Date>)
    ensures
        r == (if date_str_valid(s@) {
            Some(spec_date_of(s@))
        } else {
            None::<Date>
        }),
{
    let n = s.unicode_len();
    if n != 10 {
        return None;
    }
    if s.get_char(4) != '.' || s.get_char(7) != '.' {
        return None;
    }
    let y = match parse_digits(s, 0, 4) {
        Some(v) => v,
        None => { return None; },
    };
    let m = match parse_digits(s, 5, 7) {
        Some(v) => v,
        None => { return None; },
    };
    let d = match parse_digits(s, 8, 10) {
        Some(v) => v,
        None => { return None; },
    };
    proof {
        crate::text::lemma_dec_val_bounds(s@.subrange(0, 4));
        crate::text::lemma_dec_val_bounds(s@.subrange(5, 7));
        crate::text::lemma_dec_val_bounds(s@.subrange(8, 10));
        assert(pow10(4) == 10000 && pow10(2) == 100) by {
            reveal_with_fuel(pow10, 5);
        }
    }
    if m < 1 || m > 12 || d < 1 || d > 31 {
        return None;
    }
    Some(Date { year: y as u16, month: m as u8, day: d as u8 })
}

/// Reads an `HH:MM:SS` header value.
pub fn parse_time(s: &str) -> (r: Option<Time>)
    ensures
        r == (if time_str_valid(s@) {
            Some(spec_time_of(s@))
        } else {
            None::<Time>
        }),
{
    let n = s.unicode_len();
    if n != 8 {
        return None;
    }
    if s.get_char(2) != ':' || s.get_char(5) != ':' {
        return None;
    }
    let h = match parse_digits(s, 0, 2) {
        Some(v) => v,
        None => { return None; },
    };
    let m = match parse_digits(s, 3, 5) {
        Some(v) => v,
        None => { return None; },
    };
    let sec = match parse_digits(s, 6, 8) {
        Some(v) => v,
        None => { return None; },
    };
    proof {
        crate::text::lemma_dec_val_bounds(s@.subrange(0, 2));
        crate::text::lemma_dec_val_bounds(s@.subrange(3, 5));
        crate::text::lemma_dec_val_bounds(s@.subrange(6, 8));
        assert(pow10(2) == 100) by {
            reveal_with_fuel(pow10, 3);
        }
    }
    if h > 23 || m > 59 || sec > 59 {
        return None;
    }
    Some(Time { hour: h as u8, minute: m as u8, second: sec as u8 })
}

/// Reads a rating header value: a plain decimal numeral that fits an `i32`.
pub fn parse_elo(s: &str) -> (r: Option<i32>)
    ensures
        r == (if elo_str_valid(s@) {
            Some(spec_elo_of(s@))
        } else {
            None::<i32>
        }),
{
    let n = s.unicode_len();
    if n == 0 {
        return None;
    }
    let mut i: usize = 0;
    let mut acc: u64 = 0;
    while i < n
        invariant
            i <= n,
            n == s@.len(),
            all_digits(s@.take(i as int)),
            acc == dec_val(s@.take(i as int)),
            acc <= 0x7fff_ffff,
        decreases n - i,
    {
        let c = s.get_char(i);
        let cu = c as u32;
        if cu < 48 || cu > 57 {
            proof {
                assert(!is_digit_char(s@[i as int]));
            }
            return None;
        }
        proof {
            let pre = s@.take(i as int);
            let ext = s@.take(i + 1);
            assert(ext.drop_last() =~= pre);
            assert(ext.last() == s@[i as int]);
        }
        let acc2: u64 = acc * 10 + (cu - 48) as u64;
        if acc2 > 0x7fff_ffff {
            proof {
                if all_digits(s@) {
                    crate::text::lemma_dec_val_prefix_le(s@, i + 1);
                }
            }
            return None;
        }
        acc = acc2;
        i += 1;
    }
    proof {
        assert(s@.take(n as int) =~= s@);
    }
    Some(acc as i32)
}

/// The mathematical value of the builder's intermediate state.
#[verifier::ext_equal]
pub ghost struct ParserV {
    pub event: Option<Seq<char>>,
    pub date: Option<Date>,
    pub time: Option<Time>,
    pub white: Option<Seq<char>>,
    pub black: Option<Seq<char>>,
    pub white_elo: Option<i32>,
    pub black_elo: Option<i32>,
    pub moves: Seq<Seq<char>>,
}

impl ParserV {
    /// The state of a builder that has seen nothing yet.
    pub open spec fn init() -> ParserV {
        ParserV {
            event: None,
            date: None,
            time: None,
            white: None,
            black: None,
            white_elo: None,
            black_elo: None,
            moves: Seq::empty(),
        }
    }
}

/// How one header field folds into the builder state: the five known headers
/// and the two rating headers each replace their field (an unparsable date,
/// time or rating leaves the field empty), every other key is ignored.
pub open spec fn header_spec(p: ParserV, key: Seq<char>, value: Seq<char>) -> ParserV {
    if key == "Event"@ {
        ParserV { event: Some(value), ..p }
    } else if key == "UTCDate"@ {
        ParserV {
            date: if date_str_valid(value) {
                Some(spec_date_of(value))
            } else {
                None
            },
            ..p
        }
    } else if key == "UTCTime"@ {
        ParserV {
            time: if time_str_valid(value) {
                Some(spec_time_of(value))
            } else {
                None
            },
            ..p
        }
    } else if key == "White"@ {
        ParserV { white: Some(value), ..p }
    } else if key == "Black"@ {
        ParserV { black: Some(value), ..p }
    } else if key == "WhiteElo"@ {
        ParserV {
            white_elo: if elo_str_valid(value) {
                Some(spec_elo_of(value))
            } else {
                None
            },
            ..p
        }
    } else if key == "BlackElo"@ {
        ParserV {
            black_elo: if elo_str_valid(value) {
                Some(spec_elo_of(value))
            } else {
                None
            },
            ..p
        }
    } else {
        p
    }
}

/// What the game boundary yields: the first missing required header, in the
/// order event, date, time, white, black, or else the finished record.
pub open spec fn end_game_spec(p: ParserV) -> Result<ParsedGameV, InsErrV> {
    if p.event is None {
        Err(InsErrV::IncompleteData("Event"@))
    } else if p.date is None {
        Err(InsErrV::IncompleteData("Date"@))
    } else if p.time is None {
        Err(InsErrV::IncompleteData("Time"@))
    } else if p.white is None {
        Err(InsErrV::IncompleteData("White"@))
    } else if p.black is None {
        Err(InsErrV::IncompleteData("Black"@))
    } else {
        Ok(ParsedGameV {
            event: p.event->0,
            date: p.date->0,
            time: p.time->0,
            white: p.white->0,
            black: p.black->0,
            white_elo: p.white_elo,
            black_elo: p.black_elo,
            moves: p.moves,
        })
    }
}

/// The incremental game-record builder.  Header fields and move tokens fold
/// into it in stream order; `end_game` closes one game and resets it.
#[derive(Debug)]
pub struct PGNParser {
    event: Option<String>,
    date: Option<Date>,
    time: Option<Time>,
    white: Option<String>,
    black: Option<String>,
    white_elo: Option<i32>,
    black_elo: Option<i32>,
    moves: Vec<SAN>,
}

impl View for PGNParser {
    type V = ParserV;

    closed spec fn view(&self) -> ParserV {
        ParserV {
            event: match self.event {
                Some(s) => Some(s@),
                None => None,
            },
            date: self.date,
            time: self.time,
            white: match self.white {
                Some(s) => Some(s@),
                None => None,
            },
            black: match self.black {
                Some(s) => Some(s@),
                None => None,
            },
            white_elo: self.white_elo,
            black_elo: self.black_elo,
            moves: self.moves@.map_values(|m: SAN| m@),
        }
    }
}

impl PGNParser {
    /// A builder that has seen nothing yet.
    pub fn new() -> (p: PGNParser)
        ensures
            p@ == ParserV::init(),
    {
        let p = PGNParser {
            event: None,
            date: None,
            time: None,
            white: None,
            black: None,
            white_elo: None,
            black_elo: None,
            moves: Vec::new(),
        };
        proof {
            assert(p@ =~= ParserV::init());
        }
        p
    }

    /// Folds one header field into the builder.
    pub fn header(&mut self, key: &str, value: &str)
        ensures
            final(self)@ == header_spec(old(self)@, key@, value@),
    {
        if str_eq(key, "Event") {
            self.event = Some(value.to_owned());
        } else if str_eq(key, "UTCDate") {
            self.date = parse_date(value);
        } else if str_eq(key, "UTCTime") {
            self.time = parse_time(value);
        } else if str_eq(key, "White") {
            self.white = Some(value.to_owned());
        } else if str_eq(key, "Black") {
            self.black = Some(value.to_owned());
        } else if str_eq(key, "WhiteElo") {
            self.white_elo = parse_elo(value);
        } else if str_eq(key, "BlackElo") {
            self.black_elo = parse_elo(value);
        }
        proof {
            assert(self@ =~= header_spec(old(self)@, key@, value@));
        }
    }

    /// Appends one move token, kept verbatim.
    pub fn san(&mut self, san: SAN)
        ensures
            final(self)@ == (ParserV { moves: old(self)@.moves.push(san@), ..old(self)@ }),
    {
        self.moves.push(san);
        proof {
            assert(self@ =~= (ParserV { moves: old(self)@.moves.push(san@), ..old(self)@ }));
        }
    }

    /// Closes the current game: yields the finished record, or the first
    /// missing required header, and resets the builder for the next game.
    pub fn end_game(&mut self) -> (r: Result<ParsedChessGame, InsertionError>)
        ensures
            final(self)@ == ParserV::init(),
            match (r, end_game_spec(old(self)@)) {
                (Ok(g), Ok(gv)) => g@ == gv,
                (Err(e), Err(ev)) => e@ == ev,
                _ => false,
            },
    {
        let mut taken = PGNParser::new();
        core::mem::swap(self, &mut taken);
        if taken.event.is_none() {
            return Err(InsertionError::IncompleteDataError("Event".to_owned()));
        }
        if taken.date.is_none() {
            return Err(InsertionError::IncompleteDataError("Date".to_owned()));
        }
        if taken.time.is_none() {
            return Err(InsertionError::IncompleteDataError("Time".to_owned()));
        }
        if taken.white.is_none() {
            return Err(InsertionError::IncompleteDataError("White".to_owned()));
        }
        if taken.black.is_none() {
            return Err(InsertionError::IncompleteDataError("Black".to_owned()));
        }
        let g = ParsedChessGame {
            event: taken.event.unwrap(),
            date: taken.date.unwrap(),
            time: taken.time.unwrap(),
            white: taken.white.unwrap(),
            black: taken.black.unwrap(),
            white_elo: taken.white_elo,
            black_elo: taken.black_elo,
            moves: taken.moves,
        };
        proof {
            assert(g@ =~= end_game_spec(old(self)@)->Ok_0);
        }
        Ok(g)
    }
}

} // verus!
