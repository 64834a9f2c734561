//! The board engine: a chess position evolved by standard-algebraic moves.
//!
//! A position is identified, at the specification level, by the sequence of
//! SAN strings that produced it from the standard initial position.  Chess is
//! deterministic, so every quantity read off a position (legality of the next
//! move, the position fingerprint, the squares a move touches) is a function
//! of that history alone; those functions are given names below and the
//! outside engine is trusted to compute them.

use vstd::prelude::*;

use shakmaty::Position;
use shakmaty::zobrist::ZobristHash;

verus! {

#[verifier::external_type_specification]
#[verifier::external_body]
pub struct ExChess(shakmaty::Chess);

/// Whether, after playing the legal history `hist` from the initial position,
/// the SAN string `san` parses and resolves to exactly one legal move.
pub uninterp spec fn san_legal(hist: Seq<Seq<char>>, san: Seq<char>) -> bool;

/// The 64-bit Zobrist fingerprint of the position reached by playing `hist`
/// from the initial position.  Determined by the history alone.
pub uninterp spec fn position_fingerprint(hist: Seq<Seq<char>>) -> u64;

/// The origin square (absent for some notations) and the destination square,
/// as 0-based square indices, of the move that `san` denotes after `hist`;
/// absent when `san` is not a legal move there.
pub uninterp spec fn san_squares(hist: Seq<Seq<char>>, san: Seq<char>) -> Option<(Option<u8>, u8)>;

/// Every move of `hist` is legal from the position reached by its predecessors.
pub open spec fn legal_hist(hist: Seq<Seq<char>>) -> bool
    decreases hist.len(),
{
    hist.len() == 0 || (legal_hist(hist.drop_last()) && san_legal(hist.drop_last(), hist.last()))
}

/// The fingerprint after each ply of `moves`: entry `i` is the fingerprint of
/// the position once `moves[0..=i]` have been played.
pub open spec fn fingerprint_trace(moves: Seq<Seq<char>>) -> Seq<u64> {
    Seq::new(moves.len(), |i: int| position_fingerprint(moves.take(i + 1)))
}

/// Each move of a legal history is legal after its predecessors.
pub proof fn lemma_legal_hist_each(h: Seq<Seq<char>>, k: int)
    requires
        legal_hist(h),
        0 <= k < h.len(),
    ensures
        san_legal(h.take(k), h[k]),
    decreases h.len(),
{
    if k == h.len() - 1 {
        assert(h.take(k) =~= h.drop_last());
    } else {
        lemma_legal_hist_each(h.drop_last(), k);
        assert(h.drop_last().take(k) =~= h.take(k));
        assert(h.drop_last()[k] == h[k]);
    }
}

/// Computing the fingerprint of one and the same position twice gives one and
/// the same value: the fingerprint is a function of the position's history.
pub proof fn lemma_fingerprint_deterministic(h1: Seq<Seq<char>>, h2: Seq<Seq<char>>)
    requires
        h1 == h2,
    ensures
        position_fingerprint(h1) == position_fingerprint(h2),
{
}

/// A chess position together with the (ghost) history of SAN moves that
/// produced it from the standard initial position.
pub struct Board {
    chess: shakmaty::Chess,
    hist: Ghost<Seq<Seq<char>>>,
}

impl Board {
    /// The SAN strings played on this board so far, oldest first.
    pub closed spec fn history(&self) -> Seq<Seq<char>> {
        self.hist@
    }

    /// Relies on shakmaty's `Chess::default`: the standard initial position,
    /// which `Board::new` pairs with the empty history.  Nothing about the
    /// returned value is statable here: the position type is opaque.
    #[verifier::external_body]
    fn initial_chess() -> shakmaty::Chess {
        shakmaty::Chess::default()
    }

    /// A board holding the standard initial position.
    pub fn new() -> (b: Board)
        ensures
            b.history() == Seq::<Seq<char>>::empty(),
    {
        Board { chess: Self::initial_chess(), hist: Ghost(Seq::empty()) }
    }

    /// Relies on shakmaty's `SanPlus::from_ascii`, `San::to_move` and
    /// `Position::play_unchecked`: the SAN string is parsed and resolved
    /// against the current position; exactly when it denotes one legal move,
    /// that move is played.  Parsing and resolution depend on the position
    /// (hence its history) and the string alone.
    #[verifier::external_body]
    fn try_play_inner(&mut self, san: &str) -> (ok: bool)
        ensures
            ok == san_legal(old(self).history(), san@),
            final(self).history() == if ok {
                old(self).history().push(san@)
            } else {
                old(self).history()
            },
    {
        match shakmaty::san::SanPlus::from_ascii(san.as_bytes()) {
            Ok(sp) => match sp.san.to_move(&self.chess) {
                Ok(m) => {
                    self.chess.play_unchecked(&m);
                    true
                },
                Err(_) => false,
            },
            Err(_) => false,
        }
    }

    /// Relies on shakmaty's `ZobristHash::zobrist_hash` with `Zobrist64` and
    /// legal en-passant mode: a 64-bit hash of the full position (piece
    /// placement, side to move, castling rights, en-passant availability),
    /// a function of the position and hence of its history.
    #[verifier::external_body]
    fn fingerprint_inner(&self) -> (fp: u64)
        ensures
            fp == position_fingerprint(self.history()),
    {
        self.chess.zobrist_hash::<shakmaty::zobrist::Zobrist64>(shakmaty::EnPassantMode::Legal).0
    }

    /// Relies on shakmaty's `SanPlus::from_ascii` and `San::to_move`: the
    /// origin and destination squares of the move that `san` denotes on the
    /// current position, absent exactly when `san` is not one legal move.
    #[verifier::external_body]
    fn san_squares_inner(&self, san: &str) -> (r: Option<(Option<u8>, u8)>)
        ensures
            r == san_squares(self.history(), san@),
            r is Some <==> san_legal(self.history(), san@),
    {
        match shakmaty::san::SanPlus::from_ascii(san.as_bytes()) {
            Ok(sp) => match sp.san.to_move(&self.chess) {
                Ok(m) => Some((m.from().map(|s| u32::from(s) as u8), u32::from(m.to()) as u8)),
                Err(_) => None,
            },
            Err(_) => None,
        }
    }

    /// Plays `san` if it is a legal move from the current position; otherwise
    /// leaves the board unchanged.
    pub fn try_play(&mut self, san: &str) -> (ok: bool)
        ensures
            ok == san_legal(old(self).history(), san@),
            final(self).history() == if ok {
                old(self).history().push(san@)
            } else {
                old(self).history()
            },
            ok && legal_hist(old(self).history()) ==> legal_hist(final(self).history()),
    {
        let ok = self.try_play_inner(san);
        proof {
            if ok && legal_hist(old(self).history()) {
                assert(self.history().drop_last() =~= old(self).history());
            }
        }
        ok
    }

    /// The fingerprint of the current position.
    pub fn fingerprint(&self) -> (fp: u64)
        ensures
            fp == position_fingerprint(self.history()),
    {
        self.fingerprint_inner()
    }

    /// The origin and destination squares of the move `san` denotes on the
    /// current position, or `None` when it denotes no legal move.
    pub fn move_squares(&self, san: &str) -> (r: Option<(Option<u8>, u8)>)
        ensures
            r == san_squares(self.history(), san@),
            r is Some <==> san_legal(self.history(), san@),
    {
        self.san_squares_inner(san)
    }
}

} // verus!
