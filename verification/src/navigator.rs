//! The replay navigator: a pure state machine over one game's stored move
//! list and its per-ply transposition results, tracking a current ply that
//! `advance` and `retreat` move by one and clamp at both ends.  The current
//! board is recomputed on demand by replaying from the initial position.

use vstd::prelude::*;

use crate::board::{legal_hist, position_fingerprint, san_squares, Board};
use crate::queries::{pairs_view, related_spec, PairV};
use crate::record::{InsErrV, InsertionError};
use crate::store::{
    game_moves, replay_wf, sans_of, Game, GameId, GameV, Move, MoveV, Store,
};

verus! {

/// Where the navigator stands in its game.
#[derive(Clone, Copy, Debug, PartialEq, Eq, Structural)]
pub enum GamePhase {
    AtStart,
    MidGame,
    AtEnd,
}

/// The mathematical value of the navigator's state.
#[verifier::ext_equal]
pub ghost struct NavV {
    pub game: GameV,
    pub moves: Seq<MoveV>,
    pub related: Seq<Seq<PairV>>,
    pub curr: int,
}

/// The notation strings of the navigator's move list.
pub open spec fn nav_sans(n: NavV) -> Seq<Seq<char>> {
    sans_of(n.moves)
}

/// What `advance` does to the current ply: one step forward, clamped at the
/// move count.
pub open spec fn advance_spec(curr: int, max: int) -> int {
    if curr < max {
        curr + 1
    } else {
        curr
    }
}

/// What `retreat` does to the current ply: one step back, clamped at zero.
pub open spec fn retreat_spec(curr: int) -> int {
    if curr > 0 {
        curr - 1
    } else {
        curr
    }
}

/// Navigator boundary behavior: advancing at the final ply and retreating at
/// ply zero are no-ops; anywhere else the ply moves by exactly one.
pub proof fn lemma_navigator_boundaries(curr: int, max: int)
    requires
        0 <= curr <= max,
    ensures
        advance_spec(max, max) == max,
        retreat_spec(0) == 0,
        curr < max ==> advance_spec(curr, max) == curr + 1,
        curr > 0 ==> retreat_spec(curr) == curr - 1,
{
}

/// The replay navigator's state: one game, its ordered move rows, the
/// per-ply transposition results, and the current ply.
#[derive(Debug)]
pub struct BoardState {
    game: Game,
    moves: Vec<Move>,
    related_games: Vec<Vec<(Move, Game)>>,
    curr_move_idx: usize,
}

impl View for BoardState {
    type V = NavV;

    closed spec fn view(&self) -> NavV {
        NavV {
            game: self.game@,
            moves: self.moves@.map_values(|m: Move| m@),
            related: self.related_games@.map_values(|col: Vec<(Move, Game)>| pairs_view(col@)),
            curr: self.curr_move_idx as int,
        }
    }
}

impl BoardState {
    #[verifier::type_invariant]
    spec fn inv(self) -> bool {
        &&& 0 <= self@.curr <= self@.moves.len()
        &&& self@.related.len() == self@.moves.len()
        &&& replay_wf(self@.moves)
    }

    /// Assembles the navigator for one stored game: its row, its moves in
    /// ply order, and the transposition results per ply with early plies at
    /// or below `threshold` excluded.  The navigator starts at ply zero.
    pub fn build(store: &Store, game_id: i32, threshold: i32) -> (r: Result<
        BoardState,
        InsertionError,
    >)
        ensures
            match r {
                Ok(b) => {
                    &&& 1 <= game_id as int <= store@.games.len()
                    &&& b@.game == store@.games[game_id - 1]
                    &&& b@.moves == game_moves(store@, game_id as int)
                    &&& b@.related == related_spec(store@, game_id as int, threshold as int)
                    &&& b@.curr == 0
                },
                Err(e) => !(1 <= game_id as int <= store@.games.len()) && e@ == InsErrV::NotFound,
            },
    {
        store.observe_invariant();
        let game = match crate::queries::game_from_id(store, game_id) {
            Ok(g) => g,
            Err(e) => { return Err(e); },
        };
        let moves = match crate::queries::movements_from_game(store, GameId { id: game_id }) {
            Ok(v) => v,
            Err(e) => { return Err(e); },
        };
        let related_games = match crate::queries::related_games_from_game(
            store,
            game_id,
            threshold,
        ) {
            Ok(v) => v,
            Err(e) => { return Err(e); },
        };
        proof {
            assert(crate::store::game_wf(store@, game_id as int));
            assert(moves@.map_values(|m: Move| m@) == game_moves(store@, game_id as int));
            assert(replay_wf(moves@.map_values(|m: Move| m@)));
            assert(related_games@.map_values(|col: Vec<(Move, Game)>| pairs_view(col@))
                == related_spec(store@, game_id as int, threshold as int));
            assert(related_spec(store@, game_id as int, threshold as int).len() == game_moves(
                store@,
                game_id as int,
            ).len());
        }
        let b = BoardState { game, moves, related_games, curr_move_idx: 0 };
        Ok(b)
    }

    /// One step forward; a no-op at the final ply.  Never an error.
    pub fn advance(&mut self)
        ensures
            final(self)@ == (NavV {
                curr: advance_spec(old(self)@.curr, old(self)@.moves.len() as int),
                ..old(self)@
            }),
    {
        proof {
            use_type_invariant(&*self);
        }
        if self.curr_move_idx < self.moves.len() {
            self.curr_move_idx = self.curr_move_idx + 1;
        }
        proof {
            assert(self@ =~~= (NavV {
                curr: advance_spec(old(self)@.curr, old(self)@.moves.len() as int),
                ..old(self)@
            }));
        }
    }

    /// One step back; a no-op at ply zero.  Never an error.
    pub fn retreat(&mut self)
        ensures
            final(self)@ == (NavV { curr: retreat_spec(old(self)@.curr), ..old(self)@ }),
    {
        proof {
            use_type_invariant(&*self);
        }
        if self.curr_move_idx > 0 {
            self.curr_move_idx = self.curr_move_idx - 1;
        }
        proof {
            assert(self@ =~~= (NavV { curr: retreat_spec(old(self)@.curr), ..old(self)@ }));
        }
    }

    /// The current ply: 0 for the initial position, up to the move count.
    pub fn current_ply(&self) -> (p: usize)
        ensures
            p as int == self@.curr,
    {
        self.curr_move_idx
    }

    /// The number of plies of the game under navigation.
    pub fn ply_count(&self) -> (n: usize)
        ensures
            n as int == self@.moves.len(),
    {
        proof {
            use_type_invariant(self);
        }
        self.moves.len()
    }

    /// The game row under navigation.
    pub fn game(&self) -> (g: &Game)
        ensures
            g@ == self@.game,
    {
        &self.game
    }

    /// Which of the three navigation states the navigator is in.
    pub fn phase(&self) -> (p: GamePhase)
        ensures
            p == (if self@.curr == 0 {
                GamePhase::AtStart
            } else if self@.curr == self@.moves.len() {
                GamePhase::AtEnd
            } else {
                GamePhase::MidGame
            }),
    {
        proof {
            use_type_invariant(self);
        }
        if self.curr_move_idx == 0 {
            GamePhase::AtStart
        } else if self.curr_move_idx == self.moves.len() {
            GamePhase::AtEnd
        } else {
            GamePhase::MidGame
        }
    }

    /// The board after the first `move_idx` plies (clamped to the move
    /// count), replayed from the initial position.
    pub fn game_up_to_move(&self, move_idx: usize) -> (b: Board)
        ensures
            b.history() == nav_sans(self@).take(
                vstd::math::min(move_idx as int, self@.moves.len() as int),
            ),
    {
        proof {
            use_type_invariant(self);
        }
        let lim = if move_idx < self.moves.len() {
            move_idx
        } else {
            self.moves.len()
        };
        let ghost sans = nav_sans(self@);
        let mut b = Board::new();
        proof {
            assert(sans.take(0) =~= Seq::<Seq<char>>::empty());
        }
        let mut i: usize = 0;
        while i < lim
            invariant
                i <= lim,
                lim <= self.moves.len(),
                sans == nav_sans(self@),
                sans.len() == self@.moves.len(),
                self.moves@.len() == self@.moves.len(),
                legal_hist(sans),
                b.history() == sans.take(i as int),
            decreases lim - i,
        {
            proof {
                crate::board::lemma_legal_hist_each(sans, i as int);
            }
            let ok = b.try_play(self.moves[i].san_plus.0.as_str());
            proof {
                assert(sans[i as int] == self.moves@[i as int]@.san);
                assert(ok);
                assert(sans.take(i + 1).drop_last() =~= sans.take(i as int));
                assert(sans.take(i + 1).last() == sans[i as int]);
            }
            i += 1;
        }
        b
    }

    /// The board at the current ply, replayed from the initial position.
    pub fn current_board(&self) -> (b: Board)
        ensures
            b.history() == nav_sans(self@).take(self@.curr),
    {
        proof {
            use_type_invariant(self);
        }
        self.game_up_to_move(self.curr_move_idx)
    }

    /// The fingerprint of the current position, read off the stored row;
    /// absent at ply zero.  It equals the fingerprint that replaying the
    /// first `curr` moves yields.
    pub fn current_fingerprint(&self) -> (r: Option<u64>)
        ensures
            r is Some <==> self@.curr > 0,
            r matches Some(fp) ==> fp == self@.moves[self@.curr - 1].board && fp
                == position_fingerprint(nav_sans(self@).take(self@.curr)),
    {
        proof {
            use_type_invariant(self);
        }
        if self.curr_move_idx == 0 {
            None
        } else {
            proof {
                let k = self@.curr - 1;
                assert(self@.moves[k].board == position_fingerprint(
                    sans_of(self@.moves).take(k + 1),
                ));
            }
            Some(self.moves[self.curr_move_idx - 1].board)
        }
    }

    /// The transposition results for the current ply; absent at ply zero.
    pub fn current_related(&self) -> (r: Option<&Vec<(Move, Game)>>)
        ensures
            r is Some <==> self@.curr > 0,
            r matches Some(v) ==> pairs_view(v@) == self@.related[self@.curr - 1],
    {
        proof {
            use_type_invariant(self);
        }
        if self.curr_move_idx == 0 {
            None
        } else {
            Some(&self.related_games[self.curr_move_idx - 1])
        }
    }

    /// The origin square of the move that led to the current position, when
    /// the notation determines one; absent at ply zero.
    pub fn last_move_from_square(&self) -> (r: Option<u8>)
        ensures
            r == (if self@.curr == 0 {
                None::<u8>
            } else {
                match san_squares(
                    nav_sans(self@).take(self@.curr - 1),
                    nav_sans(self@)[self@.curr - 1],
                ) {
                    Some(p) => p.0,
                    None => None,
                }
            }),
    {
        proof {
            use_type_invariant(self);
        }
        if self.curr_move_idx == 0 {
            return None;
        }
        let b = self.game_up_to_move(self.curr_move_idx - 1);
        let sq = b.move_squares(self.moves[self.curr_move_idx - 1].san_plus.0.as_str());
        proof {
            assert(nav_sans(self@)[self@.curr - 1] == self.moves@[self.curr_move_idx - 1]@.san);
        }
        match sq {
            Some(p) => p.0,
            None => None,
        }
    }

    /// The destination square of the move that led to the current position;
    /// absent at ply zero.
    pub fn last_move_to_square(&self) -> (r: Option<u8>)
        ensures
            r == (if self@.curr == 0 {
                None::<u8>
            } else {
                match san_squares(
                    nav_sans(self@).take(self@.curr - 1),
                    nav_sans(self@)[self@.curr - 1],
                ) {
                    Some(p) => Some(p.1),
                    None => None,
                }
            }),
    {
        proof {
            use_type_invariant(self);
        }
        if self.curr_move_idx == 0 {
            return None;
        }
        let b = self.game_up_to_move(self.curr_move_idx - 1);
        let sq = b.move_squares(self.moves[self.curr_move_idx - 1].san_plus.0.as_str());
        proof {
            assert(nav_sans(self@)[self@.curr - 1] == self.moves@[self.curr_move_idx - 1]@.san);
        }
        match sq {
            Some(p) => Some(p.1),
            None => None,
        }
    }
}

} // verus!
