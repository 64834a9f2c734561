//! The store's read accessors and the transposition query engine: given a
//! game, group, per ply, every move row of another game that reached the
//! identical position, leaving early plies below a tunable threshold empty.

use vstd::prelude::*;
use vstd::seq_lib::*;

use crate::record::{InsErrV, InsertionError};
use crate::store::{
    game_moves, lemma_filter_elem, store_inv, Game, GameId, GameV, Move, MoveV, Store, StoreV,
};

verus! {

/// The games in which `name` played either side, in storage order.
pub open spec fn games_by_player_spec(s: StoreV, name: Seq<char>) -> Seq<GameV> {
    s.games.filter(|g: GameV| g.white == name || g.black == name)
}

/// The move rows whose position fingerprint is `fp`, in storage order.
pub open spec fn moves_by_fp(s: StoreV, fp: u64) -> Seq<MoveV> {
    s.moves.filter(|m: MoveV| m.board == fp)
}

/// The move rows with fingerprint `fp` belonging to a game other than `gid`.
pub open spec fn transposed_moves(s: StoreV, fp: u64, gid: int) -> Seq<MoveV> {
    s.moves.filter(|m: MoveV| m.board == fp && m.game_id != gid)
}

/// One transposition hit: a move row and the game row it belongs to.
#[verifier::ext_equal]
pub ghost struct PairV {
    pub mv: MoveV,
    pub game: GameV,
}

/// Pairs each move row with the game row it belongs to.
pub open spec fn with_games(s: StoreV, ms: Seq<MoveV>) -> Seq<PairV> {
    ms.map_values(|m: MoveV| PairV { mv: m, game: s.games[m.game_id - 1] })
}

/// The transposition result sets of game `gid`, one per ply: the set at
/// index `k` serves ply `k + 1` and is empty at or below the threshold.
pub open spec fn related_spec(s: StoreV, gid: int, threshold: int) -> Seq<Seq<PairV>> {
    Seq::new(
        game_moves(s, gid).len(),
        |k: int|
            if k + 1 <= threshold {
                Seq::empty()
            } else {
                with_games(s, transposed_moves(s, game_moves(s, gid)[k].board, gid))
            },
    )
}

/// The mathematical value of a vector of move/game pairs.
pub open spec fn pairs_view(v: Seq<(Move, Game)>) -> Seq<PairV> {
    v.map_values(|p: (Move, Game)| PairV { mv: p.0@, game: p.1@ })
}

/// The games in which `player` played either side.
pub fn games_from_player(store: &Store, player: &str) -> (r: Result<Vec<Game>, InsertionError>)
    ensures
        r is Ok,
        r matches Ok(v) ==> v@.map_values(|g: Game| g@) == games_by_player_spec(store@, player@),
{
    let n = store.game_count();
    let mut out: Vec<Game> = Vec::new();
    proof {
        assert(store@.games.take(0) =~= Seq::<GameV>::empty());
        assert(out@.map_values(|g: Game| g@) =~= store@.games.take(0).filter(
            |g: GameV| g.white == player@ || g.black == player@,
        ));
    }
    let mut i: usize = 0;
    while i < n
        invariant
            i <= n,
            n == store@.games.len(),
            out@.map_values(|g: Game| g@) == store@.games.take(i as int).filter(
                |g: GameV| g.white == player@ || g.black == player@,
            ),
        decreases n - i,
    {
        let g = store.game_at(i);
        let hit = crate::text::str_eq(g.white.as_str(), player) || crate::text::str_eq(
            g.black.as_str(),
            player,
        );
        proof {
            assert(store@.games.take(i + 1).drop_last() =~= store@.games.take(i as int));
            assert(store@.games.take(i + 1).last() == store@.games[i as int]);
            reveal(Seq::filter);
        }
        if hit {
            out.push(g.duplicate());
        }
        proof {
            assert(out@.map_values(|g: Game| g@) =~~= store@.games.take(i + 1).filter(
                |g: GameV| g.white == player@ || g.black == player@,
            ));
        }
        i += 1;
    }
    proof {
        assert(store@.games.take(n as int) =~= store@.games);
    }
    Ok(out)
}

/// The move rows of one game, in ascending ply order: the row at index `k`
/// is ply `k + 1`.
pub fn movements_from_game(store: &Store, game_id: GameId) -> (r: Result<
    Vec<Move>,
    InsertionError,
>)
    ensures
        r is Ok,
        r matches Ok(v) ==> v@.map_values(|m: Move| m@) == game_moves(store@, game_id.id as int),
        r matches Ok(v) ==> (1 <= game_id.id as int <= store@.games.len() ==> forall|k: int|
            0 <= k < v@.len() ==> (#[trigger] v@[k])@.game_round == k + 1),
{
    store.observe_invariant();
    proof {
        if 1 <= game_id.id as int <= store@.games.len() {
            assert(crate::store::game_wf(store@, game_id.id as int));
        }
    }
    let n = store.move_count();
    let mut out: Vec<Move> = Vec::new();
    proof {
        assert(store@.moves.take(0) =~= Seq::<MoveV>::empty());
        assert(out@.map_values(|m: Move| m@) =~= store@.moves.take(0).filter(
            |m: MoveV| m.game_id == game_id.id as int,
        ));
    }
    let mut i: usize = 0;
    while i < n
        invariant
            i <= n,
            n == store@.moves.len(),
            out@.map_values(|m: Move| m@) == store@.moves.take(i as int).filter(
                |m: MoveV| m.game_id == game_id.id as int,
            ),
        decreases n - i,
    {
        let m = store.move_at(i);
        proof {
            assert(store@.moves.take(i + 1).drop_last() =~= store@.moves.take(i as int));
            assert(store@.moves.take(i + 1).last() == store@.moves[i as int]);
            reveal(Seq::filter);
        }
        if m.game_id.id == game_id.id {
            out.push(m.duplicate());
        }
        proof {
            assert(out@.map_values(|m: Move| m@) =~~= store@.moves.take(i + 1).filter(
                |m: MoveV| m.game_id == game_id.id as int,
            ));
        }
        i += 1;
    }
    proof {
        assert(store@.moves.take(n as int) =~= store@.moves);
        if 1 <= game_id.id as int <= store@.games.len() {
            assert(crate::store::game_wf(store@, game_id.id as int));
            assert forall|k: int| 0 <= k < out@.len() implies (#[trigger] out@[k])@.game_round == k
                + 1 by {
                assert(out@.map_values(|m: Move| m@)[k] == game_moves(
                    store@,
                    game_id.id as int,
                )[k]);
                assert(game_moves(store@, game_id.id as int)[k].game_round == k + 1);
            }
        }
    }
    Ok(out)
}

/// The move rows, across all games, whose position fingerprint is
/// `board_hash`.
pub fn movements_from_position(store: &Store, board_hash: u64) -> (r: Result<
    Vec<Move>,
    InsertionError,
>)
    ensures
        r is Ok,
        r matches Ok(v) ==> v@.map_values(|m: Move| m@) == moves_by_fp(store@, board_hash),
{
    let n = store.move_count();
    let mut out: Vec<Move> = Vec::new();
    proof {
        assert(store@.moves.take(0) =~= Seq::<MoveV>::empty());
        assert(out@.map_values(|m: Move| m@) =~= store@.moves.take(0).filter(
            |m: MoveV| m.board == board_hash,
        ));
    }
    let mut i: usize = 0;
    while i < n
        invariant
            i <= n,
            n == store@.moves.len(),
            out@.map_values(|m: Move| m@) == store@.moves.take(i as int).filter(
                |m: MoveV| m.board == board_hash,
            ),
        decreases n - i,
    {
        let m = store.move_at(i);
        proof {
            assert(store@.moves.take(i + 1).drop_last() =~= store@.moves.take(i as int));
            assert(store@.moves.take(i + 1).last() == store@.moves[i as int]);
            reveal(Seq::filter);
        }
        if m.board == board_hash {
            out.push(m.duplicate());
        }
        proof {
            assert(out@.map_values(|m: Move| m@) =~~= store@.moves.take(i + 1).filter(
                |m: MoveV| m.board == board_hash,
            ));
        }
        i += 1;
    }
    proof {
        assert(store@.moves.take(n as int) =~= store@.moves);
    }
    Ok(out)
}

/// Like `movements_from_position`, but with a bound on the result count:
/// at most the first `limit` matching rows, in storage order.
pub fn movements_from_position_limited(store: &Store, board_hash: u64, limit: usize) -> (r:
    Result<Vec<Move>, InsertionError>)
    ensures
        r is Ok,
        r matches Ok(v) ==> v@.map_values(|m: Move| m@) == moves_by_fp(store@, board_hash).take(
            vstd::math::min(limit as int, moves_by_fp(store@, board_hash).len() as int),
        ),
{
    let mut rows = match movements_from_position(store, board_hash) {
        Ok(v) => v,
        Err(e) => { return Err(e); },
    };
    let ghost full = moves_by_fp(store@, board_hash);
    rows.truncate(limit);
    proof {
        if limit as int >= full.len() {
            assert(full.take(full.len() as int) =~= full);
        }
        assert(rows@.map_values(|m: Move| m@) =~~= full.take(
            vstd::math::min(limit as int, full.len() as int),
        ));
    }
    Ok(rows)
}

/// The move rows with fingerprint `board_hash`, each paired with the game it
/// was played in.
#[verifier::loop_isolation(false)]
pub fn movement_and_games_from_position(store: &Store, board_hash: u64) -> (r: Result<
    Vec<(Move, Game)>,
    InsertionError,
>)
    ensures
        r is Ok,
        r matches Ok(v) ==> pairs_view(v@) == with_games(store@, moves_by_fp(store@, board_hash)),
{
    store.observe_invariant();
    let rows = match movements_from_position(store, board_hash) {
        Ok(v) => v,
        Err(e) => { return Err(e); },
    };
    let ghost fseq = moves_by_fp(store@, board_hash);
    let n = rows.len();
    let mut out: Vec<(Move, Game)> = Vec::new();
    proof {
        assert(pairs_view(out@) =~= with_games(store@, fseq.take(0)));
        assert forall|k: int| 0 <= k < fseq.len() implies 1 <= (#[trigger] fseq[k]).game_id
            <= store@.games.len() by {
            assert(fseq.contains(fseq[k]));
            lemma_filter_elem(store@.moves, |m: MoveV| m.board == board_hash, fseq[k]);
            let ii = choose|ii: int| 0 <= ii < store@.moves.len() && store@.moves[ii] == fseq[k];
            assert(1 <= store@.moves[ii].game_id <= store@.games.len());
        }
    }
    let mut i: usize = 0;
    while i < n
        invariant
            i <= n,
            n == fseq.len(),
            rows@.map_values(|m: Move| m@) == fseq,
            rows@.len() == n,
            store_inv(store@),
            forall|k: int| 0 <= k < fseq.len() ==> 1 <= (#[trigger] fseq[k]).game_id
                <= store@.games.len(),
            pairs_view(out@) == with_games(store@, fseq.take(i as int)),
        decreases n - i,
    {
        let m = &rows[i];
        proof {
            assert(m@ == fseq[i as int]);
        }
        let gi = (m.game_id.id - 1) as usize;
        let g = store.game_at(gi);
        let ghost out0 = out@;
        out.push((m.duplicate(), g.duplicate()));
        proof {
            let pv = pairs_view(out@);
            let wg = with_games(store@, fseq.take(i + 1));
            assert(pv.len() == wg.len());
            assert(pv[i as int].mv == wg[i as int].mv);
            assert(pv[i as int].game == wg[i as int].game);
            assert forall|jj: int| 0 <= jj < i implies #[trigger] pv[jj] == wg[jj] by {
                assert(out@[jj] == out0[jj]);
                assert(pv[jj] == pairs_view(out0)[jj]);
                assert(fseq.take(i + 1)[jj] == fseq.take(i as int)[jj]);
                assert(wg[jj] == with_games(store@, fseq.take(i as int))[jj]);
                assert(pairs_view(out0)[jj] == with_games(store@, fseq.take(i as int))[jj]);
            }
            assert(pv =~~= wg);
        }
        i += 1;
    }
    proof {
        assert(fseq.take(n as int) =~= fseq);
    }
    Ok(out)
}

/// The game that a move row belongs to.
pub fn game_from_move(store: &Store, movement: &Move) -> (r: Result<Game, InsertionError>)
    ensures
        match r {
            Ok(g) => 1 <= movement@.game_id <= store@.games.len() && g@ == store@.games[movement@.game_id
                - 1],
            Err(e) => !(1 <= movement@.game_id <= store@.games.len()) && e@ == InsErrV::NotFound,
        },
{
    game_from_id(store, movement.game_id.id)
}

/// The game with the given id.
pub fn game_from_id(store: &Store, game_id: i32) -> (r: Result<Game, InsertionError>)
    ensures
        match r {
            Ok(g) => 1 <= game_id as int <= store@.games.len() && g@ == store@.games[game_id - 1],
            Err(e) => !(1 <= game_id as int <= store@.games.len()) && e@ == InsErrV::NotFound,
        },
{
    if game_id < 1 {
        return Err(InsertionError::NotFound);
    }
    let idx = (game_id - 1) as usize;
    if idx >= store.game_count() {
        return Err(InsertionError::NotFound);
    }
    Ok(store.game_at(idx).duplicate())
}

/// For each ply of one game, the moves of other games that reached the
/// position after that ply, each with its game: the transposition fan-out.
/// Plies at or below `threshold` are excluded and get an empty result set.
#[verifier::loop_isolation(false)]
pub fn related_games_from_game(store: &Store, game_id: i32, threshold: i32) -> (r: Result<
    Vec<Vec<(Move, Game)>>,
    InsertionError,
>)
    ensures
        match r {
            Ok(v) => 1 <= game_id as int <= store@.games.len() && v@.map_values(
                |col: Vec<(Move, Game)>| pairs_view(col@),
            ) == related_spec(store@, game_id as int, threshold as int),
            Err(e) => !(1 <= game_id as int <= store@.games.len()) && e@ == InsErrV::NotFound,
        },
{
    store.observe_invariant();
    if game_id < 1 || {
        let idx = (game_id - 1) as usize;
        idx >= store.game_count()
    } {
        return Err(InsertionError::NotFound);
    }
    let ghost gid = game_id as int;
    let origin = match movements_from_game(store, GameId { id: game_id }) {
        Ok(v) => v,
        Err(e) => { return Err(e); },
    };
    let ghost oms = game_moves(store@, gid);
    let n = origin.len();
    let mut out: Vec<Vec<(Move, Game)>> = Vec::new();
    proof {
        assert(crate::store::game_wf(store@, gid));
    }
    let mut k: usize = 0;
    while k < n
        invariant
            k <= n,
            n == oms.len(),
            origin@.map_values(|m: Move| m@) == oms,
            origin@.len() == n,
            store_inv(store@),
            crate::store::game_wf(store@, gid),
            out@.len() == k,
            forall|j: int| 0 <= j < k ==> #[trigger] pairs_view(out@[j]@) == related_spec(
                store@,
                gid,
                threshold as int,
            )[j],
        decreases n - k,
    {
        proof {
            assert(oms[k as int].game_round == k + 1);
        }
        let round: i32 = origin[k].game_round;
        if round <= threshold {
            out.push(Vec::new());
            proof {
                assert(pairs_view(out@[k as int]@) =~= related_spec(
                    store@,
                    gid,
                    threshold as int,
                )[k as int]);
            }
        } else {
            let fp = origin[k].board;
            proof {
                assert(fp == oms[k as int].board);
            }
            let mn = store.move_count();
            let mut col: Vec<(Move, Game)> = Vec::new();
            proof {
                assert(store@.moves.take(0) =~= Seq::<MoveV>::empty());
                assert(pairs_view(col@) =~= with_games(
                    store@,
                    store@.moves.take(0).filter(
                        |m: MoveV| m.board == fp && m.game_id != gid,
                    ),
                ));
            }
            let mut i: usize = 0;
            while i < mn
                invariant
                    i <= mn,
                    mn == store@.moves.len(),
                    store_inv(store@),
                    fp == oms[k as int].board,
                    pairs_view(col@) == with_games(
                        store@,
                        store@.moves.take(i as int).filter(
                            |m: MoveV| m.board == fp && m.game_id != gid,
                        ),
                    ),
                    gid == game_id as int,
                decreases mn - i,
            {
                let m = store.move_at(i);
                proof {
                    assert(store@.moves.take(i + 1).drop_last() =~= store@.moves.take(i as int));
                    assert(store@.moves.take(i + 1).last() == store@.moves[i as int]);
                    reveal(Seq::filter);
                }
                let ghost col0 = col@;
                let ghost f0 = store@.moves.take(i as int).filter(
                    |m: MoveV| m.board == fp && m.game_id != gid,
                );
                if m.board == fp && m.game_id.id != game_id {
                    let gi = (m.game_id.id - 1) as usize;
                    let g = store.game_at(gi);
                    col.push((m.duplicate(), g.duplicate()));
                }
                proof {
                    let pv = pairs_view(col@);
                    let f1 = store@.moves.take(i + 1).filter(
                        |m: MoveV| m.board == fp && m.game_id != gid,
                    );
                    let wg = with_games(store@, f1);
                    assert(pv.len() == wg.len());
                    assert forall|jj: int| 0 <= jj < pv.len() implies #[trigger] pv[jj]
                        == wg[jj] by {
                        if jj < col0.len() {
                            assert(col@[jj] == col0[jj]);
                            assert(pv[jj] == pairs_view(col0)[jj]);
                            assert(f1[jj] == f0[jj]);
                            assert(wg[jj] == with_games(store@, f0)[jj]);
                            assert(pairs_view(col0)[jj] == with_games(store@, f0)[jj]);
                        } else {
                            assert(f1 == f0.push(m@));
                            assert(f1[jj] == m@);
                        }
                    }
                    assert(pv =~~= wg);
                }
                i += 1;
            }
            proof {
                assert(store@.moves.take(mn as int) =~= store@.moves);
            }
            out.push(col);
            proof {
                assert(pairs_view(out@[k as int]@) == with_games(
                    store@,
                    transposed_moves(store@, fp, gid),
                ));
                assert(pairs_view(out@[k as int]@) =~~= related_spec(
                    store@,
                    gid,
                    threshold as int,
                )[k as int]);
            }
        }
        proof {
            assert(forall|j: int|
                0 <= j < k ==> #[trigger] pairs_view(out@[j]@) == related_spec(
                    store@,
                    gid,
                    threshold as int,
                )[j]);
        }
        k += 1;
    }
    proof {
        assert(out@.map_values(|col: Vec<(Move, Game)>| pairs_view(col@)) =~~= related_spec(
            store@,
            gid,
            threshold as int,
        ));
    }
    Ok(out)
}

/// Transposition symmetry: when ply `i + 1` of game `ga` and ply `j + 1` of
/// a different game `gb` share a fingerprint, and that ply lies above the
/// exclusion threshold, the transposition results of `ga` at that ply
/// contain `gb`'s matching move with `gb`'s game row.
pub proof fn lemma_transposition_symmetry(
    s: StoreV,
    ga: int,
    gb: int,
    i: int,
    j: int,
    threshold: int,
)
    requires
        store_inv(s),
        1 <= ga <= s.games.len(),
        1 <= gb <= s.games.len(),
        ga != gb,
        0 <= i < game_moves(s, ga).len(),
        0 <= j < game_moves(s, gb).len(),
        game_moves(s, ga)[i].board == game_moves(s, gb)[j].board,
        threshold < i + 1,
    ensures
        related_spec(s, ga, threshold)[i].contains(
            PairV { mv: game_moves(s, gb)[j], game: s.games[gb - 1] },
        ),
{
    let fp = game_moves(s, ga)[i].board;
    let mb = game_moves(s, gb)[j];
    assert(game_moves(s, gb).contains(mb));
    lemma_filter_elem(s.moves, |m: MoveV| m.game_id == gb, mb);
    assert(mb.game_id == gb);
    assert(mb.board == fp);
    let idx = choose|idx: int| 0 <= idx < s.moves.len() && s.moves[idx] == mb;
    Seq::lemma_filter_contains(s.moves, |m: MoveV| m.board == fp && m.game_id != ga, idx);
    let ts = transposed_moves(s, fp, ga);
    assert(ts.contains(mb));
    let k2 = choose|k2: int| 0 <= k2 < ts.len() && ts[k2] == mb;
    assert(with_games(s, ts)[k2] == (PairV { mv: mb, game: s.games[gb - 1] }));
    assert(related_spec(s, ga, threshold)[i] == with_games(s, ts));
    assert(with_games(s, ts).contains(PairV { mv: mb, game: s.games[gb - 1] }));
}

} // verus!
