//! The position index and game store: players, games, and per-ply move rows
//! carrying position fingerprints, with the transactional ingestion pipeline
//! that fills it.
//!
//! The store's invariant is the heart of the design: player names are unique,
//! game ids are dense and sequential, and every game's move rows, replayed in
//! ply order from the initial position, are legal and carry exactly the
//! fingerprints of the positions they reach.

use vstd::prelude::*;
use vstd::seq_lib::*;

use crate::board::{
    legal_hist, position_fingerprint, san_legal, Board,
};
use crate::record::{
    InsErrV, InsertionError, ParsedChessGame, ParsedGameV, Timestamp, SAN,
};

verus! {

/// The store-assigned surrogate id of a game: dense, starting at 1.
#[derive(Clone, Copy, Debug, PartialEq, Eq, Structural, Hash)]
pub struct GameId {
    pub id: i32,
}

/// One stored game row.
#[derive(Clone, Debug)]
pub struct Game {
    pub id: GameId,
    pub event: String,
    pub datetime: Timestamp,
    pub white: String,
    pub black: String,
    pub white_elo: Option<i32>,
    pub black_elo: Option<i32>,
}

/// The mathematical value of a game row.
#[verifier::ext_equal]
pub ghost struct GameV {
    pub id: int,
    pub event: Seq<char>,
    pub datetime: Timestamp,
    pub white: Seq<char>,
    pub black: Seq<char>,
    pub white_elo: Option<i32>,
    pub black_elo: Option<i32>,
}

impl View for Game {
    type V = GameV;

    open spec fn view(&self) -> GameV {
        GameV {
            id: self.id.id as int,
            event: self.event@,
            datetime: self.datetime,
            white: self.white@,
            black: self.black@,
            white_elo: self.white_elo,
            black_elo: self.black_elo,
        }
    }
}

impl Game {
    /// A copy denoting the same row.
    pub fn duplicate(&self) -> (g: Game)
        ensures
            g@ == self@,
    {
        let g = Game {
            id: self.id,
            event: self.event.clone(),
            datetime: self.datetime,
            white: self.white.clone(),
            black: self.black.clone(),
            white_elo: self.white_elo,
            black_elo: self.black_elo,
        };
        proof {
            assert(g@ =~= self@);
        }
        g
    }
}

/// One stored move row: the ply number within its game, the move's notation,
/// and the fingerprint of the position after the move.
#[derive(Clone, Debug)]
pub struct Move {
    pub board: u64,
    pub san_plus: SAN,
    pub game_id: GameId,
    pub game_round: i32,
}

/// The mathematical value of a move row.
#[verifier::ext_equal]
pub ghost struct MoveV {
    pub board: u64,
    pub san: Seq<char>,
    pub game_id: int,
    pub game_round: int,
}

impl View for Move {
    type V = MoveV;

    open spec fn view(&self) -> MoveV {
        MoveV {
            board: self.board,
            san: self.san_plus@,
            game_id: self.game_id.id as int,
            game_round: self.game_round as int,
        }
    }
}

impl Move {
    /// A copy denoting the same row.
    pub fn duplicate(&self) -> (m: Move)
        ensures
            m@ == self@,
    {
        let m = Move {
            board: self.board,
            san_plus: self.san_plus.duplicate(),
            game_id: self.game_id,
            game_round: self.game_round,
        };
        proof {
            assert(m@ =~= self@);
        }
        m
    }
}

/// The mathematical contents of the store.
#[verifier::ext_equal]
pub ghost struct StoreV {
    pub players: Seq<Seq<char>>,
    pub games: Seq<GameV>,
    pub moves: Seq<MoveV>,
}

/// The move rows of game `gid`, in storage order.
pub open spec fn game_moves(s: StoreV, gid: int) -> Seq<MoveV> {
    s.moves.filter(|m: MoveV| m.game_id == gid)
}

/// The notation strings of a move-row list, in order.
pub open spec fn sans_of(ms: Seq<MoveV>) -> Seq<Seq<char>> {
    ms.map_values(|m: MoveV| m.san)
}

/// The notation strings of game `gid`, in ply order.
pub open spec fn game_sans(s: StoreV, gid: int) -> Seq<Seq<char>> {
    sans_of(game_moves(s, gid))
}

/// A move-row list is a faithful replay record: contiguous plies starting at
/// 1, legal in replay order, each row carrying the fingerprint of the
/// position after its move.
pub open spec fn replay_wf(ms: Seq<MoveV>) -> bool {
    &&& forall|k: int| 0 <= k < ms.len() ==> (#[trigger] ms[k]).game_round == k + 1
    &&& legal_hist(sans_of(ms))
    &&& forall|k: int|
        0 <= k < ms.len() ==> (#[trigger] ms[k]).board == position_fingerprint(
            sans_of(ms).take(k + 1),
        )
}

/// No two entries of `ps` are equal.
pub open spec fn unique_names(ps: Seq<Seq<char>>) -> bool {
    forall|i: int, j: int| 0 <= i < j < ps.len() ==> ps[i] != ps[j]
}

/// The rows of game `gid` are contiguous plies starting at 1, their moves are
/// legal in replay order, and each row carries the fingerprint of the
/// position after its move.
pub open spec fn game_wf(s: StoreV, gid: int) -> bool {
    replay_wf(game_moves(s, gid))
}

/// The store's invariant.
pub open spec fn store_inv(s: StoreV) -> bool {
    &&& unique_names(s.players)
    &&& forall|i: int| 0 <= i < s.games.len() ==> (#[trigger] s.games[i]).id == i + 1
    &&& forall|i: int|
        0 <= i < s.moves.len() ==> 1 <= (#[trigger] s.moves[i]).game_id <= s.games.len()
    &&& forall|g: int| 1 <= g <= s.games.len() ==> #[trigger] game_wf(s, g)
}

/// What upserting one player name does to the player table.
pub open spec fn upsert_player_spec(ps: Seq<Seq<char>>, n: Seq<char>) -> Seq<Seq<char>> {
    if ps.contains(n) {
        ps
    } else {
        ps.push(n)
    }
}

/// The game row that ingesting `g` into `s` creates.
pub open spec fn new_game_row(s: StoreV, g: ParsedGameV) -> GameV {
    GameV {
        id: s.games.len() as int + 1,
        event: g.event,
        datetime: Timestamp { date: g.date, time: g.time },
        white: g.white,
        black: g.black,
        white_elo: g.white_elo,
        black_elo: g.black_elo,
    }
}

/// The move rows that the legal notation sequence `sans` yields for game
/// `gid`: ply `k + 1` carries the fingerprint after `sans[0..=k]`.
pub open spec fn move_rows_for(sans: Seq<Seq<char>>, gid: int) -> Seq<MoveV> {
    Seq::new(
        sans.len(),
        |k: int| MoveV {
            board: position_fingerprint(sans.take(k + 1)),
            san: sans[k],
            game_id: gid,
            game_round: k + 1,
        },
    )
}

/// What committing one whole validated game does to the store: both players
/// upserted, one game row appended, and its move rows appended.
pub open spec fn ingest_spec(s: StoreV, g: ParsedGameV) -> StoreV {
    StoreV {
        players: upsert_player_spec(upsert_player_spec(s.players, g.white), g.black),
        games: s.games.push(new_game_row(s, g)),
        moves: s.moves + move_rows_for(g.moves, s.games.len() as int + 1),
    }
}

/// `i` is the first position of `ms` holding a move that is not legal after
/// its predecessors.
pub open spec fn first_illegal_at(ms: Seq<Seq<char>>, i: int) -> bool {
    &&& 0 <= i < ms.len()
    &&& legal_hist(ms.take(i))
    &&& !san_legal(ms.take(i), ms[i])
}

/// Filtering keeps nothing when nothing satisfies the predicate.
pub proof fn lemma_filter_none<A>(s: Seq<A>, pred: spec_fn(A) -> bool)
    requires
        forall|i: int| 0 <= i < s.len() ==> !pred(#[trigger] s[i]),
    ensures
        s.filter(pred) == Seq::<A>::empty(),
    decreases s.len(),
{
    reveal(Seq::filter);
    if s.len() > 0 {
        assert(forall|i: int| 0 <= i < s.len() - 1 ==> s.drop_last()[i] == #[trigger] s[i]);
        lemma_filter_none(s.drop_last(), pred);
    }
}

/// Filtering keeps everything when everything satisfies the predicate.
pub proof fn lemma_filter_all<A>(s: Seq<A>, pred: spec_fn(A) -> bool)
    requires
        forall|i: int| 0 <= i < s.len() ==> pred(#[trigger] s[i]),
    ensures
        s.filter(pred) == s,
    decreases s.len(),
{
    reveal(Seq::filter);
    if s.len() > 0 {
        assert(forall|i: int| 0 <= i < s.len() - 1 ==> s.drop_last()[i] == #[trigger] s[i]);
        lemma_filter_all(s.drop_last(), pred);
        assert(s.filter(pred) =~= s);
    }
}

/// An element of a filtered sequence is an element of the original.
pub proof fn lemma_filter_elem<A>(s: Seq<A>, pred: spec_fn(A) -> bool, x: A)
    requires
        s.filter(pred).contains(x),
    ensures
        s.contains(x),
        pred(x),
    decreases s.len(),
{
    reveal(Seq::filter);
    if s.len() > 0 {
        if pred(s.last()) && x == s.last() {
        } else {
            lemma_filter_elem(s.drop_last(), pred, x);
            let i = choose|i: int| 0 <= i < s.drop_last().len() && s.drop_last()[i] == x;
            assert(s[i] == x);
        }
    }
}

/// The persistent store, held in memory: the logical schema of the position
/// index.
pub struct Store {
    players: Vec<String>,
    games: Vec<Game>,
    moves: Vec<Move>,
}

impl View for Store {
    type V = StoreV;

    closed spec fn view(&self) -> StoreV {
        StoreV {
            players: self.players@.map_values(|p: String| p@),
            games: self.games@.map_values(|g: Game| g@),
            moves: self.moves@.map_values(|m: Move| m@),
        }
    }
}

impl Store {
    #[verifier::type_invariant]
    spec fn wf(self) -> bool {
        store_inv(self@)
    }

    /// Makes the store's invariant available to callers.
    pub fn observe_invariant(&self)
        ensures
            store_inv(self@),
    {
        proof {
            use_type_invariant(self);
        }
    }

    /// An empty store.
    pub fn new() -> (s: Store)
        ensures
            s@ == (StoreV {
                players: Seq::<Seq<char>>::empty(),
                games: Seq::<GameV>::empty(),
                moves: Seq::<MoveV>::empty(),
            }),
    {
        let s = Store { players: Vec::new(), games: Vec::new(), moves: Vec::new() };
        proof {
            assert(s@ =~= (StoreV {
                players: Seq::<Seq<char>>::empty(),
                games: Seq::<GameV>::empty(),
                moves: Seq::<MoveV>::empty(),
            }));
            assert(game_moves(s@, 0) =~= Seq::<MoveV>::empty());
        }
        s
    }

    /// The number of game rows.
    pub fn game_count(&self) -> (n: usize)
        ensures
            n == self@.games.len(),
    {
        self.games.len()
    }

    /// The number of move rows.
    pub fn move_count(&self) -> (n: usize)
        ensures
            n == self@.moves.len(),
    {
        self.moves.len()
    }

    /// The game row at storage position `i`.
    pub fn game_at(&self, i: usize) -> (g: &Game)
        requires
            i < self@.games.len(),
        ensures
            g@ == self@.games[i as int],
    {
        &self.games[i]
    }

    /// The move row at storage position `i`.
    pub fn move_at(&self, i: usize) -> (m: &Move)
        requires
            i < self@.moves.len(),
        ensures
            m@ == self@.moves[i as int],
    {
        &self.moves[i]
    }

    /// The index of `name` in the player table, when it is there.
    fn player_index(&self, name: &str) -> (r: Option<usize>)
        ensures
            match r {
                Some(i) => i < self@.players.len() && self@.players[i as int] == name@,
                None => !self@.players.contains(name@),
            },
    {
        let n = self.players.len();
        let mut i: usize = 0;
        while i < n
            invariant
                i <= n,
                n == self@.players.len(),
                n == self.players@.len(),
                forall|j: int| 0 <= j < i ==> self@.players[j] != name@,
            decreases n - i,
        {
            if crate::text::str_eq(self.players[i].as_str(), name) {
                return Some(i);
            }
            i += 1;
        }
        None
    }

    /// The view that the three row vectors would make.
    spec fn vecs_view(players: Vec<String>, games: Vec<Game>, moves: Vec<Move>) -> StoreV {
        StoreV {
            players: players@.map_values(|p: String| p@),
            games: games@.map_values(|g: Game| g@),
            moves: moves@.map_values(|m: Move| m@),
        }
    }

    /// Ensures a player row for `name` exists; never duplicates and never
    /// overwrites one that does.
    pub fn upsert_player(&mut self, name: &str)
        ensures
            final(self)@ == (StoreV {
                players: upsert_player_spec(old(self)@.players, name@),
                ..old(self)@
            }),
    {
        proof {
            use_type_invariant(&*self);
        }
        let ghost s0 = self@;
        match self.player_index(name) {
            Some(_) => {
                proof {
                    assert(self@ =~= (StoreV {
                        players: upsert_player_spec(s0.players, name@),
                        ..s0
                    }));
                }
            },
            None => {
                let mut tmp = Store::new();
                core::mem::swap(self, &mut tmp);
                let Store { mut players, games, moves } = tmp;
                players.push(name.to_owned());
                proof {
                    let nv = Self::vecs_view(players, games, moves);
                    assert(nv.players =~= s0.players.push(name@));
                    assert(nv.games =~= s0.games);
                    assert(nv.moves =~= s0.moves);
                    assert(unique_names(nv.players)) by {
                        assert(forall|k: int|
                            0 <= k < s0.players.len() ==> #[trigger] s0.players[k] != name@);
                    }
                    assert forall|g: int| 1 <= g <= nv.games.len() implies #[trigger] game_wf(
                        nv,
                        g,
                    ) by {
                        assert(game_wf(s0, g));
                    }
                    assert(store_inv(nv));
                }
                let new_store = Store { players, games, moves };
                *self = new_store;
                proof {
                    assert(self@ =~= (StoreV {
                        players: upsert_player_spec(s0.players, name@),
                        ..s0
                    }));
                }
            },
        }
    }

    /// Appends one game row and returns its freshly assigned id.
    pub fn insert_game(
        &mut self,
        event: String,
        datetime: Timestamp,
        white: String,
        black: String,
        white_elo: Option<i32>,
        black_elo: Option<i32>,
    ) -> (gid: GameId)
        requires
            old(self)@.games.len() < 0x7fff_ffff,
        ensures
            gid.id as int == old(self)@.games.len() + 1,
            final(self)@ == (StoreV {
                games: old(self)@.games.push(GameV {
                    id: old(self)@.games.len() as int + 1,
                    event: event@,
                    datetime,
                    white: white@,
                    black: black@,
                    white_elo,
                    black_elo,
                }),
                ..old(self)@
            }),
    {
        proof {
            use_type_invariant(&*self);
        }
        let ghost s0 = self@;
        proof {
            assert(self.games@.len() == s0.games.len());
        }
        let id_num: i32 = (self.games.len() as i32) + 1;
        let mut tmp = Store::new();
        core::mem::swap(self, &mut tmp);
        let Store { players, mut games, moves } = tmp;
        games.push(Game {
            id: GameId { id: id_num },
            event,
            datetime,
            white,
            black,
            white_elo,
            black_elo,
        });
        proof {
            let ghost nv = Self::vecs_view(players, games, moves);
            let row = GameV {
                id: s0.games.len() as int + 1,
                event: event@,
                datetime,
                white: white@,
                black: black@,
                white_elo,
                black_elo,
            };
            assert(nv.games =~= s0.games.push(row));
            assert(nv.players =~= s0.players);
            assert(nv.moves =~= s0.moves);
            assert forall|g: int| 1 <= g <= nv.games.len() implies #[trigger] game_wf(nv, g) by {
                if g <= s0.games.len() {
                    assert(game_wf(s0, g));
                } else {
                    assert forall|i: int| 0 <= i < nv.moves.len() implies !(#[trigger] nv.moves[i].game_id
                        == g) by {
                        assert(s0.moves[i].game_id <= s0.games.len());
                    }
                    lemma_filter_none(nv.moves, |m: MoveV| m.game_id == g);
                    assert(game_moves(nv, g) =~= Seq::<MoveV>::empty());
                    assert(game_sans(nv, g) =~= Seq::<Seq<char>>::empty());
                }
            }
            assert(store_inv(nv));
        }
        let new_store = Store { players, games, moves };
        *self = new_store;
        proof {
            assert(self@ =~= (StoreV {
                games: s0.games.push(GameV {
                    id: s0.games.len() as int + 1,
                    event: event@,
                    datetime,
                    white: white@,
                    black: black@,
                    white_elo,
                    black_elo,
                }),
                ..s0
            }));
        }
        GameId { id: id_num }
    }

    /// Appends the move rows of one whole validated game.  The rows must be
    /// exactly the rows that the legal notation sequence `sans` yields for
    /// `gid`, and `gid`'s game must not have rows yet: a game's moves are
    /// written once, as one unit.
    pub fn insert_moves(&mut self, gid: GameId, rows: Vec<Move>, Ghost(sans): Ghost<Seq<Seq<char>>>)
        requires
            1 <= gid.id as int <= old(self)@.games.len(),
            game_moves(old(self)@, gid.id as int).len() == 0,
            legal_hist(sans),
            rows@.map_values(|m: Move| m@) == move_rows_for(sans, gid.id as int),
        ensures
            final(self)@ == (StoreV {
                moves: old(self)@.moves + move_rows_for(sans, gid.id as int),
                ..old(self)@
            }),
    {
        proof {
            use_type_invariant(&*self);
        }
        let ghost s0 = self@;
        let ghost g = gid.id as int;
        let ghost rs = move_rows_for(sans, g);
        let mut tmp = Store::new();
        core::mem::swap(self, &mut tmp);
        let Store { players, games, mut moves } = tmp;
        let mut rows = rows;
        moves.append(&mut rows);
        proof {
            let nv = Self::vecs_view(players, games, moves);
            assert(nv.moves =~= s0.moves + rs);
            assert(nv.players =~= s0.players);
            assert(nv.games =~= s0.games);
            assert forall|gg: int| 1 <= gg <= nv.games.len() implies #[trigger] game_wf(nv, gg) by {
                Seq::filter_distributes_over_add(s0.moves, rs, |m: MoveV| m.game_id == gg);
                if gg != g {
                    lemma_filter_none(rs, |m: MoveV| m.game_id == gg);
                    assert(game_moves(nv, gg) =~= game_moves(s0, gg));
                    assert(game_sans(nv, gg) =~= game_sans(s0, gg));
                    assert(game_wf(s0, gg));
                    assert forall|k: int| 0 <= k < game_moves(nv, gg).len() implies
                        (#[trigger] game_moves(nv, gg)[k]).board == position_fingerprint(
                        game_sans(nv, gg).take(k + 1)) by {
                        assert(game_moves(s0, gg)[k].board == position_fingerprint(
                            game_sans(s0, gg).take(k + 1)));
                        assert(game_sans(nv, gg).take(k + 1) =~= game_sans(s0, gg).take(k + 1));
                    }
                } else {
                    lemma_filter_all(rs, |m: MoveV| m.game_id == gg);
                    assert(game_moves(nv, gg) =~= rs);
                    assert(game_sans(nv, gg) =~= sans);
                    assert forall|k: int| 0 <= k < game_moves(nv, gg).len() implies
                        (#[trigger] game_moves(nv, gg)[k]).board == position_fingerprint(
                        game_sans(nv, gg).take(k + 1)) by {
                        assert(game_moves(nv, gg)[k] == rs[k]);
                        assert(game_sans(nv, gg).take(k + 1) =~= sans.take(k + 1));
                    }
                }
            }
            assert(store_inv(nv));
        }
        let new_store = Store { players, games, moves };
        *self = new_store;
        proof {
            assert(self@ =~= (StoreV { moves: s0.moves + rs, ..s0 }));
        }
    }
}

impl ParsedChessGame {
    /// Validates the game by replaying its moves from the initial position
    /// and, when every move is legal, commits it whole: both players
    /// upserted, one game row, and one move row per ply carrying the
    /// fingerprint of the position after that ply.  An illegal move rejects
    /// the game in full and leaves the store untouched.
    pub fn insert(self, store: &mut Store) -> (r: Result<GameId, InsertionError>)
        requires
            old(store)@.games.len() < 0x7fff_ffff,
            self@.moves.len() < 0x8000_0000,
        ensures
            r is Ok <==> legal_hist(self@.moves),
            r is Ok ==> final(store)@ == ingest_spec(old(store)@, self@) && (r->Ok_0).id as int
                == old(store)@.games.len() + 1,
            r is Err ==> final(store)@ == old(store)@ && exists|i: int|
                #[trigger] first_illegal_at(self@.moves, i) && r->Err_0@ == InsErrV::IlegalMove(
                self@.moves[i]),
    {
        proof {
            use_type_invariant(&*store);
        }
        let ghost gv = self@;
        let ghost sans = gv.moves;
        let ghost s0 = store@;
        let n = self.moves.len();
        let mut board = Board::new();
        let mut fps: Vec<u64> = Vec::new();
        proof {
            assert(sans.take(0) =~= Seq::<Seq<char>>::empty());
        }
        let mut idx: usize = 0;
        while idx < n
            invariant
                idx <= n,
                n == self.moves.len(),
                sans == self@.moves,
                sans.len() == n,
                board.history() == sans.take(idx as int),
                legal_hist(board.history()),
                fps@.len() == idx,
                forall|k: int| 0 <= k < idx ==> fps@[k] == position_fingerprint(sans.take(k + 1)),
            decreases n - idx,
        {
            let ok = board.try_play(self.moves[idx].0.as_str());
            if !ok {
                proof {
                    assert(first_illegal_at(sans, idx as int));
                    if legal_hist(sans) {
                        crate::board::lemma_legal_hist_each(sans, idx as int);
                    }
                }
                return Err(InsertionError::IlegalMove(self.moves[idx].duplicate()));
            }
            fps.push(board.fingerprint());
            proof {
                assert(sans.take(idx + 1).drop_last() =~= sans.take(idx as int));
                assert(sans.take(idx + 1).last() == sans[idx as int]);
            }
            idx += 1;
        }
        proof {
            assert(sans.take(n as int) =~= sans);
        }
        // Every move is legal: commit the game as one unit.
        store.upsert_player(self.white.as_str());
        store.upsert_player(self.black.as_str());
        let gid = store.insert_game(
            self.event,
            Timestamp { date: self.date, time: self.time },
            self.white,
            self.black,
            self.white_elo,
            self.black_elo,
        );
        let ghost rs = move_rows_for(sans, gid.id as int);
        let mut rows: Vec<Move> = Vec::new();
        let mut k: usize = 0;
        while k < n
            invariant
                k <= n,
                n == self.moves.len(),
                sans == self@.moves,
                sans.len() == n,
                n < 0x8000_0000,
                rs == move_rows_for(sans, gid.id as int),
                fps@.len() == n,
                forall|j: int| 0 <= j < n ==> fps@[j] == position_fingerprint(sans.take(j + 1)),
                rows@.map_values(|m: Move| m@) == rs.take(k as int),
            decreases n - k,
        {
            rows.push(Move {
                board: fps[k],
                san_plus: self.moves[k].duplicate(),
                game_id: gid,
                game_round: (k as i32) + 1,
            });
            proof {
                let mv = rows@.map_values(|m: Move| m@);
                assert(mv.len() == rows@.len());
                assert(rs.take(k as int).len() == k);
                assert(rows@.len() == k + 1);
                assert(mv.len() == k + 1);
                assert(rs.take(k + 1).len() == k + 1);
                assert(mv[k as int].board == rs[k as int].board);
                assert(mv[k as int].san == rs[k as int].san);
                assert(mv[k as int].game_id == rs[k as int].game_id);
                assert(mv[k as int].game_round == rs[k as int].game_round);
                assert(forall|i: int| 0 <= i < k ==> mv[i] == rs.take(k as int)[i]);
                assert(rows@.map_values(|m: Move| m@) =~~= rs.take(k + 1));
            }
            k += 1;
        }
        proof {
            assert(rs.take(n as int) =~= rs);
            assert forall|i: int| 0 <= i < store@.moves.len() implies !(#[trigger] store@.moves[i].game_id
                == gid.id as int) by {
                assert(s0.moves[i].game_id <= s0.games.len());
            }
            lemma_filter_none(store@.moves, |m: MoveV| m.game_id == gid.id as int);
            assert(game_moves(store@, gid.id as int) =~= Seq::<MoveV>::empty());
        }
        store.insert_moves(gid, rows, Ghost(sans));
        proof {
            assert(store@ =~= ingest_spec(s0, gv)) by {
                assert(store@.players =~= ingest_spec(s0, gv).players);
                assert(store@.games =~= ingest_spec(s0, gv).games) by {
                    assert(new_game_row(s0, gv) =~= GameV {
                        id: s0.games.len() as int + 1,
                        event: gv.event,
                        datetime: Timestamp { date: gv.date, time: gv.time },
                        white: gv.white,
                        black: gv.black,
                        white_elo: gv.white_elo,
                        black_elo: gv.black_elo,
                    });
                }
                assert(store@.moves =~= ingest_spec(s0, gv).moves);
            }
        }
        Ok(gid)
    }
}

/// The first position at which a notation sequence goes illegal.
pub open spec fn first_illegal_index(ms: Seq<Seq<char>>) -> int {
    choose|i: int| first_illegal_at(ms, i)
}

/// A notation sequence has at most one first illegal position.
pub proof fn lemma_first_illegal_unique(ms: Seq<Seq<char>>, i: int, j: int)
    requires
        first_illegal_at(ms, i),
        first_illegal_at(ms, j),
    ensures
        i == j,
{
    if i < j {
        crate::board::lemma_legal_hist_each(ms.take(j), i);
        assert(ms.take(j).take(i) =~= ms.take(i));
        assert(ms.take(j)[i] == ms[i]);
    } else if j < i {
        crate::board::lemma_legal_hist_each(ms.take(i), j);
        assert(ms.take(i).take(j) =~= ms.take(j));
        assert(ms.take(i)[j] == ms[j]);
    }
}

/// The failure, if any, that ingesting one parse outcome reports: a parse
/// error is passed through, an illegal game names its first illegal move.
pub open spec fn game_failure(g: Result<ParsedGameV, InsErrV>) -> Option<InsErrV> {
    match g {
        Ok(gv) => if legal_hist(gv.moves) {
            None
        } else {
            Some(InsErrV::IlegalMove(gv.moves[first_illegal_index(gv.moves)]))
        },
        Err(e) => Some(e),
    }
}

/// What one parse outcome does to the store: a legal game is committed
/// whole, anything else leaves the store as it was.
pub open spec fn batch_step(s: StoreV, g: Result<ParsedGameV, InsErrV>) -> StoreV {
    match g {
        Ok(gv) => if legal_hist(gv.moves) {
            ingest_spec(s, gv)
        } else {
            s
        },
        Err(_) => s,
    }
}

/// The store after ingesting a whole batch, first outcome first.
pub open spec fn batch_store_spec(s: StoreV, gs: Seq<Result<ParsedGameV, InsErrV>>) -> StoreV
    decreases gs.len(),
{
    if gs.len() == 0 {
        s
    } else {
        batch_store_spec(batch_step(s, gs[0]), gs.drop_first())
    }
}

/// The failures a batch reports, each with the index of its game, starting
/// the count at `idx`.
pub open spec fn batch_failures_spec(gs: Seq<Result<ParsedGameV, InsErrV>>, idx: int) -> Seq<
    (int, InsErrV),
>
    decreases gs.len(),
{
    if gs.len() == 0 {
        Seq::empty()
    } else {
        match game_failure(gs[0]) {
            Some(e) => seq![(idx, e)] + batch_failures_spec(gs.drop_first(), idx + 1),
            None => batch_failures_spec(gs.drop_first(), idx + 1),
        }
    }
}

/// The mathematical value of a batch's inputs.
pub open spec fn inputs_spec(gs: Seq<Result<ParsedChessGame, InsertionError>>) -> Seq<
    Result<ParsedGameV, InsErrV>,
> {
    gs.map_values(
        |g: Result<ParsedChessGame, InsertionError>|
            match g {
                Ok(p) => Ok(p@),
                Err(e) => Err(e@),
            },
    )
}

/// The outcome of one batch ingestion run: how many games were committed,
/// and each failed game's index with its cause.
#[derive(Debug)]
pub struct IngestReport {
    pub committed: usize,
    pub failures: Vec<(usize, InsertionError)>,
}

/// Ingests a whole batch of parse outcomes, one game at a time: each legal
/// game is committed whole, each failure is recorded with its index and
/// cause, and a failure never stops the rest of the batch.
pub fn insert_games(store: &mut Store, games: Vec<Result<ParsedChessGame, InsertionError>>) -> (r:
    IngestReport)
    requires
        old(store)@.games.len() + games@.len() < 0x7fff_ffff,
        forall|i: int|
            0 <= i < games@.len() ==> match #[trigger] games@[i] {
                Ok(g) => g@.moves.len() < 0x8000_0000,
                Err(_) => true,
            },
    ensures
        final(store)@ == batch_store_spec(old(store)@, inputs_spec(games@)),
        r.failures@.map_values(|p: (usize, InsertionError)| (p.0 as int, p.1@))
            == batch_failures_spec(inputs_spec(games@), 0),
        r.committed + r.failures@.len() == games@.len(),
{
    let ghost inputs = inputs_spec(games@);
    let ghost s_init = store@;
    let mut games = games;
    let total = games.len();
    let mut committed: usize = 0;
    let mut failures: Vec<(usize, InsertionError)> = Vec::new();
    let mut done: usize = 0;
    proof {
        assert(inputs.skip(0) =~= inputs);
    }
    while done < total
        invariant
            done <= total,
            total == inputs.len(),
            games@.len() == total - done,
            inputs_spec(games@) == inputs.skip(done as int),
            batch_store_spec(s_init, inputs) == batch_store_spec(store@, inputs.skip(done as int)),
            store@.games.len() + (total - done) < 0x7fff_ffff,
            batch_failures_spec(inputs, 0) == failures@.map_values(
                |p: (usize, InsertionError)| (p.0 as int, p.1@),
            ) + batch_failures_spec(inputs.skip(done as int), done as int),
            committed + failures@.len() == done,
            forall|i: int|
                0 <= i < inputs.len() ==> match #[trigger] inputs[i] {
                    Ok(g) => g.moves.len() < 0x8000_0000,
                    Err(_) => true,
                },
        decreases total - done,
    {
        let ghost rem = inputs.skip(done as int);
        let ghost fail_prefix = failures@.map_values(
            |p: (usize, InsertionError)| (p.0 as int, p.1@),
        );
        proof {
            assert(rem.len() > 0);
            assert(rem[0] == inputs[done as int]);
            assert(rem.drop_first() =~= inputs.skip(done + 1));
            assert(inputs_spec(games@)[0] == rem[0]);
        }
        let g = games.remove(0);
        proof {
            assert(inputs_spec(games@) =~= inputs.skip(done + 1)) by {
                assert forall|i: int| 0 <= i < games@.len() implies inputs_spec(games@)[i]
                    == inputs.skip(done + 1)[i] by {
                    assert(inputs.skip(done + 1)[i] == rem.drop_first()[i]);
                }
            }
        }
        let ghost store_before = store@;
        match g {
            Ok(pg) => {
                proof {
                    assert(inputs[done as int] == Ok::<ParsedGameV, InsErrV>(pg@));
                }
                match pg.insert(store) {
                    Ok(_) => {
                        committed += 1;
                        proof {
                            assert(batch_step(store_before, inputs[done as int]) == store@);
                            assert(game_failure(inputs[done as int]) is None);
                        }
                    },
                    Err(e) => {
                        failures.push((done, e));
                        proof {
                            assert(batch_step(store_before, inputs[done as int]) == store@);
                            let ms = pg@.moves;
                            let i = choose|i: int|
                                #[trigger] first_illegal_at(ms, i) && e@ == InsErrV::IlegalMove(
                                    ms[i],
                                );
                            lemma_first_illegal_unique(ms, i, first_illegal_index(ms));
                            assert(game_failure(inputs[done as int])
                                == Some(InsErrV::IlegalMove(ms[first_illegal_index(ms)])));
                            assert(failures@.map_values(
                                |p: (usize, InsertionError)| (p.0 as int, p.1@),
                            ) =~= fail_prefix + seq![(done as int, e@)]);
                            assert(fail_prefix + (seq![(done as int, e@)]
                                + batch_failures_spec(inputs.skip(done + 1), done + 1))
                                =~= (fail_prefix + seq![(done as int, e@)])
                                + batch_failures_spec(inputs.skip(done + 1), done + 1));
                        }
                    },
                }
            },
            Err(e) => {
                failures.push((done, e));
                proof {
                    assert(inputs[done as int] == Err::<ParsedGameV, InsErrV>(e@));
                    assert(batch_step(store_before, inputs[done as int]) == store@);
                    assert(game_failure(inputs[done as int]) == Some(e@));
                    assert(failures@.map_values(
                        |p: (usize, InsertionError)| (p.0 as int, p.1@),
                    ) =~= fail_prefix + seq![(done as int, e@)]);
                    assert(fail_prefix + (seq![(done as int, e@)]
                        + batch_failures_spec(inputs.skip(done + 1), done + 1))
                        =~= (fail_prefix + seq![(done as int, e@)])
                        + batch_failures_spec(inputs.skip(done + 1), done + 1));
                }
            },
        }
        done += 1;
    }
    proof {
        assert(inputs.skip(total as int) =~= Seq::<Result<ParsedGameV, InsErrV>>::empty());
        assert(batch_failures_spec(inputs, 0) =~= failures@.map_values(
            |p: (usize, InsertionError)| (p.0 as int, p.1@),
        ));
    }
    IngestReport { committed, failures }
}

/// The number of player rows holding the name `n`.
pub open spec fn player_count(ps: Seq<Seq<char>>, n: Seq<char>) -> int
    decreases ps.len(),
{
    if ps.len() == 0 {
        0
    } else {
        player_count(ps.drop_last(), n) + if ps.last() == n {
            1int
        } else {
            0int
        }
    }
}

/// A name held by no row counts zero.
proof fn lemma_count_zero(ps: Seq<Seq<char>>, n: Seq<char>)
    requires
        forall|i: int| 0 <= i < ps.len() ==> #[trigger] ps[i] != n,
    ensures
        player_count(ps, n) == 0,
    decreases ps.len(),
{
    if ps.len() > 0 {
        assert(forall|i: int| 0 <= i < ps.len() - 1 ==> ps.drop_last()[i] == #[trigger] ps[i]);
        lemma_count_zero(ps.drop_last(), n);
    }
}

/// A name held by some row of a duplicate-free player table is held by
/// exactly one row.
proof fn lemma_unique_contains_count(ps: Seq<Seq<char>>, n: Seq<char>)
    requires
        unique_names(ps),
        ps.contains(n),
    ensures
        player_count(ps, n) == 1,
    decreases ps.len(),
{
    if ps.last() == n {
        assert forall|i: int| 0 <= i < ps.drop_last().len() implies #[trigger] ps.drop_last()[i]
            != n by {
            assert(ps[i] == ps.drop_last()[i]);
            assert(ps[i] != ps[ps.len() - 1]);
        }
        lemma_count_zero(ps.drop_last(), n);
    } else {
        let i = choose|i: int| 0 <= i < ps.len() && ps[i] == n;
        assert(ps.drop_last()[i] == n);
        assert(ps.drop_last().contains(n));
        assert(unique_names(ps.drop_last())) by {
            assert(forall|a: int, b: int|
                0 <= a < b < ps.len() - 1 ==> ps.drop_last()[a] == ps[a] && ps.drop_last()[b]
                    == ps[b]);
        }
        lemma_unique_contains_count(ps.drop_last(), n);
    }
}

/// What one upsert does to membership and uniqueness of the player table.
proof fn lemma_upsert_props(ps: Seq<Seq<char>>, m: Seq<char>)
    requires
        unique_names(ps),
    ensures
        unique_names(upsert_player_spec(ps, m)),
        upsert_player_spec(ps, m).contains(m),
        forall|x: Seq<char>|
            #[trigger] upsert_player_spec(ps, m).contains(x) <==> (ps.contains(x) || x == m),
{
    let up = upsert_player_spec(ps, m);
    if ps.contains(m) {
        assert(up == ps);
    } else {
        assert(forall|k: int| 0 <= k < ps.len() ==> #[trigger] ps[k] != m);
        assert(up[ps.len() as int] == m);
        assert(up.contains(m));
        assert forall|x: Seq<char>| #[trigger] up.contains(x) implies (ps.contains(x) || x == m) by {
            let i = choose|i: int| 0 <= i < up.len() && up[i] == x;
            if i < ps.len() {
                assert(ps[i] == x);
            }
        }
        assert forall|x: Seq<char>| (ps.contains(x) || x == m) implies #[trigger] up.contains(
            x,
        ) by {
            if ps.contains(x) {
                let i = choose|i: int| 0 <= i < ps.len() && ps[i] == x;
                assert(up[i] == x);
            }
        }
    }
}

/// Player upsert idempotence: after ingesting two games that both name the
/// player `n`, the store holds exactly one player row for `n`.
pub proof fn lemma_player_upsert_idempotent(s: StoreV, g1: ParsedGameV, g2: ParsedGameV, n: Seq<char>)
    requires
        store_inv(s),
        n == g1.white || n == g1.black,
        n == g2.white || n == g2.black,
    ensures
        player_count(ingest_spec(ingest_spec(s, g1), g2).players, n) == 1,
{
    let p1 = upsert_player_spec(s.players, g1.white);
    let p2 = upsert_player_spec(p1, g1.black);
    let p3 = upsert_player_spec(p2, g2.white);
    let p4 = upsert_player_spec(p3, g2.black);
    lemma_upsert_props(s.players, g1.white);
    lemma_upsert_props(p1, g1.black);
    lemma_upsert_props(p2, g2.white);
    lemma_upsert_props(p3, g2.black);
    assert(ingest_spec(ingest_spec(s, g1), g2).players == p4);
    lemma_unique_contains_count(p4, n);
}

/// Replay idempotence: in a well-formed store, every game's stored notation
/// replays legally from the initial position, and its rows carry, ply by
/// ply, exactly the fingerprint trace of that replay.
pub proof fn lemma_replay_reproduces_fingerprints(s: StoreV, gid: int)
    requires
        store_inv(s),
        1 <= gid <= s.games.len(),
    ensures
        legal_hist(game_sans(s, gid)),
        game_moves(s, gid).map_values(|m: MoveV| m.board) == crate::board::fingerprint_trace(
            game_sans(s, gid),
        ),
{
    assert(game_wf(s, gid));
    assert(game_moves(s, gid).map_values(|m: MoveV| m.board) =~= crate::board::fingerprint_trace(
        game_sans(s, gid),
    ));
}

} // verus!
