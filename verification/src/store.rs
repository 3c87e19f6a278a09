//! The in-memory model of the two stores the engines operate on: the durable
//! relational store (songs, extra song info, players, scores, rivalries) and
//! the aggregate skill-point cache. Contracts are stated over first-match
//! lookups on the views of the rows.
#![verifier::loop_isolation(false)]

use crate::types::{
    ExtraSongInfo, ExtraSongInfoV, League, Player, PlayerV, Rivalry, RivalryV, Score, ScoreV,
    SkillEntry, SkillEntryV, Song, SongV,
};
use vstd::prelude::*;

verus! {

/// The first element of `s` satisfying `p`, if any.
pub open spec fn first_where<A>(s: Seq<A>, p: spec_fn(A) -> bool) -> Option<A>
    decreases s.len(),
{
    if s.len() == 0 {
        None
    } else if p(s[0]) {
        Some(s[0])
    } else {
        first_where(s.drop_first(), p)
    }
}

/// If `i` is the first index satisfying `p`, the lookup returns `s[i]`.
pub proof fn lemma_first_where_index<A>(s: Seq<A>, p: spec_fn(A) -> bool, i: int)
    requires
        0 <= i < s.len(),
        p(s[i]),
        forall|j: int| 0 <= j < i ==> !p(s[j]),
    ensures
        first_where(s, p) == Some(s[i]),
    decreases i,
{
    if i == 0 {
    } else {
        assert(!p(s[0]));
        assert(forall|j: int| 0 <= j < i - 1 ==> !p(#[trigger] s.drop_first()[j]));
        lemma_first_where_index(s.drop_first(), p, i - 1);
    }
}

/// If no element satisfies `p`, the lookup returns `None`.
pub proof fn lemma_first_where_none<A>(s: Seq<A>, p: spec_fn(A) -> bool)
    requires
        forall|j: int| 0 <= j < s.len() ==> !p(s[j]),
    ensures
        first_where(s, p) is None,
    decreases s.len(),
{
    if s.len() == 0 {
    } else {
        assert(forall|j: int| 0 <= j < s.len() - 1 ==> !p(#[trigger] s.drop_first()[j]));
        lemma_first_where_none(s.drop_first(), p);
    }
}

/// How a lookup behaves on a sequence extended by one element.
pub proof fn lemma_first_where_push<A>(s: Seq<A>, p: spec_fn(A) -> bool, x: A)
    ensures
        first_where(s, p) is Some ==> first_where(s.push(x), p) == first_where(s, p),
        first_where(s, p) is None && p(x) ==> first_where(s.push(x), p) == Some(x),
        first_where(s, p) is None && !p(x) ==> first_where(s.push(x), p) is None,
    decreases s.len(),
{
    if s.len() == 0 {
        assert(s.push(x)[0] == x);
        assert(s.push(x).drop_first() =~= s);
    } else {
        assert(s.push(x)[0] == s[0]);
        if p(s[0]) {
        } else {
            assert(s.push(x).drop_first() =~= s.drop_first().push(x));
            lemma_first_where_push(s.drop_first(), p, x);
        }
    }
}

/// Replacing a non-matching element by a non-matching element leaves the
/// lookup unchanged.
pub proof fn lemma_first_where_update_nonmatch<A>(s: Seq<A>, p: spec_fn(A) -> bool, i: int, x: A)
    requires
        0 <= i < s.len(),
        !p(s[i]),
        !p(x),
    ensures
        first_where(s.update(i, x), p) == first_where(s, p),
    decreases i,
{
    if i == 0 {
        assert(s.update(0, x)[0] == x);
        assert(s.update(0, x).drop_first() =~= s.drop_first());
    } else {
        assert(s.update(i, x)[0] == s[0]);
        if p(s[0]) {
        } else {
            assert(s.update(i, x).drop_first() =~= s.drop_first().update(i - 1, x));
            lemma_first_where_update_nonmatch(s.drop_first(), p, i - 1, x);
        }
    }
}

/// Removing a non-matching element leaves the lookup unchanged.
pub proof fn lemma_first_where_remove_nonmatch<A>(s: Seq<A>, p: spec_fn(A) -> bool, i: int)
    requires
        0 <= i < s.len(),
        !p(s[i]),
    ensures
        first_where(s.remove(i), p) == first_where(s, p),
    decreases i,
{
    if i == 0 {
        assert(s.remove(0) =~= s.drop_first());
    } else {
        assert(s.remove(i)[0] == s[0]);
        if p(s[0]) {
        } else {
            assert(s.remove(i).drop_first() =~= s.drop_first().remove(i - 1));
            lemma_first_where_remove_nonmatch(s.drop_first(), p, i - 1);
        }
    }
}

/// A successful lookup yields the first matching index; a failed one means
/// no element matches.
pub proof fn lemma_first_where_char<A>(s: Seq<A>, p: spec_fn(A) -> bool)
    ensures
        match first_where(s, p) {
            None => forall|i: int| 0 <= i < s.len() ==> !p(s[i]),
            Some(v) => exists|i: int|
                0 <= i < s.len() && #[trigger] s[i] == v && p(s[i]) && (forall|j: int|
                    0 <= j < i ==> !p(s[j])),
        },
    decreases s.len(),
{
    if s.len() == 0 {
    } else if p(s[0]) {
        assert(s[0] == s[0] && p(s[0]) && (forall|j: int| 0 <= j < 0 ==> !p(s[j])));
    } else {
        lemma_first_where_char(s.drop_first(), p);
        match first_where(s.drop_first(), p) {
            None => {
                assert forall|i: int| 0 <= i < s.len() implies !p(s[i]) by {
                    if i != 0 {
                        assert(s.drop_first()[i - 1] == s[i]);
                        assert(!p(s.drop_first()[i - 1]));
                    }
                }
            },
            Some(v) => {
                let i = choose|i: int|
                    0 <= i < s.drop_first().len() && #[trigger] s.drop_first()[i] == v && p(
                        s.drop_first()[i],
                    ) && (forall|j: int| 0 <= j < i ==> !p(s.drop_first()[j]));
                assert(s[i + 1] == s.drop_first()[i]);
                assert forall|j: int| 0 <= j < i + 1 implies !p(s[j]) by {
                    if j != 0 {
                        assert(s.drop_first()[j - 1] == s[j]);
                        assert(!p(s.drop_first()[j - 1]));
                    }
                }
                assert(0 <= i + 1 < s.len() && s[i + 1] == v && p(s[i + 1]) && (forall|j: int|
                    0 <= j < i + 1 ==> !p(s[j])));
            },
        }
    }
}

/// Key predicate: the song row with the given id.
pub open spec fn song_id_pred(id: int) -> spec_fn(SongV) -> bool {
    |s: SongV| s.id == id
}

/// Key predicate: the extra-info row belonging to the given song.
pub open spec fn extra_song_pred(song_id: int) -> spec_fn(ExtraSongInfoV) -> bool {
    |e: ExtraSongInfoV| e.song_id == song_id
}

/// Key predicate: the player row with the given id.
pub open spec fn player_id_pred(id: int) -> spec_fn(PlayerV) -> bool {
    |p: PlayerV| p.id == id
}

/// Key predicate: the player row with the given external (Steam) identity.
pub open spec fn player_steam_pred(steam_id: int) -> spec_fn(PlayerV) -> bool {
    |p: PlayerV| p.steam_id == steam_id
}

/// Key predicate: the score row of a (player, song, league) triple.
pub open spec fn score_key_pred(player_id: int, song_id: int, league: League) -> spec_fn(
    ScoreV,
) -> bool {
    |s: ScoreV| s.player_id == player_id && s.song_id == song_id && s.league == league
}

/// Key predicate: the rivalry edge from challenger to rival.
pub open spec fn rivalry_pred(challenger_id: int, rival_id: int) -> spec_fn(RivalryV) -> bool {
    |r: RivalryV| r.challenger_id == challenger_id && r.rival_id == rival_id
}

/// Key predicate: the cache entry of the given player.
pub open spec fn skill_pred(player_id: int) -> spec_fn(SkillEntryV) -> bool {
    |e: SkillEntryV| e.player_id == player_id
}

/// The two stores the engines work against: the durable tables and the
/// skill-point aggregate cache, plus the id counters the durable store
/// would assign from.
pub struct Store {
    pub songs: Vec<Song>,
    pub extras: Vec<ExtraSongInfo>,
    pub players: Vec<Player>,
    pub scores: Vec<Score>,
    pub rivalries: Vec<Rivalry>,
    pub skills: Vec<SkillEntry>,
    pub next_song_id: i32,
    pub next_player_id: i32,
}

impl Store {
    /// View of the song table.
    pub open spec fn songs_v(self) -> Seq<SongV> {
        self.songs@.map_values(|x: Song| x@)
    }

    /// View of the extra-info table.
    pub open spec fn extras_v(self) -> Seq<ExtraSongInfoV> {
        self.extras@.map_values(|x: ExtraSongInfo| x@)
    }

    /// View of the player table.
    pub open spec fn players_v(self) -> Seq<PlayerV> {
        self.players@.map_values(|x: Player| x@)
    }

    /// View of the score table.
    pub open spec fn scores_v(self) -> Seq<ScoreV> {
        self.scores@.map_values(|x: Score| x@)
    }

    /// View of the rivalry table.
    pub open spec fn rivalries_v(self) -> Seq<RivalryV> {
        self.rivalries@.map_values(|x: Rivalry| x@)
    }

    /// View of the aggregate cache.
    pub open spec fn skills_v(self) -> Seq<SkillEntryV> {
        self.skills@.map_values(|x: SkillEntry| x@)
    }

    /// The song row with the given id, if any.
    pub open spec fn song_by_id(self, id: int) -> Option<SongV> {
        first_where(self.songs_v(), song_id_pred(id))
    }

    /// Whether a song row with the given id exists.
    pub open spec fn has_song(self, id: int) -> bool {
        self.song_by_id(id) is Some
    }

    /// The extra-info row of the given song, if any.
    pub open spec fn extra_for(self, song_id: int) -> Option<ExtraSongInfoV> {
        first_where(self.extras_v(), extra_song_pred(song_id))
    }

    /// The player row with the given id, if any.
    pub open spec fn player_by_id(self, id: int) -> Option<PlayerV> {
        first_where(self.players_v(), player_id_pred(id))
    }

    /// Whether a player row with the given id exists.
    pub open spec fn has_player(self, id: int) -> bool {
        self.player_by_id(id) is Some
    }

    /// The player row with the given external identity, if any.
    pub open spec fn player_by_steam(self, steam_id: int) -> Option<PlayerV> {
        first_where(self.players_v(), player_steam_pred(steam_id))
    }

    /// The score row of (player, song, league), if any.
    pub open spec fn score_at(self, player_id: int, song_id: int, league: League) -> Option<
        ScoreV,
    > {
        first_where(self.scores_v(), score_key_pred(player_id, song_id, league))
    }

    /// The rivalry edge from challenger to rival, if any.
    pub open spec fn rivalry_at(self, challenger_id: int, rival_id: int) -> Option<RivalryV> {
        first_where(self.rivalries_v(), rivalry_pred(challenger_id, rival_id))
    }

    /// Whether the rivalry edge from challenger to rival exists.
    pub open spec fn has_rivalry(self, challenger_id: int, rival_id: int) -> bool {
        self.rivalry_at(challenger_id, rival_id) is Some
    }

    /// The player's cumulative skill points; a missing cache entry counts
    /// as zero.
    pub open spec fn points_of(self, player_id: int) -> int {
        match first_where(self.skills_v(), skill_pred(player_id)) {
            Some(e) => e.points,
            None => 0,
        }
    }

    /// Well-formedness of the store: key uniqueness of every table, the
    /// referential constraints among them, and the id counters standing
    /// above every assigned id.
    pub open spec fn wf(self) -> bool {
        &&& (forall|i: int, j: int|
            0 <= i < j < self.songs_v().len() ==> self.songs_v()[i].id != self.songs_v()[j].id)
        &&& (forall|i: int|
            0 <= i < self.songs_v().len() ==> self.songs_v()[i].id < self.next_song_id)
        &&& (forall|i: int, j: int|
            0 <= i < j < self.extras_v().len() ==> self.extras_v()[i].song_id
                != self.extras_v()[j].song_id)
        &&& (forall|i: int|
            0 <= i < self.extras_v().len() ==> self.has_song(self.extras_v()[i].song_id))
        &&& (forall|i: int, j: int|
            0 <= i < j < self.players_v().len() ==> self.players_v()[i].id
                != self.players_v()[j].id)
        &&& (forall|i: int, j: int|
            0 <= i < j < self.players_v().len() ==> self.players_v()[i].steam_id
                != self.players_v()[j].steam_id)
        &&& (forall|i: int|
            0 <= i < self.players_v().len() ==> self.players_v()[i].id < self.next_player_id)
        &&& (forall|i: int, j: int|
            0 <= i < j < self.scores_v().len() ==> !(self.scores_v()[i].player_id
                == self.scores_v()[j].player_id && self.scores_v()[i].song_id
                == self.scores_v()[j].song_id && self.scores_v()[i].league
                == self.scores_v()[j].league))
        &&& (forall|i: int|
            0 <= i < self.scores_v().len() ==> self.has_song(self.scores_v()[i].song_id))
        &&& (forall|i: int|
            0 <= i < self.scores_v().len() ==> self.has_player(self.scores_v()[i].player_id))
        &&& (forall|i: int, j: int|
            0 <= i < j < self.rivalries_v().len() ==> !(self.rivalries_v()[i].challenger_id
                == self.rivalries_v()[j].challenger_id && self.rivalries_v()[i].rival_id
                == self.rivalries_v()[j].rival_id))
        &&& (forall|i: int|
            0 <= i < self.rivalries_v().len() ==> self.has_player(
                self.rivalries_v()[i].challenger_id,
            ) && self.has_player(self.rivalries_v()[i].rival_id))
        &&& (forall|i: int, j: int|
            0 <= i < j < self.skills_v().len() ==> self.skills_v()[i].player_id
                != self.skills_v()[j].player_id)
    }

    /// An empty pair of stores.
    pub fn new() -> (r: Store)
        ensures
            r.wf(),
            r.songs_v() == Seq::<SongV>::empty(),
            r.extras_v() == Seq::<ExtraSongInfoV>::empty(),
            r.players_v() == Seq::<PlayerV>::empty(),
            r.scores_v() == Seq::<ScoreV>::empty(),
            r.rivalries_v() == Seq::<RivalryV>::empty(),
            r.skills_v() == Seq::<SkillEntryV>::empty(),
            r.next_song_id == 1,
            r.next_player_id == 1,
    {
        let r = Store {
            songs: Vec::new(),
            extras: Vec::new(),
            players: Vec::new(),
            scores: Vec::new(),
            rivalries: Vec::new(),
            skills: Vec::new(),
            next_song_id: 1,
            next_player_id: 1,
        };
        proof {
            assert(r.songs_v() =~= Seq::<SongV>::empty());
            assert(r.extras_v() =~= Seq::<ExtraSongInfoV>::empty());
            assert(r.players_v() =~= Seq::<PlayerV>::empty());
            assert(r.scores_v() =~= Seq::<ScoreV>::empty());
            assert(r.rivalries_v() =~= Seq::<RivalryV>::empty());
            assert(r.skills_v() =~= Seq::<SkillEntryV>::empty());
        }
        r
    }

    /// Index of the song row with the given id.
    pub fn find_song_index(&self, id: i32) -> (r: Option<usize>)
        ensures
            match r {
                Some(i) => i < self.songs.len() && self.songs_v()[i as int].id == id as int
                    && self.song_by_id(id as int) == Some(self.songs_v()[i as int]),
                None => self.song_by_id(id as int) is None,
            },
    {
        let ghost p = song_id_pred(id as int);
        let mut i: usize = 0;
        while i < self.songs.len()
            invariant
                i <= self.songs.len(),
                forall|j: int| 0 <= j < i ==> !p(self.songs_v()[j]),
            decreases self.songs.len() - i,
        {
            proof {
                assert(self.songs_v()[i as int] == self.songs@[i as int]@);
            }
            if self.songs[i].id == id {
                proof {
                    assert(p(self.songs_v()[i as int]));
                    lemma_first_where_index(self.songs_v(), p, i as int);
                }
                return Some(i);
            }
            proof {
                assert(!p(self.songs_v()[i as int]));
            }
            i += 1;
        }
        proof {
            lemma_first_where_none(self.songs_v(), p);
        }
        None
    }

    /// Index of the extra-info row of the given song.
    pub fn find_extra_index(&self, song_id: i32) -> (r: Option<usize>)
        ensures
            match r {
                Some(i) => i < self.extras.len() && self.extras_v()[i as int].song_id
                    == song_id as int && self.extra_for(song_id as int) == Some(
                    self.extras_v()[i as int],
                ),
                None => self.extra_for(song_id as int) is None,
            },
    {
        let ghost p = extra_song_pred(song_id as int);
        let mut i: usize = 0;
        while i < self.extras.len()
            invariant
                i <= self.extras.len(),
                forall|j: int| 0 <= j < i ==> !p(self.extras_v()[j]),
            decreases self.extras.len() - i,
        {
            proof {
                assert(self.extras_v()[i as int] == self.extras@[i as int]@);
            }
            if self.extras[i].song_id == song_id {
                proof {
                    assert(p(self.extras_v()[i as int]));
                    lemma_first_where_index(self.extras_v(), p, i as int);
                }
                return Some(i);
            }
            proof {
                assert(!p(self.extras_v()[i as int]));
            }
            i += 1;
        }
        proof {
            lemma_first_where_none(self.extras_v(), p);
        }
        None
    }

    /// Index of the player row with the given id.
    pub fn find_player_index(&self, id: i32) -> (r: Option<usize>)
        ensures
            match r {
                Some(i) => i < self.players.len() && self.players_v()[i as int].id == id as int
                    && self.player_by_id(id as int) == Some(self.players_v()[i as int]),
                None => self.player_by_id(id as int) is None,
            },
    {
        let ghost p = player_id_pred(id as int);
        let mut i: usize = 0;
        while i < self.players.len()
            invariant
                i <= self.players.len(),
                forall|j: int| 0 <= j < i ==> !p(self.players_v()[j]),
            decreases self.players.len() - i,
        {
            proof {
                assert(self.players_v()[i as int] == self.players@[i as int]@);
            }
            if self.players[i].id == id {
                proof {
                    assert(p(self.players_v()[i as int]));
                    lemma_first_where_index(self.players_v(), p, i as int);
                }
                return Some(i);
            }
            proof {
                assert(!p(self.players_v()[i as int]));
            }
            i += 1;
        }
        proof {
            lemma_first_where_none(self.players_v(), p);
        }
        None
    }

    /// Index of the player row with the given external (Steam) identity.
    pub fn find_player_index_by_steam(&self, steam_id: u64) -> (r: Option<usize>)
        ensures
            match r {
                Some(i) => i < self.players.len() && self.players_v()[i as int].steam_id
                    == steam_id as int && self.player_by_steam(steam_id as int) == Some(
                    self.players_v()[i as int],
                ),
                None => self.player_by_steam(steam_id as int) is None,
            },
    {
        let ghost p = player_steam_pred(steam_id as int);
        let mut i: usize = 0;
        while i < self.players.len()
            invariant
                i <= self.players.len(),
                forall|j: int| 0 <= j < i ==> !p(self.players_v()[j]),
            decreases self.players.len() - i,
        {
            proof {
                assert(self.players_v()[i as int] == self.players@[i as int]@);
            }
            if self.players[i].steam_id == steam_id {
                proof {
                    assert(p(self.players_v()[i as int]));
                    lemma_first_where_index(self.players_v(), p, i as int);
                }
                return Some(i);
            }
            proof {
                assert(!p(self.players_v()[i as int]));
            }
            i += 1;
        }
        proof {
            lemma_first_where_none(self.players_v(), p);
        }
        None
    }

    /// Index of the score row of (player, song, league).
    pub fn find_score_index(&self, player_id: i32, song_id: i32, league: League) -> (r: Option<
        usize,
    >)
        ensures
            match r {
                Some(i) => i < self.scores.len() && self.scores_v()[i as int].player_id
                    == player_id as int && self.scores_v()[i as int].song_id == song_id as int
                    && self.scores_v()[i as int].league == league && self.score_at(
                    player_id as int,
                    song_id as int,
                    league,
                ) == Some(self.scores_v()[i as int]),
                None => self.score_at(player_id as int, song_id as int, league) is None,
            },
    {
        let ghost p = score_key_pred(player_id as int, song_id as int, league);
        let mut i: usize = 0;
        while i < self.scores.len()
            invariant
                i <= self.scores.len(),
                forall|j: int| 0 <= j < i ==> !p(self.scores_v()[j]),
            decreases self.scores.len() - i,
        {
            proof {
                assert(self.scores_v()[i as int] == self.scores@[i as int]@);
            }
            let sc = &self.scores[i];
            if sc.player_id == player_id && sc.song_id == song_id && sc.league == league {
                proof {
                    assert(p(self.scores_v()[i as int]));
                    lemma_first_where_index(self.scores_v(), p, i as int);
                }
                return Some(i);
            }
            proof {
                assert(!p(self.scores_v()[i as int]));
            }
            i += 1;
        }
        proof {
            lemma_first_where_none(self.scores_v(), p);
        }
        None
    }

    /// Whether the rivalry edge from challenger to rival is present.
    pub fn rivalry_exists(&self, challenger_id: i32, rival_id: i32) -> (r: bool)
        ensures
            r == self.has_rivalry(challenger_id as int, rival_id as int),
    {
        let ghost p = rivalry_pred(challenger_id as int, rival_id as int);
        let mut i: usize = 0;
        while i < self.rivalries.len()
            invariant
                i <= self.rivalries.len(),
                forall|j: int| 0 <= j < i ==> !p(self.rivalries_v()[j]),
            decreases self.rivalries.len() - i,
        {
            proof {
                assert(self.rivalries_v()[i as int] == self.rivalries@[i as int]@);
            }
            let rv = &self.rivalries[i];
            if rv.challenger_id == challenger_id && rv.rival_id == rival_id {
                proof {
                    assert(p(self.rivalries_v()[i as int]));
                    lemma_first_where_index(self.rivalries_v(), p, i as int);
                }
                return true;
            }
            proof {
                assert(!p(self.rivalries_v()[i as int]));
            }
            i += 1;
        }
        proof {
            lemma_first_where_none(self.rivalries_v(), p);
        }
        false
    }

    /// The player's cumulative skill points as stored in the cache.
    pub fn skill_points_of(&self, player_id: i32) -> (r: i64)
        ensures
            r as int == self.points_of(player_id as int),
    {
        let ghost p = skill_pred(player_id as int);
        let mut i: usize = 0;
        while i < self.skills.len()
            invariant
                i <= self.skills.len(),
                forall|j: int| 0 <= j < i ==> !p(self.skills_v()[j]),
            decreases self.skills.len() - i,
        {
            proof {
                assert(self.skills_v()[i as int] == self.skills@[i as int]@);
            }
            if self.skills[i].player_id == player_id {
                proof {
                    assert(p(self.skills_v()[i as int]));
                    lemma_first_where_index(self.skills_v(), p, i as int);
                }
                return self.skills[i].points;
            }
            proof {
                assert(!p(self.skills_v()[i as int]));
            }
            i += 1;
        }
        proof {
            lemma_first_where_none(self.skills_v(), p);
        }
        0
    }

    /// Applies a delta to the player's cached skill points, creating the
    /// entry at the delta if it is missing. The cache write of every score
    /// creation, improvement and deletion goes through here, after the
    /// corresponding durable write.
    pub fn adjust_skill_points(&mut self, player_id: i32, delta: i64)
        requires
            old(self).wf(),
            i64::MIN <= old(self).points_of(player_id as int) + delta <= i64::MAX,
        ensures
            final(self).wf(),
            final(self).points_of(player_id as int) == old(self).points_of(player_id as int)
                + delta,
            forall|q: int|
                q != player_id as int ==> final(self).points_of(q) == old(self).points_of(q),
            final(self).songs == old(self).songs,
            final(self).extras == old(self).extras,
            final(self).players == old(self).players,
            final(self).scores == old(self).scores,
            final(self).rivalries == old(self).rivalries,
            final(self).next_song_id == old(self).next_song_id,
            final(self).next_player_id == old(self).next_player_id,
    {
        let ghost p = skill_pred(player_id as int);
        let ghost old_skills = self.skills_v();
        let mut i: usize = 0;
        while i < self.skills.len()
            invariant
                *self == *old(self),
                i <= self.skills.len(),
                forall|j: int| 0 <= j < i ==> !p(self.skills_v()[j]),
            decreases self.skills.len() - i,
        {
            proof {
                assert(self.skills_v()[i as int] == self.skills@[i as int]@);
            }
            if self.skills[i].player_id == player_id {
                proof {
                    assert(p(self.skills_v()[i as int]));
                    lemma_first_where_index(self.skills_v(), p, i as int);
                }
                let pts = self.skills[i].points;
                proof {
                    assert(pts as int == self.points_of(player_id as int));
                }
                self.skills[i] = SkillEntry { player_id, points: pts + delta };
                proof {
                    assert(self.skills_v() =~= old_skills.update(
                        i as int,
                        SkillEntryV { player_id: player_id as int, points: pts + delta },
                    ));
                    lemma_first_where_index(self.skills_v(), p, i as int);
                    assert forall|q: int| q != player_id as int implies first_where(
                        self.skills_v(),
                        skill_pred(q),
                    ) == first_where(old_skills, skill_pred(q)) by {
                        lemma_first_where_update_nonmatch(
                            old_skills,
                            skill_pred(q),
                            i as int,
                            SkillEntryV { player_id: player_id as int, points: pts + delta },
                        );
                    }
                    assert forall|a: int, b: int|
                        0 <= a < b < self.skills_v().len() implies self.skills_v()[a].player_id
                        != self.skills_v()[b].player_id by {
                        assert(self.skills_v()[a].player_id == old_skills[a].player_id);
                        assert(self.skills_v()[b].player_id == old_skills[b].player_id);
                    }
                    assert(self.songs_v() == old(self).songs_v());
                    assert(self.extras_v() == old(self).extras_v());
                    assert(self.players_v() == old(self).players_v());
                    assert(self.scores_v() == old(self).scores_v());
                    assert(self.rivalries_v() == old(self).rivalries_v());
                }
                return ;
            }
            proof {
                assert(!p(self.skills_v()[i as int]));
            }
            i += 1;
        }
        proof {
            lemma_first_where_none(self.skills_v(), p);
        }
        self.skills.push(SkillEntry { player_id, points: delta });
        proof {
            assert(self.skills_v() =~= old_skills.push(
                SkillEntryV { player_id: player_id as int, points: delta as int },
            ));
            lemma_first_where_push(
                old_skills,
                p,
                SkillEntryV { player_id: player_id as int, points: delta as int },
            );
            assert forall|q: int| q != player_id as int implies first_where(
                self.skills_v(),
                skill_pred(q),
            ) == first_where(old_skills, skill_pred(q)) by {
                lemma_first_where_push(
                    old_skills,
                    skill_pred(q),
                    SkillEntryV { player_id: player_id as int, points: delta as int },
                );
            }
            assert forall|a: int, b: int|
                0 <= a < b < self.skills_v().len() implies self.skills_v()[a].player_id
                != self.skills_v()[b].player_id by {
                assert(self.skills_v()[a] == old_skills[a]);
                assert(!p(old_skills[a]));
                if b < old_skills.len() {
                    assert(self.skills_v()[b] == old_skills[b]);
                }
            }
            assert(self.songs_v() == old(self).songs_v());
            assert(self.extras_v() == old(self).extras_v());
            assert(self.players_v() == old(self).players_v());
            assert(self.scores_v() == old(self).scores_v());
            assert(self.rivalries_v() == old(self).rivalries_v());
        }
    }
}

} // verus!
