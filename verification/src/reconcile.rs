//! The Score Reconciliation Engine: applies a new ride submission against
//! the stored best score for its (player, song, league) key and keeps the
//! cached skill-point aggregate in lockstep — the durable write first, the
//! cache write after it.
#![verifier::loop_isolation(false)]

use crate::store::{
    lemma_first_where_char, lemma_first_where_index, lemma_first_where_push,
    lemma_first_where_update_nonmatch, score_key_pred, Store,
};
use crate::text::{dup_i32s, dup_strings};
use crate::types::{Character, League, Score, ScoreV, StoreError};
use vstd::prelude::*;

verus! {

/// A score row with its play count replaced.
pub open spec fn with_count(v: ScoreV, play_count: int) -> ScoreV {
    ScoreV { play_count, ..v }
}

/// The view of a submission result.
pub open spec fn score_res_v(r: Result<Score, StoreError>) -> Result<ScoreV, StoreError> {
    match r {
        Ok(v) => Ok(v@),
        Err(e) => Err(e),
    }
}

/// The machine bounds a submission needs: the play count it increments and
/// the cache entry it adjusts must stay within their integer widths. Only
/// submissions that reach the write path are constrained.
pub open spec fn submit_fits(prev: Store, nv: ScoreV) -> bool {
    !(prev.has_player(nv.player_id) && prev.has_song(nv.song_id)) || (match prev.score_at(
        nv.player_id,
        nv.song_id,
        nv.league,
    ) {
        None => i64::MIN <= prev.points_of(nv.player_id) + nv.score <= i64::MAX,
        Some(e) => e.play_count < i32::MAX && (nv.score > e.score ==> i64::MIN <= prev.points_of(
            nv.player_id,
        ) + nv.score - e.score <= i64::MAX),
    })
}

/// The full effect of one submission. With the player and song present:
/// a first ride inserts the row with play count 1 and adds its value to the
/// cache; a better ride overwrites the stored fields, increments the play
/// count and adds exactly the improvement to the cache; any other ride only
/// increments the play count and leaves value and cache unchanged.
pub open spec fn submit_post(
    prev: Store,
    next: Store,
    nv: ScoreV,
    res: Result<ScoreV, StoreError>,
) -> bool {
    let p = nv.player_id;
    let s = nv.song_id;
    let l = nv.league;
    if !(prev.has_player(p) && prev.has_song(s)) {
        &&& res == Err::<ScoreV, StoreError>(StoreError::NotFound)
        &&& next == prev
    } else {
        match prev.score_at(p, s, l) {
            None => {
                let row = with_count(nv, 1);
                &&& res == Ok::<ScoreV, StoreError>(row)
                &&& next.scores_v() == prev.scores_v().push(row)
                &&& next.score_at(p, s, l) == Some(row)
                &&& (forall|q: int, s2: int, l2: League|
                    !(q == p && s2 == s && l2 == l) ==> next.score_at(q, s2, l2) == prev.score_at(
                        q,
                        s2,
                        l2,
                    ))
                &&& next.points_of(p) == prev.points_of(p) + nv.score
                &&& (forall|q: int| q != p ==> next.points_of(q) == prev.points_of(q))
                &&& next.songs == prev.songs
                &&& next.extras == prev.extras
                &&& next.players == prev.players
                &&& next.rivalries == prev.rivalries
                &&& next.next_song_id == prev.next_song_id
                &&& next.next_player_id == prev.next_player_id
            },
            Some(e) => {
                if nv.score > e.score {
                    let row = with_count(nv, e.play_count + 1);
                    &&& res == Ok::<ScoreV, StoreError>(row)
                    &&& next.score_at(p, s, l) == Some(row)
                    &&& (forall|q: int, s2: int, l2: League|
                        !(q == p && s2 == s && l2 == l) ==> next.score_at(q, s2, l2)
                            == prev.score_at(q, s2, l2))
                    &&& next.scores_v().len() == prev.scores_v().len()
                    &&& next.points_of(p) == prev.points_of(p) + (nv.score - e.score)
                    &&& (forall|q: int| q != p ==> next.points_of(q) == prev.points_of(q))
                    &&& next.songs == prev.songs
                    &&& next.extras == prev.extras
                    &&& next.players == prev.players
                    &&& next.rivalries == prev.rivalries
                    &&& next.next_song_id == prev.next_song_id
                    &&& next.next_player_id == prev.next_player_id
                } else {
                    let row = with_count(e, e.play_count + 1);
                    &&& res == Ok::<ScoreV, StoreError>(row)
                    &&& next.score_at(p, s, l) == Some(row)
                    &&& (forall|q: int, s2: int, l2: League|
                        !(q == p && s2 == s && l2 == l) ==> next.score_at(q, s2, l2)
                            == prev.score_at(q, s2, l2))
                    &&& next.scores_v().len() == prev.scores_v().len()
                    &&& next.skills == prev.skills
                    &&& next.songs == prev.songs
                    &&& next.extras == prev.extras
                    &&& next.players == prev.players
                    &&& next.rivalries == prev.rivalries
                    &&& next.next_song_id == prev.next_song_id
                    &&& next.next_player_id == prev.next_player_id
                }
            },
        }
    }
}

/// A new ride submission: the inputs of the Score Reconciliation Engine.
pub struct NewScore {
    pub player_id: i32,
    pub song_id: i32,
    pub league: League,
    pub score: i32,
    pub vehicle: Character,
    pub track_shape: Vec<i32>,
    pub xstats: Vec<i32>,
    pub density: i32,
    pub feats: Vec<String>,
    pub song_length: i32,
    pub gold_threshold: i32,
    pub iss: i32,
    pub isj: i32,
}

impl View for NewScore {
    type V = ScoreV;

    /// A submission viewed as the score row it would insert, before any
    /// play count is assigned.
    open spec fn view(&self) -> ScoreV {
        ScoreV {
            player_id: self.player_id as int,
            song_id: self.song_id as int,
            league: self.league,
            score: self.score as int,
            play_count: 0,
            vehicle: self.vehicle,
            track_shape: self.track_shape@.map_values(|x: i32| x as int),
            xstats: self.xstats@.map_values(|x: i32| x as int),
            density: self.density as int,
            feats: self.feats@.map_values(|s: String| s@),
            song_length: self.song_length as int,
            gold_threshold: self.gold_threshold as int,
            iss: self.iss as int,
            isj: self.isj as int,
        }
    }
}

impl NewScore {
    /// Bundles the fields of one ride submission.
    pub fn new(
        player_id: i32,
        song_id: i32,
        league: League,
        score: i32,
        track_shape: Vec<i32>,
        xstats: Vec<i32>,
        density: i32,
        vehicle: Character,
        feats: Vec<String>,
        song_length: i32,
        gold_threshold: i32,
        iss: i32,
        isj: i32,
    ) -> (r: NewScore)
        ensures
            r.player_id == player_id,
            r.song_id == song_id,
            r.league == league,
            r.score == score,
            r.vehicle == vehicle,
            r.track_shape == track_shape,
            r.xstats == xstats,
            r.density == density,
            r.feats == feats,
            r.song_length == song_length,
            r.gold_threshold == gold_threshold,
            r.iss == iss,
            r.isj == isj,
    {
        NewScore {
            player_id,
            song_id,
            league,
            score,
            vehicle,
            track_shape,
            xstats,
            density,
            feats,
            song_length,
            gold_threshold,
            iss,
            isj,
        }
    }

    /// The score row this submission writes when given a play count.
    fn to_row(&self, play_count: i32) -> (r: Score)
        ensures
            r@ == with_count(self@, play_count as int),
    {
        Score {
            player_id: self.player_id,
            song_id: self.song_id,
            league: self.league,
            score: self.score,
            play_count,
            vehicle: self.vehicle,
            track_shape: dup_i32s(&self.track_shape),
            xstats: dup_i32s(&self.xstats),
            density: self.density,
            feats: dup_strings(&self.feats),
            song_length: self.song_length,
            gold_threshold: self.gold_threshold,
            iss: self.iss,
            isj: self.isj,
        }
    }

    /// Whether the submission stays within the machine bounds of
    /// [`submit_fits`]; callers outside verified code test this before
    /// calling [`NewScore::create_or_update`].
    pub fn can_submit(&self, store: &Store) -> (r: bool)
        ensures
            r == submit_fits(*store, self@),
    {
        if store.find_player_index(self.player_id).is_none() || store.find_song_index(
            self.song_id,
        ).is_none() {
            return true;
        }
        match store.find_score_index(self.player_id, self.song_id, self.league) {
            None => {
                let pts = store.skill_points_of(self.player_id);
                let v: i64 = self.score as i64;
                if v >= 0 {
                    pts <= i64::MAX - v
                } else {
                    pts >= i64::MIN - v
                }
            },
            Some(i) => {
                let e_count = store.scores[i].play_count;
                let e_val = store.scores[i].score;
                proof {
                    assert(store.scores_v()[i as int] == store.scores@[i as int]@);
                }
                if e_count == i32::MAX {
                    false
                } else if self.score > e_val {
                    let pts = store.skill_points_of(self.player_id);
                    let d: i64 = self.score as i64 - e_val as i64;
                    pts <= i64::MAX - d
                } else {
                    true
                }
            },
        }
    }

    /// Looks up the stored score for this submission's key and reconciles:
    /// inserts a first ride, overwrites on improvement, otherwise only
    /// counts the play — adjusting the cache in lockstep.
    pub fn create_or_update(&self, store: &mut Store) -> (r: Result<Score, StoreError>)
        requires
            old(store).wf(),
            submit_fits(*old(store), self@),
        ensures
            final(store).wf(),
            submit_post(*old(store), *final(store), self@, score_res_v(r)),
    {
        if store.find_player_index(self.player_id).is_none() || store.find_song_index(
            self.song_id,
        ).is_none() {
            return Err(StoreError::NotFound);
        }
        let ghost p = score_key_pred(self.player_id as int, self.song_id as int, self.league);
        let ghost old_scores = store.scores_v();
        match store.find_score_index(self.player_id, self.song_id, self.league) {
            None => {
                let row = self.to_row(1);
                let returned = self.to_row(1);
                let ghost row_v = row@;
                store.scores.push(row);
                proof {
                    assert(store.scores_v() =~= old_scores.push(row_v));
                    lemma_first_where_push(old_scores, p, row_v);
                    assert(store.score_at(
                        self.player_id as int,
                        self.song_id as int,
                        self.league,
                    ) == Some(row_v));
                    assert forall|q: int, s2: int, l2: League|
                        !(q == self.player_id as int && s2 == self.song_id as int && l2
                            == self.league) implies store.score_at(q, s2, l2) == old(
                        store,
                    ).score_at(q, s2, l2) by {
                        lemma_first_where_push(old_scores, score_key_pred(q, s2, l2), row_v);
                    }
                    assert(store.songs_v() == old(store).songs_v());
                    assert(store.extras_v() == old(store).extras_v());
                    assert(store.players_v() == old(store).players_v());
                    assert(store.rivalries_v() == old(store).rivalries_v());
                    assert(store.skills_v() == old(store).skills_v());
                    lemma_first_where_char(old_scores, p);
                    assert forall|a: int, b: int|
                        0 <= a < b < store.scores_v().len() implies !(store.scores_v()[a].player_id
                        == store.scores_v()[b].player_id && store.scores_v()[a].song_id
                        == store.scores_v()[b].song_id && store.scores_v()[a].league
                        == store.scores_v()[b].league) by {
                        assert(store.scores_v()[a] == old_scores[a]);
                        if b < old_scores.len() {
                            assert(store.scores_v()[b] == old_scores[b]);
                        } else {
                            assert(store.scores_v()[b] == row_v);
                            assert(!p(old_scores[a]));
                        }
                    }
                    assert forall|k: int| 0 <= k < store.scores_v().len() implies store.has_song(
                        store.scores_v()[k].song_id,
                    ) && store.has_player(store.scores_v()[k].player_id) by {
                        if k < old_scores.len() {
                            assert(store.scores_v()[k] == old_scores[k]);
                        } else {
                            assert(store.scores_v()[k] == row_v);
                        }
                    }
                    assert(store.wf());
                }
                store.adjust_skill_points(self.player_id, self.score as i64);
                Ok(returned)
            },
            Some(i) => {
                proof {
                    assert(store.scores_v()[i as int] == store.scores@[i as int]@);
                }
                let e_count = store.scores[i].play_count;
                let e_val = store.scores[i].score;
                let ghost e = old_scores[i as int];
                if self.score > e_val {
                    let row = self.to_row(e_count + 1);
                    let returned = self.to_row(e_count + 1);
                    let ghost row_v = row@;
                    store.scores[i] = row;
                    proof {
                        assert(store.scores_v() =~= old_scores.update(i as int, row_v));
                        lemma_first_where_index(store.scores_v(), p, i as int);
                        assert(store.score_at(
                            self.player_id as int,
                            self.song_id as int,
                            self.league,
                        ) == Some(row_v));
                        assert forall|q: int, s2: int, l2: League|
                            !(q == self.player_id as int && s2 == self.song_id as int && l2
                                == self.league) implies store.score_at(q, s2, l2) == old(
                            store,
                        ).score_at(q, s2, l2) by {
                            lemma_first_where_update_nonmatch(
                                old_scores,
                                score_key_pred(q, s2, l2),
                                i as int,
                                row_v,
                            );
                        }
                        assert(store.songs_v() == old(store).songs_v());
                        assert(store.extras_v() == old(store).extras_v());
                        assert(store.players_v() == old(store).players_v());
                        assert(store.rivalries_v() == old(store).rivalries_v());
                        assert(store.skills_v() == old(store).skills_v());
                        assert forall|a: int, b: int|
                            0 <= a < b < store.scores_v().len() implies !(
                        store.scores_v()[a].player_id == store.scores_v()[b].player_id
                            && store.scores_v()[a].song_id == store.scores_v()[b].song_id
                            && store.scores_v()[a].league == store.scores_v()[b].league) by {
                            assert(old_scores[a].player_id == store.scores_v()[a].player_id
                                && old_scores[a].song_id == store.scores_v()[a].song_id
                                && old_scores[a].league == store.scores_v()[a].league);
                            assert(old_scores[b].player_id == store.scores_v()[b].player_id
                                && old_scores[b].song_id == store.scores_v()[b].song_id
                                && old_scores[b].league == store.scores_v()[b].league);
                        }
                        assert forall|k: int|
                            0 <= k < store.scores_v().len() implies store.has_song(
                            store.scores_v()[k].song_id,
                        ) && store.has_player(store.scores_v()[k].player_id) by {
                            if k != i as int {
                                assert(store.scores_v()[k] == old_scores[k]);
                            } else {
                                assert(store.scores_v()[k] == row_v);
                            }
                        }
                        assert(store.wf());
                    }
                    store.adjust_skill_points(
                        self.player_id,
                        self.score as i64 - e_val as i64,
                    );
                    Ok(returned)
                } else {
                    let row = Score {
                        player_id: self.player_id,
                        song_id: self.song_id,
                        league: self.league,
                        score: e_val,
                        play_count: e_count + 1,
                        vehicle: store.scores[i].vehicle,
                        track_shape: dup_i32s(&store.scores[i].track_shape),
                        xstats: dup_i32s(&store.scores[i].xstats),
                        density: store.scores[i].density,
                        feats: dup_strings(&store.scores[i].feats),
                        song_length: store.scores[i].song_length,
                        gold_threshold: store.scores[i].gold_threshold,
                        iss: store.scores[i].iss,
                        isj: store.scores[i].isj,
                    };
                    let returned = row.duplicate();
                    let ghost row_v = row@;
                    store.scores[i] = row;
                    proof {
                        assert(row_v == with_count(e, e.play_count + 1));
                        assert(store.scores_v() =~= old_scores.update(i as int, row_v));
                        lemma_first_where_index(store.scores_v(), p, i as int);
                        assert(store.score_at(
                            self.player_id as int,
                            self.song_id as int,
                            self.league,
                        ) == Some(row_v));
                        assert forall|q: int, s2: int, l2: League|
                            !(q == self.player_id as int && s2 == self.song_id as int && l2
                                == self.league) implies store.score_at(q, s2, l2) == old(
                            store,
                        ).score_at(q, s2, l2) by {
                            lemma_first_where_update_nonmatch(
                                old_scores,
                                score_key_pred(q, s2, l2),
                                i as int,
                                row_v,
                            );
                        }
                        assert(store.songs_v() == old(store).songs_v());
                        assert(store.extras_v() == old(store).extras_v());
                        assert(store.players_v() == old(store).players_v());
                        assert(store.rivalries_v() == old(store).rivalries_v());
                        assert(store.skills_v() == old(store).skills_v());
                        assert forall|a: int, b: int|
                            0 <= a < b < store.scores_v().len() implies !(
                        store.scores_v()[a].player_id == store.scores_v()[b].player_id
                            && store.scores_v()[a].song_id == store.scores_v()[b].song_id
                            && store.scores_v()[a].league == store.scores_v()[b].league) by {
                            assert(old_scores[a].player_id == store.scores_v()[a].player_id
                                && old_scores[a].song_id == store.scores_v()[a].song_id
                                && old_scores[a].league == store.scores_v()[a].league);
                            assert(old_scores[b].player_id == store.scores_v()[b].player_id
                                && old_scores[b].song_id == store.scores_v()[b].song_id
                                && old_scores[b].league == store.scores_v()[b].league);
                        }
                        assert forall|k: int|
                            0 <= k < store.scores_v().len() implies store.has_song(
                            store.scores_v()[k].song_id,
                        ) && store.has_player(store.scores_v()[k].player_id) by {
                            if k != i as int {
                                assert(store.scores_v()[k] == old_scores[k]);
                            } else {
                                assert(store.scores_v()[k] == row_v);
                            }
                        }
                        assert(store.wf());
                    }
                    Ok(returned)
                }
            },
        }
    }
}

/// Idempotence of non-improvement: a ride whose value does not exceed the
/// stored one leaves the stored value unchanged, increments the play count
/// by exactly one, and leaves the cached aggregate of every player
/// unchanged.
pub proof fn lemma_submit_non_improvement(
    prev: Store,
    next: Store,
    nv: ScoreV,
    e: ScoreV,
    res: Result<ScoreV, StoreError>,
)
    requires
        prev.wf(),
        prev.has_player(nv.player_id),
        prev.has_song(nv.song_id),
        prev.score_at(nv.player_id, nv.song_id, nv.league) == Some(e),
        nv.score <= e.score,
        submit_post(prev, next, nv, res),
    ensures
        res is Ok,
        next.score_at(nv.player_id, nv.song_id, nv.league) == Some(
            with_count(e, e.play_count + 1),
        ),
        with_count(e, e.play_count + 1).score == e.score,
        forall|q: int| next.points_of(q) == prev.points_of(q),
{
}

/// Improvement: a ride whose value exceeds the stored one overwrites the
/// stored fields, increments the play count by exactly one, and increases
/// the player's cached aggregate by exactly the difference.
pub proof fn lemma_submit_improvement(
    prev: Store,
    next: Store,
    nv: ScoreV,
    e: ScoreV,
    res: Result<ScoreV, StoreError>,
)
    requires
        prev.wf(),
        prev.has_player(nv.player_id),
        prev.has_song(nv.song_id),
        prev.score_at(nv.player_id, nv.song_id, nv.league) == Some(e),
        nv.score > e.score,
        submit_post(prev, next, nv, res),
    ensures
        res is Ok,
        next.score_at(nv.player_id, nv.song_id, nv.league) == Some(
            with_count(nv, e.play_count + 1),
        ),
        with_count(nv, e.play_count + 1).score == nv.score,
        next.points_of(nv.player_id) == prev.points_of(nv.player_id) + (nv.score - e.score),
        forall|q: int| q != nv.player_id ==> next.points_of(q) == prev.points_of(q),
{
}

/// The cumulative skill points of player `p` over the rows of `s`: the sum
/// of the surviving scores' values.
pub open spec fn sum_scores(s: Seq<ScoreV>, p: int) -> int
    decreases s.len(),
{
    if s.len() == 0 {
        0
    } else {
        sum_scores(s.drop_last(), p) + (if s.last().player_id == p {
            s.last().score
        } else {
            0
        })
    }
}

/// The machine bounds a cache rebuild needs: every intermediate per-player
/// sum fits in its width.
pub open spec fn rebuild_fits(prev: Store) -> bool {
    forall|q: int, i: int|
        0 <= i <= prev.scores_v().len() ==> i64::MIN <= #[trigger] sum_scores(
            prev.scores_v().take(i),
            q,
        ) <= i64::MAX
}

impl Store {
    /// Rebuilds the aggregate cache from the durable store: afterwards
    /// every player's cached skill points equal the sum of their surviving
    /// scores' values. The drift-correction path for the cache, which is a
    /// derived projection and not the source of truth.
    pub fn rebuild_skill_points(&mut self)
        requires
            old(self).wf(),
            rebuild_fits(*old(self)),
        ensures
            final(self).wf(),
            forall|q: int|
                final(self).points_of(q) == sum_scores(old(self).scores_v(), q),
            final(self).songs == old(self).songs,
            final(self).extras == old(self).extras,
            final(self).players == old(self).players,
            final(self).scores == old(self).scores,
            final(self).rivalries == old(self).rivalries,
            final(self).next_song_id == old(self).next_song_id,
            final(self).next_player_id == old(self).next_player_id,
    {
        let ghost full = self.scores_v();
        self.skills = Vec::new();
        proof {
            assert(self.skills_v() =~= Seq::<crate::types::SkillEntryV>::empty());
            assert(self.scores_v() == full);
            assert(self.songs_v() == old(self).songs_v());
            assert(self.extras_v() == old(self).extras_v());
            assert(self.players_v() == old(self).players_v());
            assert(self.rivalries_v() == old(self).rivalries_v());
            assert forall|q: int| self.points_of(q) == 0 by {}
            assert(self.wf());
        }
        let mut i: usize = 0;
        while i < self.scores.len()
            invariant
                self.wf(),
                i <= self.scores.len(),
                self.scores == old(self).scores,
                self.scores_v() == full,
                self.songs == old(self).songs,
                self.extras == old(self).extras,
                self.players == old(self).players,
                self.rivalries == old(self).rivalries,
                self.next_song_id == old(self).next_song_id,
                self.next_player_id == old(self).next_player_id,
                forall|q: int| self.points_of(q) == sum_scores(full.take(i as int), q),
            decreases self.scores.len() - i,
        {
            proof {
                assert(self.scores_v()[i as int] == self.scores@[i as int]@);
                assert(full.take(i as int + 1).drop_last() =~= full.take(i as int));
                assert(full.take(i as int + 1).last() == full[i as int]);
            }
            let p = self.scores[i].player_id;
            let val = self.scores[i].score;
            proof {
                assert forall|q: int|
                    sum_scores(full.take(i as int + 1), q) == sum_scores(full.take(i as int), q)
                        + (if q == p as int {
                        val as int
                    } else {
                        0
                    }) by {}
            }
            self.adjust_skill_points(p, val as i64);
            i += 1;
        }
        proof {
            assert(full.take(self.scores@.len() as int) =~= full);
        }
    }
}

} // verus!
