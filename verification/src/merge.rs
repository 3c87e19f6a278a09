//! The Song Merge Engine: folds all scores and metadata of a duplicate song
//! into a canonical target song and deletes the duplicate, conserving play
//! counts, keeping the higher of two competing scores, and releasing the
//! cache contribution of exactly the scores that do not survive.
#![verifier::loop_isolation(false)]

use crate::store::{
    extra_song_pred, first_where, lemma_first_where_char, lemma_first_where_index,
    lemma_first_where_none, lemma_first_where_push, lemma_first_where_remove_nonmatch,
    lemma_first_where_update_nonmatch, score_key_pred, song_id_pred, Store,
};
use crate::text::{dup_opt_string, dup_strings};
use crate::types::{ExtraSongInfo, ExtraSongInfoV, League, Score, ScoreV, Song};
use vstd::prelude::*;

verus! {

/// A score row re-pointed at another song.
pub open spec fn retarget(sc: ScoreV, tgt: int) -> ScoreV {
    ScoreV { song_id: tgt, ..sc }
}

/// A score row with extra plays folded in.
pub open spec fn add_count(sc: ScoreV, extra: int) -> ScoreV {
    ScoreV { play_count: sc.play_count + extra, ..sc }
}

/// Whether two rows share the (player, song, league) key.
pub open spec fn same_key(a: ScoreV, b: ScoreV) -> bool {
    a.player_id == b.player_id && a.song_id == b.song_id && a.league == b.league
}

/// Key uniqueness of a score table.
pub open spec fn unique_keys(s: Seq<ScoreV>) -> bool {
    forall|i: int, j: int| 0 <= i < j < s.len() ==> !same_key(s[i], s[j])
}

/// What survives of the row `sc` when the song `dup` is merged into `tgt`,
/// decided against the full pre-merge table: a duplicate-owned row is
/// re-pointed (absorbing the plays of a strictly lower target row, or
/// dropped when the target row is at least as high); a target-owned row
/// absorbs the plays of a strictly lower duplicate row, or is dropped; any
/// other row is kept as it is.
pub open spec fn merge_row(sc: ScoreV, full: Seq<ScoreV>, dup: int, tgt: int) -> Option<ScoreV> {
    if sc.song_id == dup {
        match first_where(full, score_key_pred(sc.player_id, tgt, sc.league)) {
            None => Some(retarget(sc, tgt)),
            Some(t) => if t.score < sc.score {
                Some(add_count(retarget(sc, tgt), t.play_count))
            } else {
                None
            },
        }
    } else if sc.song_id == tgt {
        match first_where(full, score_key_pred(sc.player_id, dup, sc.league)) {
            None => Some(sc),
            Some(d) => if sc.score < d.score {
                None
            } else {
                Some(add_count(sc, d.play_count))
            },
        }
    } else {
        Some(sc)
    }
}

/// The merged table built from the processed prefix `s` of the full table.
pub open spec fn merge_pass(s: Seq<ScoreV>, full: Seq<ScoreV>, dup: int, tgt: int) -> Seq<ScoreV>
    decreases s.len(),
{
    if s.len() == 0 {
        Seq::empty()
    } else {
        let rest = merge_pass(s.drop_last(), full, dup, tgt);
        match merge_row(s.last(), full, dup, tgt) {
            Some(x) => rest.push(x),
            None => rest,
        }
    }
}

/// The cache contribution released for player `p` over the processed prefix
/// `s`: the sum of the values of the dropped rows.
pub open spec fn merge_drops(s: Seq<ScoreV>, full: Seq<ScoreV>, dup: int, tgt: int, p: int) -> int
    decreases s.len(),
{
    if s.len() == 0 {
        0
    } else {
        merge_drops(s.drop_last(), full, dup, tgt, p) + (if merge_row(
            s.last(),
            full,
            dup,
            tgt,
        ) is None && s.last().player_id == p {
            s.last().score
        } else {
            0
        })
    }
}

/// The surviving row for (p, tgt, l) after the merge: the higher of the two
/// competing rows (the target row on ties), carrying the sum of both play
/// counts; a lone row on either side survives re-pointed at the target.
pub open spec fn merged_at(full: Seq<ScoreV>, dup: int, tgt: int, p: int, l: League) -> Option<
    ScoreV,
> {
    let dopt = first_where(full, score_key_pred(p, dup, l));
    let topt = first_where(full, score_key_pred(p, tgt, l));
    match dopt {
        Some(d) => match topt {
            Some(t) => if t.score < d.score {
                Some(add_count(retarget(d, tgt), t.play_count))
            } else {
                Some(add_count(t, d.play_count))
            },
            None => Some(retarget(d, tgt)),
        },
        None => topt,
    }
}

/// The surviving row for (p, tgt, l) after only the first `m` rows have
/// been processed: the survivor of [`merged_at`], present once its origin
/// row lies in the processed prefix.
pub open spec fn merged_at_prefix(
    full: Seq<ScoreV>,
    m: int,
    dup: int,
    tgt: int,
    p: int,
    l: League,
) -> Option<ScoreV> {
    let dopt = first_where(full, score_key_pred(p, dup, l));
    let topt = first_where(full, score_key_pred(p, tgt, l));
    let d_in = first_where(full.take(m), score_key_pred(p, dup, l)) is Some;
    let t_in = first_where(full.take(m), score_key_pred(p, tgt, l)) is Some;
    match dopt {
        Some(d) => match topt {
            Some(t) => if t.score < d.score {
                if d_in {
                    Some(add_count(retarget(d, tgt), t.play_count))
                } else {
                    None
                }
            } else {
                if t_in {
                    Some(add_count(t, d.play_count))
                } else {
                    None
                }
            },
            None => if d_in {
                Some(retarget(d, tgt))
            } else {
                None
            },
        },
        None => if t_in {
            topt
        } else {
            None
        },
    }
}

/// Per-key behaviour of the merged prefix: no row is left on the duplicate
/// song, the target key holds the gated survivor, and every other song's
/// keys read as in the processed prefix.
pub proof fn lemma_merge_prefix(
    full: Seq<ScoreV>,
    dup: int,
    tgt: int,
    m: int,
    p: int,
    l: League,
)
    requires
        unique_keys(full),
        dup != tgt,
        0 <= m <= full.len(),
    ensures
        first_where(merge_pass(full.take(m), full, dup, tgt), score_key_pred(p, dup, l)) is None,
        first_where(merge_pass(full.take(m), full, dup, tgt), score_key_pred(p, tgt, l))
            == merged_at_prefix(full, m, dup, tgt, p, l),
        forall|s2: int|
            s2 != dup && s2 != tgt ==> first_where(
                merge_pass(full.take(m), full, dup, tgt),
                score_key_pred(p, s2, l),
            ) == first_where(full.take(m), score_key_pred(p, s2, l)),
    decreases m,
{
    let dkey = score_key_pred(p, dup, l);
    let tkey = score_key_pred(p, tgt, l);
    if m == 0 {
        assert(full.take(0) =~= Seq::<ScoreV>::empty());
        assert(merge_pass(full.take(0), full, dup, tgt) =~= Seq::<ScoreV>::empty());
    } else {
        lemma_merge_prefix(full, dup, tgt, m - 1, p, l);
        let x = full[m - 1];
        let prior = merge_pass(full.take(m - 1), full, dup, tgt);
        assert(full.take(m).drop_last() =~= full.take(m - 1));
        assert(full.take(m).last() == x);
        let y = merge_row(x, full, dup, tgt);
        assert(merge_pass(full.take(m), full, dup, tgt) == (match y {
            Some(v) => prior.push(v),
            None => prior,
        }));
        assert(full.take(m) =~= full.take(m - 1).push(x));
        lemma_first_where_push(full.take(m - 1), dkey, x);
        lemma_first_where_push(full.take(m - 1), tkey, x);
        if dkey(x) {
            assert forall|j: int| 0 <= j < m - 1 implies !dkey(full[j]) by {
                assert(!same_key(full[j], full[m - 1]));
            }
            lemma_first_where_index(full, dkey, m - 1);
        }
        if tkey(x) {
            assert forall|j: int| 0 <= j < m - 1 implies !tkey(full[j]) by {
                assert(!same_key(full[j], full[m - 1]));
            }
            lemma_first_where_index(full, tkey, m - 1);
        }
        match y {
            Some(v) => {
                lemma_first_where_push(prior, dkey, v);
                lemma_first_where_push(prior, tkey, v);
                assert(first_where(merge_pass(full.take(m), full, dup, tgt), dkey) is None);
                assert(first_where(merge_pass(full.take(m), full, dup, tgt), tkey)
                    == merged_at_prefix(full, m, dup, tgt, p, l));
                assert forall|s2: int| s2 != dup && s2 != tgt implies first_where(
                    merge_pass(full.take(m), full, dup, tgt),
                    score_key_pred(p, s2, l),
                ) == first_where(full.take(m), score_key_pred(p, s2, l)) by {
                    lemma_first_where_push(prior, score_key_pred(p, s2, l), v);
                    lemma_first_where_push(full.take(m - 1), score_key_pred(p, s2, l), x);
                }
            },
            None => {
                assert(first_where(merge_pass(full.take(m), full, dup, tgt), tkey)
                    == merged_at_prefix(full, m, dup, tgt, p, l));
                assert forall|s2: int| s2 != dup && s2 != tgt implies first_where(
                    merge_pass(full.take(m), full, dup, tgt),
                    score_key_pred(p, s2, l),
                ) == first_where(full.take(m), score_key_pred(p, s2, l)) by {
                    lemma_first_where_push(full.take(m - 1), score_key_pred(p, s2, l), x);
                }
            },
        }
    }
}

/// Every merged row originates in a processed row, and the merged prefix
/// keeps key uniqueness.
pub proof fn lemma_merge_pass_wf(full: Seq<ScoreV>, dup: int, tgt: int, m: int)
    requires
        unique_keys(full),
        dup != tgt,
        0 <= m <= full.len(),
    ensures
        unique_keys(merge_pass(full.take(m), full, dup, tgt)),
        forall|k: int|
            0 <= k < merge_pass(full.take(m), full, dup, tgt).len() ==> exists|j: int|
                0 <= j < m && merge_row(full[j], full, dup, tgt) == Some(
                    #[trigger] merge_pass(full.take(m), full, dup, tgt)[k],
                ),
    decreases m,
{
    if m == 0 {
        assert(full.take(0) =~= Seq::<ScoreV>::empty());
        assert(merge_pass(full.take(0), full, dup, tgt) =~= Seq::<ScoreV>::empty());
    } else {
        lemma_merge_pass_wf(full, dup, tgt, m - 1);
        let x = full[m - 1];
        let prior = merge_pass(full.take(m - 1), full, dup, tgt);
        assert(full.take(m).drop_last() =~= full.take(m - 1));
        assert(full.take(m).last() == x);
        let y = merge_row(x, full, dup, tgt);
        assert(merge_pass(full.take(m), full, dup, tgt) == (match y {
            Some(v) => prior.push(v),
            None => prior,
        }));
        match y {
            Some(v) => {
                let merged = prior.push(v);
                // The new row's key is absent from the prior prefix.
                lemma_merge_prefix(full, dup, tgt, m - 1, x.player_id, x.league);
                let vkey = score_key_pred(v.player_id, v.song_id, v.league);
                if x.song_id == dup || x.song_id == tgt {
                    assert(v.song_id == tgt);
                    if x.song_id == dup {
                        assert forall|j: int| 0 <= j < m - 1 implies !score_key_pred(
                            x.player_id,
                            dup,
                            x.league,
                        )(full[j]) by {
                            assert(!same_key(full[j], full[m - 1]));
                        }
                        lemma_first_where_none(
                            full.take(m - 1),
                            score_key_pred(x.player_id, dup, x.league),
                        );
                        lemma_first_where_index(
                            full,
                            score_key_pred(x.player_id, dup, x.league),
                            m - 1,
                        );
                    } else {
                        assert forall|j: int| 0 <= j < m - 1 implies !score_key_pred(
                            x.player_id,
                            tgt,
                            x.league,
                        )(full[j]) by {
                            assert(!same_key(full[j], full[m - 1]));
                        }
                        lemma_first_where_none(
                            full.take(m - 1),
                            score_key_pred(x.player_id, tgt, x.league),
                        );
                        lemma_first_where_index(
                            full,
                            score_key_pred(x.player_id, tgt, x.league),
                            m - 1,
                        );
                    }
                    assert(first_where(prior, score_key_pred(x.player_id, tgt, x.league))
                        is None);
                    lemma_first_where_char(prior, score_key_pred(x.player_id, tgt, x.league));
                } else {
                    assert(v == x);
                    assert forall|j: int| 0 <= j < m - 1 implies !score_key_pred(
                        x.player_id,
                        x.song_id,
                        x.league,
                    )(full[j]) by {
                        assert(!same_key(full[j], full[m - 1]));
                    }
                    lemma_first_where_none(
                        full.take(m - 1),
                        score_key_pred(x.player_id, x.song_id, x.league),
                    );
                    assert(first_where(prior, score_key_pred(x.player_id, x.song_id, x.league))
                        is None);
                    lemma_first_where_char(
                        prior,
                        score_key_pred(x.player_id, x.song_id, x.league),
                    );
                }
                assert forall|a: int, b: int| 0 <= a < b < merged.len() implies !same_key(
                    merged[a],
                    merged[b],
                ) by {
                    if b < prior.len() {
                        assert(merged[a] == prior[a] && merged[b] == prior[b]);
                    } else {
                        assert(merged[b] == v);
                        assert(merged[a] == prior[a]);
                        if same_key(prior[a], v) {
                            assert(score_key_pred(v.player_id, v.song_id, v.league)(prior[a]));
                            assert(false);
                        }
                    }
                }
                assert forall|k: int| 0 <= k < merged.len() implies exists|j: int|
                    0 <= j < m && merge_row(full[j], full, dup, tgt) == Some(
                        #[trigger] merged[k],
                    ) by {
                    if k < prior.len() {
                        assert(merged[k] == prior[k]);
                        let j0 = choose|j: int|
                            0 <= j < m - 1 && merge_row(full[j], full, dup, tgt) == Some(
                                #[trigger] prior[k],
                            );
                        assert(merge_row(full[j0], full, dup, tgt) == Some(merged[k]));
                    } else {
                        assert(merged[k] == v);
                        assert(merge_row(full[m - 1], full, dup, tgt) == Some(merged[k]));
                    }
                }
            },
            None => {
                assert forall|k: int| 0 <= k < prior.len() implies exists|j: int|
                    0 <= j < m && merge_row(full[j], full, dup, tgt) == Some(
                        #[trigger] prior[k],
                    ) by {
                    let j0 = choose|j: int|
                        0 <= j < m - 1 && merge_row(full[j], full, dup, tgt) == Some(
                            #[trigger] prior[k],
                        );
                    assert(merge_row(full[j0], full, dup, tgt) == Some(prior[k]));
                }
            },
        }
    }
}

/// View of a score table held as a vector.
pub open spec fn rows_v(s: Seq<Score>) -> Seq<ScoreV> {
    s.map_values(|x: Score| x@)
}

/// The machine bounds a merge needs: every play-count sum it writes fits in
/// its width, and every intermediate cache value fits in its width.
pub open spec fn merge_fits(prev: Store, dup: int, tgt: int) -> bool {
    let full = prev.scores_v();
    &&& (forall|i: int|
        0 <= i < full.len() && full[i].song_id == dup ==> (match first_where(
            full,
            score_key_pred(full[i].player_id, tgt, full[i].league),
        ) {
            Some(t) => i32::MIN <= full[i].play_count + t.play_count <= i32::MAX,
            None => true,
        }))
    &&& (forall|i: int|
        0 <= i < full.len() && full[i].song_id == tgt ==> (match first_where(
            full,
            score_key_pred(full[i].player_id, dup, full[i].league),
        ) {
            Some(d) => i32::MIN <= full[i].play_count + d.play_count <= i32::MAX,
            None => true,
        }))
    &&& (forall|q: int, i: int|
        0 <= i <= full.len() ==> i64::MIN <= prev.points_of(q) - #[trigger] merge_drops(
            full.take(i),
            full,
            dup,
            tgt,
            q,
        ) <= i64::MAX)
}

impl Store {
    /// One pass over the score table: re-points, folds or drops each row as
    /// [`merge_row`] decides, releasing the cache contribution of each
    /// dropped row as it goes.
    fn merge_scores(&mut self, dup: i32, tgt: i32)
        requires
            old(self).wf(),
            old(self).has_song(tgt as int),
            dup != tgt,
            merge_fits(*old(self), dup as int, tgt as int),
        ensures
            final(self).wf(),
            final(self).scores_v() == merge_pass(
                old(self).scores_v(),
                old(self).scores_v(),
                dup as int,
                tgt as int,
            ),
            forall|q: int|
                final(self).points_of(q) == old(self).points_of(q) - merge_drops(
                    old(self).scores_v(),
                    old(self).scores_v(),
                    dup as int,
                    tgt as int,
                    q,
                ),
            final(self).songs == old(self).songs,
            final(self).extras == old(self).extras,
            final(self).players == old(self).players,
            final(self).rivalries == old(self).rivalries,
            final(self).next_song_id == old(self).next_song_id,
            final(self).next_player_id == old(self).next_player_id,
    {
        let ghost full = self.scores_v();
        let ghost dupi = dup as int;
        let ghost tgti = tgt as int;
        let mut kept: Vec<Score> = Vec::new();
        let mut i: usize = 0;
        while i < self.scores.len()
            invariant
                self.wf(),
                self.scores == old(self).scores,
                self.scores_v() == full,
                self.songs == old(self).songs,
                self.extras == old(self).extras,
                self.players == old(self).players,
                self.rivalries == old(self).rivalries,
                self.next_song_id == old(self).next_song_id,
                self.next_player_id == old(self).next_player_id,
                i <= self.scores.len(),
                rows_v(kept@) == merge_pass(full.take(i as int), full, dupi, tgti),
                forall|q: int|
                    self.points_of(q) == old(self).points_of(q) - merge_drops(
                        full.take(i as int),
                        full,
                        dupi,
                        tgti,
                        q,
                    ),
            decreases self.scores.len() - i,
        {
            let ghost prior = rows_v(kept@);
            proof {
                assert(self.scores_v()[i as int] == self.scores@[i as int]@);
                assert(full.take(i as int + 1).drop_last() =~= full.take(i as int));
                assert(full.take(i as int + 1).last() == full[i as int]);
            }
            let p = self.scores[i].player_id;
            let l = self.scores[i].league;
            let song = self.scores[i].song_id;
            let val = self.scores[i].score;
            let pc = self.scores[i].play_count;
            if song == dup {
                match self.find_score_index(p, tgt, l) {
                    None => {
                        let mut row = self.scores[i].duplicate();
                        row.song_id = tgt;
                        proof {
                            assert(row@ == retarget(full[i as int], tgti));
                            assert(merge_row(full[i as int], full, dupi, tgti) == Some(row@));
                            assert(rows_v(kept@.push(row)) =~= prior.push(row@));
                        }
                        kept.push(row);
                    },
                    Some(ti) => {
                        proof {
                            assert(self.scores_v()[ti as int] == self.scores@[ti as int]@);
                        }
                        let t_val = self.scores[ti].score;
                        let t_pc = self.scores[ti].play_count;
                        if t_val < val {
                            let mut row = self.scores[i].duplicate();
                            row.song_id = tgt;
                            row.play_count = pc + t_pc;
                            proof {
                                assert(row@ == add_count(
                                    retarget(full[i as int], tgti),
                                    t_pc as int,
                                ));
                                assert(merge_row(full[i as int], full, dupi, tgti) == Some(
                                    row@,
                                ));
                                assert(rows_v(kept@.push(row)) =~= prior.push(row@));
                            }
                            kept.push(row);
                        } else {
                            proof {
                                assert(merge_row(full[i as int], full, dupi, tgti) is None);
                                assert(full[i as int].player_id == p as int);
                                assert forall|q: int|
                                    merge_drops(full.take(i as int + 1), full, dupi, tgti, q)
                                        == merge_drops(full.take(i as int), full, dupi, tgti, q)
                                        + (if q == p as int {
                                        val as int
                                    } else {
                                        0
                                    }) by {}
                            }
                            self.adjust_skill_points(p, -(val as i64));
                        }
                    },
                }
            } else if song == tgt {
                match self.find_score_index(p, dup, l) {
                    None => {
                        let row = self.scores[i].duplicate();
                        proof {
                            assert(merge_row(full[i as int], full, dupi, tgti) == Some(row@));
                            assert(rows_v(kept@.push(row)) =~= prior.push(row@));
                        }
                        kept.push(row);
                    },
                    Some(di) => {
                        proof {
                            assert(self.scores_v()[di as int] == self.scores@[di as int]@);
                        }
                        let d_val = self.scores[di].score;
                        let d_pc = self.scores[di].play_count;
                        if val < d_val {
                            proof {
                                assert(merge_row(full[i as int], full, dupi, tgti) is None);
                                assert forall|q: int|
                                    merge_drops(full.take(i as int + 1), full, dupi, tgti, q)
                                        == merge_drops(full.take(i as int), full, dupi, tgti, q)
                                        + (if q == p as int {
                                        val as int
                                    } else {
                                        0
                                    }) by {}
                            }
                            self.adjust_skill_points(p, -(val as i64));
                        } else {
                            let mut row = self.scores[i].duplicate();
                            row.play_count = pc + d_pc;
                            proof {
                                assert(row@ == add_count(full[i as int], d_pc as int));
                                assert(merge_row(full[i as int], full, dupi, tgti) == Some(
                                    row@,
                                ));
                                assert(rows_v(kept@.push(row)) =~= prior.push(row@));
                            }
                            kept.push(row);
                        }
                    },
                }
            } else {
                let row = self.scores[i].duplicate();
                proof {
                    assert(merge_row(full[i as int], full, dupi, tgti) == Some(row@));
                    assert(rows_v(kept@.push(row)) =~= prior.push(row@));
                }
                kept.push(row);
            }
            i += 1;
        }
        proof {
            assert(full.take(self.scores@.len() as int) =~= full);
        }
        let ghost pre = *self;
        self.scores = kept;
        proof {
            let merged = merge_pass(full, full, dupi, tgti);
            assert(self.skills == pre.skills);
            assert forall|q: int|
                self.points_of(q) == old(self).points_of(q) - merge_drops(
                    full,
                    full,
                    dupi,
                    tgti,
                    q,
                ) by {
                assert(self.skills_v() == pre.skills_v());
                assert(pre.points_of(q) == old(self).points_of(q) - merge_drops(
                    full.take(full.len() as int),
                    full,
                    dupi,
                    tgti,
                    q,
                ));
            }
            assert(self.scores_v() =~= rows_v(self.scores@));
            assert(self.scores_v() == merged);
            lemma_merge_pass_wf(full, dupi, tgti, full.len() as int);
            assert(self.songs_v() == old(self).songs_v());
            assert(self.extras_v() == old(self).extras_v());
            assert(self.players_v() == old(self).players_v());
            assert(self.rivalries_v() == old(self).rivalries_v());
            assert forall|a: int, b: int|
                0 <= a < b < self.scores_v().len() implies !(self.scores_v()[a].player_id
                == self.scores_v()[b].player_id && self.scores_v()[a].song_id
                == self.scores_v()[b].song_id && self.scores_v()[a].league
                == self.scores_v()[b].league) by {
                assert(self.scores_v()[a] == merged[a]);
                assert(self.scores_v()[b] == merged[b]);
                assert(!same_key(merged[a], merged[b]));
            }
            assert forall|k: int| 0 <= k < self.scores_v().len() implies self.has_song(
                self.scores_v()[k].song_id,
            ) && self.has_player(self.scores_v()[k].player_id) by {
                assert(self.scores_v()[k] == merged[k]);
                let j = choose|j: int|
                    0 <= j < full.len() && merge_row(full[j], full, dupi, tgti) == Some(
                        #[trigger] merged[k],
                    );
                assert(merged[k].player_id == full[j].player_id);
                assert(merged[k].song_id == tgti || merged[k].song_id == full[j].song_id);
                assert(old(self).has_song(full[j].song_id));
                assert(old(self).has_player(full[j].player_id));
            }
            assert(self.wf());
        }
    }
}

impl Store {
    /// Removes the extra-info row of the given song, if one exists; the
    /// referential cascade of deleting that song.
    fn remove_extra_row(&mut self, song_id: i32)
        requires
            old(self).wf(),
        ensures
            final(self).wf(),
            final(self).extra_for(song_id as int) is None,
            forall|q: int|
                q != song_id as int ==> final(self).extra_for(q) == old(self).extra_for(q),
            final(self).songs == old(self).songs,
            final(self).players == old(self).players,
            final(self).scores == old(self).scores,
            final(self).rivalries == old(self).rivalries,
            final(self).skills == old(self).skills,
            final(self).next_song_id == old(self).next_song_id,
            final(self).next_player_id == old(self).next_player_id,
    {
        let ghost old_extras = self.extras_v();
        match self.find_extra_index(song_id) {
            Some(xi) => {
                self.extras.remove(xi);
                proof {
                    assert(self.extras_v() =~= old_extras.remove(xi as int));
                    assert forall|k: int|
                        0 <= k < self.extras_v().len() implies self.extras_v()[k] == (if k
                        < xi as int {
                        old_extras[k]
                    } else {
                        old_extras[k + 1]
                    }) by {}
                    assert forall|k: int|
                        0 <= k < self.extras_v().len() implies self.extras_v()[k].song_id
                        != song_id as int by {}
                    lemma_first_where_none(self.extras_v(), extra_song_pred(song_id as int));
                    assert forall|q: int| q != song_id as int implies self.extra_for(q) == old(
                        self,
                    ).extra_for(q) by {
                        lemma_first_where_remove_nonmatch(
                            old_extras,
                            extra_song_pred(q),
                            xi as int,
                        );
                    }
                    assert(self.songs_v() == old(self).songs_v());
                    assert(self.players_v() == old(self).players_v());
                    assert(self.scores_v() == old(self).scores_v());
                    assert(self.rivalries_v() == old(self).rivalries_v());
                    assert(self.skills_v() == old(self).skills_v());
                    assert(self.wf());
                }
            },
            None => {
            },
        }
    }

    /// Removes the song row itself, once nothing references it any more.
    fn remove_song_row(&mut self, song_id: i32)
        requires
            old(self).wf(),
            old(self).extra_for(song_id as int) is None,
            forall|k: int|
                0 <= k < old(self).scores_v().len() ==> old(self).scores_v()[k].song_id
                    != song_id as int,
        ensures
            final(self).wf(),
            final(self).song_by_id(song_id as int) is None,
            forall|q: int|
                q != song_id as int ==> final(self).song_by_id(q) == old(self).song_by_id(q),
            final(self).extras == old(self).extras,
            final(self).players == old(self).players,
            final(self).scores == old(self).scores,
            final(self).rivalries == old(self).rivalries,
            final(self).skills == old(self).skills,
            final(self).next_song_id == old(self).next_song_id,
            final(self).next_player_id == old(self).next_player_id,
    {
        let ghost old_songs = self.songs_v();
        match self.find_song_index(song_id) {
            Some(si) => {
                self.songs.remove(si);
                proof {
                    assert(self.songs_v() =~= old_songs.remove(si as int));
                    assert forall|k: int|
                        0 <= k < self.songs_v().len() implies self.songs_v()[k] == (if k
                        < si as int {
                        old_songs[k]
                    } else {
                        old_songs[k + 1]
                    }) by {}
                    assert forall|k: int|
                        0 <= k < self.songs_v().len() implies self.songs_v()[k].id
                        != song_id as int by {}
                    lemma_first_where_none(self.songs_v(), song_id_pred(song_id as int));
                    assert forall|q: int| q != song_id as int implies self.song_by_id(q) == old(
                        self,
                    ).song_by_id(q) by {
                        lemma_first_where_remove_nonmatch(old_songs, song_id_pred(q), si as int);
                    }
                    assert(self.extras_v() == old(self).extras_v());
                    assert(self.players_v() == old(self).players_v());
                    assert(self.scores_v() == old(self).scores_v());
                    assert(self.rivalries_v() == old(self).rivalries_v());
                    assert(self.skills_v() == old(self).skills_v());
                    assert forall|k: int| 0 <= k < self.extras_v().len() implies self.has_song(
                        self.extras_v()[k].song_id,
                    ) by {
                        assert(old(self).has_song(old(self).extras_v()[k].song_id));
                        if old(self).extras_v()[k].song_id == song_id as int {
                            lemma_first_where_char(
                                old(self).extras_v(),
                                extra_song_pred(song_id as int),
                            );
                            assert(false);
                        }
                    }
                    assert forall|k: int| 0 <= k < self.scores_v().len() implies self.has_song(
                        self.scores_v()[k].song_id,
                    ) by {
                        assert(old(self).has_song(old(self).scores_v()[k].song_id));
                    }
                    assert(self.wf());
                }
            },
            None => {
            },
        }
    }
}

/// The full effect of a merge: the score table and cache as the merge pass
/// leaves them, the duplicate song and its extra info gone, and — when
/// aliasing is asked for — the duplicate's own title and artist appended to
/// the target's alias lists (creating the target's extra-info row if it was
/// absent).
pub open spec fn merge_post(
    prev: Store,
    next: Store,
    dup_id: int,
    dup_title: Seq<char>,
    dup_artist: Seq<char>,
    tgt: int,
    should_alias: bool,
) -> bool {
    &&& next.scores_v() == merge_pass(prev.scores_v(), prev.scores_v(), dup_id, tgt)
    &&& (forall|q: int|
        next.points_of(q) == prev.points_of(q) - merge_drops(
            prev.scores_v(),
            prev.scores_v(),
            dup_id,
            tgt,
            q,
        ))
    &&& next.song_by_id(dup_id) is None
    &&& (forall|q: int| q != dup_id ==> next.song_by_id(q) == prev.song_by_id(q))
    &&& next.extra_for(dup_id) is None
    &&& (if should_alias {
        &&& (match prev.extra_for(tgt) {
            Some(e) => next.extra_for(tgt) == Some(
                ExtraSongInfoV {
                    aliases_title: e.aliases_title.push(dup_title),
                    aliases_artist: e.aliases_artist.push(dup_artist),
                    ..e
                },
            ),
            None => next.extra_for(tgt) == Some(
                ExtraSongInfoV {
                    song_id: tgt,
                    mbid: None,
                    musicbrainz_title: None,
                    musicbrainz_artist: None,
                    aliases_title: seq![dup_title],
                    aliases_artist: seq![dup_artist],
                },
            ),
        })
        &&& (forall|q: int|
            q != dup_id && q != tgt ==> next.extra_for(q) == prev.extra_for(q))
    } else {
        forall|q: int| q != dup_id ==> next.extra_for(q) == prev.extra_for(q)
    })
    &&& next.players == prev.players
    &&& next.rivalries == prev.rivalries
    &&& next.next_song_id == prev.next_song_id
    &&& next.next_player_id == prev.next_player_id
}

impl Store {
    /// Appends the duplicate's title and artist to the target's alias
    /// lists, creating the target's extra-info row if it has none.
    fn append_aliases(&mut self, tgt: i32, title: &String, artist: &String)
        requires
            old(self).wf(),
            old(self).has_song(tgt as int),
        ensures
            final(self).wf(),
            match old(self).extra_for(tgt as int) {
                Some(e) => final(self).extra_for(tgt as int) == Some(
                    ExtraSongInfoV {
                        aliases_title: e.aliases_title.push(title@),
                        aliases_artist: e.aliases_artist.push(artist@),
                        ..e
                    },
                ),
                None => final(self).extra_for(tgt as int) == Some(
                    ExtraSongInfoV {
                        song_id: tgt as int,
                        mbid: None,
                        musicbrainz_title: None,
                        musicbrainz_artist: None,
                        aliases_title: seq![title@],
                        aliases_artist: seq![artist@],
                    },
                ),
            },
            forall|q: int| q != tgt as int ==> final(self).extra_for(q) == old(self).extra_for(q),
            final(self).songs == old(self).songs,
            final(self).players == old(self).players,
            final(self).scores == old(self).scores,
            final(self).rivalries == old(self).rivalries,
            final(self).skills == old(self).skills,
            final(self).next_song_id == old(self).next_song_id,
            final(self).next_player_id == old(self).next_player_id,
    {
        let ghost old_extras = self.extras_v();
        match self.find_extra_index(tgt) {
            Some(ei) => {
                let ghost e_v = self.extras_v()[ei as int];
                let e = &self.extras[ei];
                let mut at = dup_strings(&e.aliases_title);
                at.push(title.clone());
                let mut aa = dup_strings(&e.aliases_artist);
                aa.push(artist.clone());
                let new_entry = ExtraSongInfo {
                    song_id: e.song_id,
                    mbid: dup_opt_string(&e.mbid),
                    musicbrainz_title: dup_opt_string(&e.musicbrainz_title),
                    musicbrainz_artist: dup_opt_string(&e.musicbrainz_artist),
                    aliases_title: at,
                    aliases_artist: aa,
                };
                proof {
                    assert(self.extras_v()[ei as int] == self.extras@[ei as int]@);
                    assert(new_entry@.aliases_title =~= e_v.aliases_title.push(title@));
                    assert(new_entry@.aliases_artist =~= e_v.aliases_artist.push(artist@));
                    assert(new_entry@ == (ExtraSongInfoV {
                        aliases_title: e_v.aliases_title.push(title@),
                        aliases_artist: e_v.aliases_artist.push(artist@),
                        ..e_v
                    }));
                }
                let ghost new_v = new_entry@;
                self.extras[ei] = new_entry;
                proof {
                    assert(self.extras_v() =~= old_extras.update(ei as int, new_v));
                    lemma_first_where_index(self.extras_v(), extra_song_pred(tgt as int), ei as int);
                    assert forall|q: int| q != tgt as int implies self.extra_for(q) == old(
                        self,
                    ).extra_for(q) by {
                        lemma_first_where_update_nonmatch(
                            old_extras,
                            extra_song_pred(q),
                            ei as int,
                            new_v,
                        );
                    }
                    assert(self.songs_v() == old(self).songs_v());
                    assert(self.players_v() == old(self).players_v());
                    assert(self.scores_v() == old(self).scores_v());
                    assert(self.rivalries_v() == old(self).rivalries_v());
                    assert(self.skills_v() == old(self).skills_v());
                    assert forall|a: int, b: int|
                        0 <= a < b < self.extras_v().len() implies self.extras_v()[a].song_id
                        != self.extras_v()[b].song_id by {
                        assert(self.extras_v()[a].song_id == old_extras[a].song_id);
                        assert(self.extras_v()[b].song_id == old_extras[b].song_id);
                    }
                    assert forall|k: int| 0 <= k < self.extras_v().len() implies self.has_song(
                        self.extras_v()[k].song_id,
                    ) by {
                        assert(self.extras_v()[k].song_id == old_extras[k].song_id);
                        assert(old(self).has_song(old_extras[k].song_id));
                    }
                    assert(self.wf());
                }
            },
            None => {
                let mut at: Vec<String> = Vec::new();
                at.push(title.clone());
                let mut aa: Vec<String> = Vec::new();
                aa.push(artist.clone());
                let new_entry = ExtraSongInfo {
                    song_id: tgt,
                    mbid: None,
                    musicbrainz_title: None,
                    musicbrainz_artist: None,
                    aliases_title: at,
                    aliases_artist: aa,
                };
                proof {
                    assert(new_entry@.aliases_title =~= seq![title@]);
                    assert(new_entry@.aliases_artist =~= seq![artist@]);
                }
                let ghost new_v = new_entry@;
                self.extras.push(new_entry);
                proof {
                    assert(self.extras_v() =~= old_extras.push(new_v));
                    lemma_first_where_push(old_extras, extra_song_pred(tgt as int), new_v);
                    assert forall|q: int| q != tgt as int implies self.extra_for(q) == old(
                        self,
                    ).extra_for(q) by {
                        lemma_first_where_push(old_extras, extra_song_pred(q), new_v);
                    }
                    assert(self.songs_v() == old(self).songs_v());
                    assert(self.players_v() == old(self).players_v());
                    assert(self.scores_v() == old(self).scores_v());
                    assert(self.rivalries_v() == old(self).rivalries_v());
                    assert(self.skills_v() == old(self).skills_v());
                    lemma_first_where_char(old_extras, extra_song_pred(tgt as int));
                    assert forall|a: int, b: int|
                        0 <= a < b < self.extras_v().len() implies self.extras_v()[a].song_id
                        != self.extras_v()[b].song_id by {
                        assert(self.extras_v()[a] == old_extras[a]);
                        if b < old_extras.len() {
                            assert(self.extras_v()[b] == old_extras[b]);
                        } else {
                            assert(self.extras_v()[b] == new_v);
                        }
                    }
                    assert forall|k: int| 0 <= k < self.extras_v().len() implies self.has_song(
                        self.extras_v()[k].song_id,
                    ) by {
                        if k < old_extras.len() {
                            assert(self.extras_v()[k] == old_extras[k]);
                            assert(old(self).has_song(old_extras[k].song_id));
                        } else {
                            assert(self.extras_v()[k] == new_v);
                        }
                    }
                    assert(self.wf());
                }
            },
        }
    }
}

impl Song {
    /// Merges this song into the target: every score of this song is folded
    /// into the target's table as [`merge_row`] decides, the cache releases
    /// exactly the dropped rows, optionally this song's title and artist
    /// are appended to the target's alias lists, and this song and its
    /// extra info are deleted.
    pub fn merge_into(&self, target: i32, should_alias: bool, store: &mut Store)
        requires
            old(store).wf(),
            old(store).has_song(self.id as int),
            old(store).has_song(target as int),
            self.id != target,
            merge_fits(*old(store), self.id as int, target as int),
        ensures
            final(store).wf(),
            merge_post(
                *old(store),
                *final(store),
                self.id as int,
                self.title@,
                self.artist@,
                target as int,
                should_alias,
            ),
    {
        let ghost full = store.scores_v();
        let ghost dupi = self.id as int;
        let ghost tgti = target as int;
        store.merge_scores(self.id, target);
        proof {
            assert(full.take(full.len() as int) =~= full);
            assert forall|k: int|
                0 <= k < store.scores_v().len() implies store.scores_v()[k].song_id != dupi by {
                let row = store.scores_v()[k];
                lemma_merge_prefix(full, dupi, tgti, full.len() as int, row.player_id, row.league);
                if row.song_id == dupi {
                    lemma_first_where_char(
                        store.scores_v(),
                        score_key_pred(row.player_id, dupi, row.league),
                    );
                }
            }
        }
        let ghost s1 = *store;
        if should_alias {
            store.append_aliases(target, &self.title, &self.artist);
        }
        let ghost s2 = *store;
        proof {
            assert(store.scores == s1.scores);
            assert(store.scores_v() == s1.scores_v());
            assert forall|k: int|
                0 <= k < store.scores_v().len() implies store.scores_v()[k].song_id != dupi by {
                assert(store.scores_v()[k] == s1.scores_v()[k]);
            }
        }
        store.remove_extra_row(self.id);
        let ghost s3 = *store;
        proof {
            assert(store.scores == s1.scores);
            assert(store.scores_v() == s1.scores_v());
            assert forall|k: int|
                0 <= k < store.scores_v().len() implies store.scores_v()[k].song_id != dupi by {
                assert(store.scores_v()[k] == s1.scores_v()[k]);
            }
        }
        store.remove_song_row(self.id);
        proof {
            // Scores and cache as the merge pass left them.
            assert(store.scores == s1.scores);
            assert(store.scores_v() == s1.scores_v());
            assert(store.skills == s1.skills);
            assert forall|q: int|
                store.points_of(q) == old(store).points_of(q) - merge_drops(
                    full,
                    full,
                    dupi,
                    tgti,
                    q,
                ) by {
                assert(store.skills_v() == s1.skills_v());
                assert(store.points_of(q) == s1.points_of(q));
                assert(s1.points_of(q) == old(store).points_of(q) - merge_drops(
                    old(store).scores_v(),
                    old(store).scores_v(),
                    dupi,
                    tgti,
                    q,
                ));
                assert(old(store).scores_v() == full);
            }
            // Song rows.
            assert(store.song_by_id(dupi) is None);
            assert forall|q: int| q != dupi implies store.song_by_id(q) == old(
                store,
            ).song_by_id(q) by {
                assert(store.song_by_id(q) == s3.song_by_id(q));
                assert(s3.songs == s1.songs);
                assert(s3.songs_v() == s1.songs_v());
                assert(s1.songs == old(store).songs);
                assert(s1.songs_v() == old(store).songs_v());
            }
            // Extra rows.
            assert(store.extra_for(dupi) is None);
            if should_alias {
                assert(s2.extra_for(tgti) == (match s1.extra_for(tgti) {
                    Some(e) => Some(
                        ExtraSongInfoV {
                            aliases_title: e.aliases_title.push(self.title@),
                            aliases_artist: e.aliases_artist.push(self.artist@),
                            ..e
                        },
                    ),
                    None => Some(
                        ExtraSongInfoV {
                            song_id: tgti,
                            mbid: None,
                            musicbrainz_title: None,
                            musicbrainz_artist: None,
                            aliases_title: seq![self.title@],
                            aliases_artist: seq![self.artist@],
                        },
                    ),
                }));
                assert(s1.extras == old(store).extras);
                assert(s1.extras_v() == old(store).extras_v());
                assert(s1.extra_for(tgti) == old(store).extra_for(tgti));
                assert(store.extra_for(tgti) == s3.extra_for(tgti));
                assert(s3.extra_for(tgti) == s2.extra_for(tgti));
                assert forall|q: int| q != dupi && q != tgti implies store.extra_for(q) == old(
                    store,
                ).extra_for(q) by {
                    assert(store.extra_for(q) == s3.extra_for(q));
                    assert(s3.extra_for(q) == s2.extra_for(q));
                    assert(s2.extra_for(q) == s1.extra_for(q));
                    assert(s1.extra_for(q) == old(store).extra_for(q));
                }
            } else {
                assert(s2 == s1);
                assert forall|q: int| q != dupi implies store.extra_for(q) == old(
                    store,
                ).extra_for(q) by {
                    assert(store.extra_for(q) == s3.extra_for(q));
                    assert(s3.extra_for(q) == s2.extra_for(q));
                    assert(s1.extras == old(store).extras);
                    assert(s1.extras_v() == old(store).extras_v());
                    assert(s1.extra_for(q) == old(store).extra_for(q));
                }
            }
        }
    }
}

/// What survives of the row `sc` when the song `id` is deleted.
pub open spec fn delete_row(sc: ScoreV, id: int) -> Option<ScoreV> {
    if sc.song_id == id {
        None
    } else {
        Some(sc)
    }
}

/// The score table after the first `m` rows have been processed for a
/// deletion of song `id`.
pub open spec fn delete_pass(s: Seq<ScoreV>, id: int) -> Seq<ScoreV>
    decreases s.len(),
{
    if s.len() == 0 {
        Seq::empty()
    } else {
        let rest = delete_pass(s.drop_last(), id);
        match delete_row(s.last(), id) {
            Some(x) => rest.push(x),
            None => rest,
        }
    }
}

/// The cache contribution released for player `p` by deleting song `id`
/// over the prefix `s`.
pub open spec fn delete_drops(s: Seq<ScoreV>, id: int, p: int) -> int
    decreases s.len(),
{
    if s.len() == 0 {
        0
    } else {
        delete_drops(s.drop_last(), id, p) + (if s.last().song_id == id && s.last().player_id
            == p {
            s.last().score
        } else {
            0
        })
    }
}

/// The machine bounds a deletion needs: every intermediate cache value fits
/// in its width.
pub open spec fn delete_fits(prev: Store, id: int) -> bool {
    forall|q: int, i: int|
        0 <= i <= prev.scores_v().len() ==> i64::MIN <= prev.points_of(q) - #[trigger] delete_drops(
            prev.scores_v().take(i),
            id,
            q,
        ) <= i64::MAX
}

/// Every kept row is an untouched original row not owned by the deleted
/// song, and the kept prefix keeps key uniqueness.
pub proof fn lemma_delete_pass_wf(s: Seq<ScoreV>, id: int, m: int)
    requires
        unique_keys(s),
        0 <= m <= s.len(),
    ensures
        unique_keys(delete_pass(s.take(m), id)),
        forall|k: int|
            0 <= k < delete_pass(s.take(m), id).len() ==> #[trigger] delete_pass(
                s.take(m),
                id,
            )[k].song_id != id,
        forall|k: int|
            0 <= k < delete_pass(s.take(m), id).len() ==> exists|j: int|
                0 <= j < m && s[j] == #[trigger] delete_pass(s.take(m), id)[k],
    decreases m,
{
    if m == 0 {
        assert(s.take(0) =~= Seq::<ScoreV>::empty());
        assert(delete_pass(s.take(0), id) =~= Seq::<ScoreV>::empty());
    } else {
        lemma_delete_pass_wf(s, id, m - 1);
        let x = s[m - 1];
        let prior = delete_pass(s.take(m - 1), id);
        assert(s.take(m).drop_last() =~= s.take(m - 1));
        assert(s.take(m).last() == x);
        assert(delete_pass(s.take(m), id) == (match delete_row(x, id) {
            Some(v) => prior.push(v),
            None => prior,
        }));
        match delete_row(x, id) {
            Some(v) => {
                let merged = prior.push(v);
                assert forall|k: int|
                    0 <= k < merged.len() implies #[trigger] merged[k].song_id != id by {
                    if k < prior.len() {
                        assert(merged[k] == prior[k]);
                    } else {
                        assert(merged[k] == v);
                    }
                }
                assert forall|k: int| 0 <= k < merged.len() implies exists|j: int|
                    0 <= j < m && s[j] == #[trigger] merged[k] by {
                    if k < prior.len() {
                        assert(merged[k] == prior[k]);
                        let j0 = choose|j: int| 0 <= j < m - 1 && s[j] == #[trigger] prior[k];
                        assert(s[j0] == merged[k]);
                    } else {
                        assert(merged[k] == v && s[m - 1] == merged[k]);
                    }
                }
                assert forall|a: int, b: int| 0 <= a < b < merged.len() implies !same_key(
                    merged[a],
                    merged[b],
                ) by {
                    if b < prior.len() {
                        assert(merged[a] == prior[a] && merged[b] == prior[b]);
                    } else {
                        assert(merged[b] == v && merged[a] == prior[a]);
                        let j = choose|j: int| 0 <= j < m - 1 && s[j] == #[trigger] prior[a];
                        assert(!same_key(s[j], s[m - 1]));
                    }
                }
            },
            None => {
                assert forall|k: int| 0 <= k < prior.len() implies exists|j: int|
                    0 <= j < m && s[j] == #[trigger] prior[k] by {
                    let j0 = choose|j: int| 0 <= j < m - 1 && s[j] == #[trigger] prior[k];
                    assert(s[j0] == prior[k]);
                }
            },
        }
    }
}

/// Per-key behaviour of the deletion prefix: keys of the deleted song are
/// gone, every other key reads as in the processed prefix.
pub proof fn lemma_delete_prefix(s: Seq<ScoreV>, id: int, m: int, p: int, l: League)
    requires
        unique_keys(s),
        0 <= m <= s.len(),
    ensures
        first_where(delete_pass(s.take(m), id), score_key_pred(p, id, l)) is None,
        forall|s2: int|
            s2 != id ==> first_where(delete_pass(s.take(m), id), score_key_pred(p, s2, l))
                == first_where(s.take(m), score_key_pred(p, s2, l)),
    decreases m,
{
    if m == 0 {
        assert(s.take(0) =~= Seq::<ScoreV>::empty());
        assert(delete_pass(s.take(0), id) =~= Seq::<ScoreV>::empty());
    } else {
        lemma_delete_prefix(s, id, m - 1, p, l);
        let x = s[m - 1];
        let prior = delete_pass(s.take(m - 1), id);
        assert(s.take(m).drop_last() =~= s.take(m - 1));
        assert(s.take(m).last() == x);
        assert(delete_pass(s.take(m), id) == (match delete_row(x, id) {
            Some(v) => prior.push(v),
            None => prior,
        }));
        assert(s.take(m) =~= s.take(m - 1).push(x));
        match delete_row(x, id) {
            Some(v) => {
                lemma_first_where_push(prior, score_key_pred(p, id, l), v);
                assert forall|s2: int| s2 != id implies first_where(
                    delete_pass(s.take(m), id),
                    score_key_pred(p, s2, l),
                ) == first_where(s.take(m), score_key_pred(p, s2, l)) by {
                    lemma_first_where_push(prior, score_key_pred(p, s2, l), v);
                    lemma_first_where_push(s.take(m - 1), score_key_pred(p, s2, l), x);
                }
            },
            None => {
                assert forall|s2: int| s2 != id implies first_where(
                    delete_pass(s.take(m), id),
                    score_key_pred(p, s2, l),
                ) == first_where(s.take(m), score_key_pred(p, s2, l)) by {
                    lemma_first_where_push(s.take(m - 1), score_key_pred(p, s2, l), x);
                }
            },
        }
    }
}

/// The full effect of deleting a song: its score rows are gone, each
/// releasing its cache contribution, its extra info is gone, the song row
/// is gone, and nothing else moves.
pub open spec fn delete_post(prev: Store, next: Store, id: int) -> bool {
    &&& next.scores_v() == delete_pass(prev.scores_v(), id)
    &&& (forall|q: int|
        next.points_of(q) == prev.points_of(q) - delete_drops(prev.scores_v(), id, q))
    &&& (forall|p: int, l: League| next.score_at(p, id, l) is None)
    &&& (forall|p: int, s2: int, l: League|
        s2 != id ==> next.score_at(p, s2, l) == prev.score_at(p, s2, l))
    &&& next.song_by_id(id) is None
    &&& (forall|q: int| q != id ==> next.song_by_id(q) == prev.song_by_id(q))
    &&& next.extra_for(id) is None
    &&& (forall|q: int| q != id ==> next.extra_for(q) == prev.extra_for(q))
    &&& next.players == prev.players
    &&& next.rivalries == prev.rivalries
    &&& next.next_song_id == prev.next_song_id
    &&& next.next_player_id == prev.next_player_id
}

impl Song {
    /// Deletes this song: first every score row of the song, each one
    /// releasing its skill-point contribution from the cache, then the
    /// song's extra info, then the song row itself.
    pub fn delete(&self, store: &mut Store)
        requires
            old(store).wf(),
            delete_fits(*old(store), self.id as int),
        ensures
            final(store).wf(),
            delete_post(*old(store), *final(store), self.id as int),
    {
        let ghost full = store.scores_v();
        let ghost idi = self.id as int;
        let mut kept: Vec<Score> = Vec::new();
        let mut i: usize = 0;
        while i < store.scores.len()
            invariant
                store.wf(),
                store.scores == old(store).scores,
                store.scores_v() == full,
                store.songs == old(store).songs,
                store.extras == old(store).extras,
                store.players == old(store).players,
                store.rivalries == old(store).rivalries,
                store.next_song_id == old(store).next_song_id,
                store.next_player_id == old(store).next_player_id,
                i <= store.scores.len(),
                rows_v(kept@) == delete_pass(full.take(i as int), idi),
                forall|q: int|
                    store.points_of(q) == old(store).points_of(q) - delete_drops(
                        full.take(i as int),
                        idi,
                        q,
                    ),
            decreases store.scores.len() - i,
        {
            let ghost prior = rows_v(kept@);
            proof {
                assert(store.scores_v()[i as int] == store.scores@[i as int]@);
                assert(full.take(i as int + 1).drop_last() =~= full.take(i as int));
                assert(full.take(i as int + 1).last() == full[i as int]);
            }
            if store.scores[i].song_id == self.id {
                let p = store.scores[i].player_id;
                let val = store.scores[i].score;
                proof {
                    assert(delete_row(full[i as int], idi) is None);
                    assert forall|q: int|
                        delete_drops(full.take(i as int + 1), idi, q) == delete_drops(
                            full.take(i as int),
                            idi,
                            q,
                        ) + (if q == p as int {
                            val as int
                        } else {
                            0
                        }) by {}
                }
                store.adjust_skill_points(p, -(val as i64));
            } else {
                let row = store.scores[i].duplicate();
                proof {
                    assert(delete_row(full[i as int], idi) == Some(row@));
                    assert(rows_v(kept@.push(row)) =~= prior.push(row@));
                }
                kept.push(row);
            }
            i += 1;
        }
        proof {
            assert(full.take(store.scores@.len() as int) =~= full);
        }
        let ghost pre = *store;
        store.scores = kept;
        proof {
            let merged = delete_pass(full, idi);
            assert(store.scores_v() =~= rows_v(store.scores@));
            assert(store.scores_v() == merged);
            assert(store.skills == pre.skills);
            assert forall|q: int|
                store.points_of(q) == old(store).points_of(q) - delete_drops(full, idi, q) by {
                assert(store.skills_v() == pre.skills_v());
                assert(pre.points_of(q) == old(store).points_of(q) - delete_drops(
                    full.take(full.len() as int),
                    idi,
                    q,
                ));
            }
            lemma_delete_pass_wf(full, idi, full.len() as int);
            assert(store.songs_v() == old(store).songs_v());
            assert(store.extras_v() == old(store).extras_v());
            assert(store.players_v() == old(store).players_v());
            assert(store.rivalries_v() == old(store).rivalries_v());
            assert forall|a: int, b: int|
                0 <= a < b < store.scores_v().len() implies !(store.scores_v()[a].player_id
                == store.scores_v()[b].player_id && store.scores_v()[a].song_id
                == store.scores_v()[b].song_id && store.scores_v()[a].league
                == store.scores_v()[b].league) by {
                assert(store.scores_v()[a] == merged[a]);
                assert(store.scores_v()[b] == merged[b]);
                assert(!same_key(merged[a], merged[b]));
            }
            assert forall|k: int| 0 <= k < store.scores_v().len() implies store.has_song(
                store.scores_v()[k].song_id,
            ) && store.has_player(store.scores_v()[k].player_id) && store.scores_v()[k].song_id
                != idi by {
                assert(store.scores_v()[k] == merged[k]);
                let j = choose|j: int| 0 <= j < full.len() && full[j] == #[trigger] merged[k];
                assert(old(store).has_song(full[j].song_id));
                assert(old(store).has_player(full[j].player_id));
            }
            assert(store.wf());
        }
        let ghost s1 = *store;
        store.remove_extra_row(self.id);
        let ghost s2 = *store;
        proof {
            assert(store.scores == s1.scores);
            assert(store.scores_v() == s1.scores_v());
            assert forall|k: int|
                0 <= k < store.scores_v().len() implies store.scores_v()[k].song_id != idi by {
                assert(store.scores_v()[k] == s1.scores_v()[k]);
            }
        }
        store.remove_song_row(self.id);
        proof {
            assert(store.scores == s1.scores);
            assert(store.scores_v() == s1.scores_v());
            assert(store.skills == s1.skills);
            assert forall|q: int|
                store.points_of(q) == old(store).points_of(q) - delete_drops(full, idi, q) by {
                assert(store.skills_v() == s1.skills_v());
                assert(store.points_of(q) == s1.points_of(q));
            }
            assert forall|p: int, l: League| store.score_at(p, idi, l) is None by {
                lemma_delete_prefix(full, idi, full.len() as int, p, l);
                assert(full.take(full.len() as int) =~= full);
            }
            assert forall|p: int, s2i: int, l: League| s2i != idi implies store.score_at(
                p,
                s2i,
                l,
            ) == old(store).score_at(p, s2i, l) by {
                lemma_delete_prefix(full, idi, full.len() as int, p, l);
                assert(full.take(full.len() as int) =~= full);
            }
            assert forall|q: int| q != idi implies store.song_by_id(q) == old(
                store,
            ).song_by_id(q) by {
                assert(s2.songs == s1.songs);
                assert(s2.songs_v() == s1.songs_v());
                assert(s1.songs == old(store).songs);
                assert(s1.songs_v() == old(store).songs_v());
                assert(store.song_by_id(q) == s2.song_by_id(q));
            }
            assert forall|q: int| q != idi implies store.extra_for(q) == old(
                store,
            ).extra_for(q) by {
                assert(store.extra_for(q) == s2.extra_for(q));
                assert(s1.extras == old(store).extras);
                assert(s1.extras_v() == old(store).extras_v());
                assert(s1.extra_for(q) == old(store).extra_for(q));
            }
        }
    }
}

/// Merge conservation: when both the duplicate and the target hold a score
/// for (p, l), exactly one score survives for that key, on the target, with
/// the larger of the two values (the target's on a tie), the sum of both
/// play counts, and the duplicate song no longer exists.
pub proof fn lemma_merge_conservation(
    prev: Store,
    next: Store,
    dup_id: int,
    dup_title: Seq<char>,
    dup_artist: Seq<char>,
    tgt: int,
    should_alias: bool,
    p: int,
    l: League,
    d: ScoreV,
    t: ScoreV,
)
    requires
        prev.wf(),
        dup_id != tgt,
        merge_post(prev, next, dup_id, dup_title, dup_artist, tgt, should_alias),
        prev.score_at(p, dup_id, l) == Some(d),
        prev.score_at(p, tgt, l) == Some(t),
    ensures
        ({
            let w = next.score_at(p, tgt, l);
            &&& w is Some
            &&& w.unwrap().score == (if d.score > t.score {
                d.score
            } else {
                t.score
            })
            &&& w.unwrap().play_count == d.play_count + t.play_count
            &&& w.unwrap().player_id == p
            &&& w.unwrap().league == l
            &&& w.unwrap().song_id == tgt
        }),
        next.score_at(p, dup_id, l) is None,
        next.song_by_id(dup_id) is None,
{
    let full = prev.scores_v();
    assert(unique_keys(full)) by {
        assert forall|i: int, j: int| 0 <= i < j < full.len() implies !same_key(
            full[i],
            full[j],
        ) by {}
    }
    lemma_merge_prefix(full, dup_id, tgt, full.len() as int, p, l);
    assert(full.take(full.len() as int) =~= full);
    assert(merge_pass(full.take(full.len() as int), full, dup_id, tgt) == merge_pass(
        full,
        full,
        dup_id,
        tgt,
    ));
    assert(next.scores_v() == merge_pass(full, full, dup_id, tgt));
    assert(first_where(full.take(full.len() as int), score_key_pred(p, dup_id, l)) == Some(d));
    assert(first_where(full.take(full.len() as int), score_key_pred(p, tgt, l)) == Some(t));
    assert(next.score_at(p, tgt, l) == merged_at_prefix(
        full,
        full.len() as int,
        dup_id,
        tgt,
        p,
        l,
    ));
    lemma_first_where_char(full, score_key_pred(p, dup_id, l));
    lemma_first_where_char(full, score_key_pred(p, tgt, l));
    assert(d.player_id == p && d.song_id == dup_id && d.league == l);
    assert(t.player_id == p && t.song_id == tgt && t.league == l);
    let w = next.score_at(p, tgt, l);
    if t.score < d.score {
        assert(w == Some(add_count(retarget(d, tgt), t.play_count)));
        assert(w.unwrap().score == d.score);
        assert(w.unwrap().play_count == d.play_count + t.play_count);
        assert(w.unwrap().song_id == tgt);
        assert(w.unwrap().player_id == p && w.unwrap().league == l);
    } else {
        assert(w == Some(add_count(t, d.play_count)));
        assert(w.unwrap().score == t.score);
        assert(w.unwrap().play_count == d.play_count + t.play_count);
        assert(w.unwrap().song_id == tgt);
        assert(w.unwrap().player_id == p && w.unwrap().league == l);
    }
    assert(next.score_at(p, dup_id, l) is None);
    assert(next.song_by_id(dup_id) is None);
}

/// With no overlapping (player, league) pair, the merge drops no row, so
/// no cache contribution is released over any prefix.
proof fn lemma_merge_drops_zero(full: Seq<ScoreV>, dup: int, tgt: int, m: int, q: int)
    requires
        unique_keys(full),
        dup != tgt,
        0 <= m <= full.len(),
        forall|p: int, l: League|
            !(#[trigger] first_where(full, score_key_pred(p, dup, l)) is Some && #[trigger]
            first_where(full, score_key_pred(p, tgt, l)) is Some),
    ensures
        merge_drops(full.take(m), full, dup, tgt, q) == 0,
    decreases m,
{
    if m == 0 {
        assert(full.take(0) =~= Seq::<ScoreV>::empty());
    } else {
        lemma_merge_drops_zero(full, dup, tgt, m - 1, q);
        let x = full[m - 1];
        assert(full.take(m).drop_last() =~= full.take(m - 1));
        assert(full.take(m).last() == x);
        if merge_row(x, full, dup, tgt) is None {
            if x.song_id == dup {
                lemma_first_where_char(full, score_key_pred(x.player_id, dup, x.league));
                assert(first_where(full, score_key_pred(x.player_id, dup, x.league)) is Some);
                assert(false);
            } else {
                lemma_first_where_char(full, score_key_pred(x.player_id, tgt, x.league));
                assert(first_where(full, score_key_pred(x.player_id, tgt, x.league)) is Some);
                assert(false);
            }
        }
    }
}

/// Merge with no overlapping (player, league) pairs: every duplicate-owned

/// score is re-pointed to the target with its play count unchanged, the
/// target's pre-existing scores are unchanged, no score is left on the
/// duplicate, and every other song's scores are untouched.
pub proof fn lemma_merge_no_overlap(
    prev: Store,
    next: Store,
    dup_id: int,
    dup_title: Seq<char>,
    dup_artist: Seq<char>,
    tgt: int,
    should_alias: bool,
)
    requires
        prev.wf(),
        dup_id != tgt,
        merge_post(prev, next, dup_id, dup_title, dup_artist, tgt, should_alias),
        forall|q: int, m: League|
            !(#[trigger] prev.score_at(q, dup_id, m) is Some && #[trigger] prev.score_at(
                q,
                tgt,
                m,
            ) is Some),
    ensures
        forall|q: int, m: League|
            #[trigger] prev.score_at(q, dup_id, m) is Some ==> #[trigger] next.score_at(
                q,
                tgt,
                m,
            ) == Some(retarget(prev.score_at(q, dup_id, m).unwrap(), tgt)),
        forall|q: int, m: League|
            #[trigger] prev.score_at(q, dup_id, m) is None ==> #[trigger] next.score_at(
                q,
                tgt,
                m,
            ) == prev.score_at(q, tgt, m),
        forall|q: int, m: League| #[trigger] next.score_at(q, dup_id, m) is None,
        forall|q: int, s2: int, m: League|
            s2 != dup_id && s2 != tgt ==> #[trigger] next.score_at(q, s2, m) == prev.score_at(
                q,
                s2,
                m,
            ),
        forall|q: int| next.points_of(q) == prev.points_of(q),
{
    let full = prev.scores_v();
    assert(unique_keys(full)) by {
        assert forall|i: int, j: int| 0 <= i < j < full.len() implies !same_key(
            full[i],
            full[j],
        ) by {}
    }
    assert(full.take(full.len() as int) =~= full);
    assert forall|p: int, l: League|
        !(#[trigger] first_where(full, score_key_pred(p, dup_id, l)) is Some && #[trigger]
        first_where(full, score_key_pred(p, tgt, l)) is Some) by {
        assert(!(prev.score_at(p, dup_id, l) is Some && prev.score_at(p, tgt, l) is Some));
    }
    assert forall|q: int| next.points_of(q) == prev.points_of(q) by {
        lemma_merge_drops_zero(full, dup_id, tgt, full.len() as int, q);
        assert(merge_drops(full.take(full.len() as int), full, dup_id, tgt, q) == 0);
    }
    assert forall|q: int, m: League|
        #[trigger] prev.score_at(q, dup_id, m) is Some implies #[trigger] next.score_at(
        q,
        tgt,
        m,
    ) == Some(retarget(prev.score_at(q, dup_id, m).unwrap(), tgt)) by {
        lemma_merge_prefix(full, dup_id, tgt, full.len() as int, q, m);
        lemma_first_where_char(full, score_key_pred(q, dup_id, m));
        assert(!(prev.score_at(q, dup_id, m) is Some && prev.score_at(q, tgt, m) is Some));
        assert(prev.score_at(q, tgt, m) is None);
        assert(merge_pass(full.take(full.len() as int), full, dup_id, tgt) == merge_pass(
            full,
            full,
            dup_id,
            tgt,
        ));
        assert(first_where(full.take(full.len() as int), score_key_pred(q, dup_id, m))
            == first_where(full, score_key_pred(q, dup_id, m)));
        assert(first_where(full.take(full.len() as int), score_key_pred(q, tgt, m))
            == first_where(full, score_key_pred(q, tgt, m)));
        assert(next.score_at(q, tgt, m) == merged_at_prefix(
            full,
            full.len() as int,
            dup_id,
            tgt,
            q,
            m,
        ));
    }
    assert forall|q: int, m: League|
        #[trigger] prev.score_at(q, dup_id, m) is None implies #[trigger] next.score_at(
        q,
        tgt,
        m,
    ) == prev.score_at(q, tgt, m) by {
        lemma_merge_prefix(full, dup_id, tgt, full.len() as int, q, m);
        assert(merge_pass(full.take(full.len() as int), full, dup_id, tgt) == merge_pass(
            full,
            full,
            dup_id,
            tgt,
        ));
        assert(first_where(full.take(full.len() as int), score_key_pred(q, dup_id, m))
            == first_where(full, score_key_pred(q, dup_id, m)));
        assert(first_where(full.take(full.len() as int), score_key_pred(q, tgt, m))
            == first_where(full, score_key_pred(q, tgt, m)));
        assert(next.score_at(q, tgt, m) == merged_at_prefix(
            full,
            full.len() as int,
            dup_id,
            tgt,
            q,
            m,
        ));
    }
    assert forall|q: int, m: League| #[trigger] next.score_at(q, dup_id, m) is None by {
        lemma_merge_prefix(full, dup_id, tgt, full.len() as int, q, m);
        assert(merge_pass(full.take(full.len() as int), full, dup_id, tgt) == merge_pass(
            full,
            full,
            dup_id,
            tgt,
        ));
    }
    assert forall|q: int, s2: int, m: League|
        s2 != dup_id && s2 != tgt implies #[trigger] next.score_at(q, s2, m) == prev.score_at(
        q,
        s2,
        m,
    ) by {
        lemma_merge_prefix(full, dup_id, tgt, full.len() as int, q, m);
        assert(merge_pass(full.take(full.len() as int), full, dup_id, tgt) == merge_pass(
            full,
            full,
            dup_id,
            tgt,
        ));
        assert(first_where(full.take(full.len() as int), score_key_pred(q, s2, m))
            == first_where(full, score_key_pred(q, s2, m)));
    }
}


} // verus!
