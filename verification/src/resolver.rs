//! The Song Resolver: resolves a (title, artist) pair to a canonical song,
//! creating one if none matches. A row qualifies when both its title and its
//! artist match the input, each by any one of three criteria: exact match on
//! the song's own field, case-insensitive match on the normalized external
//! field, or membership in the alias list.
#![verifier::loop_isolation(false)]

use crate::store::{first_where, lemma_first_where_none, lemma_first_where_push, song_id_pred, Store};
use crate::text::{contains_string, dup_opt_strings, lowercase, lower_of};
use crate::types::{opt_strings_v, ExtraSongInfoV, Song, SongV};
use vstd::prelude::*;

verus! {

/// Whether the input title matches the song row under the resolution policy.
pub open spec fn title_matches(song: SongV, extra: Option<ExtraSongInfoV>, title: Seq<char>) -> bool {
    ||| song.title == title
    ||| (match extra {
        Some(e) => {
            ||| (match e.musicbrainz_title {
                Some(mt) => lower_of(mt) == lower_of(title),
                None => false,
            })
            ||| e.aliases_title.contains(title)
        },
        None => false,
    })
}

/// Whether the input artist matches the song row under the resolution policy.
pub open spec fn artist_matches(song: SongV, extra: Option<ExtraSongInfoV>, artist: Seq<char>) -> bool {
    ||| song.artist == artist
    ||| (match extra {
        Some(e) => {
            ||| (match e.musicbrainz_artist {
                Some(ma) => lower_of(ma) == lower_of(artist),
                None => false,
            })
            ||| e.aliases_artist.contains(artist)
        },
        None => false,
    })
}

/// Whether the song row at index `i` qualifies for the input pair: both the
/// title and the artist must match.
pub open spec fn song_matches(store: Store, i: int, title: Seq<char>, artist: Seq<char>) -> bool {
    &&& title_matches(store.songs_v()[i], store.extra_for(store.songs_v()[i].id), title)
    &&& artist_matches(store.songs_v()[i], store.extra_for(store.songs_v()[i].id), artist)
}

/// Whether any song row qualifies for the input pair.
pub open spec fn any_match(store: Store, title: Seq<char>, artist: Seq<char>) -> bool {
    exists|i: int| 0 <= i < store.songs_v().len() && song_matches(store, i, title, artist)
}

/// The full effect of one resolution: either the first qualifying row is
/// returned and nothing is written, or a fresh song row is appended with the
/// given title and artist and the next id, and returned.
pub open spec fn resolve_post(
    prev: Store,
    next: Store,
    title: Seq<char>,
    artist: Seq<char>,
    modifiers: Option<Seq<Seq<char>>>,
    now: int,
    r: SongV,
) -> bool {
    if any_match(prev, title, artist) {
        &&& next == prev
        &&& exists|i: int|
            0 <= i < prev.songs_v().len() && #[trigger] song_matches(prev, i, title, artist) && r
                == prev.songs_v()[i] && (forall|j: int|
                0 <= j < i ==> !song_matches(prev, j, title, artist))
    } else {
        &&& r == (SongV {
            id: prev.next_song_id as int,
            title: title,
            artist: artist,
            created_at: now,
            modifiers: modifiers,
        })
        &&& next.songs_v() == prev.songs_v().push(r)
        &&& next.song_by_id(prev.next_song_id as int) == Some(r)
        &&& (forall|q: int|
            q != prev.next_song_id as int ==> next.song_by_id(q) == prev.song_by_id(q))
        &&& next.next_song_id == prev.next_song_id + 1
        &&& next.extras == prev.extras
        &&& next.players == prev.players
        &&& next.scores == prev.scores
        &&& next.rivalries == prev.rivalries
        &&& next.skills == prev.skills
        &&& next.next_player_id == prev.next_player_id
    }
}


/// Resolving the same (title, artist) pair twice in immediate succession,
/// with no other write in between, returns the same song id, and the second
/// resolution writes nothing.
pub proof fn lemma_resolve_twice(
    s0: Store,
    s1: Store,
    s2: Store,
    title: Seq<char>,
    artist: Seq<char>,
    m1: Option<Seq<Seq<char>>>,
    m2: Option<Seq<Seq<char>>>,
    now1: int,
    now2: int,
    r1: SongV,
    r2: SongV,
)
    requires
        s0.wf(),
        resolve_post(s0, s1, title, artist, m1, now1, r1),
        resolve_post(s1, s2, title, artist, m2, now2, r2),
    ensures
        r2.id == r1.id,
        s2 == s1,
{
    if any_match(s0, title, artist) {
        assert(s1 == s0);
        let i1 = choose|i: int|
            0 <= i < s0.songs_v().len() && #[trigger] song_matches(s0, i, title, artist) && r1
                == s0.songs_v()[i] && (forall|j: int|
                0 <= j < i ==> !song_matches(s0, j, title, artist));
        let i2 = choose|i: int|
            0 <= i < s1.songs_v().len() && #[trigger] song_matches(s1, i, title, artist) && r2
                == s1.songs_v()[i] && (forall|j: int|
                0 <= j < i ==> !song_matches(s1, j, title, artist));
        if i1 < i2 {
            assert(!song_matches(s1, i1, title, artist));
            assert(false);
        } else if i2 < i1 {
            assert(!song_matches(s0, i2, title, artist));
            assert(false);
        }
        assert(r1 == r2);
    } else {
        let n = s0.songs_v().len() as int;
        assert(s1.songs_v()[n] == r1);
        assert(title_matches(s1.songs_v()[n], s1.extra_for(r1.id), title));
        assert(artist_matches(s1.songs_v()[n], s1.extra_for(r1.id), artist));
        assert(song_matches(s1, n, title, artist));
        assert(any_match(s1, title, artist));
        assert(s2 == s1);
        assert forall|j: int| 0 <= j < n implies !song_matches(s1, j, title, artist) by {
            assert(s1.songs_v()[j] == s0.songs_v()[j]);
            assert(s1.extras_v() == s0.extras_v());
            assert(!song_matches(s0, j, title, artist));
        }
        let i2 = choose|i: int|
            0 <= i < s1.songs_v().len() && #[trigger] song_matches(s1, i, title, artist) && r2
                == s1.songs_v()[i] && (forall|j: int|
                0 <= j < i ==> !song_matches(s1, j, title, artist));
        assert(i2 == n);
        assert(r2 == r1);
    }
}

/// Alias and normalized-metadata matching: when the row at `i` is the only
/// one that qualifies — its extra info lists the input title among the title
/// aliases, and its normalized external artist folds equal to the input
/// artist — resolution returns that row and writes nothing.
pub proof fn lemma_resolve_alias_and_folded(
    s0: Store,
    s1: Store,
    i: int,
    title: Seq<char>,
    artist: Seq<char>,
    m: Option<Seq<Seq<char>>>,
    now: int,
    r: SongV,
)
    requires
        s0.wf(),
        0 <= i < s0.songs_v().len(),
        match s0.extra_for(s0.songs_v()[i].id) {
            Some(e) => e.aliases_title.contains(title) && (match e.musicbrainz_artist {
                Some(ma) => lower_of(ma) == lower_of(artist),
                None => false,
            }),
            None => false,
        },
        forall|j: int|
            0 <= j < s0.songs_v().len() && j != i ==> !song_matches(s0, j, title, artist),
        resolve_post(s0, s1, title, artist, m, now, r),
    ensures
        r == s0.songs_v()[i],
        s1 == s0,
{
    assert(title_matches(s0.songs_v()[i], s0.extra_for(s0.songs_v()[i].id), title));
    assert(artist_matches(s0.songs_v()[i], s0.extra_for(s0.songs_v()[i].id), artist));
    assert(song_matches(s0, i, title, artist));
    assert(any_match(s0, title, artist));
    let i1 = choose|k: int|
        0 <= k < s0.songs_v().len() && #[trigger] song_matches(s0, k, title, artist) && r
            == s0.songs_v()[k] && (forall|j: int|
            0 <= j < k ==> !song_matches(s0, j, title, artist));
    assert(i1 == i);
}

impl Store {
    /// Whether the song row at index `i` qualifies for the input pair, with
    /// the lowercase foldings of the inputs precomputed.
    fn matches_at(&self, i: usize, title: &String, artist: &String, t_low: &String, a_low: &String) -> (r:
        bool)
        requires
            i < self.songs.len(),
            t_low@ == lower_of(title@),
            a_low@ == lower_of(artist@),
        ensures
            r == song_matches(*self, i as int, title@, artist@),
    {
        proof {
            assert(self.songs_v()[i as int] == self.songs@[i as int]@);
        }
        let row = &self.songs[i];
        let extra_idx = self.find_extra_index(row.id);
        let title_ok: bool = {
            if row.title == *title {
                true
            } else {
                match extra_idx {
                    Some(ei) => {
                        proof {
                            assert(self.extras_v()[ei as int] == self.extras@[ei as int]@);
                        }
                        let folded: bool = match &self.extras[ei].musicbrainz_title {
                            Some(mt) => {
                                let mt_low = lowercase(mt.as_str());
                                mt_low == *t_low
                            },
                            None => false,
                        };
                        if folded {
                            true
                        } else {
                            contains_string(&self.extras[ei].aliases_title, title)
                        }
                    },
                    None => false,
                }
            }
        };
        let artist_ok: bool = {
            if row.artist == *artist {
                true
            } else {
                match extra_idx {
                    Some(ei) => {
                        proof {
                            assert(self.extras_v()[ei as int] == self.extras@[ei as int]@);
                        }
                        let folded: bool = match &self.extras[ei].musicbrainz_artist {
                            Some(ma) => {
                                let ma_low = lowercase(ma.as_str());
                                ma_low == *a_low
                            },
                            None => false,
                        };
                        if folded {
                            true
                        } else {
                            contains_string(&self.extras[ei].aliases_artist, artist)
                        }
                    },
                    None => false,
                }
            }
        };
        title_ok && artist_ok
    }
}

/// A song to be resolved or created: the inputs of the Song Resolver.
pub struct NewSong {
    pub title: String,
    pub artist: String,
    pub modifiers: Option<Vec<String>>,
}

impl NewSong {
    /// Bundles a title and artist (and optional modifier tags) for
    /// resolution.
    pub fn new(title: String, artist: String, modifiers: Option<Vec<String>>) -> (r: NewSong)
        ensures
            r.title == title,
            r.artist == artist,
            r.modifiers == modifiers,
    {
        NewSong { title, artist, modifiers }
    }

    /// Resolves this (title, artist) pair to a song row: returns the first
    /// qualifying row without writing, or inserts a fresh row with the given
    /// title and artist and returns it.
    pub fn find_or_create(&self, store: &mut Store, now: i64) -> (r: Song)
        requires
            old(store).wf(),
            old(store).next_song_id < i32::MAX,
        ensures
            final(store).wf(),
            resolve_post(
                *old(store),
                *final(store),
                self.title@,
                self.artist@,
                opt_strings_v(self.modifiers),
                now as int,
                r@,
            ),
    {
        let t_low = lowercase(self.title.as_str());
        let a_low = lowercase(self.artist.as_str());
        let mut i: usize = 0;
        while i < store.songs.len()
            invariant
                *store == *old(store),
                i <= store.songs.len(),
                forall|j: int| 0 <= j < i ==> !song_matches(*store, j, self.title@, self.artist@),
            decreases store.songs.len() - i,
        {
            if store.matches_at(i, &self.title, &self.artist, &t_low, &a_low) {
                proof {
                    assert(self.songs_matching_witness(*store, i as int));
                }
                let row = &store.songs[i];
                let r = Song {
                    id: row.id,
                    title: row.title.clone(),
                    artist: row.artist.clone(),
                    created_at: row.created_at,
                    modifiers: dup_opt_strings(&row.modifiers),
                };
                proof {
                    assert(store.songs_v()[i as int] == store.songs@[i as int]@);
                    assert(r@ == store.songs_v()[i as int]);
                }
                return r;
            }
            i += 1;
        }
        proof {
            assert(!any_match(*store, self.title@, self.artist@));
        }
        let id = store.next_song_id;
        let ghost old_songs = store.songs_v();
        let stored = Song {
            id,
            title: self.title.clone(),
            artist: self.artist.clone(),
            created_at: now,
            modifiers: dup_opt_strings(&self.modifiers),
        };
        let returned = Song {
            id,
            title: self.title.clone(),
            artist: self.artist.clone(),
            created_at: now,
            modifiers: dup_opt_strings(&self.modifiers),
        };
        let ghost new_v = stored@;
        store.songs.push(stored);
        store.next_song_id = id + 1;
        proof {
            assert(returned@ == new_v);
            assert(store.songs_v() =~= old_songs.push(new_v));
            assert(forall|k: int| 0 <= k < old_songs.len() ==> old_songs[k].id < id as int);
            assert forall|q: int| q != id as int implies store.song_by_id(q) == first_where(
                old_songs,
                song_id_pred(q),
            ) by {
                lemma_first_where_push(old_songs, song_id_pred(q), new_v);
            }
            assert(first_where(old_songs, song_id_pred(id as int)) is None) by {
                lemma_first_where_none(old_songs, song_id_pred(id as int));
            }
            lemma_first_where_push(old_songs, song_id_pred(id as int), new_v);
            assert(store.song_by_id(id as int) == Some(new_v));
            assert(store.extras_v() == old(store).extras_v());
            assert(store.players_v() == old(store).players_v());
            assert(store.scores_v() == old(store).scores_v());
            assert(store.rivalries_v() == old(store).rivalries_v());
            assert(store.skills_v() == old(store).skills_v());
            assert forall|k: int| 0 <= k < store.extras_v().len() implies store.has_song(
                store.extras_v()[k].song_id,
            ) by {
                assert(old(store).has_song(old(store).extras_v()[k].song_id));
            }
            assert forall|k: int| 0 <= k < store.scores_v().len() implies store.has_song(
                store.scores_v()[k].song_id,
            ) by {
                assert(old(store).has_song(old(store).scores_v()[k].song_id));
            }
            assert(store.wf());
        }
        returned
    }

    /// Helper fact: a qualifying row found at `i` with none before it is the
    /// resolution witness.
    spec fn songs_matching_witness(&self, store: Store, i: int) -> bool {
        0 <= i < store.songs_v().len() && song_matches(store, i, self.title@, self.artist@) && (
        forall|j: int| 0 <= j < i ==> !song_matches(store, j, self.title@, self.artist@))
    }
}

} // verus!
