//! Attaching external metadata to songs. The external lookup itself is a
//! collaborator outside this library: callers resolve a record (by title
//! and artist, or by external id) and hand it in; these functions decide
//! whether and how it is stored.
#![verifier::loop_isolation(false)]

use crate::store::{extra_song_pred, lemma_first_where_char, lemma_first_where_index,
    lemma_first_where_push, lemma_first_where_update_nonmatch, Store};
use crate::text::{dup_strings};
use crate::types::{ExtraSongInfo, ExtraSongInfoV, Song};
use vstd::prelude::*;

verus! {

/// An external metadata record: the external identifier and the normalized
/// external title and artist it carries.
pub struct MetadataRecord {
    pub mbid: String,
    pub musicbrainz_title: String,
    pub musicbrainz_artist: String,
}

impl Song {
    /// Whether this song still lacks extra metadata; callers consult this
    /// before paying for an external lookup.
    pub fn needs_metadata(&self, store: &Store) -> (r: bool)
        ensures
            r == (store.extra_for(self.id as int) is None),
    {
        store.find_extra_index(self.id).is_none()
    }

    /// Attaches a freshly looked-up record to this song, but only when the
    /// song has no extra-info row at all: an existing row is left exactly
    /// as it is, whatever it lacks.
    pub fn auto_add_metadata(&self, record: &MetadataRecord, store: &mut Store)
        requires
            old(store).wf(),
            old(store).has_song(self.id as int),
        ensures
            final(store).wf(),
            match old(store).extra_for(self.id as int) {
                Some(_) => *final(store) == *old(store),
                None => {
                    &&& final(store).extra_for(self.id as int) == Some(
                        ExtraSongInfoV {
                            song_id: self.id as int,
                            mbid: Some(record.mbid@),
                            musicbrainz_title: Some(record.musicbrainz_title@),
                            musicbrainz_artist: Some(record.musicbrainz_artist@),
                            aliases_title: Seq::empty(),
                            aliases_artist: Seq::empty(),
                        },
                    )
                    &&& (forall|q: int|
                        q != self.id as int ==> final(store).extra_for(q) == old(
                            store,
                        ).extra_for(q))
                    &&& final(store).songs == old(store).songs
                    &&& final(store).players == old(store).players
                    &&& final(store).scores == old(store).scores
                    &&& final(store).rivalries == old(store).rivalries
                    &&& final(store).skills == old(store).skills
                    &&& final(store).next_song_id == old(store).next_song_id
                    &&& final(store).next_player_id == old(store).next_player_id
                },
            },
    {
        if store.find_extra_index(self.id).is_some() {
            return ;
        }
        let ghost old_extras = store.extras_v();
        let entry = ExtraSongInfo {
            song_id: self.id,
            mbid: Some(record.mbid.clone()),
            musicbrainz_title: Some(record.musicbrainz_title.clone()),
            musicbrainz_artist: Some(record.musicbrainz_artist.clone()),
            aliases_title: Vec::new(),
            aliases_artist: Vec::new(),
        };
        proof {
            assert(entry@.aliases_title =~= Seq::<Seq<char>>::empty());
            assert(entry@.aliases_artist =~= Seq::<Seq<char>>::empty());
        }
        let ghost new_v = entry@;
        store.extras.push(entry);
        proof {
            assert(store.extras_v() =~= old_extras.push(new_v));
            lemma_first_where_push(old_extras, extra_song_pred(self.id as int), new_v);
            assert forall|q: int| q != self.id as int implies store.extra_for(q) == old(
                store,
            ).extra_for(q) by {
                lemma_first_where_push(old_extras, extra_song_pred(q), new_v);
            }
            assert(store.songs_v() == old(store).songs_v());
            assert(store.players_v() == old(store).players_v());
            assert(store.scores_v() == old(store).scores_v());
            assert(store.rivalries_v() == old(store).rivalries_v());
            assert(store.skills_v() == old(store).skills_v());
            lemma_first_where_char(old_extras, extra_song_pred(self.id as int));
            assert forall|a: int, b: int|
                0 <= a < b < store.extras_v().len() implies store.extras_v()[a].song_id
                != store.extras_v()[b].song_id by {
                assert(store.extras_v()[a] == old_extras[a]);
                if b < old_extras.len() {
                    assert(store.extras_v()[b] == old_extras[b]);
                } else {
                    assert(store.extras_v()[b] == new_v);
                }
            }
            assert forall|k: int| 0 <= k < store.extras_v().len() implies store.has_song(
                store.extras_v()[k].song_id,
            ) by {
                if k < old_extras.len() {
                    assert(store.extras_v()[k] == old_extras[k]);
                    assert(old(store).has_song(old_extras[k].song_id));
                } else {
                    assert(store.extras_v()[k] == new_v);
                }
            }
            assert(store.wf());
        }
    }

    /// Stores a record fetched by external id on this song: all external
    /// fields of an existing extra-info row are overwritten, the alias
    /// lists are kept; a song without a row gets a fresh one.
    pub fn add_metadata_mbid(&self, record: &MetadataRecord, store: &mut Store)
        requires
            old(store).wf(),
            old(store).has_song(self.id as int),
        ensures
            final(store).wf(),
            final(store).extra_for(self.id as int) == Some(
                match old(store).extra_for(self.id as int) {
                    Some(e) => (ExtraSongInfoV {
                        mbid: Some(record.mbid@),
                        musicbrainz_title: Some(record.musicbrainz_title@),
                        musicbrainz_artist: Some(record.musicbrainz_artist@),
                        ..e
                    }),
                    None => (ExtraSongInfoV {
                        song_id: self.id as int,
                        mbid: Some(record.mbid@),
                        musicbrainz_title: Some(record.musicbrainz_title@),
                        musicbrainz_artist: Some(record.musicbrainz_artist@),
                        aliases_title: Seq::empty(),
                        aliases_artist: Seq::empty(),
                    }),
                },
            ),
            forall|q: int|
                q != self.id as int ==> final(store).extra_for(q) == old(store).extra_for(q),
            final(store).songs == old(store).songs,
            final(store).players == old(store).players,
            final(store).scores == old(store).scores,
            final(store).rivalries == old(store).rivalries,
            final(store).skills == old(store).skills,
            final(store).next_song_id == old(store).next_song_id,
            final(store).next_player_id == old(store).next_player_id,
    {
        let ghost old_extras = store.extras_v();
        match store.find_extra_index(self.id) {
            Some(ei) => {
                let ghost e_v = store.extras_v()[ei as int];
                let e = &store.extras[ei];
                let entry = ExtraSongInfo {
                    song_id: e.song_id,
                    mbid: Some(record.mbid.clone()),
                    musicbrainz_title: Some(record.musicbrainz_title.clone()),
                    musicbrainz_artist: Some(record.musicbrainz_artist.clone()),
                    aliases_title: dup_strings(&e.aliases_title),
                    aliases_artist: dup_strings(&e.aliases_artist),
                };
                proof {
                    assert(store.extras_v()[ei as int] == store.extras@[ei as int]@);
                    assert(entry@ == (ExtraSongInfoV {
                        mbid: Some(record.mbid@),
                        musicbrainz_title: Some(record.musicbrainz_title@),
                        musicbrainz_artist: Some(record.musicbrainz_artist@),
                        ..e_v
                    }));
                }
                let ghost new_v = entry@;
                store.extras[ei] = entry;
                proof {
                    assert(store.extras_v() =~= old_extras.update(ei as int, new_v));
                    lemma_first_where_index(
                        store.extras_v(),
                        extra_song_pred(self.id as int),
                        ei as int,
                    );
                    assert forall|q: int| q != self.id as int implies store.extra_for(q) == old(
                        store,
                    ).extra_for(q) by {
                        lemma_first_where_update_nonmatch(
                            old_extras,
                            extra_song_pred(q),
                            ei as int,
                            new_v,
                        );
                    }
                    assert(store.songs_v() == old(store).songs_v());
                    assert(store.players_v() == old(store).players_v());
                    assert(store.scores_v() == old(store).scores_v());
                    assert(store.rivalries_v() == old(store).rivalries_v());
                    assert(store.skills_v() == old(store).skills_v());
                    assert forall|a: int, b: int|
                        0 <= a < b < store.extras_v().len() implies store.extras_v()[a].song_id
                        != store.extras_v()[b].song_id by {
                        assert(store.extras_v()[a].song_id == old_extras[a].song_id);
                        assert(store.extras_v()[b].song_id == old_extras[b].song_id);
                    }
                    assert forall|k: int| 0 <= k < store.extras_v().len() implies store.has_song(
                        store.extras_v()[k].song_id,
                    ) by {
                        assert(store.extras_v()[k].song_id == old_extras[k].song_id);
                        assert(old(store).has_song(old_extras[k].song_id));
                    }
                    assert(store.wf());
                }
            },
            None => {
                self.auto_add_metadata(record, store);
            },
        }
    }
}

} // verus!
