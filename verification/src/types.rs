//! The entities of the durable store and their mathematical views.

use vstd::prelude::*;

verus! {

/// View of an optional list of strings.
pub open spec fn opt_strings_v(m: Option<Vec<String>>) -> Option<Seq<Seq<char>>> {
    match m {
        Some(v) => Some(v@.map_values(|s: String| s@)),
        None => None,
    }
}

/// Failures the store surfaces to callers: a missing row where one is
/// required, or a key constraint that an insert would violate.
#[derive(Clone, Copy, Debug, PartialEq, Eq, Structural)]
pub enum StoreError {
    NotFound,
    Conflict,
}

/// A gameplay mode/category partitioning scores: at most one score row
/// exists per (player, song, league).
#[derive(Clone, Copy, Debug, PartialEq, Eq, Structural)]
pub enum League {
    Casual,
    Pro,
    Elite,
}

/// The vehicle/character a ride was performed with.
#[derive(Clone, Copy, Debug, PartialEq, Eq, Structural)]
pub enum Character {
    Pointman,
    DoubleVision,
    Vegas,
    PointmanElite,
    DoubleVisionElite,
    Eraser,
    Pusher,
    Mono,
    Ninja,
}

/// The scope of a leaderboard in a rides query.
#[derive(Clone, Copy, Debug, PartialEq, Eq, Structural)]
pub enum Leaderboard {
    Friend,
    Global,
    Nearby,
}

/// A song row of the durable store. `id` is globally unique;
/// (title, artist) is not unique — duplicates are resolved by merging.
pub struct Song {
    pub id: i32,
    pub title: String,
    pub artist: String,
    /// Seconds since the epoch, as handed in by the caller at creation.
    pub created_at: i64,
    pub modifiers: Option<Vec<String>>,
}

/// Mathematical view of a [`Song`].
pub ghost struct SongV {
    pub id: int,
    pub title: Seq<char>,
    pub artist: Seq<char>,
    pub created_at: int,
    pub modifiers: Option<Seq<Seq<char>>>,
}

impl View for Song {
    type V = SongV;

    open spec fn view(&self) -> SongV {
        SongV {
            id: self.id as int,
            title: self.title@,
            artist: self.artist@,
            created_at: self.created_at as int,
            modifiers: opt_strings_v(self.modifiers),
        }
    }
}

/// Extra metadata belonging to exactly one song (at most one row per song):
/// external-metadata identifiers, normalized external title/artist
/// (lowercased by convention) and the alias lists used for fuzzy resolution.
pub struct ExtraSongInfo {
    pub song_id: i32,
    pub mbid: Option<String>,
    pub musicbrainz_title: Option<String>,
    pub musicbrainz_artist: Option<String>,
    pub aliases_title: Vec<String>,
    pub aliases_artist: Vec<String>,
}

/// Mathematical view of an [`ExtraSongInfo`].
pub ghost struct ExtraSongInfoV {
    pub song_id: int,
    pub mbid: Option<Seq<char>>,
    pub musicbrainz_title: Option<Seq<char>>,
    pub musicbrainz_artist: Option<Seq<char>>,
    pub aliases_title: Seq<Seq<char>>,
    pub aliases_artist: Seq<Seq<char>>,
}

impl View for ExtraSongInfo {
    type V = ExtraSongInfoV;

    open spec fn view(&self) -> ExtraSongInfoV {
        ExtraSongInfoV {
            song_id: self.song_id as int,
            mbid: match self.mbid {
                Some(s) => Some(s@),
                None => None,
            },
            musicbrainz_title: match self.musicbrainz_title {
                Some(s) => Some(s@),
                None => None,
            },
            musicbrainz_artist: match self.musicbrainz_artist {
                Some(s) => Some(s@),
                None => None,
            },
            aliases_title: self.aliases_title@.map_values(|s: String| s@),
            aliases_artist: self.aliases_artist@.map_values(|s: String| s@),
        }
    }
}

/// A player row. The external (Steam) identity is unique; players are
/// created on first successful submission or rivalry lookup, never deleted.
pub struct Player {
    pub id: i32,
    pub steam_id: u64,
    pub username: String,
}

/// Mathematical view of a [`Player`].
pub ghost struct PlayerV {
    pub id: int,
    pub steam_id: int,
    pub username: Seq<char>,
}

impl View for Player {
    type V = PlayerV;

    open spec fn view(&self) -> PlayerV {
        PlayerV { id: self.id as int, steam_id: self.steam_id as int, username: self.username@ }
    }
}

/// A score row, keyed by (player, song, league); at most one row per key.
pub struct Score {
    pub player_id: i32,
    pub song_id: i32,
    pub league: League,
    pub score: i32,
    pub play_count: i32,
    pub vehicle: Character,
    pub track_shape: Vec<i32>,
    pub xstats: Vec<i32>,
    pub density: i32,
    pub feats: Vec<String>,
    pub song_length: i32,
    pub gold_threshold: i32,
    pub iss: i32,
    pub isj: i32,
}

/// Mathematical view of a [`Score`].
pub ghost struct ScoreV {
    pub player_id: int,
    pub song_id: int,
    pub league: League,
    pub score: int,
    pub play_count: int,
    pub vehicle: Character,
    pub track_shape: Seq<int>,
    pub xstats: Seq<int>,
    pub density: int,
    pub feats: Seq<Seq<char>>,
    pub song_length: int,
    pub gold_threshold: int,
    pub iss: int,
    pub isj: int,
}

impl View for Score {
    type V = ScoreV;

    open spec fn view(&self) -> ScoreV {
        ScoreV {
            player_id: self.player_id as int,
            song_id: self.song_id as int,
            league: self.league,
            score: self.score as int,
            play_count: self.play_count as int,
            vehicle: self.vehicle,
            track_shape: self.track_shape@.map_values(|x: i32| x as int),
            xstats: self.xstats@.map_values(|x: i32| x as int),
            density: self.density as int,
            feats: self.feats@.map_values(|s: String| s@),
            song_length: self.song_length as int,
            gold_threshold: self.gold_threshold as int,
            iss: self.iss as int,
            isj: self.isj as int,
        }
    }
}

impl Score {
    /// A copy of this score row, equal to the original.
    pub fn duplicate(&self) -> (r: Score)
        ensures
            r@ == self@,
    {
        Score {
            player_id: self.player_id,
            song_id: self.song_id,
            league: self.league,
            score: self.score,
            play_count: self.play_count,
            vehicle: self.vehicle,
            track_shape: crate::text::dup_i32s(&self.track_shape),
            xstats: crate::text::dup_i32s(&self.xstats),
            density: self.density,
            feats: crate::text::dup_strings(&self.feats),
            song_length: self.song_length,
            gold_threshold: self.gold_threshold,
            iss: self.iss,
            isj: self.isj,
        }
    }
}

/// A directed rivalry edge (challenger -> rival). A rivalry is mutual iff
/// the reverse edge also exists; the two directions are independent rows.
pub struct Rivalry {
    pub challenger_id: i32,
    pub rival_id: i32,
    /// Seconds since the epoch, as handed in by the caller at creation.
    pub established_at: i64,
}

/// The two endpoints of a rivalry edge to be created.
pub struct NewRivalry {
    pub challenger_id: i32,
    pub rival_id: i32,
}

/// Mathematical view of a [`Rivalry`].
pub ghost struct RivalryV {
    pub challenger_id: int,
    pub rival_id: int,
    pub established_at: int,
}

impl View for Rivalry {
    type V = RivalryV;

    open spec fn view(&self) -> RivalryV {
        RivalryV {
            challenger_id: self.challenger_id as int,
            rival_id: self.rival_id as int,
            established_at: self.established_at as int,
        }
    }
}

/// One entry of the aggregate cache: a player's cumulative skill points.
/// The cache is an independently maintained running total, not derived on
/// read; a missing entry counts as zero.
pub struct SkillEntry {
    pub player_id: i32,
    pub points: i64,
}

/// Mathematical view of a [`SkillEntry`].
pub ghost struct SkillEntryV {
    pub player_id: int,
    pub points: int,
}

impl View for SkillEntry {
    type V = SkillEntryV;

    open spec fn view(&self) -> SkillEntryV {
        SkillEntryV { player_id: self.player_id as int, points: self.points as int }
    }
}

} // verus!
