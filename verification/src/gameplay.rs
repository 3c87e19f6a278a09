//! The request handling core: resolving song-id lookups, applying ride
//! submissions with their rivalry/dethroning facts, and reporting the
//! friend-scoped rides of a song. Authentication and transport stay with
//! the callers; these functions take the resolved external identity and
//! plain request values.
#![verifier::loop_isolation(false)]

use crate::parse::{list_ok, list_vals, parse_separated, split_x_separated};
use crate::reconcile::{submit_fits, submit_post, NewScore};
use crate::resolver::{resolve_post, NewSong};
use crate::store::{
    lemma_first_where_char, lemma_first_where_none, lemma_first_where_push, player_id_pred,
    player_steam_pred, Store,
};
use crate::text::{split2_chars, split_feats};
use crate::types::{Character, League, Leaderboard, Player, PlayerV, ScoreV, Song, StoreError};
use vstd::prelude::*;

verus! {

/// Failures a request can surface: a malformed delimited numeric field
/// (rejected before any write), a missing song, or a store bound that the
/// write would overrun.
#[derive(Clone, Copy, Debug, PartialEq, Eq, Structural)]
pub enum RouteError {
    Validation,
    NotFound,
    Store,
}

/// A song-id lookup: the pair to resolve and who asks.
pub struct SongIdRequest {
    pub artist: String,
    pub song: String,
    pub uid: u64,
    pub league: League,
}

/// The answer to a song-id lookup.
pub struct SongIdResponse {
    pub status: String,
    pub song_id: i32,
}

/// A ride submission as the client sends it.
pub struct SendRideRequest {
    pub ticket: String,
    pub song_id: i32,
    pub score: i32,
    pub vehicle: Character,
    pub league: League,
    pub feats: String,
    pub song_length: i32,
    pub track_shape: String,
    pub density: i32,
    pub xstats: String,
    pub gold_threshold: i32,
    pub iss: i32,
    pub isj: i32,
}

/// The rivalry/dethroning facts reported with a submission.
pub struct BeatScore {
    pub dethroned: bool,
    pub friend: bool,
    pub rival_name: String,
    pub rival_score: i32,
    pub my_score: i32,
    pub reign_seconds: u32,
}

/// The answer to a ride submission.
pub struct SendRideResponse {
    pub status: String,
    pub song_id: i32,
    pub beat_score: BeatScore,
}

/// A rides query: the song and who asks.
pub struct GetRidesRequest {
    pub song_id: u64,
    pub ticket: String,
}

/// One ride on a leaderboard.
pub struct Ride {
    pub username: String,
    pub score: i32,
    pub vehicle_id: Character,
    pub time: i64,
    pub feats: Vec<String>,
    pub song_length: i32,
    pub traffic_count: i32,
}

/// Mathematical view of a [`Ride`].
pub ghost struct RideV {
    pub username: Seq<char>,
    pub score: int,
    pub vehicle_id: Character,
    pub time: int,
    pub feats: Seq<Seq<char>>,
    pub song_length: int,
    pub traffic_count: int,
}

impl View for Ride {
    type V = RideV;

    open spec fn view(&self) -> RideV {
        RideV {
            username: self.username@,
            score: self.score as int,
            vehicle_id: self.vehicle_id,
            time: self.time as int,
            feats: self.feats@.map_values(|s: String| s@),
            song_length: self.song_length as int,
            traffic_count: self.traffic_count as int,
        }
    }
}

/// The rides of one league on a leaderboard.
pub struct LeagueRides {
    pub league_id: League,
    pub ride: Vec<Ride>,
}

/// One leaderboard scope with its per-league ride lists.
pub struct ScoreBoard {
    pub score_type: Leaderboard,
    pub league: Vec<LeagueRides>,
}

/// The answer to a rides query.
pub struct GetRidesResponse {
    pub status: String,
    pub scores: Vec<ScoreBoard>,
    pub server_time: u64,
}

/// The effect of resolving an external identity to a player row: an
/// existing player is returned unchanged, a new one is appended under the
/// next id.
pub open spec fn player_resolve_post(
    prev: Store,
    next: Store,
    steam_id: int,
    username: Seq<char>,
    pid: int,
) -> bool {
    match prev.player_by_steam(steam_id) {
        Some(p) => {
            &&& next == prev
            &&& pid == p.id
        },
        None => {
            let row = PlayerV { id: prev.next_player_id as int, steam_id, username };
            &&& pid == prev.next_player_id as int
            &&& next.players_v() == prev.players_v().push(row)
            &&& next.player_by_steam(steam_id) == Some(row)
            &&& next.player_by_id(pid) == Some(row)
            &&& (forall|q: int| q != steam_id ==> next.player_by_steam(q) == prev.player_by_steam(q))
            &&& (forall|q: int| q != pid ==> next.player_by_id(q) == prev.player_by_id(q))
            &&& next.next_player_id == prev.next_player_id + 1
            &&& next.songs == prev.songs
            &&& next.extras == prev.extras
            &&& next.scores == prev.scores
            &&& next.rivalries == prev.rivalries
            &&& next.skills == prev.skills
            &&& next.next_song_id == prev.next_song_id
        },
    }
}

impl Store {
    /// Resolves an external (Steam) identity to a player row, creating the
    /// player on first contact. Fails only when the id space is exhausted.
    pub fn find_or_create_player(&mut self, steam_id: u64, username: String) -> (r: Result<
        i32,
        StoreError,
    >)
        requires
            old(self).wf(),
        ensures
            final(self).wf(),
            match r {
                Ok(pid) => player_resolve_post(
                    *old(self),
                    *final(self),
                    steam_id as int,
                    username@,
                    pid as int,
                ),
                Err(e) => e == StoreError::Conflict && *final(self) == *old(self) && old(
                    self,
                ).player_by_steam(steam_id as int) is None && old(self).next_player_id
                    == i32::MAX,
            },
    {
        match self.find_player_index_by_steam(steam_id) {
            Some(i) => {
                let pid = self.players[i].id;
                proof {
                    assert(self.players_v()[i as int] == self.players@[i as int]@);
                }
                Ok(pid)
            },
            None => {
                if self.next_player_id == i32::MAX {
                    return Err(StoreError::Conflict);
                }
                let pid = self.next_player_id;
                let ghost old_players = self.players_v();
                let row = Player { id: pid, steam_id, username };
                let ghost row_v = row@;
                self.players.push(row);
                self.next_player_id = pid + 1;
                proof {
                    assert(self.players_v() =~= old_players.push(row_v));
                    assert(forall|k: int|
                        0 <= k < old_players.len() ==> old_players[k].id < pid as int);
                    lemma_first_where_none(old_players, player_id_pred(pid as int));
                    lemma_first_where_char(old_players, player_steam_pred(steam_id as int));
                    lemma_first_where_push(old_players, player_id_pred(pid as int), row_v);
                    lemma_first_where_push(old_players, player_steam_pred(steam_id as int), row_v);
                    assert forall|q: int| q != steam_id as int implies self.player_by_steam(q)
                        == old(self).player_by_steam(q) by {
                        lemma_first_where_push(old_players, player_steam_pred(q), row_v);
                    }
                    assert forall|q: int| q != pid as int implies self.player_by_id(q) == old(
                        self,
                    ).player_by_id(q) by {
                        lemma_first_where_push(old_players, player_id_pred(q), row_v);
                    }
                    assert(self.songs_v() == old(self).songs_v());
                    assert(self.extras_v() == old(self).extras_v());
                    assert(self.scores_v() == old(self).scores_v());
                    assert(self.rivalries_v() == old(self).rivalries_v());
                    assert(self.skills_v() == old(self).skills_v());
                    assert forall|a: int, b: int|
                        0 <= a < b < self.players_v().len() implies self.players_v()[a].id
                        != self.players_v()[b].id && self.players_v()[a].steam_id
                        != self.players_v()[b].steam_id by {
                        assert(self.players_v()[a] == old_players[a]);
                        if b < old_players.len() {
                            assert(self.players_v()[b] == old_players[b]);
                        } else {
                            assert(self.players_v()[b] == row_v);
                            assert(!player_steam_pred(steam_id as int)(old_players[a]));
                        }
                    }
                    assert forall|k: int| 0 <= k < self.scores_v().len() implies self.has_player(
                        self.scores_v()[k].player_id,
                    ) by {
                        assert(old(self).has_player(old(self).scores_v()[k].player_id));
                    }
                    assert forall|k: int|
                        0 <= k < self.rivalries_v().len() implies self.has_player(
                        self.rivalries_v()[k].challenger_id,
                    ) && self.has_player(self.rivalries_v()[k].rival_id) by {
                        assert(old(self).has_player(old(self).rivalries_v()[k].challenger_id));
                        assert(old(self).has_player(old(self).rivalries_v()[k].rival_id));
                    }
                    assert(self.wf());
                }
                Ok(pid)
            },
        }
    }
}

/// The best friend-scoped rival ride over the processed prefix: among the
/// rows on the given song and league whose owner is a rival of `p` (an
/// edge from `p` exists), the first row with the highest value.
pub open spec fn best_rival_rec(store: Store, s: Seq<ScoreV>, p: int, song: int, l: League) -> Option<
    ScoreV,
>
    decreases s.len(),
{
    if s.len() == 0 {
        None
    } else {
        let rest = best_rival_rec(store, s.drop_last(), p, song, l);
        let sc = s.last();
        if sc.song_id == song && sc.league == l && sc.player_id != p && store.has_rivalry(
            p,
            sc.player_id,
        ) {
            match rest {
                None => Some(sc),
                Some(b) => if sc.score > b.score {
                    Some(sc)
                } else {
                    Some(b)
                },
            }
        } else {
            rest
        }
    }
}

/// The best friend-scoped rival ride for `p` on (song, l).
pub open spec fn best_rival(store: Store, p: int, song: int, l: League) -> Option<ScoreV> {
    best_rival_rec(store, store.scores_v(), p, song, l)
}

impl Store {
    /// The best rival row for the player on (song, league), if any rival
    /// holds a score there.
    fn best_rival_entry(&self, p: i32, song: i32, l: League) -> (r: Option<(i32, i32)>)
        ensures
            match r {
                Some(pair) => best_rival(*self, p as int, song as int, l) matches Some(b)
                    && b.player_id == pair.0 as int && b.score == pair.1 as int,
                None => best_rival(*self, p as int, song as int, l) is None,
            },
    {
        let ghost full = self.scores_v();
        let mut best: Option<(i32, i32)> = None;
        let mut i: usize = 0;
        while i < self.scores.len()
            invariant
                i <= self.scores.len(),
                full == self.scores_v(),
                match best {
                    Some(pair) => best_rival_rec(
                        *self,
                        full.take(i as int),
                        p as int,
                        song as int,
                        l,
                    ) matches Some(b) && b.player_id == pair.0 as int && b.score == pair.1 as int,
                    None => best_rival_rec(
                        *self,
                        full.take(i as int),
                        p as int,
                        song as int,
                        l,
                    ) is None,
                },
            decreases self.scores.len() - i,
        {
            proof {
                assert(self.scores_v()[i as int] == self.scores@[i as int]@);
                assert(full.take(i as int + 1).drop_last() =~= full.take(i as int));
                assert(full.take(i as int + 1).last() == full[i as int]);
            }
            let sc = &self.scores[i];
            if sc.song_id == song && sc.league == l && sc.player_id != p && self.rivalry_exists(
                p,
                sc.player_id,
            ) {
                let sc_player = self.scores[i].player_id;
                let sc_score = self.scores[i].score;
                match best {
                    None => {
                        best = Some((sc_player, sc_score));
                    },
                    Some(pair) => {
                        if sc_score > pair.1 {
                            best = Some((sc_player, sc_score));
                        }
                    },
                }
            }
            i += 1;
        }
        proof {
            assert(full.take(self.scores@.len() as int) =~= full);
        }
        best
    }

    /// The display name of a player, or the empty string when the player
    /// does not exist.
    fn username_of(&self, pid: i32) -> (r: String)
        ensures
            match self.player_by_id(pid as int) {
                Some(p) => r@ == p.username,
                None => r@ == Seq::<char>::empty(),
            },
    {
        match self.find_player_index(pid) {
            Some(i) => {
                proof {
                    assert(self.players_v()[i as int] == self.players@[i as int]@);
                }
                self.players[i].username.clone()
            },
            None => String::new(),
        }
    }
}

/// Resolves a (title, artist) pair to a song id, creating the song when no
/// row qualifies.
pub fn fetch_song_id(store: &mut Store, req: &SongIdRequest, now: i64) -> (r: SongIdResponse)
    requires
        old(store).wf(),
        old(store).next_song_id < i32::MAX,
    ensures
        final(store).wf(),
        r.status@ == "allgood"@,
        exists|sv: crate::types::SongV|
            #[trigger] resolve_post(
                *old(store),
                *final(store),
                req.song@,
                req.artist@,
                None,
                now as int,
                sv,
            ) && r.song_id as int == sv.id,
{
    let song: Song = NewSong::new(req.song.clone(), req.artist.clone(), None).find_or_create(
        store,
        now,
    );
    let sid = song.id;
    proof {
        assert(crate::types::opt_strings_v(None) == None::<Seq<Seq<char>>>);
    }
    SongIdResponse { status: allgood(), song_id: sid }
}

/// The literal reported with every successful response.
fn allgood() -> (r: String)
    ensures
        r@ == "allgood"@,
{
    let s = "allgood";
    s.to_owned()
}

/// The score row a submission stands for, before a play count is assigned.
pub open spec fn ride_row(req: SendRideRequest, pid: int) -> ScoreV {
    ScoreV {
        player_id: pid,
        song_id: req.song_id as int,
        league: req.league,
        score: req.score as int,
        play_count: 0,
        vehicle: req.vehicle,
        track_shape: list_vals(req.track_shape@, 'x'),
        xstats: list_vals(req.xstats@, ','),
        density: req.density as int,
        feats: split2_chars(req.feats@, ',', ' '),
        song_length: req.song_length as int,
        gold_threshold: req.gold_threshold as int,
        iss: req.iss as int,
        isj: req.isj as int,
    }
}

/// Whether the delimited numeric fields of a submission are well formed.
pub open spec fn ride_inputs_ok(req: SendRideRequest) -> bool {
    list_ok(req.track_shape@, 'x') && list_ok(req.xstats@, ',')
}

/// The rivalry facts of a response, against the pre-submission state `mid`.
pub open spec fn beat_score_ok(
    mid: Store,
    pid: int,
    req: SendRideRequest,
    row: ScoreV,
    b: BeatScore,
) -> bool {
    &&& b.my_score as int == row.score
    &&& b.reign_seconds == 0
    &&& (match best_rival(mid, pid, req.song_id as int, req.league) {
        Some(rv) => {
            &&& b.dethroned == (req.score > rv.score)
            &&& b.friend == mid.has_rivalry(rv.player_id, pid)
            &&& b.rival_score as int == rv.score
            &&& (match mid.player_by_id(rv.player_id) {
                Some(pl) => b.rival_name@ == pl.username,
                None => b.rival_name@ == Seq::<char>::empty(),
            })
        },
        None => {
            &&& !b.dethroned
            &&& !b.friend
            &&& b.rival_score == 0
            &&& b.rival_name@ == Seq::<char>::empty()
        },
    })
}

/// Applies one ride submission: resolves the player from the external
/// identity (creating it on first contact), validates the delimited
/// numeric fields before any write, reconciles the score and the cache,
/// and reports the rivalry facts observed before the submission.
pub fn send_ride(store: &mut Store, steam_id: u64, username: String, req: &SendRideRequest) -> (r:
    Result<SendRideResponse, RouteError>)
    requires
        old(store).wf(),
    ensures
        final(store).wf(),
        match r {
            Err(RouteError::Validation) => !ride_inputs_ok(*req) && *final(store) == *old(store),
            Err(RouteError::Store) => ride_inputs_ok(*req) && ((*final(store) == *old(store)
                && old(store).player_by_steam(steam_id as int) is None && old(
                store,
            ).next_player_id == i32::MAX) || (exists|pid: int|
                #[trigger] player_resolve_post(
                    *old(store),
                    *final(store),
                    steam_id as int,
                    username@,
                    pid,
                ) && !submit_fits(*final(store), ride_row(*req, pid)))),
            Err(RouteError::NotFound) => ride_inputs_ok(*req) && (exists|mid: Store, pid: int|
                #[trigger] player_resolve_post(*old(store), mid, steam_id as int, username@, pid)
                    && submit_post(
                    mid,
                    *final(store),
                    ride_row(*req, pid),
                    Err(StoreError::NotFound),
                )),
            Ok(resp) => {
                &&& ride_inputs_ok(*req)
                &&& resp.status@ == "allgood"@
                &&& resp.song_id == req.song_id
                &&& (exists|mid: Store, pid: int, rowv: ScoreV|
                    #[trigger] player_resolve_post(
                        *old(store),
                        mid,
                        steam_id as int,
                        username@,
                        pid,
                    ) && #[trigger] submit_post(
                        mid,
                        *final(store),
                        ride_row(*req, pid),
                        Ok(rowv),
                    ) && beat_score_ok(mid, pid, *req, rowv, resp.beat_score))
            },
        },
{
    let track_shape = match split_x_separated(req.track_shape.as_str()) {
        Some(v) => v,
        None => {
            return Err(RouteError::Validation);
        },
    };
    let xstats = match parse_separated(req.xstats.as_str(), ',') {
        Some(v) => v,
        None => {
            return Err(RouteError::Validation);
        },
    };
    let feats = split_feats(req.feats.as_str());
    let pid = match store.find_or_create_player(steam_id, username) {
        Ok(p) => p,
        Err(_) => {
            return Err(RouteError::Store);
        },
    };
    let ghost mid = *store;
    let rival = store.best_rival_entry(pid, req.song_id, req.league);
    let new_score = NewScore::new(
        pid,
        req.song_id,
        req.league,
        req.score,
        track_shape,
        xstats,
        req.density,
        req.vehicle,
        feats,
        req.song_length,
        req.gold_threshold,
        req.iss,
        req.isj,
    );
    proof {
        assert(new_score@ == ride_row(*req, pid as int));
    }
    if !new_score.can_submit(store) {
        return Err(RouteError::Store);
    }
    let row = match new_score.create_or_update(store) {
        Ok(sc) => sc,
        Err(_) => {
            return Err(RouteError::NotFound);
        },
    };
    let my_score = row.score;
    let beat = match rival {
        Some((rival_id, rival_score)) => {
            let name = store.username_of(rival_id);
            proof {
                assert(store.players == mid.players);
                assert(store.players_v() == mid.players_v());
                assert(store.player_by_id(rival_id as int) == mid.player_by_id(rival_id as int));
                assert(store.rivalries == mid.rivalries);
                assert(store.rivalries_v() == mid.rivalries_v());
                assert(store.has_rivalry(rival_id as int, pid as int) == mid.has_rivalry(
                    rival_id as int,
                    pid as int,
                ));
            }
            BeatScore {
                dethroned: req.score > rival_score,
                friend: store.rivalry_exists(rival_id, pid),
                rival_name: name,
                rival_score,
                my_score,
                reign_seconds: 0,
            }
        },
        None => BeatScore {
            dethroned: false,
            friend: false,
            rival_name: String::new(),
            rival_score: 0,
            my_score,
            reign_seconds: 0,
        },
    };
    Ok(SendRideResponse { status: allgood(), song_id: req.song_id, beat_score: beat })
}

/// How one score row reads on a leaderboard.
pub open spec fn ride_of(store: Store, row: ScoreV) -> RideV {
    RideV {
        username: match store.player_by_id(row.player_id) {
            Some(p) => p.username,
            None => Seq::empty(),
        },
        score: row.score,
        vehicle_id: row.vehicle,
        time: 0,
        feats: row.feats,
        song_length: row.song_length,
        traffic_count: row.density,
    }
}

/// Whether a score row shows on the friend-scoped board of `pid`: the
/// requested song and league, owned by the requester or by a rival.
pub open spec fn ride_visible(store: Store, pid: int, row: ScoreV, song: int, l: League) -> bool {
    row.song_id == song && row.league == l && (row.player_id == pid || store.has_rivalry(
        pid,
        row.player_id,
    ))
}

/// The rides visible to `pid` over the processed prefix, in table order.
pub open spec fn rides_pass(store: Store, s: Seq<ScoreV>, pid: int, song: int, l: League) -> Seq<
    RideV,
>
    decreases s.len(),
{
    if s.len() == 0 {
        Seq::empty()
    } else {
        let rest = rides_pass(store, s.drop_last(), pid, song, l);
        if ride_visible(store, pid, s.last(), song, l) {
            rest.push(ride_of(store, s.last()))
        } else {
            rest
        }
    }
}

impl Store {
    /// The rides visible to the player on (song, league), in table order.
    fn league_rides(&self, pid: i32, song: i32, l: League) -> (r: Vec<Ride>)
        ensures
            r@.map_values(|x: Ride| x@) == rides_pass(
                *self,
                self.scores_v(),
                pid as int,
                song as int,
                l,
            ),
    {
        let ghost full = self.scores_v();
        let mut out: Vec<Ride> = Vec::new();
        let mut i: usize = 0;
        while i < self.scores.len()
            invariant
                i <= self.scores.len(),
                full == self.scores_v(),
                out@.map_values(|x: Ride| x@) == rides_pass(
                    *self,
                    full.take(i as int),
                    pid as int,
                    song as int,
                    l,
                ),
            decreases self.scores.len() - i,
        {
            let ghost prior = out@.map_values(|x: Ride| x@);
            proof {
                assert(self.scores_v()[i as int] == self.scores@[i as int]@);
                assert(full.take(i as int + 1).drop_last() =~= full.take(i as int));
                assert(full.take(i as int + 1).last() == full[i as int]);
            }
            let visible = {
                let sc = &self.scores[i];
                sc.song_id == song && sc.league == l && (sc.player_id == pid
                    || self.rivalry_exists(pid, sc.player_id))
            };
            if visible {
                let username = self.username_of(self.scores[i].player_id);
                let sc = &self.scores[i];
                let ride = Ride {
                    username,
                    score: sc.score,
                    vehicle_id: sc.vehicle,
                    time: 0,
                    feats: crate::text::dup_strings(&sc.feats),
                    song_length: sc.song_length,
                    traffic_count: sc.density,
                };
                proof {
                    assert(ride@ == ride_of(*self, full[i as int]));
                    assert(out@.push(ride).map_values(|x: Ride| x@) =~= prior.push(ride@));
                }
                out.push(ride);
            }
            i += 1;
        }
        proof {
            assert(full.take(self.scores@.len() as int) =~= full);
        }
        out
    }
}

/// Reports the friend-scoped rides of a song, per league: the requester's
/// own ride and those of the players they hold a rivalry edge to, in table
/// order. An unknown requester sees empty boards.
pub fn get_rides(store: &Store, steam_id: u64, req: &GetRidesRequest, server_time: u64) -> (r:
    GetRidesResponse)
    requires
        req.song_id <= i32::MAX as u64,
    ensures
        r.status@ == "allgood"@,
        r.server_time == server_time,
        r.scores@.len() == 1,
        r.scores@[0].score_type == Leaderboard::Friend,
        r.scores@[0].league@.len() == 3,
        r.scores@[0].league@[0].league_id == League::Casual,
        r.scores@[0].league@[1].league_id == League::Pro,
        r.scores@[0].league@[2].league_id == League::Elite,
        match store.player_by_steam(steam_id as int) {
            Some(p) => {
                &&& r.scores@[0].league@[0].ride@.map_values(|x: Ride| x@) == rides_pass(
                    *store,
                    store.scores_v(),
                    p.id,
                    req.song_id as int,
                    League::Casual,
                )
                &&& r.scores@[0].league@[1].ride@.map_values(|x: Ride| x@) == rides_pass(
                    *store,
                    store.scores_v(),
                    p.id,
                    req.song_id as int,
                    League::Pro,
                )
                &&& r.scores@[0].league@[2].ride@.map_values(|x: Ride| x@) == rides_pass(
                    *store,
                    store.scores_v(),
                    p.id,
                    req.song_id as int,
                    League::Elite,
                )
            },
            None => forall|k: int| 0 <= k < 3 ==> r.scores@[0].league@[k].ride@.len() == 0,
        },
{
    let song = req.song_id as i32;
    let mut leagues: Vec<LeagueRides> = Vec::new();
    match store.find_player_index_by_steam(steam_id) {
        Some(pi) => {
            proof {
                assert(store.players_v()[pi as int] == store.players@[pi as int]@);
            }
            let pid = store.players[pi].id;
            leagues.push(
                LeagueRides {
                    league_id: League::Casual,
                    ride: store.league_rides(pid, song, League::Casual),
                },
            );
            leagues.push(
                LeagueRides {
                    league_id: League::Pro,
                    ride: store.league_rides(pid, song, League::Pro),
                },
            );
            leagues.push(
                LeagueRides {
                    league_id: League::Elite,
                    ride: store.league_rides(pid, song, League::Elite),
                },
            );
        },
        None => {
            leagues.push(LeagueRides { league_id: League::Casual, ride: Vec::new() });
            leagues.push(LeagueRides { league_id: League::Pro, ride: Vec::new() });
            leagues.push(LeagueRides { league_id: League::Elite, ride: Vec::new() });
        },
    }
    let board = ScoreBoard { score_type: Leaderboard::Friend, league: leagues };
    let mut boards: Vec<ScoreBoard> = Vec::new();
    boards.push(board);
    GetRidesResponse { status: allgood(), scores: boards, server_time }
}

} // verus!
