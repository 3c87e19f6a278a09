use songboard::gameplay::{
    fetch_song_id, get_rides, send_ride, GetRidesRequest, RouteError, SendRideRequest,
    SongIdRequest,
};
use songboard::metadata::MetadataRecord;
use songboard::parse::{parse_separated, split_x_separated};
use songboard::reconcile::NewScore;
use songboard::resolver::NewSong;
use songboard::store::Store;
use songboard::types::{Character, ExtraSongInfo, League, NewRivalry, Song, StoreError};

fn new_score(
    pid: i32,
    song_id: i32,
    league: League,
    score: i32,
    feats: Vec<String>,
) -> NewScore {
    NewScore::new(
        pid,
        song_id,
        league,
        score,
        vec![1, 2, 3],
        vec![4, 5],
        7,
        Character::PointmanElite,
        feats,
        1430,
        9000,
        1,
        2,
    )
}

fn song_row(store: &Store, id: i32) -> &Song {
    store.songs.iter().find(|s| s.id == id).expect("song row")
}

#[test]
fn resolve_twice_returns_same_id() {
    let mut store = Store::new();
    let a = NewSong::new("Song X".to_owned(), "Artist Y".to_owned(), None)
        .find_or_create(&mut store, 10);
    let b = NewSong::new("Song X".to_owned(), "Artist Y".to_owned(), None)
        .find_or_create(&mut store, 20);
    assert_eq!(a.id, b.id);
    assert_eq!(store.songs.len(), 1);
}

#[test]
fn resolve_distinct_pairs_creates_both() {
    let mut store = Store::new();
    let a = NewSong::new("Song X".to_owned(), "Artist Y".to_owned(), None)
        .find_or_create(&mut store, 10);
    let b = NewSong::new("Song X".to_owned(), "Artist Z".to_owned(), None)
        .find_or_create(&mut store, 11);
    assert_ne!(a.id, b.id);
    assert_eq!(store.songs.len(), 2);
}

#[test]
fn resolve_by_alias_title_and_folded_artist() {
    let mut store = Store::new();
    let owner = NewSong::new("True Title".to_owned(), "True Artist".to_owned(), None)
        .find_or_create(&mut store, 1);
    store.extras.push(ExtraSongInfo {
        song_id: owner.id,
        mbid: None,
        musicbrainz_title: Some("true title".to_owned()),
        musicbrainz_artist: Some("bar".to_owned()),
        aliases_title: vec!["Foo".to_owned()],
        aliases_artist: vec![],
    });
    // Title matches through the alias list, artist through case folding.
    let hit = NewSong::new("Foo".to_owned(), "BAR".to_owned(), None).find_or_create(&mut store, 2);
    assert_eq!(hit.id, owner.id);
    // Title matches case-insensitively on the normalized field.
    let hit2 =
        NewSong::new("TRUE TITLE".to_owned(), "BAR".to_owned(), None).find_or_create(&mut store, 3);
    assert_eq!(hit2.id, owner.id);
    assert_eq!(store.songs.len(), 1);
}

#[test]
fn merge_conserves_best_score_and_play_count() {
    let mut store = Store::new();
    let p = store.find_or_create_player(700, "P".to_owned()).unwrap();
    let dup = NewSong::new("Tune".to_owned(), "Band".to_owned(), None).find_or_create(&mut store, 1);
    let tgt =
        NewSong::new("Tune (alt)".to_owned(), "Band".to_owned(), None).find_or_create(&mut store, 2);
    // duplicate-owned score: value 100, two plays (1 insert + 1 repeat)
    new_score(p, dup.id, League::Casual, 100, vec![]).create_or_update(&mut store).unwrap();
    new_score(p, dup.id, League::Casual, 90, vec![]).create_or_update(&mut store).unwrap();
    // target-owned score: value 80, three plays
    new_score(p, tgt.id, League::Casual, 80, vec![]).create_or_update(&mut store).unwrap();
    new_score(p, tgt.id, League::Casual, 70, vec![]).create_or_update(&mut store).unwrap();
    new_score(p, tgt.id, League::Casual, 60, vec![]).create_or_update(&mut store).unwrap();
    assert_eq!(store.skill_points_of(p), 180);
    let dup_row = Song {
        id: dup.id,
        title: dup.title.clone(),
        artist: dup.artist.clone(),
        created_at: dup.created_at,
        modifiers: None,
    };
    dup_row.merge_into(tgt.id, false, &mut store);
    // exactly one score survives, on the target, with max value and summed plays
    let rows: Vec<_> = store.scores.iter().collect();
    assert_eq!(rows.len(), 1);
    assert_eq!(rows[0].song_id, tgt.id);
    assert_eq!(rows[0].score, 100);
    assert_eq!(rows[0].play_count, 5);
    // the duplicate song is gone, the loser's cache contribution released
    assert!(store.songs.iter().all(|s| s.id != dup.id));
    assert_eq!(store.skill_points_of(p), 100);
}

#[test]
fn merge_without_overlap_repoints_everything() {
    let mut store = Store::new();
    let p1 = store.find_or_create_player(701, "P1".to_owned()).unwrap();
    let p2 = store.find_or_create_player(702, "P2".to_owned()).unwrap();
    let dup = NewSong::new("Tune".to_owned(), "Band".to_owned(), None).find_or_create(&mut store, 1);
    let tgt =
        NewSong::new("Tune (alt)".to_owned(), "Band".to_owned(), None).find_or_create(&mut store, 2);
    new_score(p1, dup.id, League::Casual, 55, vec![]).create_or_update(&mut store).unwrap();
    new_score(p2, tgt.id, League::Pro, 66, vec![]).create_or_update(&mut store).unwrap();
    let dup_row = song_row(&store, dup.id);
    let dup_row = Song {
        id: dup_row.id,
        title: dup_row.title.clone(),
        artist: dup_row.artist.clone(),
        created_at: dup_row.created_at,
        modifiers: None,
    };
    dup_row.merge_into(tgt.id, false, &mut store);
    assert_eq!(store.scores.len(), 2);
    assert!(store.scores.iter().all(|s| s.song_id == tgt.id));
    let s1 = store.scores.iter().find(|s| s.player_id == p1).unwrap();
    assert_eq!((s1.score, s1.play_count, s1.league), (55, 1, League::Casual));
    let s2 = store.scores.iter().find(|s| s.player_id == p2).unwrap();
    assert_eq!((s2.score, s2.play_count, s2.league), (66, 1, League::Pro));
    // no cache movement: nothing was dropped
    assert_eq!(store.skill_points_of(p1), 55);
    assert_eq!(store.skill_points_of(p2), 66);
}

#[test]
fn merge_with_alias_appends_title_and_artist() {
    let mut store = Store::new();
    let dup = NewSong::new("Misspelt".to_owned(), "Banb".to_owned(), None)
        .find_or_create(&mut store, 1);
    let tgt = NewSong::new("Tune".to_owned(), "Band".to_owned(), None).find_or_create(&mut store, 2);
    let dup_row = Song {
        id: dup.id,
        title: "Misspelt".to_owned(),
        artist: "Banb".to_owned(),
        created_at: dup.created_at,
        modifiers: None,
    };
    dup_row.merge_into(tgt.id, true, &mut store);
    let extra = store.extras.iter().find(|e| e.song_id == tgt.id).expect("target extra info");
    assert_eq!(extra.aliases_title, vec!["Misspelt".to_owned()]);
    assert_eq!(extra.aliases_artist, vec!["Banb".to_owned()]);
    // a later resolution of the misspelt pair now lands on the target
    let hit =
        NewSong::new("Misspelt".to_owned(), "Banb".to_owned(), None).find_or_create(&mut store, 3);
    assert_eq!(hit.id, tgt.id);
}

#[test]
fn non_improvement_counts_play_only() {
    let mut store = Store::new();
    let p = store.find_or_create_player(703, "P".to_owned()).unwrap();
    let song = NewSong::new("S".to_owned(), "A".to_owned(), None).find_or_create(&mut store, 1);
    new_score(p, song.id, League::Elite, 500, vec![]).create_or_update(&mut store).unwrap();
    let r = new_score(p, song.id, League::Elite, 500, vec![]).create_or_update(&mut store).unwrap();
    assert_eq!(r.score, 500);
    assert_eq!(r.play_count, 2);
    assert_eq!(store.skill_points_of(p), 500);
}

#[test]
fn improvement_updates_value_and_cache_delta() {
    let mut store = Store::new();
    let p = store.find_or_create_player(704, "P".to_owned()).unwrap();
    let song = NewSong::new("S".to_owned(), "A".to_owned(), None).find_or_create(&mut store, 1);
    new_score(p, song.id, League::Elite, 500, vec![]).create_or_update(&mut store).unwrap();
    let r = new_score(p, song.id, League::Elite, 650, vec![]).create_or_update(&mut store).unwrap();
    assert_eq!(r.score, 650);
    assert_eq!(r.play_count, 2);
    assert_eq!(store.skill_points_of(p), 650);
}

#[test]
fn submission_for_missing_song_or_player_is_rejected() {
    let mut store = Store::new();
    let p = store.find_or_create_player(705, "P".to_owned()).unwrap();
    let missing_song = new_score(p, 999, League::Casual, 10, vec![]).create_or_update(&mut store);
    assert!(matches!(missing_song, Err(StoreError::NotFound)));
    let song = NewSong::new("S".to_owned(), "A".to_owned(), None).find_or_create(&mut store, 1);
    let r = new_score(p + 1, song.id, League::Casual, 10, vec![]).create_or_update(&mut store);
    assert!(matches!(r, Err(StoreError::NotFound)));
}

#[test]
fn rivalry_mutuality() {
    let mut store = Store::new();
    let a = store.find_or_create_player(801, "A".to_owned()).unwrap();
    let b = store.find_or_create_player(802, "B".to_owned()).unwrap();
    let ab = NewRivalry::new(a, b).create(&mut store, 100).unwrap();
    assert!(!ab.is_mutual(&store));
    let ba = NewRivalry::new(b, a).create(&mut store, 200).unwrap();
    assert!(ab.is_mutual(&store));
    assert!(ba.is_mutual(&store));
}

#[test]
fn rivalry_creation_errors() {
    let mut store = Store::new();
    let a = store.find_or_create_player(801, "A".to_owned()).unwrap();
    assert!(matches!(
        NewRivalry::new(a, a + 1).create(&mut store, 1),
        Err(StoreError::NotFound)
    ));
    let b = store.find_or_create_player(802, "B".to_owned()).unwrap();
    assert!(NewRivalry::new(a, b).create(&mut store, 1).is_ok());
    assert!(matches!(
        NewRivalry::new(a, b).create(&mut store, 2),
        Err(StoreError::Conflict)
    ));
}

#[test]
fn parse_x_separated_values() {
    assert_eq!(split_x_separated("100x200x300"), Some(vec![100, 200, 300]));
    assert_eq!(split_x_separated("7"), Some(vec![7]));
    assert_eq!(split_x_separated("00042"), Some(vec![42]));
    assert_eq!(split_x_separated(""), None);
    assert_eq!(split_x_separated("12x"), None);
    assert_eq!(split_x_separated("12xab"), None);
}

#[test]
fn parse_comma_separated_signs_and_bounds() {
    assert_eq!(parse_separated("-5,+7,0", ','), Some(vec![-5, 7, 0]));
    assert_eq!(parse_separated("2147483647", ','), Some(vec![i32::MAX]));
    assert_eq!(parse_separated("2147483648", ','), None);
    assert_eq!(parse_separated("-2147483648", ','), Some(vec![i32::MIN]));
    assert_eq!(parse_separated("-2147483649", ','), None);
    assert_eq!(parse_separated("00000000002147483647", ','), Some(vec![i32::MAX]));
    assert_eq!(parse_separated("-", ','), None);
    assert_eq!(parse_separated("5,,6", ','), None);
}

#[test]
fn fetch_song_id_creates_then_finds() {
    let mut store = Store::new();
    let req = SongIdRequest {
        artist: "Artist Y".to_owned(),
        song: "Song X".to_owned(),
        uid: 1,
        league: League::Casual,
    };
    let first = fetch_song_id(&mut store, &req, 5);
    assert_eq!(first.status, "allgood");
    let second = fetch_song_id(&mut store, &req, 6);
    assert_eq!(first.song_id, second.song_id);
    assert_eq!(store.songs.len(), 1);
}

fn ride_request(song_id: i32, score: i32) -> SendRideRequest {
    SendRideRequest {
        ticket: "ticket".to_owned(),
        song_id,
        score,
        vehicle: Character::PointmanElite,
        league: League::Casual,
        feats: "Stealth, Clean finish".to_owned(),
        song_length: 14300,
        track_shape: "3x4x5".to_owned(),
        density: 12,
        xstats: "1,2,3".to_owned(),
        gold_threshold: 9000,
        iss: 0,
        isj: 1,
    }
}

#[test]
fn ride_submission_scenario() {
    let mut store = Store::new();
    let song_req = SongIdRequest {
        artist: "Artist Y".to_owned(),
        song: "Song X".to_owned(),
        uid: 1,
        league: League::Casual,
    };
    let song = fetch_song_id(&mut store, &song_req, 1).song_id;
    let steam = 42u64;

    let r1 = send_ride(&mut store, steam, "P".to_owned(), &ride_request(song, 100)).unwrap();
    assert_eq!(r1.beat_score.my_score, 100);
    let pid = store.players[0].id;
    assert_eq!(store.skill_points_of(pid), 100);
    assert_eq!(store.scores[0].play_count, 1);

    let r2 = send_ride(&mut store, steam, "P".to_owned(), &ride_request(song, 150)).unwrap();
    assert_eq!(r2.beat_score.my_score, 150);
    assert_eq!(store.skill_points_of(pid), 150);
    assert_eq!(store.scores[0].play_count, 2);

    let r3 = send_ride(&mut store, steam, "P".to_owned(), &ride_request(song, 90)).unwrap();
    assert_eq!(r3.beat_score.my_score, 150);
    assert_eq!(store.skill_points_of(pid), 150);
    assert_eq!(store.scores[0].play_count, 3);
    assert_eq!(store.scores[0].score, 150);
    assert_eq!(store.scores.len(), 1);
    // the feats field was split on its delimiter
    assert_eq!(
        store.scores[0].feats,
        vec!["Stealth".to_owned(), "Clean finish".to_owned()]
    );
    assert_eq!(store.scores[0].track_shape, vec![3, 4, 5]);
}

#[test]
fn ride_with_malformed_fields_is_rejected_before_any_write() {
    let mut store = Store::new();
    let song_req = SongIdRequest {
        artist: "A".to_owned(),
        song: "S".to_owned(),
        uid: 1,
        league: League::Casual,
    };
    let song = fetch_song_id(&mut store, &song_req, 1).song_id;
    let mut req = ride_request(song, 10);
    req.track_shape = "3xqx5".to_owned();
    let r = send_ride(&mut store, 42, "P".to_owned(), &req);
    assert!(matches!(r, Err(RouteError::Validation)));
    assert!(store.players.is_empty());
    assert!(store.scores.is_empty());
}

#[test]
fn ride_on_unknown_song_is_not_found() {
    let mut store = Store::new();
    let r = send_ride(&mut store, 42, "P".to_owned(), &ride_request(77, 10));
    assert!(matches!(r, Err(RouteError::NotFound)));
    // the player was resolved before the failing write, as the flow orders it
    assert_eq!(store.players.len(), 1);
}

#[test]
fn dethroning_facts_against_best_rival() {
    let mut store = Store::new();
    let song_req = SongIdRequest {
        artist: "A".to_owned(),
        song: "S".to_owned(),
        uid: 1,
        league: League::Casual,
    };
    let song = fetch_song_id(&mut store, &song_req, 1).song_id;
    let me = store.find_or_create_player(1000, "Me".to_owned()).unwrap();
    let rival = store.find_or_create_player(2000, "Riva".to_owned()).unwrap();
    NewRivalry::new(me, rival).create(&mut store, 1).unwrap();
    new_score(rival, song, League::Casual, 120, vec![]).create_or_update(&mut store).unwrap();

    let win = send_ride(&mut store, 1000, "Me".to_owned(), &ride_request(song, 130)).unwrap();
    assert!(win.beat_score.dethroned);
    assert!(!win.beat_score.friend); // no reverse edge yet
    assert_eq!(win.beat_score.rival_name, "Riva");
    assert_eq!(win.beat_score.rival_score, 120);

    NewRivalry::new(rival, me).create(&mut store, 2).unwrap();
    let lose = send_ride(&mut store, 1000, "Me".to_owned(), &ride_request(song, 110)).unwrap();
    assert!(!lose.beat_score.dethroned);
    assert!(lose.beat_score.friend);
}

#[test]
fn get_rides_lists_self_and_rivals_only() {
    let mut store = Store::new();
    let song_req = SongIdRequest {
        artist: "A".to_owned(),
        song: "S".to_owned(),
        uid: 1,
        league: League::Casual,
    };
    let song = fetch_song_id(&mut store, &song_req, 1).song_id;
    let me = store.find_or_create_player(1000, "Me".to_owned()).unwrap();
    let friend = store.find_or_create_player(2000, "Frien".to_owned()).unwrap();
    let stranger = store.find_or_create_player(3000, "Strange".to_owned()).unwrap();
    NewRivalry::new(me, friend).create(&mut store, 1).unwrap();
    new_score(me, song, League::Casual, 10, vec![]).create_or_update(&mut store).unwrap();
    new_score(friend, song, League::Casual, 20, vec![]).create_or_update(&mut store).unwrap();
    new_score(stranger, song, League::Casual, 30, vec![]).create_or_update(&mut store).unwrap();
    new_score(friend, song, League::Pro, 40, vec![]).create_or_update(&mut store).unwrap();

    let req = GetRidesRequest { song_id: song as u64, ticket: "t".to_owned() };
    let resp = get_rides(&store, 1000, &req, 777);
    assert_eq!(resp.status, "allgood");
    assert_eq!(resp.server_time, 777);
    assert_eq!(resp.scores.len(), 1);
    let board = &resp.scores[0];
    assert_eq!(board.league.len(), 3);
    let casual = &board.league[0].ride;
    let names: Vec<&str> = casual.iter().map(|r| r.username.as_str()).collect();
    assert_eq!(names, vec!["Me", "Frien"]);
    let pro = &board.league[1].ride;
    assert_eq!(pro.len(), 1);
    assert_eq!(pro[0].score, 40);
    // an unknown requester sees empty boards
    let anon = get_rides(&store, 9999, &req, 1);
    assert!(anon.scores[0].league.iter().all(|l| l.ride.is_empty()));
}

#[test]
fn delete_releases_scores_and_cache() {
    let mut store = Store::new();
    let p = store.find_or_create_player(1, "P".to_owned()).unwrap();
    let song = NewSong::new("S".to_owned(), "A".to_owned(), None).find_or_create(&mut store, 1);
    let keep = NewSong::new("K".to_owned(), "A".to_owned(), None).find_or_create(&mut store, 2);
    new_score(p, song.id, League::Casual, 100, vec![]).create_or_update(&mut store).unwrap();
    new_score(p, keep.id, League::Casual, 40, vec![]).create_or_update(&mut store).unwrap();
    assert_eq!(store.skill_points_of(p), 140);
    song.delete(&mut store);
    assert_eq!(store.scores.len(), 1);
    assert_eq!(store.scores[0].song_id, keep.id);
    assert_eq!(store.skill_points_of(p), 40);
    assert!(store.songs.iter().all(|s| s.id != song.id));
}

#[test]
fn metadata_attach_and_overwrite() {
    let mut store = Store::new();
    let song = NewSong::new("S".to_owned(), "A".to_owned(), None).find_or_create(&mut store, 1);
    assert!(song.needs_metadata(&store));
    let rec = MetadataRecord {
        mbid: "mbid-1".to_owned(),
        musicbrainz_title: "s".to_owned(),
        musicbrainz_artist: "a".to_owned(),
    };
    song.auto_add_metadata(&rec, &mut store);
    assert!(!song.needs_metadata(&store));
    let extra = store.extras.iter().find(|e| e.song_id == song.id).unwrap();
    assert_eq!(extra.mbid.as_deref(), Some("mbid-1"));
    // a second automatic attach leaves the row alone
    let rec2 = MetadataRecord {
        mbid: "mbid-2".to_owned(),
        musicbrainz_title: "s2".to_owned(),
        musicbrainz_artist: "a2".to_owned(),
    };
    song.auto_add_metadata(&rec2, &mut store);
    let extra = store.extras.iter().find(|e| e.song_id == song.id).unwrap();
    assert_eq!(extra.mbid.as_deref(), Some("mbid-1"));
    // an explicit attach by external id overwrites, keeping aliases
    store.extras[0].aliases_title.push("Alias".to_owned());
    song.add_metadata_mbid(&rec2, &mut store);
    let extra = store.extras.iter().find(|e| e.song_id == song.id).unwrap();
    assert_eq!(extra.mbid.as_deref(), Some("mbid-2"));
    assert_eq!(extra.musicbrainz_title.as_deref(), Some("s2"));
    assert_eq!(extra.aliases_title, vec!["Alias".to_owned()]);
}

#[test]
fn rebuild_corrects_cache_drift() {
    let mut store = Store::new();
    let p = store.find_or_create_player(1, "P".to_owned()).unwrap();
    let song = NewSong::new("S".to_owned(), "A".to_owned(), None).find_or_create(&mut store, 1);
    let song2 = NewSong::new("S2".to_owned(), "A".to_owned(), None).find_or_create(&mut store, 2);
    new_score(p, song.id, League::Casual, 100, vec![]).create_or_update(&mut store).unwrap();
    new_score(p, song2.id, League::Pro, 40, vec![]).create_or_update(&mut store).unwrap();
    // simulate drift in the derived aggregate, then rebuild from the rows
    store.skills[0].points = 9999;
    store.rebuild_skill_points();
    assert_eq!(store.skill_points_of(p), 140);
}

#[test]
fn exhausted_id_space_is_a_store_error() {
    let mut store = Store::new();
    let song_req = SongIdRequest {
        artist: "A".to_owned(),
        song: "S".to_owned(),
        uid: 1,
        league: League::Casual,
    };
    let song = fetch_song_id(&mut store, &song_req, 1).song_id;
    store.next_player_id = i32::MAX;
    let r = send_ride(&mut store, 42, "P".to_owned(), &ride_request(song, 10));
    assert!(matches!(r, Err(RouteError::Store)));
    assert!(store.players.is_empty());
}

#[test]
fn saturated_play_count_is_a_store_error() {
    let mut store = Store::new();
    let song_req = SongIdRequest {
        artist: "A".to_owned(),
        song: "S".to_owned(),
        uid: 1,
        league: League::Casual,
    };
    let song = fetch_song_id(&mut store, &song_req, 1).song_id;
    send_ride(&mut store, 42, "P".to_owned(), &ride_request(song, 10)).unwrap();
    store.scores[0].play_count = i32::MAX;
    let pid = store.players[0].id;
    assert!(!new_score(pid, song, League::Casual, 11, vec![]).can_submit(&store));
    let r = send_ride(&mut store, 42, "P".to_owned(), &ride_request(song, 11));
    assert!(matches!(r, Err(RouteError::Store)));
    assert_eq!(store.scores[0].score, 10);
}
