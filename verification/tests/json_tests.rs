use songarr::album::{album_json, song_json};
use songarr::artist::{extract_artist_context_json, inject_albums, AlbumInjectError, AlbumSummaryEntry};
use songarr::config::Streaming;
use songarr::playlists::{
    discovery_consumed, discovery_per_seed, inject_playlist_json, listen_seed_track, playlist_json,
    PlaylistSummary, DISCOVERY_ID,
};
use songarr::recs::ListenSeed;
use songarr::json::Json;
use songarr::lyrics::{
    has_lyrics_json, is_subsonic_json, lyrics_list_json, plain_lines, structured_lyrics_json, Lyrics,
    SyncedLine,
};
use songarr::resolve::{player_audio, PlayerError};
use songarr::search::{
    existing_songs_json, inject_json, is_ok_json, InjectError, SongKey,
};
use songarr::subsonic::{Envelope, SongEntry};
use songarr::valbum::{AlbumPayload, AlbumTrackPayload, VirtualAlbum};
use songarr::vtrack::VirtualTrack;
use songarr::wave::wave_track_from_json;

fn to_lib(v: &serde_json::Value) -> Json {
    match v {
        serde_json::Value::Null => Json::Null,
        serde_json::Value::Bool(b) => Json::Bool(*b),
        serde_json::Value::Number(n) => Json::Number(n.to_string()),
        serde_json::Value::String(s) => Json::Str(s.clone()),
        serde_json::Value::Array(items) => Json::Array(items.iter().map(to_lib).collect()),
        serde_json::Value::Object(m) => {
            Json::Object(m.iter().map(|(k, v)| (k.clone(), to_lib(v))).collect())
        }
    }
}

fn from_lib(v: &Json) -> serde_json::Value {
    match v {
        Json::Null => serde_json::Value::Null,
        Json::Bool(b) => serde_json::Value::Bool(*b),
        Json::Number(n) => serde_json::Value::Number(n.parse().unwrap()),
        Json::Str(s) => serde_json::Value::String(s.clone()),
        Json::Array(items) => serde_json::Value::Array(items.iter().map(from_lib).collect()),
        Json::Object(m) => serde_json::Value::Object(
            m.iter().map(|(k, v)| (k.clone(), from_lib(v))).collect(),
        ),
    }
}

fn parse(text: &str) -> Json {
    to_lib(&serde_json::from_str(text).unwrap())
}

const JSON_FIXTURE: &str = r#"{"subsonic-response":{"status":"ok","version":"1.16.1","type":"navidrome","serverVersion":"0.62.0 (1b46b977)","openSubsonic":true,"searchResult3":{"song":[{"id":"abc","title":"Tone 220 Hz","artist":"The Sine Waves","duration":4}]}}}"#;

fn virtual_track(id: &str, artist: &str, title: &str, secs: i64) -> VirtualTrack {
    VirtualTrack {
        id: id.into(),
        provider: "deezer".into(),
        provider_track_id: "1".into(),
        artist: artist.into(),
        title: title.into(),
        album: Some("Album".into()),
        duration_ms: Some(secs * 1000),
        isrc: None,
        artwork_url: Some("https://example.com/c.jpg".into()),
        status: "virtual".into(),
        real_subsonic_id: None,
        resolved_url: None,
        resolved_score: None,
        resolved_title: None,
        resolved_at_epoch: None,
    }
}

fn entry(id: &str, artist: &str, title: &str, secs: i64) -> SongEntry {
    SongEntry::from_virtual(&virtual_track(id, artist, title, secs), &Streaming::default())
}

#[test]
fn json_injection_appends_after_existing() {
    let out = inject_json(
        parse(JSON_FIXTURE),
        "searchResult3",
        &vec![entry("sgr_x", "A", "B", 100)],
    )
    .unwrap();
    let v = from_lib(&out);
    let songs = v["subsonic-response"]["searchResult3"]["song"].as_array().unwrap();
    assert_eq!(songs.len(), 2);
    assert_eq!(songs[0]["id"], "abc");
    assert_eq!(songs[1]["id"], "sgr_x");
    assert_eq!(v["subsonic-response"]["serverVersion"], "0.62.0 (1b46b977)");
}

#[test]
fn json_injection_creates_missing_song_array() {
    let body = r#"{"subsonic-response":{"status":"ok","version":"1.16.1","searchResult3":{}}}"#;
    let out = inject_json(parse(body), "searchResult3", &vec![entry("sgr_x", "A", "B", 100)]).unwrap();
    let v = from_lib(&out);
    assert_eq!(v["subsonic-response"]["searchResult3"]["song"][0]["id"], "sgr_x");
}

#[test]
fn json_injection_creates_missing_result_and_reports_bad_shapes() {
    let body = r#"{"subsonic-response":{"status":"ok"}}"#;
    let out = inject_json(parse(body), "searchResult2", &vec![entry("sgr_y", "A", "B", 1)]).unwrap();
    assert_eq!(from_lib(&out)["subsonic-response"]["searchResult2"]["song"][0]["id"], "sgr_y");
    let err = inject_json(parse(r#"{"other":1}"#), "searchResult3", &Vec::new()).unwrap_err();
    assert_eq!(err, InjectError::MissingEnvelope);
    assert_eq!(err.message("searchResult3"), "missing subsonic-response envelope");
    let err = inject_json(
        parse(r#"{"subsonic-response":{"searchResult3":[]}}"#),
        "searchResult3",
        &Vec::new(),
    )
    .unwrap_err();
    assert_eq!(err.message("searchResult3"), "searchResult3 is not an object");
    let err = inject_json(
        parse(r#"{"subsonic-response":{"searchResult3":{"song":{}}}}"#),
        "searchResult3",
        &Vec::new(),
    )
    .unwrap_err();
    assert_eq!(err, InjectError::SongNotArray);
}

#[test]
fn json_entry_has_required_fields() {
    let mut track = virtual_track("sgr_test123", "Ärtist \"Quoted\" & Co", "Tïtle <One>", 224);
    track.album = Some("Älbum".into());
    track.artwork_url = Some("https://example.com/a.jpg".into());
    let entry = SongEntry::from_virtual(&track, &Streaming::default());
    let json = from_lib(&entry.to_json());
    assert_eq!(json["id"], "sgr_test123");
    assert_eq!(json["duration"], 224);
    assert_eq!(json["suffix"], "opus");
    assert_eq!(json["contentType"], "audio/ogg");
    assert_eq!(json["coverArt"], "sgr_test123");
    assert_eq!(json["bitRate"], 160);
    assert_eq!(json["size"], 224 * 160 * 125);
    assert_eq!(json["isDir"], false);
}

#[test]
fn ok_status_detection_in_json() {
    let pretty_json = r#"{
      "subsonic-response": {
        "status": "ok",
        "version": "1.16.1"
      }
    }"#;
    assert!(is_ok_json(&parse(pretty_json)));
    assert!(!is_ok_json(&parse(r#"{"subsonic-response":{"status":"failed"}}"#)));
    assert!(!is_ok_json(&parse("[]")));
}

#[test]
fn existing_song_extraction_from_json() {
    let keys = existing_songs_json(&parse(JSON_FIXTURE), "searchResult3");
    assert_eq!(keys.len(), 1);
    assert!(keys[0].matches(&SongKey::new("the sine waves", "Tone 220 Hz", Some(5))));
    assert!(existing_songs_json(&parse(JSON_FIXTURE), "searchResult2").is_empty());
}

fn album_entry(id: &str, name: &str) -> AlbumSummaryEntry {
    AlbumSummaryEntry {
        id: id.into(),
        name: name.into(),
        artist: "Artist".into(),
        artist_id: "ar1".into(),
        cover_art: Some(id.into()),
        song_count: 1,
        duration: 100,
        created: "2026-01-01T00:00:00Z".into(),
        year: Some(2026),
        artwork_url: Some("https://example.com/c.jpg".into()),
    }
}

#[test]
fn json_injection_appends_virtual_album_and_updates_count() {
    let body = r#"{"subsonic-response":{"status":"ok","artist":{"id":"ar1","name":"Artist","album":[{"id":"al1","name":"Local"}],"albumCount":1}}}"#;
    let out = inject_albums(parse(body), &vec![album_entry("sga_x", "Remote")]).unwrap();
    let value = from_lib(&out);
    let albums = value["subsonic-response"]["artist"]["album"].as_array().unwrap();
    assert_eq!(albums.len(), 2);
    assert_eq!(albums[1]["id"], "sga_x");
    assert_eq!(albums[1]["year"], 2026);
    assert_eq!(value["subsonic-response"]["artist"]["albumCount"], 2);
}

#[test]
fn album_injection_creates_the_list_and_reports_bad_shapes() {
    let body = r#"{"subsonic-response":{"artist":{"id":"ar1"}}}"#;
    let out = inject_albums(parse(body), &vec![album_entry("sga_y", "R")]).unwrap();
    let value = from_lib(&out);
    assert_eq!(value["subsonic-response"]["artist"]["album"][0]["coverArt"], "sga_y");
    assert_eq!(value["subsonic-response"]["artist"]["albumCount"], 1);
    let err = inject_albums(parse(r#"{"subsonic-response":{}}"#), &Vec::new()).unwrap_err();
    assert_eq!(err, AlbumInjectError::MissingArtist);
    assert_eq!(err.message(), "missing artist object");
    let err = inject_albums(parse(r#"{"subsonic-response":{"artist":{"album":3}}}"#), &Vec::new())
        .unwrap_err();
    assert_eq!(err.message(), "artist.album is not an array");
}

fn sample_lyrics() -> Lyrics {
    Lyrics {
        artist: "Янка".into(),
        title: "Про чертиков".into(),
        plain: Some("Первая\n\nВторая".into()),
        synced: None,
    }
}

#[test]
fn structured_plain_json_uses_open_subsonic_shape() {
    let lyrics = sample_lyrics();
    let json = from_lib(&structured_lyrics_json(
        &lyrics,
        &Vec::new(),
        &plain_lines(lyrics.plain.as_deref()),
    ));
    let entry = &json["structuredLyrics"][0];
    assert_eq!(entry["displayArtist"], "Янка");
    assert_eq!(entry["displayTitle"], "Про чертиков");
    assert_eq!(entry["synced"], false);
    assert_eq!(entry["line"].as_array().unwrap().len(), 2);
    assert_eq!(entry["line"][0]["value"], "Первая");
}

#[test]
fn detects_singleton_or_array_lyrics_json() {
    assert!(!has_lyrics_json(&parse(
        r#"{"subsonic-response":{"status":"ok","lyricsList":{"structuredLyrics":[]}}}"#
    )));
    assert!(has_lyrics_json(&parse(
        r#"{"subsonic-response":{"status":"ok","lyricsList":{"structuredLyrics":{"synced":false}}}}"#
    )));
    assert!(has_lyrics_json(&parse(
        r#"{"subsonic-response":{"status":"ok","lyricsList":{"structuredLyrics":[{"line":[]}]}}}"#
    )));
}

#[test]
fn failed_json_response_is_still_a_subsonic_response() {
    assert!(is_subsonic_json(&parse(
        r#"{"subsonic-response":{"status":"failed","error":{"code":70,"message":"data not found"}}}"#
    )));
    assert!(!is_subsonic_json(&parse(r#"{"other":{}}"#)));
}

#[test]
fn lyrics_list_prefers_synced_lines() {
    let mut lyrics = sample_lyrics();
    lyrics.synced = Some(vec![SyncedLine { start_ms: 1200, value: "Первая".into() }]);
    let json = from_lib(&lyrics_list_json(Some(&lyrics)));
    let entry = &json["structuredLyrics"][0];
    assert_eq!(entry["synced"], true);
    assert_eq!(entry["line"][0]["start"], 1200);
    let none = from_lib(&lyrics_list_json(None));
    assert_eq!(none["structuredLyrics"].as_array().unwrap().len(), 0);
    let blank = Lyrics { artist: "a".into(), title: "t".into(), plain: Some(" \n ".into()), synced: None };
    assert_eq!(from_lib(&lyrics_list_json(Some(&blank)))["structuredLyrics"], serde_json::Value::Array(Vec::new()));
}

#[test]
fn playlist_json_injection_handles_singleton_object() {
    let body = r#"{"subsonic-response":{"status":"ok","playlists":{"playlist":{"id":"real","name":"Songarr Played"}}}}"#;
    let out = inject_playlist_json(parse(body), &PlaylistSummary::empty("admin")).unwrap();
    let value = from_lib(&out);
    let playlists = value["subsonic-response"]["playlists"]["playlist"].as_array().unwrap();
    assert_eq!(playlists.len(), 2);
    assert_eq!(playlists[0]["id"], "real");
    assert_eq!(playlists[1]["id"], DISCOVERY_ID);
}

#[test]
fn playlist_injection_replaces_an_earlier_discovery_list() {
    let body = r#"{"subsonic-response":{"playlists":{"playlist":[{"id":"a"},{"id":"songarr_discovery"},{"id":"b"}]}}}"#;
    let summary = PlaylistSummary {
        owner: "admin".into(),
        song_count: 3,
        duration: 600,
        changed: "2026-01-01T00:00:00Z".into(),
    };
    let value = from_lib(&inject_playlist_json(parse(body), &summary).unwrap());
    let ids: Vec<_> = value["subsonic-response"]["playlists"]["playlist"]
        .as_array()
        .unwrap()
        .iter()
        .map(|p| p["id"].as_str().unwrap().to_string())
        .collect();
    assert_eq!(ids, vec!["a", "b", DISCOVERY_ID]);
    let created = from_lib(&inject_playlist_json(parse(r#"{"subsonic-response":{}}"#), &summary).unwrap());
    assert_eq!(created["subsonic-response"]["playlists"]["playlist"][0]["songCount"], 3);
    assert!(inject_playlist_json(parse(r#"{"subsonic-response":{"playlists":[]}}"#), &summary).is_err());
}

#[test]
fn discovery_playlist_json_and_summary() {
    let entries = vec![entry("sgr_1", "A", "One", 100), entry("sgr_2", "B", "Two", 50)];
    let summary = PlaylistSummary::from_entries_at("alice", &entries, "2026-02-02T00:00:00Z".into());
    assert_eq!(summary.song_count, 2);
    assert_eq!(summary.duration, 150);
    let value = from_lib(&playlist_json(&summary, &entries));
    assert_eq!(value["id"], DISCOVERY_ID);
    assert_eq!(value["owner"], "alice");
    assert_eq!(value["public"], false);
    assert_eq!(value["entry"][1]["id"], "sgr_2");
    assert_eq!(value["comment"], "Generated by Songarr from recent listens");
}

#[test]
fn discovery_cache_use_and_seeding() {
    let ids = vec!["x".to_string(), "y".to_string()];
    assert!(discovery_consumed(&ids, &vec!["y".into(), "x".into(), "z".into()]));
    assert!(!discovery_consumed(&ids, &vec!["x".into()]));
    assert!(!discovery_consumed(&Vec::new(), &vec!["x".into()]));
    assert_eq!(discovery_per_seed(20, 0), 6);
    assert_eq!(discovery_per_seed(20, 17), 3);
    assert_eq!(discovery_per_seed(20, 25), 0);
    assert_eq!(discovery_per_seed(0, 0), 1);
    let seed = listen_seed_track(ListenSeed {
        username: "u".into(),
        artist: "AC/DC".into(),
        title: "T.N.T.".into(),
        subsonic_id: None,
    });
    assert_eq!(seed.provider, "listen");
    assert_eq!(seed.provider_track_id, "listen:acdc|tnt");
}

#[test]
fn artist_context_reads_albums_by_name_or_title() {
    let body = r#"{"subsonic-response":{"artist":{"id":"ar1","name":"Кино","album":[{"name":"Группа крови"},{"title":"Chorny Albom"},{"id":"x"}]}}}"#;
    let ctx = extract_artist_context_json(&parse(body));
    assert_eq!(ctx.id, "ar1");
    assert_eq!(ctx.name, "Кино");
    assert_eq!(ctx.local_album_keys, vec!["gruppakrovi", "chornyalbom"]);
    let empty = extract_artist_context_json(&parse("{}"));
    assert_eq!(empty.id, "");
    assert!(empty.local_album_keys.is_empty());
}

#[test]
fn library_songs_become_wave_tracks() {
    let song = parse(r#"{"id":"s 1","artist":"A","duration":215,"coverArt":"c1","albumId":"al"}"#);
    let t = wave_track_from_json(&song, "u=a&t=b").unwrap();
    assert_eq!(t.id, "s 1");
    assert_eq!(t.title, "Unknown");
    assert_eq!(t.artist, "A");
    assert_eq!(t.duration_secs, Some(215));
    assert_eq!(t.cover_art.as_deref(), Some("c1"));
    assert_eq!(t.album_id.as_deref(), Some("al"));
    assert_eq!(t.album, None);
    assert_eq!(t.stream_url, "/rest/stream?u=a&t=b&id=s+1");
    assert!(wave_track_from_json(&parse(r#"{"title":"x"}"#), "").is_none());
}

#[test]
fn player_responses_give_direct_audio() {
    let body = r#"{"playabilityStatus":{"status":"OK"},"streamingData":{"adaptiveFormats":[
        {"mimeType":"video/mp4","url":"https://v","bitrate":900000},
        {"mimeType":"audio/webm; codecs=\"opus\"","url":"https://a1","bitrate":130000,"contentLength":"4000"},
        {"mimeType":"audio/mp4","signatureCipher":"s=x","bitrate":999999},
        {"mimeType":"audio/mp4","url":"https://a2","averageBitrate":140000,"contentLength":5000}
    ]}}"#;
    let audio = player_audio(&parse(body)).unwrap();
    assert_eq!(audio.url, "https://a2");
    assert_eq!(audio.bitrate, 140000);
    assert_eq!(audio.content_length, Some(5000));
    let refused = player_audio(&parse(
        r#"{"playabilityStatus":{"status":"LOGIN_REQUIRED","reason":"Sign in"}}"#,
    ));
    assert_eq!(
        refused,
        Err(PlayerError::Unplayable { status: "LOGIN_REQUIRED".into(), reason: "Sign in".into() })
    );
    assert_eq!(
        player_audio(&parse("{}")),
        Err(PlayerError::Unplayable { status: "MISSING".into(), reason: String::new() })
    );
    assert_eq!(
        player_audio(&parse(r#"{"playabilityStatus":{"status":"OK"}}"#)),
        Err(PlayerError::NoDirectAudio)
    );
}

#[test]
fn envelopes_carry_status_error_and_payload() {
    let env = Envelope::default();
    let ok = from_lib(&env.json_body("ok", None, Some(("song", entry("sgr_1", "A", "T", 10).to_json()))));
    let inner = &ok["subsonic-response"];
    assert_eq!(inner["status"], "ok");
    assert_eq!(inner["version"], "1.16.1");
    assert_eq!(inner["type"], "navidrome");
    assert_eq!(inner["openSubsonic"], true);
    assert_eq!(inner["song"]["id"], "sgr_1");
    assert!(inner.get("error").is_none());
    let failed = from_lib(&env.json_body("failed", Some((70, "The requested data was not found")), None));
    assert_eq!(failed["subsonic-response"]["error"]["code"], 70);
    assert_eq!(failed["subsonic-response"]["error"]["message"], "The requested data was not found");
}

fn payload_track(n: i64) -> AlbumTrackPayload {
    AlbumTrackPayload {
        provider_track_id: format!("t{n}"),
        artist: "A".into(),
        title: format!("Song {n}"),
        album: "Album".into(),
        duration_ms: Some(100_000),
        isrc: None,
        artwork_url: None,
        disc_number: Some(1),
        track_number: Some(n),
    }
}

#[test]
fn virtual_album_answers_number_their_songs() {
    let album = VirtualAlbum {
        id: "sga_1".into(),
        provider: "deezer".into(),
        provider_album_id: "9".into(),
        artist: "A".into(),
        title: "Album".into(),
        album_type: Some("album".into()),
        release_date: Some("2019-05-01".into()),
        artwork_url: None,
        track_count: Some(2),
        payload_json: "{}".into(),
        status: "virtual".into(),
    };
    let songs = vec![
        (entry("sgr_1", "A", "Song 1", 100), payload_track(1)),
        (entry("sgr_2", "A", "Song 2", 50), payload_track(2)),
    ];
    let one = from_lib(&song_json(&songs[0].0, &songs[0].1, "sga_1"));
    assert_eq!(one["albumId"], "sga_1");
    assert_eq!(one["track"], 1);
    assert_eq!(one["discNumber"], 1);
    let no_art = from_lib(&album_json(&album, None, &songs, "2026-01-01T00:00:00Z".into()));
    assert_eq!(no_art["songCount"], 2);
    assert_eq!(no_art["duration"], 150);
    assert_eq!(no_art["year"], 2019);
    assert_eq!(no_art["song"][1]["track"], 2);
    assert!(no_art.get("coverArt").is_none());
    let mut art = payload_track(3);
    art.artwork_url = Some("https://img".into());
    let payload = AlbumPayload { tracks: vec![art] };
    let with_art = from_lib(&album_json(&album, Some(&payload), &songs, "c".into()));
    assert_eq!(with_art["coverArt"], "sga_1");
}

#[test]
fn envelope_mirrors_a_ping_answer() {
    let ping = parse(
        r#"{"subsonic-response":{"status":"ok","version":"1.16.1","type":"navidrome","serverVersion":"0.62.0 (1b46b977)","openSubsonic":true}}"#,
    );
    let envelope = Envelope::from_ping(&ping).unwrap();
    assert_eq!(envelope.server_version, "0.62.0 (1b46b977)");
    assert!(envelope.open_subsonic);
    let sparse = Envelope::from_ping(&parse(r#"{"subsonic-response":{"openSubsonic":false}}"#)).unwrap();
    assert_eq!(sparse.version, "1.16.1");
    assert_eq!(sparse.server_type, "navidrome");
    assert_eq!(sparse.server_version, "");
    assert!(!sparse.open_subsonic);
    assert!(Envelope::from_ping(&parse(r#"{"error":"nope"}"#)).is_none());
}
