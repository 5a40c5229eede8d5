use songarr::album::{album_xml, song_xml};
use songarr::artist::{extract_artist_context_xml, inject_albums_xml, AlbumSummaryEntry};
use songarr::config::Streaming;
use songarr::json::Json;
use songarr::lyrics::{has_lyrics_json, has_lyrics_xml, is_subsonic_json, is_subsonic_xml, lyrics_list_xml, Lyrics, SyncedLine};
use songarr::playlists::{inject_playlist_xml, playlist_xml, PlaylistSummary};
use songarr::search::{existing_songs_json, existing_songs_xml, inject_xml, is_ok_json, is_ok_xml, SongKey};
use songarr::similar::{songs_payload_json, songs_payload_xml};
use songarr::subsonic::{Envelope, SongEntry};
use songarr::valbum::{AlbumTrackPayload, VirtualAlbum};
use songarr::vtrack::VirtualTrack;
use songarr::xml::{read_events, tag_parts, MalformedXml, XmlKind};

fn to_lib(v: &serde_json::Value) -> Json {
    match v {
        serde_json::Value::Null => Json::Null,
        serde_json::Value::Bool(b) => Json::Bool(*b),
        serde_json::Value::Number(n) => Json::Number(n.to_string()),
        serde_json::Value::String(s) => Json::Str(s.clone()),
        serde_json::Value::Array(items) => Json::Array(items.iter().map(to_lib).collect()),
        serde_json::Value::Object(m) => {
            Json::Object(m.iter().map(|(k, v)| (k.clone(), to_lib(v))).collect())
        }
    }
}

fn parse(text: &str) -> Json {
    to_lib(&serde_json::from_str(text).unwrap())
}

fn text(chars: Vec<char>) -> String {
    chars.into_iter().collect()
}

fn virtual_track(id: &str, artist: &str, title: &str, secs: i64) -> VirtualTrack {
    VirtualTrack {
        id: id.into(),
        provider: "deezer".into(),
        provider_track_id: "1".into(),
        artist: artist.into(),
        title: title.into(),
        album: Some("Album".into()),
        duration_ms: Some(secs * 1000),
        isrc: None,
        artwork_url: Some("https://example.com/c.jpg".into()),
        status: "virtual".into(),
        real_subsonic_id: None,
        resolved_url: None,
        resolved_score: None,
        resolved_title: None,
        resolved_at_epoch: None,
    }
}

fn entry(id: &str, artist: &str, title: &str, secs: i64) -> SongEntry {
    SongEntry::from_virtual(&virtual_track(id, artist, title, secs), &Streaming::default())
}

const JSON_FIXTURE: &str = r#"{"subsonic-response":{"status":"ok","version":"1.16.1","type":"navidrome","serverVersion":"0.62.0 (1b46b977)","openSubsonic":true,"searchResult3":{"song":[{"id":"abc","title":"Tone 220 Hz","artist":"The Sine Waves","duration":4}]}}}"#;

const XML_FIXTURE: &str = r#"<?xml version="1.0" encoding="UTF-8"?><subsonic-response xmlns="http://subsonic.org/restapi" status="ok" version="1.16.1" type="navidrome" serverVersion="0.62.0 (1b46b977)" openSubsonic="true"><searchResult3><song id="abc" title="Tone 220 Hz" artist="The Sine Waves" duration="4"></song></searchResult3></subsonic-response>"#;

#[test]
fn ok_response_detection_parses_json_and_xml() {
    let pretty_json = r#"{
      "subsonic-response": {
        "status": "ok",
        "version": "1.16.1"
      }
    }"#;
    assert!(is_ok_json(&parse(pretty_json)));
    assert!(!is_ok_json(&parse(r#"{"subsonic-response":{"status":"failed"}}"#)));
    assert!(is_ok_xml(
        r#"<subsonic-response xmlns="http://subsonic.org/restapi" status="ok" version="1.16.1"/>"#
    ));
    assert!(!is_ok_xml(r#"<subsonic-response status="failed" version="1.16.1"/>"#));
}

#[test]
fn xml_injection_appends_inside_result_element() {
    let out = inject_xml(XML_FIXTURE, "searchResult3", &[entry("sgr_x", "A", "B", 100)]).unwrap();
    assert!(out.contains(r#"<song id="abc""#), "{out}");
    assert!(out.contains(r#"<song id="sgr_x""#), "{out}");
    assert!(
        out.find("abc").unwrap() < out.find("sgr_x").unwrap(),
        "virtual songs must come after real ones: {out}"
    );
    assert!(out.contains(r#"serverVersion="0.62.0 (1b46b977)""#), "{out}");
}

#[test]
fn xml_injection_handles_self_closing_and_missing_element() {
    let self_closing = r#"<subsonic-response status="ok" version="1.16.1"><searchResult3/></subsonic-response>"#;
    let out = inject_xml(self_closing, "searchResult3", &[entry("sgr_x", "A", "B", 9)]).unwrap();
    assert!(out.contains(r#"<searchResult3><song id="sgr_x""#), "{out}");
    assert!(out.contains("</searchResult3>"), "{out}");

    let missing = r#"<subsonic-response status="ok" version="1.16.1"></subsonic-response>"#;
    let out = inject_xml(missing, "searchResult3", &[entry("sgr_x", "A", "B", 9)]).unwrap();
    assert!(out.contains(r#"<searchResult3><song id="sgr_x""#), "{out}");
}

#[test]
fn existing_song_extraction_both_formats() {
    let json = existing_songs_json(&parse(JSON_FIXTURE), "searchResult3");
    let xml = existing_songs_xml(XML_FIXTURE);
    assert_eq!(json.len(), 1);
    assert_eq!(json.len(), xml.len());
    assert_eq!(json[0].artist, xml[0].artist);
    assert_eq!(json[0].title, xml[0].title);
    assert_eq!(json[0].duration_secs, xml[0].duration_secs);
    assert!(json[0].matches(&SongKey::new("the sine waves", "Tone 220 Hz", Some(5))));
}

fn sample_track() -> VirtualTrack {
    VirtualTrack {
        id: "sgr_test123".into(),
        provider: "deezer".into(),
        provider_track_id: "1".into(),
        artist: "Ärtist \"Quoted\" & Co".into(),
        title: "Tïtle <One>".into(),
        album: Some("Älbum".into()),
        duration_ms: Some(224_000),
        isrc: None,
        artwork_url: Some("https://example.com/a.jpg".into()),
        status: "virtual".into(),
        real_subsonic_id: None,
        resolved_url: None,
        resolved_score: None,
        resolved_title: None,
        resolved_at_epoch: None,
    }
}

#[test]
fn xml_entry_escapes_special_chars() {
    let entry = SongEntry::from_virtual(&sample_track(), &Streaming::default());
    let xml = text(entry.write_xml("song"));
    assert!(xml.starts_with("<song "), "{xml}");
    assert!(xml.contains("&quot;Quoted&quot;"), "{xml}");
    assert!(xml.contains("&lt;One&gt;"), "{xml}");
    assert!(xml.contains("duration=\"224\""), "{xml}");
    // Valid XML: it reads back cleanly, as one empty `song` tag.
    let (events, failed) = read_events(&xml);
    assert!(!failed, "invalid xml: {xml}");
    assert_eq!(events.len(), 1);
    assert_eq!(events[0].kind, XmlKind::Empty);
    let (name, attrs) = tag_parts(&events[0].text);
    assert_eq!(name, "song");
    assert!(attrs.contains(&("title".to_string(), Some("Tïtle <One>".to_string()))));
}

fn album_entry(id: &str, name: &str) -> AlbumSummaryEntry {
    AlbumSummaryEntry {
        id: id.into(),
        name: name.into(),
        artist: "Artist".into(),
        artist_id: "ar1".into(),
        cover_art: Some(id.into()),
        song_count: 1,
        duration: 100,
        created: "2026-01-01T00:00:00Z".into(),
        year: Some(2026),
        artwork_url: Some("https://example.com/c.jpg".into()),
    }
}

#[test]
fn xml_injection_appends_before_artist_close() {
    let body = r#"<subsonic-response status="ok"><artist id="ar1" name="Artist"><album id="al1" name="Local"/></artist></subsonic-response>"#;
    let out = inject_albums_xml(body, &vec![album_entry("sga_x", "Remote")]).unwrap();
    assert!(out.contains(r#"<album id="sga_x" name="Remote""#), "{out}");
    assert!(out.find("al1").unwrap() < out.find("sga_x").unwrap());
}

#[test]
fn artist_injection_opens_an_empty_artist_and_adds_nothing_without_one() {
    let body = r#"<subsonic-response status="ok"><artist id="ar1" name="Artist"/></subsonic-response>"#;
    let out = inject_albums_xml(body, &vec![album_entry("sga_x", "Remote")]).unwrap();
    assert!(out.contains(r#"<artist id="ar1" name="Artist"><album id="sga_x""#), "{out}");
    assert!(out.ends_with("</artist></subsonic-response>"), "{out}");

    let without = r#"<subsonic-response status="ok"></subsonic-response>"#;
    let out = inject_albums_xml(without, &vec![album_entry("sga_x", "Remote")]).unwrap();
    assert_eq!(out, without);
}

#[test]
fn malformed_xml_is_refused() {
    let broken = r#"<subsonic-response status="ok"><artist></album></subsonic-response>"#;
    assert_eq!(inject_albums_xml(broken, &vec![album_entry("sga_x", "Remote")]), Err(MalformedXml));
    assert_eq!(inject_xml(broken, "searchResult3", &[]), Err(MalformedXml));
    assert!(extract_artist_context_xml(broken).is_none());
}

#[test]
fn artist_context_from_xml() {
    let body = r#"<subsonic-response status="ok"><artist id="ar1" name="Sigur R&#243;s"><album id="al1" name="Ágætis byrjun"/><album id="al2" title="( )"/></artist></subsonic-response>"#;
    let context = extract_artist_context_xml(body).unwrap();
    assert_eq!(context.id, "ar1");
    assert_eq!(context.name, "Sigur Rós");
    assert_eq!(context.local_album_keys, vec!["agaetisbyrjun".to_string(), "".to_string()]);
}

#[test]
fn detects_lyrics_xml() {
    assert!(!has_lyrics_xml(r#"<subsonic-response status="ok"><lyricsList/></subsonic-response>"#));
    assert!(has_lyrics_xml(
        r#"<subsonic-response status="ok"><lyricsList><structuredLyrics synced="false"/></lyricsList></subsonic-response>"#
    ));
}

#[test]
fn failed_subsonic_response_can_still_be_a_lyrics_fallback_candidate() {
    assert!(is_subsonic_json(&parse(
        r#"{"subsonic-response":{"status":"failed","error":{"code":70,"message":"data not found"}}}"#
    )));
    assert!(is_subsonic_xml(
        r#"<subsonic-response status="failed"><error code="70" message="data not found"/></subsonic-response>"#
    ));
    assert!(!is_subsonic_xml(r#"<subsonic-response version="1.16.1"/>"#));
    assert!(!has_lyrics_json(&parse(r#"{"subsonic-response":{"status":"ok"}}"#)));
}

#[test]
fn lyrics_lists_as_xml() {
    let empty = text(lyrics_list_xml(None));
    assert_eq!(empty, "<lyricsList></lyricsList>");
    let lyrics = Lyrics {
        artist: "A".into(),
        title: "T".into(),
        plain: Some("one\n\n two \n".into()),
        synced: Some(vec![SyncedLine { start_ms: 1500, value: "hi & bye".into() }]),
    };
    let synced = text(lyrics_list_xml(Some(&lyrics)));
    assert_eq!(
        synced,
        r#"<lyricsList><structuredLyrics displayArtist="A" displayTitle="T" lang="und" synced="true"><line start="1500" value="hi &amp; bye"/></structuredLyrics></lyricsList>"#
    );
    let plain_only = Lyrics { synced: None, ..lyrics };
    let plain = text(lyrics_list_xml(Some(&plain_only)));
    assert_eq!(
        plain,
        r#"<lyricsList><structuredLyrics displayArtist="A" displayTitle="T" lang="und" synced="false"><line value="one"/><line value="two"/></structuredLyrics></lyricsList>"#
    );
}

fn summary() -> PlaylistSummary {
    PlaylistSummary {
        owner: "admin".into(),
        song_count: 2,
        duration: 300,
        changed: "2026-01-01T00:00:00Z".into(),
    }
}

#[test]
fn playlist_xml_injection_appends_discovery_list() {
    let body = r#"<subsonic-response status="ok"><playlists><playlist id="real" name="Mine"/></playlists></subsonic-response>"#;
    let out = inject_playlist_xml(body, &summary()).unwrap();
    assert!(out.contains(r#"<playlist id="real" name="Mine"/><playlist id="songarr_discovery" name="Songarr Discovery" owner="admin""#), "{out}");
    let missing = r#"<subsonic-response status="ok"></subsonic-response>"#;
    let out = inject_playlist_xml(missing, &summary()).unwrap();
    assert!(out.starts_with(r#"<subsonic-response status="ok"><playlists><playlist id="songarr_discovery""#), "{out}");
    assert!(out.ends_with("/></playlists></subsonic-response>"), "{out}");
}

#[test]
fn discovery_playlist_as_xml() {
    let out = text(playlist_xml(&summary(), &vec![entry("sgr_x", "A", "B", 9)]));
    assert!(out.starts_with(r#"<playlist id="songarr_discovery" name="Songarr Discovery" owner="admin" public="false" songCount="2" duration="300""#), "{out}");
    assert!(out.contains(r#"<entry id="sgr_x""#), "{out}");
    assert!(out.ends_with("</playlist>"), "{out}");
}

#[test]
fn payload_renders_expected_container() {
    let envelope = Envelope::default();
    let payload = songs_payload_json(&vec![entry("sgr_x", "A", "B", 9)]);
    let body = envelope.json_body("ok", None, Some(("similarSongs2", payload)));
    match body {
        Json::Object(top) => {
            assert_eq!(top[0].0, "subsonic-response");
            match &top[0].1 {
                Json::Object(members) => {
                    assert!(members.iter().any(|(k, _)| k == "similarSongs2"));
                    assert_eq!(members[0].0, "status");
                    assert!(matches!(&members[0].1, Json::Str(s) if s == "ok"));
                }
                other => panic!("not an object: {other:?}"),
            }
        }
        other => panic!("not an object: {other:?}"),
    }
    let xml = envelope.xml_body("ok", None, &songs_payload_xml("similarSongs2", &vec![entry("sgr_x", "A", "B", 9)]));
    assert!(xml.starts_with(r#"<?xml version="1.0" encoding="UTF-8"?><subsonic-response xmlns="http://subsonic.org/restapi" status="ok" version="1.16.1" type="navidrome" serverVersion="" openSubsonic="true"><similarSongs2><song id="sgr_x""#), "{xml}");
    assert!(xml.ends_with("/></similarSongs2></subsonic-response>"), "{xml}");
}

#[test]
fn error_envelope_as_xml() {
    let xml = Envelope::default().xml_body("failed", Some((70, "The requested data was not found")), &[]);
    assert_eq!(
        xml,
        r#"<?xml version="1.0" encoding="UTF-8"?><subsonic-response xmlns="http://subsonic.org/restapi" status="failed" version="1.16.1" type="navidrome" serverVersion="" openSubsonic="true"><error code="70" message="The requested data was not found"/></subsonic-response>"#
    );
}

fn album() -> VirtualAlbum {
    VirtualAlbum {
        id: "sga_1".into(),
        provider: "deezer".into(),
        provider_album_id: "201".into(),
        artist: "Artist".into(),
        title: "Album".into(),
        album_type: Some("album".into()),
        release_date: Some("2019-05-01".into()),
        artwork_url: None,
        track_count: Some(1),
        payload_json: "{}".into(),
        status: "virtual".into(),
    }
}

fn payload_track(n: i64) -> AlbumTrackPayload {
    AlbumTrackPayload {
        provider_track_id: format!("t{n}"),
        artist: "Artist".into(),
        title: format!("Song {n}"),
        album: "Album".into(),
        duration_ms: Some(100_000),
        isrc: None,
        artwork_url: None,
        disc_number: Some(1),
        track_number: Some(n),
    }
}

#[test]
fn virtual_album_as_xml() {
    let song = entry("sgr_1", "Artist", "Song 1", 100);
    let songs = vec![(song.clone(), payload_track(1))];
    let out = text(album_xml(&album(), None, &songs, "2026-01-01T00:00:00Z"));
    assert_eq!(
        &out[..out.find("<song").unwrap()],
        r#"<album id="sga_1" name="Album" artist="Artist" songCount="1" duration="100" created="2026-01-01T00:00:00Z" year="2019">"#
    );
    let one = text(song_xml(&song, &payload_track(1), "sga_1"));
    assert!(one.contains(r#" album="Album" albumId="sga_1" coverArt="sgr_1" duration="100" track="1" discNumber="1" suffix="#), "{one}");
    assert!(out.ends_with(&format!("{one}</album>")), "{out}");

    let odd = VirtualAlbum { release_date: Some("é12x-01".into()), ..album() };
    let out = text(album_xml(&odd, None, &songs, "c"));
    assert!(out.contains(r#" year="é12""#), "{out}");
    let short = VirtualAlbum { release_date: Some("19".into()), ..album() };
    let out = text(album_xml(&short, None, &songs, "c"));
    assert!(!out.contains("year="), "{out}");
}
