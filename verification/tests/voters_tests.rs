use songarr::lastfm::{candidates_from_tracks, ArtistField, Track};
use songarr::lyrics::plain_lines;
use songarr::proxy::{connection_tokens, is_hop_by_hop};
use songarr::recs::{canonical_match, from_catalog, same_title, similar_from_top_tracks, RecCandidate};
use songarr::vtrack::CatalogTrack;

fn lastfm(name: &str, artist: ArtistField, duration: Option<&str>) -> Track {
    Track { name: name.to_string(), artist, duration: duration.map(str::to_string) }
}

#[test]
fn lastfm_tracks_need_artist_and_title() {
    let tracks = vec![
        lastfm("Song A", ArtistField::Name("Band".into()), Some("215")),
        lastfm("   ", ArtistField::Name("Band".into()), Some("100")),
        lastfm("Song B", ArtistField::Object { name: String::new() }, None),
        lastfm("Song C", ArtistField::Object { name: "Other".into() }, Some("0")),
        lastfm("Song D", ArtistField::Name("Third".into()), Some("abc")),
    ];
    let out = candidates_from_tracks(tracks);
    assert_eq!(out.len(), 3);
    assert_eq!(out[0].artist, "Band");
    assert_eq!(out[0].title, "Song A");
    assert_eq!(out[0].duration_ms, Some(215_000));
    assert_eq!(out[0].provider, None);
    assert_eq!(out[1].artist, "Other");
    assert_eq!(out[1].duration_ms, None);
    assert_eq!(out[2].title, "Song D");
    assert_eq!(out[2].duration_ms, None);
}

#[test]
fn lastfm_artist_field_reads_both_shapes() {
    assert_eq!(ArtistField::Name("A".into()).name(), "A");
    assert_eq!(ArtistField::Object { name: "B".into() }.name(), "B");
    let c = lastfm("T", ArtistField::Name("A".into()), Some("-5")).into_candidate().unwrap();
    assert_eq!(c.duration_ms, None);
}

fn catalog(id: &str, artist: &str, title: &str) -> CatalogTrack {
    CatalogTrack {
        provider: "deezer",
        provider_track_id: id.into(),
        artist: artist.into(),
        title: title.into(),
        album: Some("Album".into()),
        duration_ms: Some(200_000),
        isrc: None,
        artwork_url: Some("https://img/1.jpg".into()),
    }
}

#[test]
fn catalog_tracks_become_deezer_candidates() {
    let c = from_catalog(catalog("42", "Artist", "Title"));
    assert_eq!(c.provider.as_deref(), Some("deezer"));
    assert_eq!(c.provider_track_id.as_deref(), Some("42"));
    assert_eq!(c.album.as_deref(), Some("Album"));
    assert_eq!(c.video_id, None);
}

#[test]
fn similar_tracks_skip_the_seed_title_and_respect_limit() {
    assert!(same_title("One More Time!", "one more time"));
    assert!(!same_title("One More Time", "Around the World"));
    let tracks = vec![
        catalog("1", "Daft Punk", "One More Time (Radio Edit)"),
        catalog("2", "Daft Punk", "one more time"),
        catalog("3", "Daft Punk", "Around the World"),
        catalog("4", "Daft Punk", "Digital Love"),
    ];
    let out = similar_from_top_tracks(tracks, "One More Time", 2);
    let ids: Vec<_> = out.iter().map(|c| c.provider_track_id.clone().unwrap()).collect();
    assert_eq!(ids, vec!["1".to_string(), "3".to_string()]);
}

#[test]
fn canonical_record_is_first_hit_with_same_song_key() {
    let candidate = RecCandidate {
        artist: "Молчат Дома".into(),
        title: "Судно".into(),
        album: None,
        duration_ms: None,
        isrc: None,
        artwork_url: None,
        provider: Some("ytmusic".into()),
        provider_track_id: None,
        video_id: Some("vid".into()),
    };
    let hits = vec![
        catalog("1", "Molchat Doma", "Sudno (Boris Ryzhii)"),
        catalog("2", "Molchat Doma", "Sudno"),
        catalog("3", "Molchat Doma", "Sudno"),
    ];
    let found = canonical_match(hits, &candidate).unwrap();
    assert_eq!(found.provider_track_id.as_deref(), Some("2"));
    assert!(canonical_match(Vec::new(), &candidate).is_none());
}

#[test]
fn plain_lyrics_lines_are_trimmed_and_non_blank() {
    assert_eq!(plain_lines(Some("  one \r\n\n two\n   \nthree")), vec!["one", "two", "three"]);
    assert!(plain_lines(None).is_empty());
    assert!(plain_lines(Some("")).is_empty());
}

#[test]
fn hop_by_hop_headers_include_connection_named_ones() {
    let named = connection_tokens(&vec!["close, X-Custom".to_string(), " foo ".to_string()]);
    assert_eq!(named, vec!["close", "X-Custom", "foo"]);
    let lower = vec!["x-custom".to_string()];
    assert!(is_hop_by_hop("keep-alive", &lower));
    assert!(is_hop_by_hop("transfer-encoding", &lower));
    assert!(is_hop_by_hop("x-custom", &lower));
    assert!(!is_hop_by_hop("content-type", &lower));
    assert!(!is_hop_by_hop("range", &Vec::new()));
}
