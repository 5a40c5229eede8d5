use songarr::artist::{
    album_cover_artwork_url, albums_to_fetch, cached_catalog_has_artwork_holes, complete_album,
    is_local_album, release_year, summary_entry, top_songs_album, ArtistContext,
};
use songarr::catalog::{AlbumSummary, CatalogAlbumCache, ResolvedArtist};
use songarr::valbum::{AlbumPayload, AlbumTrackPayload};
use songarr::vtrack::CatalogTrack;

fn payload_track(art: Option<&str>, ms: Option<i64>) -> AlbumTrackPayload {
    AlbumTrackPayload {
        provider_track_id: "t1".into(),
        artist: "Artist".into(),
        title: "Song".into(),
        album: "Top Songs".into(),
        duration_ms: ms,
        isrc: None,
        artwork_url: art.map(str::to_string),
        disc_number: Some(1),
        track_number: Some(1),
    }
}

#[test]
fn cached_catalog_with_missing_regular_album_art_is_refetched() {
    let albums = vec![
        CatalogAlbumCache {
            provider_album_id: "201".into(),
            artist: "Artist".into(),
            title: "Album".into(),
            album_type: Some("album".into()),
            release_date: None,
            artwork_url: None,
            track_count: Some(1),
            payload: AlbumPayload { tracks: Vec::new() },
        },
        CatalogAlbumCache {
            provider_album_id: "artist:100:top".into(),
            artist: "Artist".into(),
            title: "Top Songs".into(),
            album_type: Some("playlist".into()),
            release_date: None,
            artwork_url: None,
            track_count: Some(0),
            payload: AlbumPayload { tracks: Vec::new() },
        },
    ];
    assert!(cached_catalog_has_artwork_holes(&albums));
    assert!(!cached_catalog_has_artwork_holes(&albums[1..]));
}

#[test]
fn album_cover_falls_back_to_first_track_artwork() {
    let album = CatalogAlbumCache {
        provider_album_id: "artist:100:top".into(),
        artist: "Artist".into(),
        title: "Top Songs".into(),
        album_type: Some("playlist".into()),
        release_date: None,
        artwork_url: None,
        track_count: Some(1),
        payload: AlbumPayload {
            tracks: vec![AlbumTrackPayload {
                provider_track_id: "t1".into(),
                artist: "Artist".into(),
                title: "Song".into(),
                album: "Top Songs".into(),
                duration_ms: Some(123_000),
                isrc: None,
                artwork_url: Some("https://example.com/song.jpg".into()),
                disc_number: Some(1),
                track_number: Some(1),
            }],
        },
    };
    assert_eq!(album_cover_artwork_url(&album).as_deref(), Some("https://example.com/song.jpg"));
}

fn summary(id: u64, kind: &str) -> AlbumSummary {
    AlbumSummary {
        id,
        title: format!("A{id}"),
        record_type: Some(kind.into()),
        release_date: Some("1999-01-01".into()),
        cover_big: Some("big".into()),
        cover_xl: None,
        nb_tracks: Some(9),
    }
}

#[test]
fn singles_are_dropped_unless_wanted_and_albums_capped() {
    let s = vec![summary(1, "album"), summary(2, "single"), summary(3, "ep"), summary(4, "album")];
    let ids = |v: Vec<AlbumSummary>| v.iter().map(|a| a.id).collect::<Vec<_>>();
    assert_eq!(ids(albums_to_fetch(s.clone(), false, 2)), vec![1, 3]);
    assert_eq!(ids(albums_to_fetch(s.clone(), true, 2)), vec![1, 2]);
    assert_eq!(ids(albums_to_fetch(s, false, 10)), vec![1, 3, 4]);
}

#[test]
fn albums_are_completed_from_their_summary() {
    let album = CatalogAlbumCache {
        provider_album_id: "1".into(),
        artist: "Artist".into(),
        title: "A1".into(),
        album_type: None,
        release_date: None,
        artwork_url: None,
        track_count: None,
        payload: AlbumPayload { tracks: vec![payload_track(None, None), payload_track(Some("own"), None)] },
    };
    let done = complete_album(album, &summary(1, "album"));
    assert_eq!(done.artwork_url.as_deref(), Some("big"));
    assert_eq!(done.album_type.as_deref(), Some("album"));
    assert_eq!(done.track_count, Some(9));
    assert_eq!(done.payload.tracks[0].artwork_url.as_deref(), Some("big"));
    assert_eq!(done.payload.tracks[1].artwork_url.as_deref(), Some("own"));
}

#[test]
fn top_tracks_become_a_playlist_album() {
    let resolved = ResolvedArtist { id: 100, name: "Artist".into(), score: 100, artwork_url: None };
    assert!(top_songs_album(&resolved, Vec::new()).is_none());
    let t = |art: Option<&str>| CatalogTrack {
        provider: "deezer",
        provider_track_id: "9".into(),
        artist: "Artist".into(),
        title: "Hit".into(),
        album: None,
        duration_ms: Some(1000),
        isrc: None,
        artwork_url: art.map(str::to_string),
    };
    let album = top_songs_album(&resolved, vec![t(None), t(Some("x"))]).unwrap();
    assert_eq!(album.provider_album_id, "artist:100:top");
    assert_eq!(album.title, "Top Songs");
    assert_eq!(album.artwork_url.as_deref(), Some("x"));
    assert_eq!(album.track_count, Some(2));
    assert_eq!(album.payload.tracks[0].artwork_url.as_deref(), Some("x"));
    assert_eq!(album.payload.tracks[0].disc_number, Some(1));
}

#[test]
fn summaries_count_songs_time_and_year() {
    let album = CatalogAlbumCache {
        provider_album_id: "1".into(),
        artist: "Artist".into(),
        title: "A1".into(),
        album_type: None,
        release_date: Some("2004-05-06".into()),
        artwork_url: None,
        track_count: None,
        payload: AlbumPayload {
            tracks: vec![payload_track(None, Some(61_500)), payload_track(Some("p"), None), payload_track(None, Some(30_000))],
        },
    };
    let e = summary_entry(&album, "sga_1".into(), "ar1", "2026-01-01T00:00:00Z".into());
    assert_eq!(e.song_count, 3);
    assert_eq!(e.duration, 91);
    assert_eq!(e.year, Some(2004));
    assert_eq!(e.cover_art.as_deref(), Some("sga_1"));
    assert_eq!(e.artwork_url.as_deref(), Some("p"));
    assert_eq!(release_year(&Some("19".into())), None);
    assert_eq!(release_year(&Some("20é5".into())), None);
    let ctx = ArtistContext { id: "ar1".into(), name: "Artist".into(), local_album_keys: vec!["a1".into()] };
    assert!(is_local_album(&ctx, "A1"));
    assert!(!is_local_album(&ctx, "A2"));
}
