use songarr::catalog::{
    artist_key, artist_match_score, artist_query, catalog_tracks_from_search, keep_artist_tracks,
    resolve_artist_from_hits, search_sources, AlbumDetail, AlbumTrack, ArtistHit, SearchAlbum,
    SearchTrack, PROVIDER,
};
use songarr::config::Provider;
use songarr::recs::normalize;
use songarr::vtrack::CatalogTrack;

/// The fuzzy score the proxy computes for an artist hit.
fn fuzzy(library: &str, candidate: &str) -> u32 {
    let jw = strsim::jaro_winkler(&normalize(library), &normalize(candidate));
    (jw * 90.0).round() as u32
}

#[test]
fn resolves_cyrillic_library_artist_to_latin_catalog_artist() {
    let hits = vec![
        ArtistHit {
            id: 1,
            name: "Oxxxy Miron Tribute".into(),
            nb_fan: Some(999_999),
            picture_big: None,
            picture_xl: None,
        },
        ArtistHit {
            id: 2,
            name: "Oxxxymiron".into(),
            nb_fan: Some(10),
            picture_big: Some("big".into()),
            picture_xl: None,
        },
    ];
    let scores: Vec<u32> = hits.iter().map(|h| fuzzy("Оксимирон", &h.name)).collect();
    let resolved = resolve_artist_from_hits("Оксимирон", hits, &scores, 70).unwrap();
    assert_eq!(resolved.id, 2);
    assert_eq!(resolved.score, 100);
    assert_eq!(resolved.artwork_url.as_deref(), Some("big"));
}

#[test]
fn aliases_common_cyrillic_latin_artist_pairs() {
    assert_eq!(artist_key("Молчат Дома"), artist_key("Molchat Doma"));
    assert_eq!(artist_key("Скриптонит"), artist_key("Skryptonite"));
    assert_eq!(artist_key("Кино"), artist_key("Kino"));
}

#[test]
fn yandex_provider_name_is_stable() {
    assert_eq!(songarr::yandex::PROVIDER, "yandex");
}

#[test]
fn match_scores_prefer_keys_then_names_then_fuzzy() {
    assert_eq!(artist_match_score("Oksimiron", "Oxxxymiron", 7), 100);
    assert_eq!(artist_match_score("AC/DC", "ac dc", 7), 100);
    assert_eq!(artist_match_score("Daft Punk", "Justice", 7), 7);
}

#[test]
fn ties_go_to_more_fans_and_low_scores_are_refused() {
    let hits = vec![
        ArtistHit { id: 1, name: "A".into(), nb_fan: Some(5), picture_big: None, picture_xl: Some("xl".into()) },
        ArtistHit { id: 2, name: "B".into(), nb_fan: Some(50), picture_big: None, picture_xl: None },
    ];
    let resolved = resolve_artist_from_hits("Zzz", hits.clone(), &vec![80, 80], 70).unwrap();
    assert_eq!(resolved.id, 2);
    assert!(resolve_artist_from_hits("Zzz", hits, &vec![60, 50], 70).is_none());
    assert!(resolve_artist_from_hits("Zzz", Vec::new(), &Vec::new(), 0).is_none());
}

#[test]
fn search_entries_map_to_catalog_tracks() {
    let data = vec![
        SearchTrack {
            id: 3135556,
            title: "Harder, Better, Faster, Stronger".into(),
            duration: Some(224),
            artist_name: "Daft Punk".into(),
            album: Some(SearchAlbum {
                title: "Discovery".into(),
                cover_big: Some("big".into()),
                cover_xl: Some("xl".into()),
            }),
            kind: "track".into(),
        },
        SearchTrack {
            id: 7,
            title: "Not a track".into(),
            duration: None,
            artist_name: "X".into(),
            album: None,
            kind: "album".into(),
        },
        SearchTrack {
            id: 8,
            title: "Untyped".into(),
            duration: None,
            artist_name: "Y".into(),
            album: Some(SearchAlbum { title: "Z".into(), cover_big: Some("big".into()), cover_xl: None }),
            kind: String::new(),
        },
    ];
    let tracks = catalog_tracks_from_search(&data);
    assert_eq!(tracks.len(), 2);
    assert_eq!(tracks[0].provider, PROVIDER);
    assert_eq!(tracks[0].provider_track_id, "3135556");
    assert_eq!(tracks[0].duration_ms, Some(224_000));
    assert_eq!(tracks[0].album.as_deref(), Some("Discovery"));
    assert_eq!(tracks[0].artwork_url.as_deref(), Some("xl"));
    assert_eq!(tracks[1].artwork_url.as_deref(), Some("big"));
    assert_eq!(tracks[1].duration_ms, None);
}

#[test]
fn artist_queries_drop_quotes_and_filter_other_artists() {
    assert_eq!(artist_query("The \"Band\""), "artist:\"The Band\"");
    let track = |artist: &str| CatalogTrack {
        provider: PROVIDER,
        provider_track_id: "1".into(),
        artist: artist.into(),
        title: "T".into(),
        album: None,
        duration_ms: None,
        isrc: None,
        artwork_url: None,
    };
    let kept = keep_artist_tracks(vec![track("Кино"), track("кино"), track("Other")], "КИНО");
    assert_eq!(kept.len(), 2);
}

#[test]
fn album_detail_becomes_cache_and_virtual_album() {
    let detail = AlbumDetail {
        id: 302127,
        title: "Discovery".into(),
        record_type: Some("album".into()),
        release_date: Some("2001-03-12".into()),
        cover_big: Some("big".into()),
        cover_xl: None,
        nb_tracks: Some(3),
        artist_name: "Daft Punk".into(),
        tracks: vec![
            AlbumTrack { id: 1, title: "One More Time".into(), duration: Some(320), artist_name: None, disk_number: Some(1), track_position: Some(1), isrc: None },
            AlbumTrack { id: 2, title: "Aerodynamic".into(), duration: None, artist_name: Some("Guest".into()), disk_number: Some(1), track_position: Some(2), isrc: Some("X".into()) },
            AlbumTrack { id: 3, title: "Digital Love".into(), duration: Some(301), artist_name: None, disk_number: Some(1), track_position: Some(3), isrc: None },
        ],
    };
    let cache = detail.into_cache(2);
    assert_eq!(cache.provider_album_id, "302127");
    assert_eq!(cache.payload.tracks.len(), 2);
    assert_eq!(cache.payload.tracks[0].artist, "Daft Punk");
    assert_eq!(cache.payload.tracks[1].artist, "Guest");
    assert_eq!(cache.payload.tracks[0].duration_ms, Some(320_000));
    assert_eq!(cache.payload.tracks[0].artwork_url.as_deref(), Some("big"));
    assert_eq!(cache.payload.tracks[1].album, "Discovery");
    let album = cache.into_new_virtual_album();
    assert_eq!(album.provider, "deezer");
    assert_eq!(album.payload.tracks.len(), 2);
}

#[test]
fn catalog_sources_follow_the_provider() {
    assert_eq!(search_sources(Provider::Deezer), (true, false));
    assert_eq!(search_sources(Provider::Ytmusic), (true, false));
    assert_eq!(search_sources(Provider::Yandex), (false, true));
    assert_eq!(search_sources(Provider::Both), (true, true));
}
