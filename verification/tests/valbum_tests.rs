use songarr::valbum::{
    album_artwork_url, catalog_cache_fresh, find_artwork_for_track, is_virtual_album_id,
    new_virtual_album_id, AlbumPayload, AlbumTrackPayload, VirtualAlbum, ID_PREFIX,
};
use songarr::vtrack::VirtualTrack;

#[test]
fn virtual_album_ids_have_expected_shape() {
    let id = new_virtual_album_id();
    assert_eq!(id.len(), ID_PREFIX.len() + 22);
    assert!(is_virtual_album_id(&id));
    assert!(!is_virtual_album_id("sgr_x"));
}

fn payload(tracks: Vec<(&str, &str, &str, Option<&str>)>) -> AlbumPayload {
    AlbumPayload {
        tracks: tracks
            .into_iter()
            .map(|(id, artist, title, art)| AlbumTrackPayload {
                provider_track_id: id.into(),
                artist: artist.into(),
                title: title.into(),
                album: "Этажи".into(),
                duration_ms: Some(130_000),
                isrc: None,
                artwork_url: art.map(str::to_string),
                disc_number: Some(1),
                track_number: Some(1),
            })
            .collect(),
    }
}

#[test]
fn repairs_track_artwork_from_album_payload() {
    let rows = vec![(
        Some("https://example.com/album.jpg".to_string()),
        payload(vec![("track1", "Молчат Дома", "Судно (Борис Рыжий)", None)]),
    )];
    let track = VirtualTrack {
        id: "sgr_1".into(),
        provider: "deezer".into(),
        provider_track_id: "other-id".into(),
        artist: "Molchat Doma".into(),
        title: "Sudno".into(),
        album: None,
        duration_ms: Some(130_000),
        isrc: None,
        artwork_url: None,
        status: "virtual".into(),
        real_subsonic_id: None,
        resolved_url: None,
        resolved_score: None,
        resolved_title: None,
        resolved_at_epoch: None,
    };
    assert_eq!(
        find_artwork_for_track(&rows, &track).as_deref(),
        Some("https://example.com/album.jpg")
    );
    let own = vec![(None, payload(vec![("other-id", "x", "y", Some("own"))]))];
    assert_eq!(find_artwork_for_track(&own, &track).as_deref(), Some("own"));
    assert_eq!(find_artwork_for_track(&Vec::new(), &track), None);
}

#[test]
fn album_artwork_prefers_its_own() {
    let album = VirtualAlbum {
        id: "sga_1".into(),
        provider: "deezer".into(),
        provider_album_id: "1".into(),
        artist: "A".into(),
        title: "T".into(),
        album_type: None,
        release_date: None,
        artwork_url: None,
        track_count: None,
        payload_json: "{}".into(),
        status: "virtual".into(),
    };
    let p = payload(vec![("1", "a", "b", None), ("2", "a", "c", Some("second"))]);
    assert_eq!(album_artwork_url(&album, Some(&p)).as_deref(), Some("second"));
    assert_eq!(album_artwork_url(&album, None), None);
    assert!(catalog_cache_fresh(7200, 0, 2));
    assert!(!catalog_cache_fresh(7201, 0, 2));
}
