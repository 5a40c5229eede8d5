use songarr::search::{choose_injections, effective_query, should_intercept, SearchKind, SongKey};
use songarr::vtrack::CatalogTrack;

#[test]
fn song_keys_match_with_duration_tolerance() {
    let a = SongKey::new("Daft Punk", "One More Time", Some(320));
    assert!(a.matches(&SongKey::new("daft punk", "One More Time!", Some(322))));
    assert!(a.matches(&SongKey::new("Daft Punk", "One More Time", None)));
    assert!(!a.matches(&SongKey::new("Daft Punk", "One More Time", Some(360))));
    assert!(!a.matches(&SongKey::new("Daft Punk", "Around the World", Some(320))));
    assert!(SongKey::new("Molchat Doma", "Sudno", Some(130)).matches(&SongKey::new(
        "Молчат Дома",
        "Судно (Борис Рыжий)",
        Some(129)
    )));
}

fn hit(artist: &str, title: &str, ms: Option<i64>) -> CatalogTrack {
    CatalogTrack {
        provider: "deezer",
        provider_track_id: title.into(),
        artist: artist.into(),
        title: title.into(),
        album: None,
        duration_ms: ms,
        isrc: None,
        artwork_url: None,
    }
}

#[test]
fn injections_skip_duplicates_and_stop_at_max() {
    let existing = vec![SongKey::new("Daft Punk", "One More Time", Some(320))];
    let imported = vec![SongKey::new("Daft Punk", "Digital Love", None)];
    let catalog = vec![
        hit("Daft Punk", "One More Time", Some(321_000)),
        hit("Daft Punk", "Aerodynamic", Some(212_000)),
        hit("Daft Punk", "Aerodynamic (Remastered)", Some(213_000)),
        hit("Daft Punk", "Digital Love", Some(301_000)),
        hit("Daft Punk", "Voyager", None),
        hit("Daft Punk", "Veridis Quo", None),
    ];
    let chosen = choose_injections(catalog.clone(), &existing, &imported, 2);
    let titles: Vec<&str> = chosen.iter().map(|t| t.title.as_str()).collect();
    assert_eq!(titles, vec!["Aerodynamic", "Voyager"]);
    let all = choose_injections(catalog, &existing, &imported, 10);
    assert_eq!(all.len(), 3);
}

#[test]
fn interception_needs_query_format_and_allowed_user() {
    let deny = vec!["guest".to_string()];
    assert!(should_intercept(true, true, "\"abc\"", 3, &deny, "alice"));
    assert!(!should_intercept(true, true, "\"\"", 1, &deny, "alice"));
    assert!(!should_intercept(true, true, "abc", 3, &deny, "guest"));
    assert!(!should_intercept(false, true, "abc", 3, &deny, "alice"));
    assert!(!should_intercept(true, false, "abc", 3, &deny, "alice"));
    assert!(should_intercept(true, true, "ёж", 4, &deny, "alice"));
    assert_eq!(effective_query("\" x \"").into_iter().collect::<String>(), "x");
    assert_eq!(effective_query(" \"x\" ").into_iter().collect::<String>(), "\"x\"");
    assert_eq!(SearchKind::Search3.result_key(), "searchResult3");
}
