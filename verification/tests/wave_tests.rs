use songarr::search::SongKey;
use songarr::similar::SeedTrack;
use songarr::wave::{
    auth_query, auth_query_with_format, avatar_mime, cached_budget, check_avatar, content_type,
    display_name, extend_wave, feedback_action, html_escape, next_stage, random_sample_count,
    requested_count, seed_budget, seed_request_count, source_from_provider, stream_url,
    AvatarError, ExtendRule, FeedbackSuppression, WaveReason, WaveStage, WaveTrack,
    DEFAULT_NEXT_COUNT, MAX_NEXT_COUNT,
};

#[test]
fn content_types_cover_vite_assets() {
    assert_eq!(content_type("index.html"), "text/html; charset=utf-8");
    assert_eq!(content_type("assets/app.js"), "text/javascript; charset=utf-8");
    assert_eq!(content_type("assets/app.css"), "text/css; charset=utf-8");
    assert_eq!(content_type("icon-192.png"), "image/png");
}

#[test]
fn requested_count_is_bounded() {
    assert_eq!(requested_count(None), DEFAULT_NEXT_COUNT);
    assert_eq!(requested_count(Some("0")), 1);
    assert_eq!(requested_count(Some("999")), MAX_NEXT_COUNT);
}

fn params(pairs: &[(&str, &str)]) -> Vec<(String, String)> {
    pairs.iter().map(|(k, v)| (k.to_string(), v.to_string())).collect()
}

#[test]
fn spike_auth_query_keeps_only_subsonic_auth() {
    let p = params(&[("u", "admin"), ("t", "token"), ("s", "salt"), ("id", "sgr_one")]);
    assert_eq!(auth_query(&p), "u=admin&t=token&s=salt");
    assert_eq!(auth_query_with_format(&p, Some("json")), "u=admin&t=token&s=salt&f=json");
}

#[test]
fn auth_query_keeps_the_clients_format_and_last_values() {
    let p = params(&[("f", "xml"), ("u", "a b"), ("u", "c"), ("v", "1.16.1")]);
    assert_eq!(auth_query(&p), "u=c&v=1.16.1&f=xml");
}

#[test]
fn small_wave_rules() {
    assert_eq!(source_from_provider("ytm"), Some("ytm"));
    assert_eq!(source_from_provider("feedback"), Some("library"));
    assert_eq!(source_from_provider("navidrome"), None);
    assert_eq!(feedback_action(" like ").as_deref(), Some("like"));
    assert_eq!(feedback_action("love"), None);
    assert_eq!(display_name(Some("  ".into())), None);
    assert_eq!(display_name(Some(format!(" {} ", "я".repeat(50)))).unwrap().chars().count(), 40);
    assert_eq!(check_avatar(0), Err(AvatarError::Empty));
    assert_eq!(check_avatar(300_000), Err(AvatarError::TooLarge));
    assert_eq!(check_avatar(10), Ok(()));
    assert_eq!(avatar_mime(Some("image/png")), "image/png");
    assert_eq!(avatar_mime(Some("text/plain")), "image/jpeg");
    assert_eq!(avatar_mime(None), "image/jpeg");
    assert_eq!(html_escape("a&b<\"c\">"), "a&amp;b&lt;&quot;c&quot;&gt;");
    assert_eq!(stream_url("u=a", "sgr 1"), "/rest/stream?u=a&id=sgr+1");
}

#[test]
fn batch_budgets() {
    assert_eq!(seed_budget(12, 0), 6);
    assert_eq!(seed_budget(12, 9), 3);
    assert_eq!(seed_budget(12, 12), 0);
    assert_eq!(seed_request_count(6), 12);
    assert_eq!(seed_request_count(20), 30);
    assert_eq!(cached_budget(12, 4), (10, 24));
    assert_eq!(cached_budget(1, 0), (1, 3));
    assert_eq!(random_sample_count(12, 10), 24);
    assert_eq!(random_sample_count(30, 0), 90);
}

#[test]
fn stages_run_while_the_batch_is_short() {
    assert_eq!(next_stage(WaveStage::Seeds, 12, 3, false), WaveStage::YandexWave);
    assert_eq!(next_stage(WaveStage::YandexWave, 12, 3, false), WaveStage::RandomRespecting);
    assert_eq!(next_stage(WaveStage::YandexWave, 12, 3, true), WaveStage::CachedProvider);
    assert_eq!(next_stage(WaveStage::RandomRespecting, 12, 12, true), WaveStage::Done);
    assert_eq!(next_stage(WaveStage::RandomAll, 12, 0, true), WaveStage::Done);
}

fn wt(id: &str, artist: &str, title: &str) -> (WaveTrack, SongKey) {
    (
        WaveTrack {
            id: id.into(),
            title: title.into(),
            artist: artist.into(),
            provider: None,
            reason: Some(WaveReason::source("library_random", "library")),
            artist_id: None,
            album: None,
            album_id: None,
            duration_secs: Some(200),
            cover_art: None,
            stream_url: format!("/rest/stream?id={id}"),
        },
        SongKey::new(artist, title, Some(200)),
    )
}

#[test]
fn extending_skips_suppressed_and_duplicate_tracks() {
    let rows = vec![
        ("bad|song".to_string(), "bad".to_string(), "skip".to_string(), 1_000i64),
        ("x|y".to_string(), "hated".to_string(), "dislike".to_string(), 0i64),
    ];
    let sup = FeedbackSuppression::from_rows(&rows, 1_000);
    assert!(sup.is_suppressed("Bad", "Song"));
    assert!(sup.is_suppressed("Hated", "Anything"));
    assert!(!sup.is_suppressed("Good", "Song"));
    let mut tracks = Vec::new();
    let mut existing = vec![SongKey::new("Known", "Tune", None)];
    let cands = vec![
        wt("1", "Bad", "Song"),
        wt("2", "Known", "Tune"),
        wt("3", "Good", "One"),
        wt("4", "Good", "One!"),
        wt("5", "Good", "Two"),
        wt("6", "Good", "Three"),
    ];
    extend_wave(&mut tracks, &mut existing, &cands, &sup, 2, ExtendRule::Library { respect_suppression: true });
    let ids: Vec<&str> = tracks.iter().map(|t| t.id.as_str()).collect();
    assert_eq!(ids, vec!["3", "5"]);
    assert_eq!(existing.len(), 3);

    let mut seeded = Vec::new();
    let mut keys = Vec::new();
    let seed = SeedTrack { artist: "S".into(), title: "T".into(), provider: "yandex".into(), provider_track_id: "1".into() };
    let reason = WaveReason::seed("because_liked", source_from_provider(&seed.provider), &seed);
    assert_eq!(reason.seed_title.as_deref(), Some("T"));
    extend_wave(&mut seeded, &mut keys, &vec![wt("a", "A", "A"), wt("a", "A", "A"), wt("b", "B", "B")], &sup, 5, ExtendRule::Seed);
    assert_eq!(seeded.len(), 2);
    assert_eq!(keys.len(), 3);
}
