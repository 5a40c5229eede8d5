use songarr::resolve::{
    after_chunk, best_resolution, cached_resolution, chunk_url, looks_like_id, match_text,
    needs_prefetch, pick_best_audio, validated, video_id, AudioFormat, SearchHit,
};
use songarr::vtrack::VirtualTrack;

fn track() -> VirtualTrack {
    VirtualTrack {
        id: "sgr_x".into(),
        provider: "deezer".into(),
        provider_track_id: "1".into(),
        artist: "A".into(),
        title: "B".into(),
        album: None,
        duration_ms: Some(1000),
        isrc: None,
        artwork_url: None,
        status: "virtual".into(),
        real_subsonic_id: None,
        resolved_url: Some("https://y/1".into()),
        resolved_score: Some(88),
        resolved_title: None,
        resolved_at_epoch: Some(1_000),
    }
}

#[test]
fn extracts_video_ids() {
    assert_eq!(video_id("https://www.youtube.com/watch?v=dQw4w9WgXcQ").as_deref(), Some("dQw4w9WgXcQ"));
    assert_eq!(
        video_id("https://www.youtube.com/watch?app=m&v=dQw4w9WgXcQ&t=4s").as_deref(),
        Some("dQw4w9WgXcQ")
    );
    assert_eq!(video_id("https://youtu.be/dQw4w9WgXcQ?si=xyz").as_deref(), Some("dQw4w9WgXcQ"));
    assert_eq!(video_id("dQw4w9WgXcQ").as_deref(), Some("dQw4w9WgXcQ"));
    assert_eq!(video_id("https://example.com/nope"), None);
}

fn format(mime: &str, url: Option<&str>, bitrate: i64, length: Option<&str>) -> AudioFormat {
    AudioFormat {
        mime_type: Some(mime.into()),
        url: url.map(str::to_string),
        bitrate: Some(bitrate),
        average_bitrate: None,
        content_length_text: length.map(str::to_string),
        content_length_number: None,
    }
}

#[test]
fn picks_highest_bitrate_plain_url_audio() {
    let formats = vec![
        format("video/mp4; codecs=\"avc1\"", Some("http://x/video"), 900_000, None),
        format("audio/mp4; codecs=\"mp4a.40.2\"", Some("http://x/aac"), 128_000, None),
        format("audio/webm; codecs=\"opus\"", Some("http://x/opus"), 160_000, Some("2768759")),
        format("audio/webm; codecs=\"opus\"", None, 999_000, None),
    ];
    let best = pick_best_audio(&formats).unwrap();
    assert_eq!(best.url, "http://x/opus");
    assert_eq!(best.bitrate, 160_000);
    assert_eq!(best.content_length, Some(2_768_759));
    assert!(pick_best_audio(&[].to_vec()).is_none());
}

#[test]
fn cached_resolutions_expire() {
    let t = track();
    let r = cached_resolution(&t, 2_000).unwrap();
    assert_eq!(r.url, "https://y/1");
    assert_eq!(r.score, 88);
    assert_eq!(r.candidate_title, "");
    assert!(cached_resolution(&t, 1_000 + 86_400).is_none());
    assert!(!needs_prefetch(&t, 2_000));
    assert!(needs_prefetch(&t, 1_000 + 86_400));
}

#[test]
fn best_hit_is_the_last_highest_score() {
    let hits = vec![
        SearchHit { id: "a".into(), url: None, title: "A".into() },
        SearchHit { id: "b".into(), url: Some("u".into()), title: "B".into() },
        SearchHit { id: "c".into(), url: None, title: "C".into() },
    ];
    let r = best_resolution(&hits, &vec![50, 90, 90]).unwrap();
    assert_eq!(r.url, "https://www.youtube.com/watch?v=c");
    assert_eq!(r.score, 90);
    assert!(best_resolution(&Vec::new(), &Vec::new()).is_none());
}

#[test]
fn chunk_ranges_and_text() {
    assert_eq!(chunk_url("http://g/v?x=1", 0, Some(10)), "http://g/v?x=1&range=0-9");
    assert_eq!(chunk_url("http://g/v", 1_048_576, None), "http://g/v?range=1048576-2097151");
    assert_eq!(after_chunk(0, 100, None), (100, true));
    assert_eq!(after_chunk(0, 1_048_576, Some(5_000_000)), (1_048_576, false));
    assert!(validated(2_097_152));
    assert!(!looks_like_id("short"));
    assert_eq!(match_text("  Sigur Rós —  Hoppípolla! "), "sigur ros hoppipolla");
}

#[test]
fn search_hits_fall_back_to_their_id_for_a_url() {
    let hit = songarr::resolve::SearchHit {
        id: "dQw4w9WgXcQ".into(),
        url: Some("https://www.youtube.com/watch?v=dQw4w9WgXcQ".into()),
        title: "Rick Astley - Never Gonna Give You Up".into(),
    };
    assert_eq!(songarr::resolve::hit_watch_url(&hit), "https://www.youtube.com/watch?v=dQw4w9WgXcQ");
    let bare = songarr::resolve::SearchHit { id: "abc".into(), url: None, title: "x".into() };
    assert_eq!(songarr::resolve::hit_watch_url(&bare), "https://www.youtube.com/watch?v=abc");
}
