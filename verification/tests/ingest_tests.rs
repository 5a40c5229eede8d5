use songarr::ingest::{
    import_gate, library_artist_dir, library_file_name, pick_real_id, remux_plan, sanitize_filename, ScannedSong,
};
use songarr::ingest_url::{parse, parse_vk_audio_id, LinkError, ParsedLink};
use songarr::vtrack::VirtualTrack;

fn track(artist: &str, title: &str) -> VirtualTrack {
    VirtualTrack {
        id: "sgr_x".into(),
        provider: "deezer".into(),
        provider_track_id: "1".into(),
        artist: artist.into(),
        title: title.into(),
        album: None,
        duration_ms: None,
        isrc: None,
        artwork_url: None,
        status: "staged".into(),
        real_subsonic_id: None,
        resolved_url: None,
        resolved_score: None,
        resolved_title: None,
        resolved_at_epoch: None,
    }
}

#[test]
fn sanitize_handles_separators_and_reserved_chars() {
    assert_eq!(sanitize_filename("AC/DC"), "AC_DC");
    assert_eq!(sanitize_filename("What? When: Where*"), "What_ When_ Where_");
    assert_eq!(sanitize_filename("...dots..."), "dots");
    assert_eq!(sanitize_filename("   "), "Unknown");
    assert_eq!(sanitize_filename("Ünïcødé"), "Ünïcødé");
    assert!(sanitize_filename(&"x".repeat(500)).len() <= 120);
}

#[test]
fn sanitize_cuts_at_a_char_boundary() {
    let long = "é".repeat(100);
    let cut = sanitize_filename(&long);
    assert_eq!(cut.len(), 120);
    assert_eq!(cut.chars().count(), 60);
    assert_eq!(sanitize_filename("a\u{7}b"), "a_b");
}

#[test]
fn library_file_names_follow_the_plan() {
    let t = track("Mock Artist", "Mock Song One");
    assert_eq!(library_file_name(&t, "opus", None), "Mock Artist - Mock Song One.opus");
    assert_eq!(
        library_file_name(&t, "opus", Some("abc123")),
        "Mock Artist - Mock Song One [abc123].opus"
    );
}

#[test]
fn import_gate_reasons() {
    assert_eq!(import_gate(false, false, Some(100), 70).as_deref(), Some("auto_import disabled"));
    assert_eq!(
        import_gate(false, true, Some(50), 70).as_deref(),
        Some("match score 50 below threshold 70")
    );
    assert_eq!(
        import_gate(false, true, None, 70).as_deref(),
        Some("match score 0 below threshold 70")
    );
    assert_eq!(import_gate(false, true, Some(70), 70), None);
    assert_eq!(import_gate(true, false, Some(0), 70), None);
}

#[test]
fn remux_keeps_native_codecs() {
    assert_eq!(remux_plan("opus"), ("opus", vec!["-c:a", "copy"]));
    assert_eq!(remux_plan("vorbis").0, "ogg");
    assert_eq!(remux_plan("alac"), ("m4a", vec!["-c:a", "copy", "-movflags", "+faststart"]));
    assert_eq!(remux_plan("wmav2"), ("mka", vec!["-c:a", "copy"]));
}

#[test]
fn real_id_prefers_the_ingest_folder() {
    let song = |id: &str, artist: &str, title: &str, path: &str| ScannedSong {
        id: Some(id.into()),
        artist: Some(artist.into()),
        title: Some(title.into()),
        path: Some(path.into()),
    };
    let songs = vec![
        song("a", "Other", "Song", "_songarr/x"),
        song("b", "Artist", "Song!", "Library/x"),
        song("c", "artist", "song", "_songarr/Artist/y"),
    ];
    let t = track("Artist", "Song");
    assert_eq!(pick_real_id(&songs, &t, "_songarr").as_deref(), Some("c"));
    assert_eq!(pick_real_id(&songs[..2].to_vec(), &t, "_songarr").as_deref(), Some("b"));
    assert_eq!(pick_real_id(&songs[..1].to_vec(), &t, "_songarr"), None);
}

fn yt(raw: &str) -> String {
    match parse(raw).unwrap() {
        ParsedLink::YouTube { watch_url } => watch_url,
        other => panic!("expected YouTube, got {other:?}"),
    }
}

fn vk(raw: &str) -> String {
    match parse(raw).unwrap() {
        ParsedLink::Vk { track_id } => track_id,
        other => panic!("expected VK, got {other:?}"),
    }
}

#[test]
fn youtube_watch_url() {
    assert_eq!(
        yt("https://www.youtube.com/watch?v=dQw4w9WgXcQ"),
        "https://www.youtube.com/watch?v=dQw4w9WgXcQ"
    );
    assert_eq!(
        yt("https://youtube.com/watch?v=abc123&list=PL&t=5"),
        "https://www.youtube.com/watch?v=abc123"
    );
}

#[test]
fn youtube_short_and_shorts() {
    assert_eq!(yt("https://youtu.be/dQw4w9WgXcQ"), "https://www.youtube.com/watch?v=dQw4w9WgXcQ");
    assert_eq!(
        yt("https://www.youtube.com/shorts/XyZ12345"),
        "https://www.youtube.com/watch?v=XyZ12345"
    );
}

#[test]
fn yandex_track_urls() {
    match parse("https://music.yandex.ru/album/1234/track/5678").unwrap() {
        ParsedLink::Yandex { track_id } => assert_eq!(track_id, "5678"),
        other => panic!("expected Yandex, got {other:?}"),
    }
    match parse("https://music.yandex.com/track/999").unwrap() {
        ParsedLink::Yandex { track_id } => assert_eq!(track_id, "999"),
        other => panic!("expected Yandex, got {other:?}"),
    }
}

#[test]
fn vk_audio_urls() {
    assert_eq!(vk("https://vk.com/audio-2001262717_136262717"), "-2001262717_136262717");
    assert_eq!(vk("https://m.vk.com/audio123_456"), "123_456");
    assert_eq!(vk("https://vk.com/feed?z=audio-1_2"), "-1_2");
    assert!(parse("https://vk.com/video-1_2").is_err());
    assert!(parse("https://vk.com/im").is_err());
}

#[test]
fn unsupported_hosts_and_garbage() {
    assert!(parse("https://soundcloud.com/x/y").is_err());
    assert!(parse("not a url").is_err());
    assert!(parse("https://music.yandex.ru/artist/42").is_err());
    assert!(parse("https://soundcloud.com/x").unwrap_err().message().starts_with("unsupported link"));
}

#[test]
fn link_errors_name_the_problem() {
    assert_eq!(parse("not a url").unwrap_err(), LinkError::NotAUrl);
    assert_eq!(parse("https://youtu.be/").unwrap_err(), LinkError::MissingYouTubeId);
    assert_eq!(parse("https://www.youtube.com/watch?v=").unwrap_err(), LinkError::EmptyYouTubeId);
    assert_eq!(parse("https://www.youtube.com/channel/x").unwrap_err(), LinkError::NoYouTubeId);
    assert_eq!(
        parse("https://soundcloud.com/x").unwrap_err(),
        LinkError::UnsupportedHost { host: "soundcloud.com".into() }
    );
    assert_eq!(
        parse("https://soundcloud.com/x").unwrap_err().message(),
        "unsupported link: soundcloud.com is not YouTube, Yandex Music, or VK"
    );
}

#[test]
fn vk_ids_come_from_path_or_query() {
    let none: Vec<(String, String)> = Vec::new();
    assert_eq!(parse_vk_audio_id("/audio5_6_abc", &none).as_deref(), Some("5_6_abc"));
    assert_eq!(parse_vk_audio_id("/audiox_1", &none), None);
    let q = vec![("a".to_string(), "nothing".to_string()), ("z".to_string(), "audio-7_8/x".to_string())];
    assert_eq!(parse_vk_audio_id("/feed", &q).as_deref(), Some("-7_8"));
}

#[test]
fn destination_layout_matches_plan() {
    let t = track("Mock Artist", "Mock Song One");
    let dest = std::path::Path::new("/music")
        .join("_songarr")
        .join(library_artist_dir(&t))
        .join(library_file_name(&t, "opus", None));
    assert_eq!(
        dest,
        std::path::PathBuf::from("/music/_songarr/Mock Artist/Mock Artist - Mock Song One.opus")
    );
}
