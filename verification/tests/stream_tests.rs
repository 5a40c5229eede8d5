use songarr::config::{
    apply_yandex_overrides, flag_on, is_denied, StreamFormat, Streaming, Users, Yandex,
};
use songarr::discord::{
    join_path, make_link, non_empty, normalize_server, require_server, voice_bitrate_kbps,
    ServerError, Track, TrackMeta,
};
use songarr::stream::{
    first_read_grace_secs, keep_downloading, pipeline_record, stream_route, transcode_plan,
    ytdlp_search_args, ytdlp_source_args, StreamRoute, KEEP_DOWNLOAD_MIN_BYTES,
};
use songarr::vtrack::VirtualTrack;

fn track(real: Option<&str>) -> VirtualTrack {
    VirtualTrack {
        id: "sgr_1".into(),
        provider: "deezer".into(),
        provider_track_id: "1".into(),
        artist: "Daft Punk".into(),
        title: "One More Time".into(),
        album: None,
        duration_ms: None,
        isrc: None,
        artwork_url: None,
        status: "virtual".into(),
        real_subsonic_id: real.map(str::to_string),
        resolved_url: None,
        resolved_score: None,
        resolved_title: None,
        resolved_at_epoch: None,
    }
}

#[test]
fn stream_routes() {
    assert_eq!(stream_route(false, None), StreamRoute::Passthrough);
    assert_eq!(stream_route(true, None), StreamRoute::NotFound);
    assert_eq!(
        stream_route(true, Some(&track(Some("real1")))),
        StreamRoute::Real { real_id: "real1".into() }
    );
    assert_eq!(stream_route(true, Some(&track(None))), StreamRoute::Pipeline);
}

#[test]
fn transcode_and_ytdlp_arguments() {
    let mut s = Streaming::default();
    let (args, ct) = transcode_plan(&s);
    assert_eq!(ct, "audio/ogg");
    assert_eq!(
        args,
        vec![
            "-hide_banner", "-loglevel", "error", "-i", "pipe:0", "-vn", "-map", "a", "-c:a",
            "libopus", "-f", "ogg", "-flush_packets", "1", "-b:a", "160k", "pipe:1"
        ]
    );
    s.format = StreamFormat::Mp3;
    s.bitrate_kbps = 320;
    let (args, ct) = transcode_plan(&s);
    assert_eq!(ct, "audio/mpeg");
    assert_eq!(args[9], "libmp3lame");
    assert_eq!(args[15], "320k");
    assert_eq!(
        ytdlp_search_args(&s, &track(None)),
        vec!["--dump-json", "--flat-playlist", "--no-warnings", "ytsearch5:Daft Punk One More Time"]
    );
    s.ytdlp_proxy = "http://gluetun:8888".into();
    let src = ytdlp_source_args(&s, "https://youtu.be/x");
    assert_eq!(src[8], "https://youtu.be/x");
    assert_eq!(&src[9..], ["--proxy", "http://gluetun:8888"]);
    assert_eq!(first_read_grace_secs(&s), 42);
}

#[test]
fn pipeline_outcomes_are_recorded() {
    assert!(keep_downloading(KEEP_DOWNLOAD_MIN_BYTES));
    assert!(!keep_downloading(KEEP_DOWNLOAD_MIN_BYTES - 1));
    let ok = pipeline_record(Ok(10));
    assert_eq!((ok.job_status, ok.track_status, ok.reason), ("finalizing", "staged", None));
    let empty = pipeline_record(Ok(0));
    assert_eq!(empty.reason.as_deref(), Some("source produced no data"));
    let err = pipeline_record(Err("boom".into()));
    assert_eq!((err.job_status, err.reason.as_deref()), ("failed", Some("boom")));
}

#[test]
fn discord_links_and_servers() {
    assert_eq!(normalize_server("  music.example.com/ "), "http://music.example.com");
    assert_eq!(normalize_server("https://a.b//"), "https://a.b");
    assert_eq!(join_path("/base/", "rest/ping"), "/base/rest/ping");
    assert_eq!(join_path("/", "/rest/ping"), "/rest/ping");
    assert_eq!(require_server(None, Some("d")), Ok("d"));
    assert_eq!(require_server(Some("p"), Some("d")), Ok("p"));
    assert_eq!(require_server(None, None), Err(ServerError::NoServer));
    assert_eq!(non_empty(Some("  x ".into())).as_deref(), Some("x"));
    assert_eq!(non_empty(Some("   ".into())), None);
    assert_eq!(voice_bitrate_kbps(None), 256);
    assert_eq!(voice_bitrate_kbps(Some(" 8 ".into())), 16);
    assert_eq!(voice_bitrate_kbps(Some("9999".into())), 512);
    assert_eq!(voice_bitrate_kbps(Some("96".into())), 96);
    let link = make_link("example.com", " alice ", "pw");
    assert_eq!(link.server_url, "http://example.com");
    assert_eq!(link.username, "alice");
    assert_eq!(link.salt.len(), 16);
    assert_eq!(link.token, format!("{:x}", md5::compute(format!("pw{}", link.salt))));
}

#[test]
fn discord_tracks() {
    let t = Track::from_fields(Some("1".into()), None, Some("A".into())).unwrap();
    assert_eq!(t.title, "Unknown");
    assert_eq!(t.label(), "A — Unknown");
    assert!(Track::from_fields(None, None, None).is_none());
    let meta = TrackMeta::from_track(t);
    assert_eq!(meta.duration_ms, None);
    assert_eq!(meta.track().artist, "A");
}

#[test]
fn config_rules() {
    assert!(flag_on(" TRUE "));
    assert!(flag_on("1"));
    assert!(!flag_on("off"));
    let mut users = Users::default();
    assert!(!is_denied(&users, "bob"));
    users.deny.push("bob".into());
    assert!(is_denied(&users, "bob"));
    let mut y = Yandex::default();
    apply_yandex_overrides(&mut y, Some("yes".into()), Some("  ".into()), Some("tok".into()), None);
    assert!(y.enabled);
    assert_eq!(y.access_token, "tok");
    assert_eq!(y.helper_path, "/usr/local/bin/songarr-yandex");
}
