use songarr::proxy::{
    acceptable_content_length, album_repair_id, album_songs_query, build_upstream_url,
    rewrite_id_query, scrobble_time_at, scrobble_time_epoch, sniff_image_content_type,
    strip_hop_by_hop, scrobble_plan, scrobble_reply, replay_query, replay_target, pending_payload,
    ScrobbleReply,
};
use songarr::subsonic::Format;
use songarr::json::Json;

#[test]
fn upstream_url_preserves_encoded_query() {
    let url = build_upstream_url("http://navidrome:4533/", "/rest/search3?query=a%20b%26c&f=json");
    assert_eq!(url, "http://navidrome:4533/rest/search3?query=a%20b%26c&f=json");
}

#[test]
fn upstream_url_without_query() {
    assert_eq!(build_upstream_url("http://navidrome:4533", "/app/"), "http://navidrome:4533/app/");
}

#[test]
fn sniffs_common_image_types() {
    assert_eq!(sniff_image_content_type(&[0xFF, 0xD8, 0xFF, 0xE0]), "image/jpeg");
    assert_eq!(sniff_image_content_type(&[0x89, b'P', b'N', b'G', 0x0D, 0x0A]), "image/png");
    assert_eq!(sniff_image_content_type(b"RIFF0000WEBPVP8 "), "image/webp");
    assert_eq!(sniff_image_content_type(b"nonsense"), "application/octet-stream");
}

#[test]
fn scrobble_time_accepts_seconds_or_millis() {
    assert_eq!(scrobble_time_epoch("time=1700000000"), 1_700_000_000);
    assert_eq!(scrobble_time_epoch("time=1700000000123"), 1_700_000_000);
}

#[test]
fn scrobble_time_falls_back_to_now() {
    assert_eq!(scrobble_time_at("u=a", 42), 42);
    assert_eq!(scrobble_time_at("time=-5", 42), 42);
    assert_eq!(scrobble_time_at("time=abc", 42), 42);
    assert_eq!(scrobble_time_at("time=7&time=9", 42), 7);
}

#[test]
fn id_rewrite_preserves_other_params() {
    let query = rewrite_id_query("u=alice&t=ab12&s=xy&id=sgr_old&f=json", "real99");
    assert!(query.contains("id=real99"));
    assert!(query.contains("u=alice"));
    assert!(query.contains("t=ab12"));
    assert!(!query.contains("sgr_old"));
    assert_eq!(query, "u=alice&t=ab12&s=xy&id=real99&f=json");
    assert_eq!(rewrite_id_query("u=a", "r 1"), "u=a&id=r+1");
}

#[test]
fn content_length_limits() {
    assert_eq!(acceptable_content_length("1024"), Some(1024));
    assert_eq!(acceptable_content_length("16777216"), Some(16_777_216));
    assert_eq!(acceptable_content_length("16777217"), None);
    assert_eq!(acceptable_content_length("abc"), None);
}

#[test]
fn album_repair_ids_and_query() {
    assert_eq!(album_repair_id("al-abc123_456").as_deref(), Some("abc123"));
    assert_eq!(album_repair_id("al-abc"), Some("abc".to_string()));
    assert_eq!(album_repair_id("al-"), None);
    assert_eq!(album_repair_id("al-a.b"), None);
    assert_eq!(album_repair_id("ar-abc"), None);
    assert_eq!(
        album_songs_query("u=a&id=al-1&f=xml&size=300&t=x", "abc"),
        "u=a&t=x&id=abc&f=json"
    );
}

fn header(name: &str, value: &str) -> (String, Option<String>) {
    (name.to_string(), Some(value.to_string()))
}

#[test]
fn hop_by_hop_headers_are_stripped() {
    let headers = vec![
        header("connection", "close, x-custom-hop"),
        header("x-custom-hop", "1"),
        header("transfer-encoding", "chunked"),
        header("keep-alive", "timeout=5"),
        header("accept-encoding", "gzip"),
        header("range", "bytes=0-100"),
    ];

    let kept = strip_hop_by_hop(&headers);

    let get = |name: &str| kept.iter().find(|(n, _)| n == name).map(|(_, v)| v.clone());
    assert!(get("connection").is_none());
    assert!(get("x-custom-hop").is_none());
    assert!(get("transfer-encoding").is_none());
    assert!(get("keep-alive").is_none());
    // End-to-end headers survive.
    assert_eq!(get("accept-encoding").unwrap().as_deref(), Some("gzip"));
    assert_eq!(get("range").unwrap().as_deref(), Some("bytes=0-100"));
}

#[test]
fn connection_names_match_case_insensitively() {
    let headers = vec![
        header("connection", "X-Trace"),
        header("x-trace", "abc"),
        (String::from("etag"), None),
        header("te", "trailers"),
    ];
    let kept = strip_hop_by_hop(&headers);
    assert_eq!(kept, vec![(String::from("etag"), None)]);
}

#[test]
fn mixed_scrobble_batches_are_split() {
    let plan = scrobble_plan("u=alice&t=ab&s=xy&id=sgr_abc&id=real1&f=json&time=1700000000000");
    assert_eq!(plan.format, Some(Format::Json));
    assert_eq!(plan.username, "alice");
    assert_eq!(plan.virtual_ids, vec!["sgr_abc".to_string()]);
    assert_eq!(plan.real_ids, vec!["real1".to_string()]);
    assert_eq!(plan.forward_query, "u=alice&t=ab&s=xy&id=real1&f=json&time=1700000000000");
    assert_eq!(scrobble_reply(&plan), ScrobbleReply::Forward);

    let only_virtual = scrobble_plan("u=bob&id=sgr_x");
    assert_eq!(only_virtual.format, Some(Format::Xml));
    assert_eq!(scrobble_reply(&only_virtual), ScrobbleReply::Answer(Format::Xml));
    let only_real = scrobble_plan("u=bob&id=42&f=jsonp");
    assert_eq!(only_real.format, None);
    assert_eq!(scrobble_reply(&only_real), ScrobbleReply::Passthrough);
}

#[test]
fn pending_actions_replay_against_the_real_id() {
    assert_eq!(replay_query("u=alice&t=ab&s=xy&id=sgr_abc&f=xml&submission=true", "real99"),
        "u=alice&t=ab&s=xy&id=real99&submission=true&f=json");
    let payload = pending_payload("scrobble", "u=alice&id=sgr_abc");
    let (endpoint, query) = replay_target(&payload, "real99").unwrap();
    assert_eq!(endpoint, "scrobble");
    assert_eq!(query, "u=alice&id=real99&f=json");
    assert!(replay_target(&Json::Object(vec![]), "real99").is_none());
}
