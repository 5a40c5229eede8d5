use songarr::config::{Navidrome, StreamFormat, Streaming};
use songarr::subsonic::{
    admin_auth_query, admin_auth_query_with_salt, param, query_params, Envelope, Format, SongEntry,
};
use songarr::vtrack::VirtualTrack;

fn sample_track() -> VirtualTrack {
    VirtualTrack {
        id: "sgr_test123".into(),
        provider: "deezer".into(),
        provider_track_id: "1".into(),
        artist: "Ärtist \"Quoted\" & Co".into(),
        title: "Tïtle <One>".into(),
        album: Some("Älbum".into()),
        duration_ms: Some(224_000),
        isrc: None,
        artwork_url: Some("https://example.com/a.jpg".into()),
        status: "virtual".into(),
        real_subsonic_id: None,
        resolved_url: None,
        resolved_score: None,
        resolved_title: None,
        resolved_at_epoch: None,
    }
}

#[test]
fn params_decode_percent_and_plus() {
    let params = query_params("u=alice&query=a%20b+c&f=json");
    assert_eq!(param(&params, "u").map(|v| v.as_str()), Some("alice"));
    assert_eq!(param(&params, "query").map(|v| v.as_str()), Some("a b c"));
    assert_eq!(param(&params, "missing"), None);
}

#[test]
fn repeated_params_keep_the_last() {
    let params = query_params("id=1&id=2");
    assert_eq!(param(&params, "id").map(|v| v.as_str()), Some("2"));
}

#[test]
fn admin_auth_token_is_md5_of_password_plus_salt() {
    let navidrome = Navidrome {
        base_url: "http://x".into(),
        admin_user: "admin".into(),
        admin_password: "sesame".into(),
    };
    let query = admin_auth_query(&navidrome);
    let params = query_params(&query);
    let token = param(&params, "t").unwrap().to_string();
    let salt = param(&params, "s").unwrap().to_string();
    assert_eq!(token, format!("{:x}", md5::compute(format!("sesame{salt}"))));
    assert_eq!(salt.len(), 32);
    assert_eq!(
        admin_auth_query_with_salt("a b", "pw", "s1"),
        format!("u=a+b&t={:x}&s=s1&v=1.16.1&c=songarr", md5::compute("pws1"))
    );
}

#[test]
fn song_entry_from_virtual_track() {
    let entry = SongEntry::from_virtual_at(&sample_track(), &Streaming::default(), "2026-01-01T00:00:00Z".into());
    assert_eq!(entry.id, "sgr_test123");
    assert_eq!(entry.duration_secs, Some(224));
    assert_eq!(entry.suffix, "opus");
    assert_eq!(entry.content_type, "audio/ogg");
    assert_eq!(entry.cover_art.as_deref(), Some("sgr_test123"));
    assert_eq!(entry.bit_rate, 160);
    assert_eq!(entry.size, Some(224 * 160 * 125));
    let mp3 = Streaming { format: StreamFormat::Mp3, ..Streaming::default() };
    let entry = SongEntry::from_virtual(&sample_track(), &mp3);
    assert_eq!(entry.suffix, "mp3");
    assert_eq!(entry.created.len(), 20);
}

#[test]
fn formats_and_envelope() {
    assert_eq!(Format::from_query_value(None), Some(Format::Xml));
    assert_eq!(Format::from_query_value(Some("json")), Some(Format::Json));
    assert_eq!(Format::from_query_value(Some("jsonp")), None);
    assert_eq!(Format::Json.content_type(), "application/json");
    let e = Envelope::default();
    assert_eq!(e.version, "1.16.1");
    assert_eq!(e.server_type, "navidrome");
    assert!(e.open_subsonic);
}

#[test]
fn virtual_entries_carry_what_clients_need() {
    let track = songarr::vtrack::VirtualTrack {
        id: "sgr_test123".into(),
        provider: "deezer".into(),
        provider_track_id: "1".into(),
        artist: "A".into(),
        title: "T".into(),
        album: Some("Älbum".into()),
        duration_ms: Some(224_000),
        isrc: None,
        artwork_url: Some("https://example.com/a.jpg".into()),
        status: "virtual".into(),
        real_subsonic_id: None,
        resolved_url: None,
        resolved_score: None,
        resolved_title: None,
        resolved_at_epoch: None,
    };
    let e = songarr::subsonic::SongEntry::from_virtual(&track, &songarr::config::Streaming::default());
    assert_eq!(e.suffix, "opus");
    assert_eq!(e.content_type, "audio/ogg");
    assert_eq!(e.cover_art.as_deref(), Some("sgr_test123"));
    assert_eq!(e.size, Some(224 * 160 * 125));
}
