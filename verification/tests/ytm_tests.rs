use songarr::json::Json;
use songarr::ytm::{
    byline_artist, candidate_from_music_item, candidate_from_renderer, find_video_id,
    parse_clock, parse_queue, parse_search_results, runs_text,
};

fn s(text: &str) -> Json {
    Json::Str(text.to_string())
}

/// An object whose members come in key order, as a parsed JSON map yields them.
fn obj(members: Vec<(&str, Json)>) -> Json {
    let mut members: Vec<(String, Json)> =
        members.into_iter().map(|(k, v)| (k.to_string(), v)).collect();
    members.sort_by(|a, b| a.0.cmp(&b.0));
    Json::Object(members)
}

fn runs(texts: &[&str]) -> Json {
    obj(vec![(
        "runs",
        Json::Array(texts.iter().map(|t| obj(vec![("text", s(t))])).collect()),
    )])
}

fn renderer(video_id: &str, title: &str, artist: &str, length: &str) -> Json {
    obj(vec![(
        "playlistPanelVideoRenderer",
        obj(vec![
            ("videoId", s(video_id)),
            ("title", runs(&[title])),
            (
                "longBylineText",
                runs(&[artist, " • ", "Some Album", " • ", "2026"]),
            ),
            ("lengthText", runs(&[length])),
        ]),
    )])
}

#[test]
fn parses_queue_excluding_seed_anywhere_in_tree() {
    let response = obj(vec![
        (
            "contents",
            obj(vec![(
                "deeply",
                obj(vec![(
                    "nested",
                    Json::Array(vec![
                        renderer("seed0000000", "Seed Song", "Seed Artist", "3:00"),
                        obj(vec![(
                            "wrapped",
                            renderer("cand0000001", "Notion", "The Rare Occasions", "3:15"),
                        )]),
                    ]),
                )]),
            )]),
        ),
        (
            "elsewhere",
            Json::Array(vec![renderer(
                "cand0000002",
                "Где нас нет",
                "Oxxxymiron",
                "4:05",
            )]),
        ),
    ]);
    let queue = parse_queue(&response, "seed0000000", 10);
    assert_eq!(queue.len(), 2);
    assert_eq!(queue[0].title, "Notion");
    assert_eq!(queue[0].artist, "The Rare Occasions");
    assert_eq!(queue[0].video_id.as_deref(), Some("cand0000001"));
    assert_eq!(queue[0].duration_ms, Some(195_000));
    assert_eq!(queue[1].artist, "Oxxxymiron");
}

#[test]
fn respects_limit_and_skips_malformed_entries() {
    let response = Json::Array(vec![
        obj(vec![(
            "playlistPanelVideoRenderer",
            obj(vec![("videoId", s("novideotitle"))]),
        )]),
        renderer("cand0000001", "A", "X", "3:00"),
        renderer("cand0000002", "B", "Y", "3:00"),
        renderer("cand0000003", "C", "Z", "3:00"),
    ]);
    let queue = parse_queue(&response, "unrelated000", 2);
    assert_eq!(queue.len(), 2);
    assert_eq!(queue[0].title, "A");
}

#[test]
fn multi_artist_byline_and_long_durations() {
    let r = obj(vec![
        ("videoId", s("cand0000009")),
        ("title", runs(&["Collab"])),
        (
            "longBylineText",
            runs(&["Artist One", " & ", "Artist Two", " • ", "Album"]),
        ),
        ("lengthText", obj(vec![("simpleText", s("1:02:03"))])),
    ]);
    let c = candidate_from_renderer(&r).unwrap();
    assert_eq!(c.artist, "Artist One & Artist Two");
    assert_eq!(c.duration_ms, Some(3_723_000));
}

#[test]
fn parses_music_search_items() {
    let item = obj(vec![
        (
            "flexColumns",
            Json::Array(vec![
                obj(vec![(
                    "musicResponsiveListItemFlexColumnRenderer",
                    obj(vec![("text", runs(&["Mock Hit"]))]),
                )]),
                obj(vec![(
                    "musicResponsiveListItemFlexColumnRenderer",
                    obj(vec![("text", runs(&["Mock Artist", " • ", "Song"]))]),
                )]),
            ]),
        ),
        (
            "fixedColumns",
            Json::Array(vec![obj(vec![(
                "musicResponsiveListItemFixedColumnRenderer",
                obj(vec![("text", runs(&["3:04"]))]),
            )])]),
        ),
        (
            "playlistItemData",
            obj(vec![("videoId", s("top00000001"))]),
        ),
    ]);
    let response = obj(vec![(
        "contents",
        Json::Array(vec![obj(vec![("musicResponsiveListItemRenderer", item)])]),
    )]);
    let candidates = parse_search_results(&response, 10);
    assert_eq!(candidates.len(), 1);
    assert_eq!(candidates[0].title, "Mock Hit");
    assert_eq!(candidates[0].artist, "Mock Artist");
    assert_eq!(candidates[0].duration_ms, Some(184_000));
    assert_eq!(candidates[0].video_id.as_deref(), Some("top00000001"));
}

#[test]
fn clock_texts_become_milliseconds() {
    assert_eq!(parse_clock("3:45"), Some(225_000));
    assert_eq!(parse_clock(" 1 : 02 : 03 "), Some(3_723_000));
    assert_eq!(parse_clock("42"), Some(42_000));
    assert_eq!(parse_clock(""), None);
    assert_eq!(parse_clock("3:xx"), None);
    assert_eq!(parse_clock("9223372036854775807"), None);
}

#[test]
fn runs_join_and_fall_back_to_simple_text() {
    assert_eq!(runs_text(&runs(&["a", "b", "c"])), "abc");
    assert_eq!(runs_text(&obj(vec![("simpleText", s("plain"))])), "plain");
    assert_eq!(runs_text(&Json::Null), "");
    assert_eq!(byline_artist(&obj(vec![("simpleText", s(" Solo "))])), " Solo ");
    assert_eq!(byline_artist(&runs(&[" Solo ", " • ", "x"])), "Solo");
}

#[test]
fn video_id_search_prefers_own_member_then_children() {
    let nested = obj(vec![
        ("a", obj(vec![("videoId", s("inner"))])),
        ("videoId", s("")),
    ]);
    assert_eq!(find_video_id(&nested).as_deref(), Some("inner"));
    let own = obj(vec![
        ("a", obj(vec![("videoId", s("inner"))])),
        ("videoId", s("outer")),
    ]);
    assert_eq!(find_video_id(&own).as_deref(), Some("outer"));
    assert_eq!(find_video_id(&Json::Array(vec![Json::Null])), None);
}

#[test]
fn search_item_without_artist_column_uses_byline() {
    let item = obj(vec![
        (
            "flexColumns",
            Json::Array(vec![obj(vec![(
                "musicResponsiveListItemFlexColumnRenderer",
                obj(vec![("text", runs(&["Song"]))]),
            )])]),
        ),
        ("longBylineText", runs(&["Band", " • ", "2020"])),
        ("videoId", s("vid")),
    ]);
    let c = candidate_from_music_item(&item).unwrap();
    assert_eq!(c.artist, "Band");
    assert_eq!(c.duration_ms, None);
    assert_eq!(c.provider.as_deref(), Some("ytmusic"));
    assert_eq!(c.provider_track_id.as_deref(), Some("vid"));
}
