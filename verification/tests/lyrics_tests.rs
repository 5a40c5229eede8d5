use songarr::lyrics::{
    cached_answer_usable, lyrics_from_cache, lyrics_from_record, parse_lrc, pick_closest,
    LrclibRecord, SyncedLine,
};

#[test]
fn parses_basic_lrc() {
    let lrc = "[ar:Янка]\n[00:12.30] Первая строка\n[00:15.9] Вторая\n[01:02] Третья";
    let lines = parse_lrc(lrc);
    assert_eq!(
        lines,
        vec![
            SyncedLine { start_ms: 12_300, value: "Первая строка".into() },
            SyncedLine { start_ms: 15_900, value: "Вторая".into() },
            SyncedLine { start_ms: 62_000, value: "Третья".into() },
        ]
    );
}

#[test]
fn repeated_timestamps_expand_and_sort() {
    let lines = parse_lrc("[00:30.00][00:10.00] Припев\n[00:20.00] Куплет");
    assert_eq!(
        lines.iter().map(|l| l.start_ms).collect::<Vec<_>>(),
        vec![10_000, 20_000, 30_000]
    );
    assert_eq!(lines[0].value, "Припев");
    assert_eq!(lines[1].value, "Куплет");
}

#[test]
fn empty_lines_and_metadata_are_dropped() {
    let lines = parse_lrc("[00:01.00]\n[length:3:20]\nплейн без таймстампа");
    assert!(lines.is_empty());
}

#[test]
fn equal_timestamps_keep_input_order_and_crlf_is_stripped() {
    let lines = parse_lrc("[00:05.00] b\r\n[00:05.00] a\r\n[00:01.5] c");
    let got: Vec<(i64, &str)> = lines.iter().map(|l| (l.start_ms, l.value.as_str())).collect();
    assert_eq!(got, vec![(1_500, "c"), (5_000, "b"), (5_000, "a")]);
}

#[test]
fn closest_duration_wins_search() {
    let records = vec![
        LrclibRecord {
            duration: Some(200),
            instrumental: false,
            plain_lyrics: Some("far".into()),
            synced_lyrics: None,
        },
        LrclibRecord {
            duration: Some(181),
            instrumental: false,
            plain_lyrics: Some("close".into()),
            synced_lyrics: None,
        },
    ];
    let picked = pick_closest(records, Some(180)).unwrap();
    assert_eq!(picked.plain_lyrics.as_deref(), Some("close"));
}

#[test]
fn pick_closest_skips_instrumentals_and_takes_first_without_duration() {
    let records = vec![
        LrclibRecord { duration: None, instrumental: true, plain_lyrics: Some("x".into()), synced_lyrics: None },
        LrclibRecord { duration: None, instrumental: false, plain_lyrics: None, synced_lyrics: Some("[00:01] y".into()) },
        LrclibRecord { duration: None, instrumental: false, plain_lyrics: Some("z".into()), synced_lyrics: None },
    ];
    let picked = pick_closest(records, None).unwrap();
    assert_eq!(picked.synced_lyrics.as_deref(), Some("[00:01] y"));
    assert!(pick_closest(Vec::new(), Some(1)).is_none());
}

#[test]
fn cache_answers_expire_and_respect_duration() {
    assert!(cached_answer_usable("lrclib", 0, 10_000_000, Some(100), Some(103)));
    assert!(!cached_answer_usable("lrclib", 0, 0, Some(100), Some(104)));
    assert!(!cached_answer_usable("none", 0, 604_801, None, None));
    assert!(cached_answer_usable("none", 0, 604_800, None, None));
}

#[test]
fn cache_rows_become_lyrics() {
    assert!(lyrics_from_cache("none", Some("x".into()), None, "a", "t").is_none());
    assert!(lyrics_from_cache("lrclib", Some("  ".into()), Some(Vec::new()), "a", "t").is_none());
    let l = lyrics_from_cache("lrclib", Some("text".into()), None, "a", "t").unwrap();
    assert_eq!(l.plain.as_deref(), Some("text"));
    assert!(!l.is_empty());
}

#[test]
fn records_become_lyrics() {
    let rec = LrclibRecord {
        duration: Some(200),
        instrumental: false,
        plain_lyrics: Some("  words \n".into()),
        synced_lyrics: Some("[00:01.00] hi".into()),
    };
    let l = lyrics_from_record(rec, "A", "T", Some(180)).unwrap();
    assert!(l.synced.is_none());
    assert_eq!(l.plain.as_deref(), Some("words"));
    let rec = LrclibRecord {
        duration: Some(181),
        instrumental: false,
        plain_lyrics: None,
        synced_lyrics: Some("[00:01.00] hi".into()),
    };
    let l = lyrics_from_record(rec, "A", "T", Some(180)).unwrap();
    assert_eq!(l.synced.unwrap().len(), 1);
    let rec = LrclibRecord { duration: None, instrumental: true, plain_lyrics: Some("x".into()), synced_lyrics: None };
    assert!(lyrics_from_record(rec, "A", "T", None).is_none());
}
