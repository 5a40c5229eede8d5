use songarr::recs::{
    clean_title, is_junk_version, normalize, song_key, strip_artist_prefix, title_key,
};

#[test]
fn song_key_normalizes_cyrillic_and_punctuation() {
    assert_eq!(
        song_key("Скриптонит", "Где твоя любовь?"),
        song_key("Skriptonit", "Gde tvoia liubov")
    );
    assert_eq!(song_key("AC/DC", "T.N.T."), "acdc|tnt");
}

#[test]
fn junk_versions_are_detected_across_scripts() {
    assert!(is_junk_version("MEMORIZING (SUPER SLOWED)"));
    assert!(is_junk_version("Monolith (Slowed + Reverb)"));
    assert!(is_junk_version("Track (sped up)"));
    assert!(is_junk_version("Песня (Пародия)"));
    assert!(!is_junk_version("Tell Me"));
    assert!(!is_junk_version("Song (Remix)"));
    assert!(!is_junk_version("Live at Wembley"));
}

#[test]
fn clean_title_strips_video_cruft_but_keeps_qualifiers() {
    assert_eq!(clean_title("Tell Me (Official Video)"), "Tell Me");
    assert_eq!(clean_title("Sudno [Official Lyric Video]"), "Sudno");
    assert_eq!(clean_title("Song (Audio)"), "Song");
    assert_eq!(clean_title("Whatever - Topic"), "Whatever");
    assert_eq!(clean_title("Crew Love (feat. Drake)"), "Crew Love (feat. Drake)");
    assert_eq!(clean_title("Closer (Remix)"), "Closer (Remix)");
}

#[test]
fn strip_artist_prefix_only_when_it_matches() {
    assert_eq!(strip_artist_prefix("Motorama — Tell Me", "Motorama"), "Tell Me");
    assert_eq!(strip_artist_prefix("Motorama - Tell Me", "Motorama"), "Tell Me");
    assert_eq!(
        strip_artist_prefix("Наутилус Помпилиус - Крылья", "StarPro"),
        "Наутилус Помпилиус - Крылья"
    );
}

#[test]
fn normalize_strips_accents_case_punctuation() {
    assert_eq!(normalize("Daft Punk"), "daftpunk");
    assert_eq!(normalize("Sigur Rós"), "sigurros");
    assert_eq!(normalize("AC/DC!"), "acdc");
}

#[test]
fn clean_title_handles_unclosed_and_nested_groups() {
    assert_eq!(clean_title("Song (Live (Official) Video"), "Song");
    assert_eq!(clean_title("Song (Remix"), "Song (Remix)");
    assert_eq!(clean_title("  A   B  "), "A B");
    assert_eq!(clean_title("Song (a (b) c) [HD]"), "Song (a (b) c)");
}

#[test]
fn title_key_ignores_bracketed_parts() {
    assert_eq!(title_key("Судно (Борис Рыжий)"), "sudno");
    assert_eq!(title_key("One More Time!"), "onemoretime");
}

#[test]
fn song_key_separates_artist_and_title() {
    let k = song_key("A-B", "C");
    assert_eq!(k, "ab|c");
    assert_ne!(song_key("ab", "c"), song_key("a", "bc"));
}
