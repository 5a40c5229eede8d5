use songarr::merge::{
    better_metadata, cast_votes, clean_candidates, distinct_listen_seeds, metadata_score,
    rec_cache_fresh, shown_cutoff, should_record_listen,
};
use songarr::recs::RecCandidate;
use songarr::search::SongKey;
use songarr::similar::{
    artist_seed_key, fetch_limit, needs_canonical, own_video_id, requested_count, seed_from_song,
    track_seed_key, watch_url, with_video_id, RecSelection, SeedTrack,
};

fn cand(artist: &str, title: &str) -> RecCandidate {
    RecCandidate {
        artist: artist.into(),
        title: title.into(),
        album: None,
        duration_ms: None,
        isrc: None,
        artwork_url: None,
        provider: None,
        provider_track_id: None,
        video_id: None,
    }
}

#[test]
fn richer_metadata_wins() {
    let plain = cand("A", "T");
    let mut rich = cand("A", "T");
    rich.video_id = Some("v".into());
    rich.duration_ms = Some(1000);
    assert_eq!(metadata_score(&plain), 0);
    assert_eq!(metadata_score(&rich), 9);
    let mut deezer = cand("A", "T");
    deezer.provider = Some("deezer".into());
    deezer.artwork_url = Some("x".into());
    assert_eq!(metadata_score(&deezer), 6);
    assert!(better_metadata(&rich, &deezer));
    assert!(!better_metadata(&plain, &plain));
}

#[test]
fn cleanup_drops_junk_and_cleans_titles() {
    let cands = vec![
        cand("Motorama", "Motorama - Tell Me (Official Video)"),
        cand("X", "Song (Slowed + Reverb)"),
        cand("Y", "(Official Video)"),
    ];
    let out = clean_candidates(&cands);
    assert_eq!(out.len(), 1);
    assert_eq!(out[0].title, "Tell Me");
    assert_eq!(out[0].artist, "Motorama");
}

#[test]
fn votes_group_by_song_and_keep_best_rank() {
    let mut groups = Vec::new();
    cast_votes(&mut groups, 0, &vec![cand("A", "One"), cand("B", "Two")]);
    let mut better = cand("a", "ONE!");
    better.video_id = Some("vid".into());
    cast_votes(&mut groups, 1, &vec![cand("C", "Three"), better]);
    assert_eq!(groups.len(), 3);
    assert_eq!(groups[0].key, "a|one");
    assert_eq!(groups[0].best_rank, 0);
    assert_eq!(groups[0].votes, vec![(0, 0), (1, 1)]);
    assert_eq!(groups[0].candidate.video_id.as_deref(), Some("vid"));
    assert_eq!(groups[2].votes, vec![(1, 0)]);
}

#[test]
fn recent_listen_seeds_are_distinct_and_capped() {
    let rows = vec![
        ("A".to_string(), "One".to_string(), Some("1".to_string())),
        ("a".to_string(), "one!".to_string(), None),
        ("B".to_string(), "Two".to_string(), None),
        ("C".to_string(), "Three".to_string(), None),
    ];
    let seeds = distinct_listen_seeds(rows, "alice", 2);
    assert_eq!(seeds.len(), 2);
    assert_eq!(seeds[0].artist, "A");
    assert_eq!(seeds[0].subsonic_id.as_deref(), Some("1"));
    assert_eq!(seeds[1].title, "Two");
    assert!(seeds.iter().all(|s| s.username == "alice"));
}

#[test]
fn freshness_and_recording_rules() {
    assert!(rec_cache_fresh(1, 0, 3600));
    assert!(!rec_cache_fresh(1, 0, 3601));
    assert!(!rec_cache_fresh(0, 0, 0));
    assert_eq!(shown_cutoff("alice", 2, 1_000_000), Some(1_000_000 - 172_800));
    assert_eq!(shown_cutoff("", 2, 1_000_000), None);
    assert_eq!(shown_cutoff("alice", 0, 1_000_000), None);
    assert!(should_record_listen("alice", "A", "T"));
    assert!(!should_record_listen("alice", "  ", "T"));
    assert!(!should_record_listen("", "A", "T"));
}

#[test]
fn seeds_and_limits() {
    assert_eq!(requested_count(Some("7"), 50), 7);
    assert_eq!(requested_count(Some("70"), 50), 50);
    assert_eq!(requested_count(Some("x"), 20), 20);
    assert_eq!(requested_count(None, 20), 20);
    assert_eq!(fetch_limit(10), 20);
    assert_eq!(fetch_limit(30), 50);
    let seed = SeedTrack {
        artist: "Daft Punk".into(),
        title: "One More Time".into(),
        provider: "ytmusic".into(),
        provider_track_id: "abc".into(),
    };
    assert_eq!(track_seed_key(&seed), "track:daftpunk|onemoretime");
    assert_eq!(artist_seed_key("Daft Punk"), "artist:daftpunk");
    assert_eq!(own_video_id(&seed).as_deref(), Some("abc"));
    assert_eq!(watch_url("abc"), "https://www.youtube.com/watch?v=abc");
    let real = seed_from_song("42", Some("A".into()), Some("T".into())).unwrap();
    assert_eq!(real.provider, "navidrome");
    assert_eq!(own_video_id(&real), None);
    assert!(seed_from_song("42", None, Some("T".into())).is_none());
}

#[test]
fn canonical_metadata_keeps_the_video() {
    let mut c = cand("A", "T");
    c.video_id = Some("v".into());
    assert!(needs_canonical(&c, true));
    assert!(!needs_canonical(&c, false));
    let mut d = cand("A", "T");
    d.provider = Some("deezer".into());
    assert!(!needs_canonical(&d, true));
    let merged = with_video_id(d, &c);
    assert_eq!(merged.video_id.as_deref(), Some("v"));
    assert_eq!(merged.provider.as_deref(), Some("deezer"));
}

#[test]
fn selection_takes_only_fresh_songs() {
    let existing = vec![SongKey::new("A", "Known", None)];
    let mut walk = RecSelection::new(&existing, &Vec::new(), vec!["b|shown".to_string()], 2);
    assert!(walk.wants_more());
    assert!(!walk.would_take(&cand("A", "Known")));
    assert!(!walk.would_take(&cand("B", "Shown")));
    let fresh = cand("C", "New");
    assert!(walk.would_take(&fresh));
    walk.take(fresh);
    assert!(!walk.would_take(&cand("c", "new")));
    walk.take(cand("D", "Other"));
    assert!(!walk.wants_more());
    assert_eq!(walk.chosen.len(), 2);
}
