use songarr::listen::{
    new_listen_code, normalize_room_code, room_code_param, ListenCommand, ListenSession,
    ListenTrack,
};

fn session() -> ListenSession {
    ListenSession {
        code: "ABC123".into(),
        host: "admin".into(),
        members: vec![("admin".into(), 1)],
        tracks: Vec::new(),
        events: Vec::new(),
        index: 0,
        anchor_pos_ms: 0,
        anchor_ts_ms: 0,
        is_playing: false,
        rev: 1,
    }
}

fn track(id: &str, duration_ms: Option<i64>) -> ListenTrack {
    ListenTrack {
        id: id.into(),
        title: format!("T{id}"),
        artist: "A".into(),
        provider: None,
        artist_id: None,
        album: None,
        album_id: None,
        cover_art: None,
        duration_ms,
    }
}

#[test]
fn listen_snapshot_keeps_events_oldest_first() {
    let mut session = session();
    for i in 0..60 {
        session.push_event("admin", "chat", &format!("event-{i}"), i);
    }
    let snap = session.snapshot();
    assert_eq!(snap.events.len(), 50);
    assert_eq!(snap.events.first().map(|e| e.text.as_str()), Some("event-10"));
    assert_eq!(snap.events.last().map(|e| e.text.as_str()), Some("event-59"));
}

#[test]
fn event_history_is_capped_and_ids_increase() {
    let mut s = session();
    for i in 0..150 {
        s.push_event("admin", "chat", "hi", i);
    }
    assert_eq!(s.events.len(), 100);
    assert_eq!(s.events[0].id, 51);
    assert_eq!(s.events[99].id, 150);
    s.push_event("admin", "chat", &"x".repeat(500), 1);
    assert_eq!(s.events.last().unwrap().text.chars().count(), 280);
}

#[test]
fn commands_move_the_timeline() {
    let mut s = session();
    s.apply_command(
        ListenCommand::Play { tracks: vec![track("1", Some(1000)), track("2", Some(1000))], start_index: 9 },
        "admin",
        100,
    );
    assert_eq!(s.index, 1);
    assert!(s.is_playing);
    assert_eq!(s.anchor_ts_ms, 100);
    assert_eq!(s.rev, 2);
    s.apply_command(ListenCommand::Pause, "admin", 600);
    assert_eq!(s.anchor_pos_ms, 500);
    assert!(!s.is_playing);
    s.apply_command(ListenCommand::Prev, "admin", 700);
    assert_eq!(s.index, 0);
    assert!(s.is_playing);
    s.apply_command(ListenCommand::Seek { position_ms: Some(-5) }, "admin", 800);
    assert_eq!(s.anchor_pos_ms, 0);
    s.apply_command(ListenCommand::Next, "admin", 900);
    assert_eq!(s.index, 1);
    s.apply_command(ListenCommand::Next, "admin", 950);
    assert_eq!(s.index, 1);
    assert!(!s.is_playing);
    s.apply_command(ListenCommand::Chat { text: Some("   ".into()) }, "bob", 1000);
    assert!(s.events.is_empty());
    s.apply_command(ListenCommand::Chat { text: Some(" hello ".into()) }, "bob", 1000);
    assert_eq!(s.events[0].text, "hello");
    assert_eq!(s.events[0].kind, "chat");
    s.apply_command(ListenCommand::Unknown, "bob", 1000);
    assert_eq!(s.rev, 10);
}

#[test]
fn members_join_leave_and_expire() {
    let mut s = session();
    s.join("bob", 10);
    s.join("bob", 20);
    assert_eq!(s.members.len(), 2);
    assert_eq!(s.members[1], ("bob".to_string(), 20));
    assert!(!s.leave("admin"));
    assert!(s.leave("bob"));
    let mut s = ListenSession::new("C".into(), "host".into(), 0);
    s.join("late", 40_000);
    let (_, empty) = s.sweep(40_000);
    assert!(!empty);
    assert_eq!(s.members.len(), 1);
    assert_eq!(s.members[0].0, "late");
}

#[test]
fn sweeper_advances_finished_tracks() {
    let mut s = ListenSession::new("C".into(), "host".into(), 0);
    s.apply_command(
        ListenCommand::Play { tracks: vec![track("1", Some(1000)), track("2", Some(2000))], start_index: 0 },
        "host",
        0,
    );
    s.touch_member("host", 1500);
    let (changed, empty) = s.sweep(1500);
    assert!(changed && !empty);
    assert_eq!(s.index, 1);
    assert_eq!(s.anchor_ts_ms, 1000);
    s.touch_member("host", 3500);
    let (changed, _) = s.sweep(3500);
    assert!(changed);
    assert!(!s.is_playing);
    assert_eq!(s.anchor_pos_ms, 2000);
    assert!(s.changed_since(2));
    assert!(s.fits_clock(3500));
}

#[test]
fn room_codes() {
    let code = new_listen_code();
    assert_eq!(code.len(), 6);
    assert!(code.chars().all(|c| c.is_ascii_digit() || ('A'..='F').contains(&c)));
    assert_eq!(normalize_room_code(" ab12cd "), "AB12CD");
    assert_eq!(room_code_param(None), "");
    assert_eq!(room_code_param(Some("x")), "X");
}

#[test]
fn pause_then_resume_continues_where_it_stopped() {
    let mut s = session();
    s.apply_command(
        ListenCommand::Play { tracks: vec![track("1", Some(600_000))], start_index: 0 },
        "admin",
        1_000,
    );
    s.apply_command(ListenCommand::Pause, "admin", 31_000);
    assert_eq!(s.live_pos_ms(99_000), 30_000);
    s.apply_command(ListenCommand::Resume, "admin", 50_000);
    assert_eq!(s.live_pos_ms(60_000), 40_000);
    s.apply_command(ListenCommand::Seek { position_ms: Some(5_000) }, "admin", 70_000);
    assert_eq!(s.live_pos_ms(70_000), 5_000);
}
