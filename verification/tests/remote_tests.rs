use songarr::discord::{Track, TrackMeta};
use songarr::remote::{
    add_fresh_tracks, command_kind, now_playing_text, prev_action, queue_text, room_status,
    watchdog_step, CommandKind, PrevAction, RoomStatus, WatchdogAction,
};

fn meta(id: &str) -> TrackMeta {
    TrackMeta::from_track(Track { id: id.into(), title: "T".into(), artist: "A".into() })
}

#[test]
fn commands_and_room_standing() {
    assert_eq!(command_kind("prev"), CommandKind::Prev);
    assert_eq!(command_kind("dance"), CommandKind::Unknown);
    assert_eq!(room_status(Some((1, 10)), Some(10), false), RoomStatus::Controlling(1));
    assert_eq!(room_status(Some((1, 10)), Some(11), true), RoomStatus::Busy);
    assert_eq!(room_status(Some((1, 10)), None, true), RoomStatus::Join(1, 10));
    assert_eq!(room_status(None, None, true), RoomStatus::Idle);
}

#[test]
fn prev_restarts_or_steps_back() {
    let tracks = vec![meta("a"), meta("b"), meta("c")];
    assert_eq!(prev_action(4_000_000_000, Some("c"), &tracks), PrevAction::Restart);
    assert_eq!(prev_action(1_000_000_000, Some("c"), &tracks), PrevAction::PlayFrom(1));
    assert_eq!(prev_action(0, Some("a"), &tracks), PrevAction::Restart);
    assert_eq!(prev_action(0, Some("zz"), &tracks), PrevAction::Restart);
}

#[test]
fn refill_skips_known_tracks() {
    let mut tracks = vec![meta("a")];
    let fresh = vec![
        Track { id: "a".into(), title: "T".into(), artist: "A".into() },
        Track { id: "b".into(), title: "T".into(), artist: "A".into() },
        Track { id: "b".into(), title: "T".into(), artist: "A".into() },
    ];
    let added = add_fresh_tracks(&mut tracks, fresh);
    assert_eq!(added.len(), 1);
    assert_eq!(added[0].id, "b");
    assert_eq!(tracks.len(), 2);
}

#[test]
fn watchdog_leaves_idle_rooms() {
    assert_eq!(watchdog_step(false, 3, true, None, 100), WatchdogAction::Forget);
    assert_eq!(watchdog_step(true, 0, true, None, 100), WatchdogAction::Leave);
    assert_eq!(watchdog_step(true, 2, false, None, 100), WatchdogAction::Keep(Some(100)));
    assert_eq!(watchdog_step(true, 2, false, Some(100), 219), WatchdogAction::Keep(Some(100)));
    assert_eq!(watchdog_step(true, 2, false, Some(100), 220), WatchdogAction::Leave);
    assert_eq!(watchdog_step(true, 2, true, Some(100), 500), WatchdogAction::Keep(None));
}

#[test]
fn queue_and_now_playing_texts() {
    assert_eq!(queue_text(&vec![]), "Очередь пуста.");
    assert_eq!(queue_text(&vec![Some("A — B".into()), None]), "▶️ A — B\n1. Трек");
    let many: Vec<Option<String>> = (0..17).map(|i| Some(format!("t{i}"))).collect();
    let text = queue_text(&many);
    assert!(text.ends_with("14. t14\n…и ещё 2"), "{text}");
    assert_eq!(now_playing_text(None), "Сейчас ничего не играет.");
    assert_eq!(now_playing_text(Some(None)), "🎶 Сейчас играет: **Трек**");
}
