//! The Discord bot's remote control: which command does what, whether a user
//! may drive the guild's room, where `prev` goes, when the wave queue is
//! topped up, when the bot leaves an idle room, and the state it reports.
//! Voice connections and the relay calls happen at the program's edge; the
//! decisions between them are made here.
use vstd::prelude::*;

use crate::discord::{Track, TrackMeta};
use crate::json::{
    jview, lemma_jview_array, lemma_jview_object, members_view, push_member, str_at, Json, JsonView,
    items_view, as_str, at_key,
};
use crate::text::{copy_str, i64_decimal, string_of, str_eq};

verus! {

/// Leave voice after this many seconds without playing.
pub const REMOTE_IDLE_SECS: u64 = 120;

/// The wave queue is topped up once this few tracks or fewer remain.
pub const WAVE_REFILL_THRESHOLD: usize = 2;

/// `prev` restarts the current track once it has played longer than this
/// many nanoseconds (three seconds).
pub const PREV_RESTART_NANOS: u128 = 3000000000;

/// A relayed remote command.
#[derive(Debug, Clone, Copy, PartialEq, Eq, Structural)]
pub enum CommandKind {
    Connect,
    Disconnect,
    Play,
    Wave,
    Pause,
    Resume,
    Next,
    Seek,
    Prev,
    Unknown,
}

pub open spec fn command_kind_spec(action: Seq<char>) -> CommandKind {
    if action == "connect"@ {
        CommandKind::Connect
    } else if action == "disconnect"@ {
        CommandKind::Disconnect
    } else if action == "play"@ {
        CommandKind::Play
    } else if action == "wave"@ {
        CommandKind::Wave
    } else if action == "pause"@ {
        CommandKind::Pause
    } else if action == "resume"@ {
        CommandKind::Resume
    } else if action == "next"@ {
        CommandKind::Next
    } else if action == "seek"@ {
        CommandKind::Seek
    } else if action == "prev"@ {
        CommandKind::Prev
    } else {
        CommandKind::Unknown
    }
}

/// The command an action names (anything else is ignored).
pub fn command_kind(action: &str) -> (r: CommandKind)
    ensures
        r == command_kind_spec(action@),
{
    if str_eq(action, "connect") {
        CommandKind::Connect
    } else if str_eq(action, "disconnect") {
        CommandKind::Disconnect
    } else if str_eq(action, "play") {
        CommandKind::Play
    } else if str_eq(action, "wave") {
        CommandKind::Wave
    } else if str_eq(action, "pause") {
        CommandKind::Pause
    } else if str_eq(action, "resume") {
        CommandKind::Resume
    } else if str_eq(action, "next") {
        CommandKind::Next
    } else if str_eq(action, "seek") {
        CommandKind::Seek
    } else if str_eq(action, "prev") {
        CommandKind::Prev
    } else {
        CommandKind::Unknown
    }
}

/// Whether a command may take an idle bot into the user's channel
/// (connecting and starting playback do; controls only act on a room the
/// user is already in).
pub fn claims_room(kind: CommandKind) -> (r: bool)
    ensures
        r == (kind == CommandKind::Connect || kind == CommandKind::Play || kind == CommandKind::Wave),
{
    match kind {
        CommandKind::Connect | CommandKind::Play | CommandKind::Wave => true,
        _ => false,
    }
}

/// Where a user stands relative to the bot in their guild.
#[derive(Debug, Clone, Copy, PartialEq, Eq, Structural)]
pub enum RoomStatus {
    /// In the channel of the guild's room: may control it.
    Controlling(u64),
    /// The bot is in another channel of this guild.
    Busy,
    /// Not in a voice channel, or no room and none claimed.
    Idle,
    /// No room yet: join this guild's channel, then control it (or stay idle
    /// when joining fails).
    Join(u64, u64),
}

pub open spec fn room_status_spec(user_voice: Option<(u64, u64)>, room_channel: Option<u64>, claim: bool) -> RoomStatus {
    match user_voice {
        None => RoomStatus::Idle,
        Some((guild, channel)) => match room_channel {
            Some(c) => if c == channel {
                RoomStatus::Controlling(guild)
            } else {
                RoomStatus::Busy
            },
            None => if claim {
                RoomStatus::Join(guild, channel)
            } else {
                RoomStatus::Idle
            },
        },
    }
}

/// The user's standing, from the guild and channel they are in (if any), the
/// channel of that guild's room (if any), and whether the command may claim
/// an idle bot.
pub fn room_status(user_voice: Option<(u64, u64)>, room_channel: Option<u64>, claim: bool) -> (r:
    RoomStatus)
    ensures
        r == room_status_spec(user_voice, room_channel, claim),
{
    match user_voice {
        None => RoomStatus::Idle,
        Some((guild, channel)) => match room_channel {
            Some(c) => if c == channel {
                RoomStatus::Controlling(guild)
            } else {
                RoomStatus::Busy
            },
            None => if claim {
                RoomStatus::Join(guild, channel)
            } else {
                RoomStatus::Idle
            },
        },
    }
}

/// After a join: the user controls the new room, or stays idle (and the
/// placeholder room is dropped) when the join failed.
pub fn after_join(guild: u64, joined: bool) -> (r: RoomStatus)
    ensures
        joined ==> r == RoomStatus::Controlling(guild),
        !joined ==> r == RoomStatus::Idle,
{
    if joined {
        RoomStatus::Controlling(guild)
    } else {
        RoomStatus::Idle
    }
}

/// A seek position: negative positions seek to the start.
pub fn seek_target_ms(position_ms: i64) -> (r: u64)
    ensures
        position_ms <= 0 ==> r == 0,
        position_ms > 0 ==> r == position_ms,
{
    if position_ms <= 0 {
        0
    } else {
        position_ms as u64
    }
}

/// What `prev` does.
#[derive(Debug, Clone, Copy, PartialEq, Eq, Structural)]
pub enum PrevAction {
    /// Seek the current track to its start.
    Restart,
    /// Play the room's list again from this index.
    PlayFrom(usize),
}

pub open spec fn metas_ids(v: Seq<TrackMeta>) -> Seq<Seq<char>> {
    v.map_values(|m: TrackMeta| m.id@)
}

/// The index of the first id equal to `id`.
pub open spec fn first_index(ids: Seq<Seq<char>>, id: Seq<char>) -> Option<int> {
    if exists|i: int| 0 <= i < ids.len() && ids[i] == id {
        Some(choose|i: int| 0 <= i < ids.len() && ids[i] == id && forall|j: int| 0 <= j < i ==> ids[j] != id)
    } else {
        None
    }
}

/// `prev`: past three seconds into a track, restart it; otherwise step back
/// to the track before the current one in the room's list, or restart when
/// the current track is first or not in the list.
pub open spec fn prev_action_spec(position_nanos: u128, current_id: Option<Seq<char>>, ids: Seq<Seq<char>>) -> PrevAction {
    if position_nanos > PREV_RESTART_NANOS {
        PrevAction::Restart
    } else {
        match current_id {
            Some(id) => match first_index(ids, id) {
                Some(i) => if i > 0 {
                    PrevAction::PlayFrom((i - 1) as usize)
                } else {
                    PrevAction::Restart
                },
                None => PrevAction::Restart,
            },
            None => PrevAction::Restart,
        }
    }
}

/// What `prev` does (see `prev_action_spec`), from the position in the
/// current track, its id (when known) and the room's list.
pub fn prev_action(position_nanos: u128, current_id: Option<&str>, tracks: &Vec<TrackMeta>) -> (r:
    PrevAction)
    ensures
        r == prev_action_spec(
            position_nanos,
            match current_id {
                Some(id) => Some(id@),
                None => None,
            },
            metas_ids(tracks@),
        ),
{
    if position_nanos > PREV_RESTART_NANOS {
        return PrevAction::Restart;
    }
    let id = match current_id {
        Some(id) => id,
        None => return PrevAction::Restart,
    };
    let ghost ids = metas_ids(tracks@);
    let mut i: usize = 0;
    while i < tracks.len()
        invariant
            i <= tracks@.len(),
            ids == metas_ids(tracks@),
            position_nanos <= PREV_RESTART_NANOS,
            current_id == Some(id),
            forall|j: int| 0 <= j < i ==> ids[j] != id@,
        decreases tracks@.len() - i,
    {
        if str_eq(tracks[i].id.as_str(), id) {
            proof {
                assert(ids[i as int] == id@);
                let k = choose|k: int| 0 <= k < ids.len() && ids[k] == id@ && forall|j: int| 0 <= j < k ==> ids[j] != id@;
                if k < i {
                    assert(ids[k] != id@);
                } else if k > i {
                    assert(ids[i as int] != id@);
                }
                assert(first_index(ids, id@) == Some(i as int));
            }
            if i > 0 {
                return PrevAction::PlayFrom(i - 1);
            } else {
                return PrevAction::Restart;
            }
        }
        i += 1;
    }
    PrevAction::Restart
}

/// The wave queue is topped up when the room plays a wave and few tracks
/// remain.
pub fn should_refill(wave: bool, queue_len: usize) -> (r: bool)
    ensures
        r == (wave && queue_len <= WAVE_REFILL_THRESHOLD),
{
    wave && queue_len <= WAVE_REFILL_THRESHOLD
}

/// The fresh tracks that join the room's list, in order: each one whose id is
/// neither in the list already nor taken before it.
pub open spec fn fresh_metas_spec(known: Seq<Seq<char>>, fresh: Seq<Track>) -> Seq<Seq<char>>
    decreases fresh.len(),
{
    if fresh.len() == 0 {
        Seq::empty()
    } else {
        let t = fresh[0];
        if known.contains(t.id@) {
            fresh_metas_spec(known, fresh.drop_first())
        } else {
            seq![t.id@] + fresh_metas_spec(known.push(t.id@), fresh.drop_first())
        }
    }
}

fn contains_id(metas: &Vec<TrackMeta>, id: &str) -> (r: bool)
    ensures
        r == metas_ids(metas@).contains(id@),
{
    let mut i: usize = 0;
    while i < metas.len()
        invariant
            i <= metas@.len(),
            forall|j: int| 0 <= j < i ==> metas_ids(metas@)[j] != id@,
        decreases metas@.len() - i,
    {
        if str_eq(metas[i].id.as_str(), id) {
            assert(metas_ids(metas@)[i as int] == id@);
            return true;
        }
        i += 1;
    }
    false
}

/// Top up the room's list with fresh wave tracks (see `fresh_metas_spec`):
/// the list grows by the new tracks, which are also returned, in order, to
/// be queued.
pub fn add_fresh_tracks(tracks: &mut Vec<TrackMeta>, fresh: Vec<Track>) -> (r: Vec<TrackMeta>)
    ensures
        metas_ids(r@) == fresh_metas_spec(metas_ids(old(tracks)@), fresh@),
        metas_ids(final(tracks)@) == metas_ids(old(tracks)@) + metas_ids(r@),
        forall|i: int| 0 <= i < old(tracks)@.len() ==> final(tracks)@[i] == old(tracks)@[i],
{
    let ghost start = tracks@;
    let mut added: Vec<TrackMeta> = Vec::new();
    let mut i: usize = 0;
    let n = fresh.len();
    proof {
        assert(fresh@.subrange(0, n as int) =~= fresh@);
        assert(metas_ids(tracks@) =~= metas_ids(start) + metas_ids(added@));
        assert(Seq::<Seq<char>>::empty() + fresh_metas_spec(metas_ids(tracks@), fresh@.subrange(0, n as int))
            =~= fresh_metas_spec(metas_ids(start), fresh@));
    }
    while i < n
        invariant
            n == fresh@.len(),
            i <= n,
            metas_ids(tracks@) == metas_ids(start) + metas_ids(added@),
            forall|k: int| 0 <= k < start.len() ==> tracks@[k] == start[k],
            tracks@.len() == start.len() + added@.len(),
            fresh_metas_spec(metas_ids(start), fresh@) == metas_ids(added@) + fresh_metas_spec(
                metas_ids(tracks@),
                fresh@.subrange(i as int, n as int),
            ),
        decreases n - i,
    {
        let ghost tail = fresh@.subrange(i as int, n as int);
        proof {
            assert(tail[0] == fresh@[i as int]);
            assert(tail.drop_first() =~= fresh@.subrange(i + 1, n as int));
        }
        let t = &fresh[i];
        if !contains_id(tracks, t.id.as_str()) {
            let meta = TrackMeta::from_track(Track { id: t.id.clone(), title: t.title.clone(), artist: t.artist.clone() });
            let ghost before_t = tracks@;
            let ghost before_a = added@;
            tracks.push(TrackMeta {
                id: meta.id.clone(),
                title: meta.title.clone(),
                artist: meta.artist.clone(),
                album: None,
                cover_art: None,
                duration_ms: None,
            });
            added.push(meta);
            proof {
                assert(metas_ids(tracks@) =~= metas_ids(before_t).push(t.id@));
                assert(metas_ids(added@) =~= metas_ids(before_a).push(t.id@));
                assert(metas_ids(tracks@) =~= metas_ids(start) + metas_ids(added@));
                assert(metas_ids(added@) + fresh_metas_spec(metas_ids(tracks@), fresh@.subrange(i + 1, n as int))
                    =~= metas_ids(before_a) + (seq![t.id@] + fresh_metas_spec(
                    metas_ids(before_t).push(t.id@),
                    fresh@.subrange(i + 1, n as int),
                )));
            }
        }
        i += 1;
    }
    proof {
        assert(fresh@.subrange(n as int, n as int) =~= Seq::<Track>::empty());
        assert(metas_ids(added@) + Seq::<Seq<char>>::empty() =~= metas_ids(added@));
    }
    added
}

/// What the watchdog does with a room.
#[derive(Debug, Clone, Copy, PartialEq, Eq, Structural)]
pub enum WatchdogAction {
    /// The voice call is gone: forget the room.
    Forget,
    /// Leave the channel and free the bot.
    Leave,
    /// Keep the room, with this "not playing since" mark.
    Keep(Option<u64>),
}

pub open spec fn watchdog_spec(has_call: bool, humans: usize, playing: bool, not_playing_since: Option<u64>, now_secs: u64) -> WatchdogAction {
    if !has_call {
        WatchdogAction::Forget
    } else if humans == 0 {
        WatchdogAction::Leave
    } else if playing {
        WatchdogAction::Keep(None)
    } else {
        let since = match not_playing_since {
            Some(s) => s,
            None => now_secs,
        };
        if now_secs >= since && now_secs - since >= REMOTE_IDLE_SECS {
            WatchdogAction::Leave
        } else {
            WatchdogAction::Keep(Some(since))
        }
    }
}

/// One watchdog look at a room: forget it without a call, leave an empty
/// channel, and leave once nothing has played for the idle timeout (the
/// first look that sees no playback starts the count).
pub fn watchdog_step(has_call: bool, humans: usize, playing: bool, not_playing_since: Option<u64>, now_secs: u64) -> (r:
    WatchdogAction)
    ensures
        r == watchdog_spec(has_call, humans, playing, not_playing_since, now_secs),
{
    if !has_call {
        return WatchdogAction::Forget;
    }
    if humans == 0 {
        return WatchdogAction::Leave;
    }
    if playing {
        return WatchdogAction::Keep(None);
    }
    let since = match not_playing_since {
        Some(s) => s,
        None => now_secs,
    };
    if now_secs >= since && now_secs - since >= REMOTE_IDLE_SECS {
        WatchdogAction::Leave
    } else {
        WatchdogAction::Keep(Some(since))
    }
}

/// An idle room is left only after the idle timeout: for any marks and
/// times, a room with a call and listeners that is not playing is kept while
/// fewer than the timeout's seconds have passed since it stopped, and left
/// once they have.
pub proof fn law_idle_room_left_after_timeout(humans: usize, since: u64, now_secs: u64)
    requires
        humans > 0,
        since <= now_secs,
    ensures
        now_secs - since < REMOTE_IDLE_SECS ==> watchdog_spec(true, humans, false, Some(since), now_secs)
            == WatchdogAction::Keep(Some(since)),
        now_secs - since >= REMOTE_IDLE_SECS ==> watchdog_spec(true, humans, false, Some(since), now_secs)
            == WatchdogAction::Leave,
        watchdog_spec(true, humans, true, Some(since), now_secs) == WatchdogAction::Keep(None),
{
}

// -------------------------------------------------------------- state

fn opt_str_json(v: &Option<String>) -> (r: Json)
    ensures
        jview(r) == match v {
            Some(s) => JsonView::Str(s@),
            None => JsonView::Null,
        },
{
    match v {
        Some(s) => Json::Str(s.clone()),
        None => Json::Null,
    }
}

fn opt_i64_json(v: Option<i64>) -> (r: Json)
    ensures
        jview(r) == match v {
            Some(n) => JsonView::Number(crate::text::signed_decimal(n as int)),
            None => JsonView::Null,
        },
{
    match v {
        Some(n) => Json::Number(string_of(i64_decimal(n).as_slice())),
        None => Json::Null,
    }
}

pub open spec fn opt_str_jv(v: Option<String>) -> JsonView {
    match v {
        Some(s) => JsonView::Str(s@),
        None => JsonView::Null,
    }
}

/// A queued track as the remote lists it.
pub open spec fn queued_view(m: TrackMeta) -> JsonView {
    JsonView::Object(
        seq![
            ("id"@, JsonView::Str(m.id@)),
            ("title"@, JsonView::Str(m.title@)),
            ("artist"@, JsonView::Str(m.artist@)),
            ("album"@, opt_str_jv(m.album)),
            ("coverArt"@, opt_str_jv(m.cover_art)),
        ],
    )
}

fn queued_json(m: &TrackMeta) -> (r: Json)
    ensures
        jview(r) == queued_view(*m),
{
    let mut o: Vec<(String, Json)> = Vec::new();
    assert(members_view(o@) =~= Seq::<(Seq<char>, JsonView)>::empty());
    push_member(&mut o, "id", Json::Str(m.id.clone()));
    push_member(&mut o, "title", Json::Str(m.title.clone()));
    push_member(&mut o, "artist", Json::Str(m.artist.clone()));
    push_member(&mut o, "album", opt_str_json(&m.album));
    push_member(&mut o, "coverArt", opt_str_json(&m.cover_art));
    proof {
        lemma_jview_object(o);
        assert(members_view(o@) =~= queued_view(*m)->Object_0);
    }
    Json::Object(o)
}

/// The state reported for a room the user controls: connected; the current
/// track's details when it is known, its position and whether it plays when
/// the player reports them; and the known upcoming tracks.
pub open spec fn room_state_view(
    current: Option<TrackMeta>,
    player: Option<(i64, bool)>,
    upcoming: Seq<TrackMeta>,
) -> JsonView {
    let base = seq![("connected"@, JsonView::Bool(true)), ("isPlaying"@, JsonView::Bool(false))];
    let with_meta = match current {
        Some(m) => base + seq![
            ("trackId"@, JsonView::Str(m.id@)),
            ("title"@, JsonView::Str(m.title@)),
            ("artist"@, JsonView::Str(m.artist@)),
            ("album"@, opt_str_jv(m.album)),
            ("coverArt"@, opt_str_jv(m.cover_art)),
            ("durationMs"@, match m.duration_ms {
                Some(n) => JsonView::Number(crate::text::signed_decimal(n as int)),
                None => JsonView::Null,
            }),
        ],
        None => base,
    };
    let with_player = match player {
        Some((pos, playing)) => crate::json::with_member(
            crate::json::with_member(with_meta, "positionMs"@, JsonView::Number(crate::text::signed_decimal(pos as int))),
            "isPlaying"@,
            JsonView::Bool(playing),
        ),
        None => with_meta,
    };
    JsonView::Object(
        with_player.push(("queue"@, JsonView::Array(Seq::new(upcoming.len(), |i: int| queued_view(upcoming[i]))))),
    )
}

/// The state of a room the user controls (see `room_state_view`).
pub fn room_state_json(current: Option<&TrackMeta>, player: Option<(i64, bool)>, upcoming: &Vec<TrackMeta>) -> (r:
    Json)
    ensures
        jview(r) == room_state_view(
            match current {
                Some(m) => Some(*m),
                None => None,
            },
            player,
            upcoming@,
        ),
{
    let mut m: Vec<(String, Json)> = Vec::new();
    assert(members_view(m@) =~= Seq::<(Seq<char>, JsonView)>::empty());
    push_member(&mut m, "connected", Json::Bool(true));
    push_member(&mut m, "isPlaying", Json::Bool(false));
    match current {
        Some(t) => {
            push_member(&mut m, "trackId", Json::Str(t.id.clone()));
            push_member(&mut m, "title", Json::Str(t.title.clone()));
            push_member(&mut m, "artist", Json::Str(t.artist.clone()));
            push_member(&mut m, "album", opt_str_json(&t.album));
            push_member(&mut m, "coverArt", opt_str_json(&t.cover_art));
            push_member(&mut m, "durationMs", opt_i64_json(t.duration_ms));
        },
        None => {},
    }
    let ghost cur = match current {
        Some(t) => Some(*t),
        None => None,
    };
    let ghost with_meta = members_view(m@);
    proof {
        let base = seq![("connected"@, JsonView::Bool(true)), ("isPlaying"@, JsonView::Bool(false))];
        match cur {
            Some(t) => {
                assert(with_meta =~= base + seq![
                    ("trackId"@, JsonView::Str(t.id@)),
                    ("title"@, JsonView::Str(t.title@)),
                    ("artist"@, JsonView::Str(t.artist@)),
                    ("album"@, opt_str_jv(t.album)),
                    ("coverArt"@, opt_str_jv(t.cover_art)),
                    ("durationMs"@, match t.duration_ms {
                        Some(n) => JsonView::Number(crate::text::signed_decimal(n as int)),
                        None => JsonView::Null,
                    }),
                ]);
            },
            None => {
                assert(with_meta =~= base);
            },
        }
    }
    match player {
        Some((pos, playing)) => {
            crate::json::set_member(&mut m, "positionMs", Json::Number(string_of(i64_decimal(pos).as_slice())));
            crate::json::set_member(&mut m, "isPlaying", Json::Bool(playing));
        },
        None => {},
    }
    let mut queue: Vec<Json> = Vec::new();
    let mut i: usize = 0;
    while i < upcoming.len()
        invariant
            i <= upcoming@.len(),
            queue@.len() == i,
            items_view(queue@) == Seq::new(i as nat, |k: int| queued_view(upcoming@[k])),
        decreases upcoming@.len() - i,
    {
        let j = queued_json(&upcoming[i]);
        let ghost before = queue@;
        queue.push(j);
        proof {
            assert forall|k: int| 0 <= k <= i implies #[trigger] items_view(queue@)[k] == queued_view(upcoming@[k]) by {
                if k < i {
                    assert(queue@[k] == before[k]);
                    assert(items_view(before)[k] == queued_view(upcoming@[k]));
                }
            }
            assert(items_view(queue@) =~= Seq::new((i + 1) as nat, |k: int| queued_view(upcoming@[k])));
        }
        i += 1;
    }
    proof {
        lemma_jview_array(queue);
    }
    push_member(&mut m, "queue", Json::Array(queue));
    proof {
        lemma_jview_object(m);
    }
    Json::Object(m)
}

/// The state reported when the user controls no room: not connected, not
/// playing, and busy when the bot is in another channel of their guild.
pub open spec fn idle_state_view(busy: bool) -> JsonView {
    let base = seq![("connected"@, JsonView::Bool(false)), ("isPlaying"@, JsonView::Bool(false))];
    JsonView::Object(
        if busy {
            base.push(("busy"@, JsonView::Bool(true)))
        } else {
            base
        },
    )
}

pub fn idle_state_json(busy: bool) -> (r: Json)
    ensures
        jview(r) == idle_state_view(busy),
{
    let mut m: Vec<(String, Json)> = Vec::new();
    assert(members_view(m@) =~= Seq::<(Seq<char>, JsonView)>::empty());
    push_member(&mut m, "connected", Json::Bool(false));
    push_member(&mut m, "isPlaying", Json::Bool(false));
    if busy {
        push_member(&mut m, "busy", Json::Bool(true));
    }
    proof {
        lemma_jview_object(m);
        assert(members_view(m@) =~= idle_state_view(busy)->Object_0);
    }
    Json::Object(m)
}

/// A track of a `play` command's list: the id is required; a missing title
/// or artist reads "Unknown" / "Unknown artist"; album and cover art when
/// given as text. Its duration in milliseconds is worked out by the caller
/// from the song's duration in seconds.
pub fn meta_from_json(v: &Json, duration_ms: Option<i64>) -> (r: Option<TrackMeta>)
    ensures
        as_str(at_key(*v, "id"@)) is None ==> r is None,
        as_str(at_key(*v, "id"@)) is Some ==> r is Some && {
            let m = r.unwrap();
            &&& Some(m.id@) == as_str(at_key(*v, "id"@))
            &&& m.title@ == crate::subsonic::or_text(as_str(at_key(*v, "title"@)), "Unknown"@)
            &&& m.artist@ == crate::subsonic::or_text(as_str(at_key(*v, "artist"@)), "Unknown artist"@)
            &&& crate::xml::opt_seq(m.album) == as_str(at_key(*v, "album"@))
            &&& crate::xml::opt_seq(m.cover_art) == as_str(at_key(*v, "coverArt"@))
            &&& m.duration_ms == duration_ms
        },
{
    let id = match str_at(v, "id") {
        Some(id) => id.clone(),
        None => return None,
    };
    let title = match str_at(v, "title") {
        Some(t) => t.clone(),
        None => copy_str("Unknown"),
    };
    let artist = match str_at(v, "artist") {
        Some(a) => a.clone(),
        None => copy_str("Unknown artist"),
    };
    let album = match str_at(v, "album") {
        Some(a) => Some(a.clone()),
        None => None,
    };
    let cover_art = match str_at(v, "coverArt") {
        Some(c) => Some(c.clone()),
        None => None,
    };
    Some(TrackMeta { id, title, artist, album, cover_art, duration_ms })
}

// ------------------------------------------------------------ commands

/// `/queue` shows at most this many tracks.
pub const QUEUE_SHOWN: usize = 15;

/// The label shown for a queued track (a track without one reads "Трек").
pub open spec fn label_or_default(label: Option<String>) -> Seq<char> {
    match label {
        Some(l) => l@,
        None => "Трек"@,
    }
}

/// The line for the `i`-th queued track: `▶️` for the playing one, its
/// position (`1.`, `2.`, ...) for the others, then its label.
pub open spec fn queue_line(i: nat, label: Option<String>) -> Seq<char> {
    (if i == 0 {
        "▶️"@
    } else {
        crate::text::decimal(i) + "."@
    }) + " "@ + label_or_default(label)
}

/// The lines of `/queue` for the first `n` labels.
pub open spec fn queue_lines(labels: Seq<Option<String>>, n: nat) -> Seq<Seq<char>>
    decreases n,
{
    if n == 0 {
        Seq::empty()
    } else {
        queue_lines(labels, (n - 1) as nat).push(queue_line((n - 1) as nat, labels[n - 1]))
    }
}

proof fn lemma_queue_lines_len(labels: Seq<Option<String>>, n: nat)
    ensures
        queue_lines(labels, n).len() == n,
    decreases n,
{
    if n > 0 {
        lemma_queue_lines_len(labels, (n - 1) as nat);
    }
}

/// Lines joined with line breaks.
pub open spec fn joined(lines: Seq<Seq<char>>) -> Seq<char>
    decreases lines.len(),
{
    if lines.len() == 0 {
        Seq::empty()
    } else if lines.len() == 1 {
        lines[0]
    } else {
        joined(lines.drop_last()) + "\n"@ + lines.last()
    }
}

/// The answer to `/queue`: "Очередь пуста." for an empty queue; else one
/// line per track for the first fifteen, and a last line counting the rest.
pub open spec fn queue_text_spec(labels: Seq<Option<String>>) -> Seq<char> {
    if labels.len() == 0 {
        "Очередь пуста."@
    } else {
        let shown = if labels.len() < QUEUE_SHOWN { labels.len() } else { QUEUE_SHOWN as nat };
        let lines = queue_lines(labels, shown);
        joined(
            if labels.len() > QUEUE_SHOWN {
                lines.push("…и ещё "@ + crate::text::decimal((labels.len() - QUEUE_SHOWN) as nat))
            } else {
                lines
            },
        )
    }
}

fn concat3(a: &str, b: &[char], c: &str) -> (r: Vec<char>)
    ensures
        r@ == a@ + b@ + c@,
{
    let mut v = crate::text::chars_of(a);
    crate::text::extend_chars(&mut v, b);
    crate::text::extend_chars(&mut v, crate::text::chars_of(c).as_slice());
    v
}

/// The answer to `/queue` (see `queue_text_spec`), from the labels of the
/// queued tracks in order (the playing one first).
pub fn queue_text(labels: &Vec<Option<String>>) -> (r: String)
    ensures
        r@ == queue_text_spec(labels@),
{
    if labels.len() == 0 {
        return copy_str("Очередь пуста.");
    }
    let shown: usize = if labels.len() < QUEUE_SHOWN { labels.len() } else { QUEUE_SHOWN };
    let mut out: Vec<char> = Vec::new();
    let mut i: usize = 0;
    while i < shown
        invariant
            shown <= labels@.len(),
            i <= shown,
            out@ == joined(queue_lines(labels@, i as nat)),
        decreases shown - i,
    {
        let marker: Vec<char> = if i == 0 {
            crate::text::chars_of("▶️")
        } else {
            concat3("", crate::text::u64_decimal(i as u64).as_slice(), ".")
        };
        let label: Vec<char> = match &labels[i] {
            Some(l) => crate::text::chars_of(l.as_str()),
            None => crate::text::chars_of("Трек"),
        };
        let line = concat3("", marker.as_slice(), " ");
        let mut line2 = line;
        crate::text::extend_chars(&mut line2, label.as_slice());
        let ghost prev = queue_lines(labels@, i as nat);
        proof {
            lemma_queue_lines_len(labels@, i as nat);
            reveal_strlit("");
            assert(line2@ =~= queue_line(i as nat, labels@[i as int]));
            assert(queue_lines(labels@, (i + 1) as nat) == prev.push(line2@));
            assert(prev.push(line2@).drop_last() =~= prev);
        }
        if i > 0 {
            crate::text::extend_chars(&mut out, crate::text::chars_of("\n").as_slice());
            proof {
                assert(prev.len() == i);
            }
        } else {
            proof {
                assert(prev.len() == 0);
            }
        }
        crate::text::extend_chars(&mut out, line2.as_slice());
        proof {
            if i == 0 {
                assert(prev.push(line2@).len() == 1);
                assert(prev.push(line2@)[0] == line2@);
                assert(out@ =~= line2@);
            } else {
                assert(prev.push(line2@).last() == line2@);
            }
        }
        i += 1;
    }
    if labels.len() > QUEUE_SHOWN {
        let more = labels.len() - QUEUE_SHOWN;
        let tail = concat3("…и ещё ", crate::text::u64_decimal(more as u64).as_slice(), "");
        let ghost lines = queue_lines(labels@, shown as nat);
        proof {
            lemma_queue_lines_len(labels@, shown as nat);
        }
        crate::text::extend_chars(&mut out, crate::text::chars_of("\n").as_slice());
        crate::text::extend_chars(&mut out, tail.as_slice());
        proof {
            reveal_strlit("");
            let t = "…и ещё "@ + crate::text::decimal(more as nat);
            assert(tail@ =~= t);
            assert(lines.len() == shown);
            assert(lines.push(t).drop_last() =~= lines);
            assert(lines.push(t).last() == t);
            assert(lines.push(t).len() > 1);
        }
    }
    string_of(out.as_slice())
}

/// The answer to `/nowplaying`: the playing track's label (or "Трек" when
/// it has none), or that nothing plays.
pub fn now_playing_text(current: Option<Option<String>>) -> (r: String)
    ensures
        match current {
            Some(label) => r@ == "🎶 Сейчас играет: **"@ + label_or_default(label) + "**"@,
            None => r@ == "Сейчас ничего не играет."@,
        },
{
    match current {
        Some(label) => {
            let l: Vec<char> = match &label {
                Some(s) => crate::text::chars_of(s.as_str()),
                None => crate::text::chars_of("Трек"),
            };
            string_of(concat3("🎶 Сейчас играет: **", l.as_slice(), "**").as_slice())
        },
        None => copy_str("Сейчас ничего не играет."),
    }
}

} // verus!
