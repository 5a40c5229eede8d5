//! Listen-together rooms. A room is a virtual transport: it records that
//! `tracks[index]` was at position `anchor_pos_ms` at server time
//! `anchor_ts_ms`, playing or paused. Each client slaves its own player to
//! that timeline; commands only re-anchor it.
use vstd::prelude::*;

use crate::text::{chars_of, copy_str, slice_chars, str_eq, string_of, trim};

verus! {

/// A member not seen for longer than this is dropped from the room.
pub const LISTEN_MEMBER_TTL_MS: i64 = 30000;

/// Chat and reaction text is cut to this many characters.
pub const EVENT_TEXT_LIMIT: usize = 280;

/// The room remembers at most this many events.
pub const EVENT_HISTORY: usize = 100;

/// A snapshot carries at most this many of the newest events.
pub const SNAPSHOT_EVENTS: usize = 50;

/// `prev` within this many milliseconds of a track's start goes to the
/// previous track; later it restarts the current one.
pub const PREV_RESTART_MS: i64 = 3000;

#[derive(Clone, Debug)]
pub struct ListenTrack {
    pub id: String,
    pub title: String,
    pub artist: String,
    pub provider: Option<String>,
    pub artist_id: Option<String>,
    pub album: Option<String>,
    pub album_id: Option<String>,
    pub cover_art: Option<String>,
    pub duration_ms: Option<i64>,
}

#[derive(Clone, Debug)]
pub struct ListenEvent {
    pub id: i64,
    pub username: String,
    pub kind: String,
    pub text: String,
    pub at_ms: i64,
}

impl View for ListenEvent {
    type V = (int, Seq<char>, Seq<char>, Seq<char>, int);

    open spec fn view(&self) -> (int, Seq<char>, Seq<char>, Seq<char>, int) {
        (self.id as int, self.username@, self.kind@, self.text@, self.at_ms as int)
    }
}

#[derive(Debug)]
pub struct ListenSession {
    pub code: String,
    pub host: String,
    /// Username and the server time it was last seen, one entry per name.
    pub members: Vec<(String, i64)>,
    pub tracks: Vec<ListenTrack>,
    pub events: Vec<ListenEvent>,
    pub index: usize,
    pub anchor_pos_ms: i64,
    pub anchor_ts_ms: i64,
    pub is_playing: bool,
    pub rev: i64,
}

/// What a client receives: the room as of `rev`.
#[derive(Debug)]
pub struct ListenSnapshot {
    pub code: String,
    pub host: String,
    pub members: Vec<String>,
    pub track: Option<ListenTrack>,
    pub queue: Vec<ListenTrack>,
    pub events: Vec<ListenEvent>,
    pub anchor_pos_ms: i64,
    pub anchor_ts_ms: i64,
    pub is_playing: bool,
    pub rev: i64,
}

/// A command a member sends to the room, already decoded from its payload.
#[derive(Debug)]
pub enum ListenCommand {
    /// Replace the queue and start at `start_index` (clamped to the queue).
    Play { tracks: Vec<ListenTrack>, start_index: usize },
    /// Replace the queue with the tracks the wave produced, if any.
    Wave { tracks: Option<Vec<ListenTrack>> },
    Pause,
    Resume,
    Seek { position_ms: Option<i64> },
    Next,
    Prev,
    Reaction { emoji: Option<String> },
    Chat { text: Option<String> },
    Unknown,
}

// ------------------------------------------------------------- model

pub open spec fn events_view(e: Seq<ListenEvent>) -> Seq<(int, Seq<char>, Seq<char>, Seq<char>, int)> {
    e.map_values(|x: ListenEvent| x@)
}

pub open spec fn has_member(m: Seq<(String, i64)>, name: Seq<char>) -> bool {
    exists|i: int| 0 <= i < m.len() && #[trigger] m[i].0@ == name
}

pub open spec fn names_unique(m: Seq<(String, i64)>) -> bool {
    forall|i: int, j: int| 0 <= i < j < m.len() ==> #[trigger] m[i].0@ != #[trigger] m[j].0@
}

/// The members as a map from username to the time it was last seen.
pub open spec fn members_map(m: Seq<(String, i64)>) -> Map<Seq<char>, int> {
    Map::new(
        |k: Seq<char>| has_member(m, k),
        |k: Seq<char>| m[choose|i: int| 0 <= i < m.len() && #[trigger] m[i].0@ == k].1 as int,
    )
}

pub open spec fn take_chars(s: Seq<char>, n: nat) -> Seq<char> {
    if s.len() <= n {
        s
    } else {
        s.subrange(0, n as int)
    }
}

pub open spec fn next_event_id(e: Seq<ListenEvent>) -> int {
    if e.len() == 0 {
        1
    } else {
        e.last().id + 1
    }
}

/// The event history after one event is recorded: the new event at the end
/// with the next id, and the oldest dropped when the history is full.
pub open spec fn events_after_push(
    e: Seq<ListenEvent>,
    username: Seq<char>,
    kind: Seq<char>,
    text: Seq<char>,
    now: int,
) -> Seq<(int, Seq<char>, Seq<char>, Seq<char>, int)> {
    let pushed = events_view(e).push(
        (next_event_id(e), username, kind, take_chars(text, EVENT_TEXT_LIMIT as nat), now),
    );
    if pushed.len() > EVENT_HISTORY {
        pushed.drop_first()
    } else {
        pushed
    }
}

impl ListenSession {
    /// The room's shape: the index points into the queue (or is 0 with an
    /// empty queue), at most `EVENT_HISTORY` events with strictly increasing
    /// ids and text of at most `EVENT_TEXT_LIMIT` characters, and one member
    /// entry per username, seen at a non-negative time.
    pub open spec fn wf(&self) -> bool {
        &&& (self.tracks@.len() == 0 && self.index == 0) || self.index < self.tracks@.len()
        &&& self.events@.len() <= EVENT_HISTORY
        &&& forall|i: int, j: int|
            0 <= i < j < self.events@.len() ==> #[trigger] self.events@[i].id
                < #[trigger] self.events@[j].id
        &&& forall|i: int|
            0 <= i < self.events@.len() ==> #[trigger] self.events@[i].text@.len()
                <= EVENT_TEXT_LIMIT
        &&& names_unique(self.members@)
        &&& forall|i: int| 0 <= i < self.members@.len() ==> #[trigger] self.members@[i].1 >= 0
    }

    /// Position on the timeline at server time `now`.
    pub open spec fn live_pos(&self, now: int) -> int {
        if self.is_playing {
            self.anchor_pos_ms + (now - self.anchor_ts_ms)
        } else {
            self.anchor_pos_ms as int
        }
    }

    /// The playback fields agree.
    pub open spec fn same_playback(&self, other: &ListenSession) -> bool {
        &&& self.tracks == other.tracks
        &&& self.index == other.index
        &&& self.anchor_pos_ms == other.anchor_pos_ms
        &&& self.anchor_ts_ms == other.anchor_ts_ms
        &&& self.is_playing == other.is_playing
    }

    /// Room identity and membership agree.
    pub open spec fn same_room(&self, other: &ListenSession) -> bool {
        &&& self.code == other.code
        &&& self.host == other.host
        &&& self.members == other.members
    }

    /// The current track's duration, when there is a current track with one.
    pub open spec fn current_duration(&self) -> Option<i64> {
        if self.index < self.tracks@.len() {
            self.tracks@[self.index as int].duration_ms
        } else {
            None
        }
    }

    /// The timeline arithmetic at `now` fits in `i64`: the position and,
    /// when the current track has a duration, the next track's anchor.
    pub open spec fn clock_fits(&self, now: int) -> bool {
        &&& i64::MIN <= now - self.anchor_ts_ms <= i64::MAX
        &&& i64::MIN <= self.live_pos(now) <= i64::MAX
        &&& match self.current_duration() {
            Some(d) => self.anchor_ts_ms + d <= i64::MAX,
            None => true,
        }
    }
}

// ---------------------------------------------------------- copying

fn copy_opt(o: &Option<String>) -> (r: Option<String>)
    ensures
        r == *o,
{
    match o {
        Some(s) => Some(s.clone()),
        None => None,
    }
}

pub fn copy_track(t: &ListenTrack) -> (r: ListenTrack)
    ensures
        r == *t,
{
    ListenTrack {
        id: t.id.clone(),
        title: t.title.clone(),
        artist: t.artist.clone(),
        provider: copy_opt(&t.provider),
        artist_id: copy_opt(&t.artist_id),
        album: copy_opt(&t.album),
        album_id: copy_opt(&t.album_id),
        cover_art: copy_opt(&t.cover_art),
        duration_ms: t.duration_ms,
    }
}

fn copy_event(e: &ListenEvent) -> (r: ListenEvent)
    ensures
        r == *e,
{
    ListenEvent {
        id: e.id,
        username: e.username.clone(),
        kind: e.kind.clone(),
        text: e.text.clone(),
        at_ms: e.at_ms,
    }
}

// ---------------------------------------------------------- members

proof fn lemma_member_value(m: Seq<(String, i64)>, i: int)
    requires
        names_unique(m),
        0 <= i < m.len(),
    ensures
        members_map(m).contains_key(m[i].0@),
        members_map(m)[m[i].0@] == m[i].1 as int,
{
    let k = m[i].0@;
    assert(has_member(m, k));
    let c = choose|j: int| 0 <= j < m.len() && #[trigger] m[j].0@ == k;
    assert(c == i) by {
        if c != i {
            if c < i {
                assert(m[c].0@ != m[i].0@);
            } else {
                assert(m[i].0@ != m[c].0@);
            }
        }
    }
}

proof fn lemma_map_ext(a: Seq<(String, i64)>, b: Seq<(String, i64)>, m: Map<Seq<char>, int>)
    requires
        names_unique(b),
        forall|k: Seq<char>| has_member(b, k) <==> m.contains_key(k),
        forall|i: int| 0 <= i < b.len() ==> #[trigger] m[b[i].0@] == b[i].1 as int,
    ensures
        members_map(b) == m,
{
    assert forall|k: Seq<char>| #[trigger] members_map(b).contains_key(k) implies members_map(b)[k]
        == m[k] by {
        let i = choose|i: int| 0 <= i < b.len() && #[trigger] b[i].0@ == k;
        lemma_member_value(b, i);
    }
    assert(members_map(b) =~= m);
}

impl ListenSession {
    /// A fresh room: its host the only member, seen `now`, no queue, paused,
    /// at revision 1.
    pub fn new(code: String, host: String, now: i64) -> (r: ListenSession)
        requires
            now >= 0,
        ensures
            r.wf(),
            r.code == code,
            r.host == host,
            r.members@.len() == 1,
            r.members@[0].0 == host,
            r.members@[0].1 == now,
            r.tracks@.len() == 0,
            r.events@.len() == 0,
            r.index == 0,
            r.anchor_pos_ms == 0,
            r.anchor_ts_ms == now,
            !r.is_playing,
            r.rev == 1,
    {
        let member = host.clone();
        let mut members: Vec<(String, i64)> = Vec::new();
        members.push((member, now));
        ListenSession {
            code,
            host,
            members,
            tracks: Vec::new(),
            events: Vec::new(),
            index: 0,
            anchor_pos_ms: 0,
            anchor_ts_ms: now,
            is_playing: false,
            rev: 1,
        }
    }

    /// Position on the timeline at server time `now`.
    pub fn live_pos_ms(&self, now: i64) -> (r: i64)
        requires
            self.clock_fits(now as int),
        ensures
            r == self.live_pos(now as int),
    {
        if self.is_playing {
            self.anchor_pos_ms + (now - self.anchor_ts_ms)
        } else {
            self.anchor_pos_ms
        }
    }

    /// Whether the timeline arithmetic at `now` fits (see `clock_fits`).
    pub fn fits_clock(&self, now: i64) -> (r: bool)
        ensures
            r == self.clock_fits(now as int),
    {
        let now_i: i128 = now as i128;
        let ts: i128 = self.anchor_ts_ms as i128;
        let pos: i128 = self.anchor_pos_ms as i128;
        let elapsed = now_i - ts;
        if elapsed < i64::MIN as i128 || elapsed > i64::MAX as i128 {
            return false;
        }
        let live = if self.is_playing {
            pos + elapsed
        } else {
            pos
        };
        if live < i64::MIN as i128 || live > i64::MAX as i128 {
            return false;
        }
        if self.index < self.tracks.len() {
            match self.tracks[self.index].duration_ms {
                Some(d) => ts + d as i128 <= i64::MAX as i128,
                None => true,
            }
        } else {
            true
        }
    }

    /// The track at `index`, if the queue has one there.
    pub fn current(&self) -> (r: Option<&ListenTrack>)
        ensures
            self.index < self.tracks@.len() ==> r == Some(&self.tracks@[self.index as int]),
            self.index >= self.tracks@.len() ==> r is None,
    {
        if self.index < self.tracks.len() {
            Some(&self.tracks[self.index])
        } else {
            None
        }
    }

    /// Record that `username` was seen at `now`, adding it when new.
    pub fn touch_member(&mut self, username: &str, now: i64)
        requires
            old(self).wf(),
            now >= 0,
        ensures
            final(self).wf(),
            members_map(final(self).members@) == members_map(old(self).members@).insert(
                username@,
                now as int,
            ),
            final(self).same_playback(&old(self)),
            final(self).code == old(self).code,
            final(self).host == old(self).host,
            final(self).events == old(self).events,
            final(self).rev == old(self).rev,
    {
        let ghost m0 = self.members@;
        let mut i: usize = 0;
        while i < self.members.len()
            invariant
                i <= self.members@.len(),
                *self == *old(self),
                m0 == old(self).members@,
                old(self).wf(),
                now >= 0,
                forall|k: int| 0 <= k < i ==> #[trigger] m0[k].0@ != username@,
            decreases self.members@.len() - i,
        {
            if str_eq(self.members[i].0.as_str(), username) {
                let name = self.members[i].0.clone();
                self.members.set(i, (name, now));
                proof {
                    let m1 = self.members@;
                    assert(m1 == m0.update(i as int, (m0[i as int].0, now)));
                    assert forall|a: int, b: int| 0 <= a < b < m1.len() implies #[trigger] m1[a].0@
                        != #[trigger] m1[b].0@ by {
                        assert(m1[a].0 == m0[a].0 && m1[b].0 == m0[b].0);
                        assert(m0[a].0@ != m0[b].0@);
                    }
                    let target = members_map(m0).insert(username@, now as int);
                    assert forall|k: Seq<char>| has_member(m1, k) <==> target.contains_key(k) by {
                        if has_member(m1, k) {
                            let j = choose|j: int| 0 <= j < m1.len() && #[trigger] m1[j].0@ == k;
                            assert(m0[j].0@ == k);
                            assert(has_member(m0, k));
                        }
                        if target.contains_key(k) {
                            if k == username@ {
                                assert(m1[i as int].0@ == k);
                            } else {
                                let j = choose|j: int| 0 <= j < m0.len() && #[trigger] m0[j].0@ == k;
                                assert(m1[j].0@ == k);
                            }
                        }
                    }
                    assert forall|j: int| 0 <= j < m1.len() implies #[trigger] target[m1[j].0@]
                        == m1[j].1 as int by {
                        if j != i as int {
                            lemma_member_value(m0, j);
                            assert(m0[j].0@ != m0[i as int].0@);
                        }
                    }
                    lemma_map_ext(m0, m1, target);
                }
                return;
            }
            i += 1;
        }
        self.members.push((copy_str(username), now));
        proof {
            let m1 = self.members@;
            assert(m1.len() == m0.len() + 1);
            assert(m1[m0.len() as int].0@ == username@);
            assert forall|a: int, b: int| 0 <= a < b < m1.len() implies #[trigger] m1[a].0@
                != #[trigger] m1[b].0@ by {
                if b < m0.len() {
                    assert(m1[a] == m0[a] && m1[b] == m0[b]);
                } else {
                    assert(m1[a] == m0[a]);
                }
            }
            let target = members_map(m0).insert(username@, now as int);
            assert forall|k: Seq<char>| has_member(m1, k) <==> target.contains_key(k) by {
                if has_member(m1, k) {
                    let j = choose|j: int| 0 <= j < m1.len() && #[trigger] m1[j].0@ == k;
                    if j < m0.len() {
                        assert(m0[j].0@ == k);
                    }
                }
                if target.contains_key(k) && k != username@ {
                    let j = choose|j: int| 0 <= j < m0.len() && #[trigger] m0[j].0@ == k;
                    assert(m1[j].0@ == k);
                }
                if k == username@ {
                    assert(m1[m0.len() as int].0@ == k);
                }
            }
            assert forall|j: int| 0 <= j < m1.len() implies #[trigger] target[m1[j].0@]
                == m1[j].1 as int by {
                if j < m0.len() {
                    lemma_member_value(m0, j);
                    assert(m1[j] == m0[j]);
                }
            }
            lemma_map_ext(m0, m1, target);
        }
    }

    /// Drop `username` from the room; true when nobody is left.
    pub fn remove_member(&mut self, username: &str) -> (empty: bool)
        requires
            old(self).wf(),
        ensures
            final(self).wf(),
            members_map(final(self).members@) == members_map(old(self).members@).remove(
                username@,
            ),
            empty == (final(self).members@.len() == 0),
            final(self).same_playback(&old(self)),
            final(self).code == old(self).code,
            final(self).host == old(self).host,
            final(self).events == old(self).events,
            final(self).rev == old(self).rev,
    {
        let ghost m0 = self.members@;
        let mut i: usize = 0;
        while i < self.members.len()
            invariant
                i <= self.members@.len(),
                *self == *old(self),
                m0 == old(self).members@,
                old(self).wf(),
                forall|k: int| 0 <= k < i ==> #[trigger] m0[k].0@ != username@,
            decreases self.members@.len() - i,
        {
            if str_eq(self.members[i].0.as_str(), username) {
                self.members.remove(i);
                proof {
                    let m1 = self.members@;
                    assert(m1 == m0.remove(i as int));
                    assert forall|a: int, b: int| 0 <= a < b < m1.len() implies #[trigger] m1[a].0@
                        != #[trigger] m1[b].0@ by {
                        let a0 = if a < i { a } else { a + 1 };
                        let b0 = if b < i { b } else { b + 1 };
                        assert(m1[a] == m0[a0] && m1[b] == m0[b0]);
                        assert(m0[a0].0@ != m0[b0].0@);
                    }
                    let target = members_map(m0).remove(username@);
                    assert forall|k: Seq<char>| has_member(m1, k) <==> target.contains_key(k) by {
                        if has_member(m1, k) {
                            let j = choose|j: int| 0 <= j < m1.len() && #[trigger] m1[j].0@ == k;
                            let j0 = if j < i { j } else { j + 1 };
                            assert(m0[j0].0@ == k);
                            assert(j0 != i);
                            if k == username@ {
                                if j0 < i {
                                    assert(m0[j0].0@ != m0[i as int].0@);
                                } else {
                                    assert(m0[i as int].0@ != m0[j0].0@);
                                }
                            }
                        }
                        if target.contains_key(k) {
                            let j = choose|j: int| 0 <= j < m0.len() && #[trigger] m0[j].0@ == k;
                            assert(j != i);
                            let j1 = if j < i { j } else { j - 1 };
                            assert(m1[j1].0@ == k);
                        }
                    }
                    assert forall|j: int| 0 <= j < m1.len() implies #[trigger] target[m1[j].0@]
                        == m1[j].1 as int by {
                        let j0 = if j < i { j } else { j + 1 };
                        assert(m1[j] == m0[j0]);
                        lemma_member_value(m0, j0);
                    }
                    lemma_map_ext(m0, m1, target);
                }
                return self.members.len() == 0;
            }
            i += 1;
        }
        proof {
            assert(!members_map(m0).contains_key(username@));
            assert(members_map(m0).remove(username@) =~= members_map(m0));
        }
        self.members.len() == 0
    }
}


// ------------------------------------------------------------ events

impl ListenSession {
    /// Record a chat line or reaction: its text cut to `EVENT_TEXT_LIMIT`
    /// characters, the next id, and the oldest event dropped once the history
    /// is over `EVENT_HISTORY`.
    pub fn push_event(&mut self, username: &str, kind: &str, text: &str, now: i64)
        requires
            old(self).wf(),
            next_event_id(old(self).events@) <= i64::MAX,
        ensures
            final(self).wf(),
            events_view(final(self).events@) == events_after_push(
                old(self).events@,
                username@,
                kind@,
                text@,
                now as int,
            ),
            final(self).same_playback(&old(self)),
            final(self).same_room(&old(self)),
            final(self).rev == old(self).rev,
    {
        let ghost e0 = self.events@;
        let tc = chars_of(text);
        let n: usize = if tc.len() <= EVENT_TEXT_LIMIT {
            tc.len()
        } else {
            EVENT_TEXT_LIMIT
        };
        let cut = string_of(slice_chars(tc.as_slice(), 0, n).as_slice());
        assert(cut@ =~= take_chars(text@, EVENT_TEXT_LIMIT as nat));
        let id: i64 = if self.events.len() == 0 {
            1
        } else {
            self.events[self.events.len() - 1].id + 1
        };
        assert(id == next_event_id(e0));
        let event = ListenEvent {
            id,
            username: copy_str(username),
            kind: copy_str(kind),
            text: cut,
            at_ms: now,
        };
        self.events.push(event);
        proof {
            let pushed = events_view(e0).push(
                (next_event_id(e0), username@, kind@, take_chars(text@, EVENT_TEXT_LIMIT as nat), now as int),
            );
            assert(events_view(self.events@) =~= pushed);
            assert forall|i: int, j: int|
                0 <= i < j < self.events@.len() implies #[trigger] self.events@[i].id
                    < #[trigger] self.events@[j].id by {
                if j == e0.len() {
                    assert(self.events@[i] == e0[i]);
                    if i < e0.len() - 1 {
                        assert(e0[i].id < e0[e0.len() - 1].id);
                    }
                }
            }
        }
        if self.events.len() > EVENT_HISTORY {
            let ghost e1 = self.events@;
            self.events.remove(0);
            proof {
                assert(self.events@ =~= e1.drop_first());
                assert(events_view(self.events@) =~= events_view(e1).drop_first());
                assert forall|i: int, j: int|
                    0 <= i < j < self.events@.len() implies #[trigger] self.events@[i].id
                        < #[trigger] self.events@[j].id by {
                    assert(self.events@[i] == e1[i + 1] && self.events@[j] == e1[j + 1]);
                }
                assert forall|i: int| 0 <= i < self.events@.len() implies #[trigger] self.events@[i].text@.len()
                    <= EVENT_TEXT_LIMIT by {
                    assert(self.events@[i] == e1[i + 1]);
                }
            }
        }
    }
}


// ---------------------------------------------------------- commands

/// The queue and timeline restart on `tracks`, at `index`, playing from 0.
pub open spec fn restarted(n: ListenSession, tracks: Vec<ListenTrack>, index: int, now: int) -> bool {
    &&& n.tracks == tracks
    &&& n.index == index
    &&& n.anchor_pos_ms == 0
    &&& n.anchor_ts_ms == now
    &&& n.is_playing
}

/// The timeline is re-anchored at `pos` and `now`, on the same queue and
/// track.
pub open spec fn reanchored(o: ListenSession, n: ListenSession, pos: int, now: int) -> bool {
    &&& n.tracks == o.tracks
    &&& n.index == o.index
    &&& n.anchor_pos_ms == pos
    &&& n.anchor_ts_ms == now
}

/// What a command does to the playback fields and the event history.
pub open spec fn command_effect(
    o: ListenSession,
    n: ListenSession,
    cmd: ListenCommand,
    user: Seq<char>,
    now: int,
) -> bool {
    let events_kept = n.events == o.events;
    match cmd {
        ListenCommand::Play { tracks, start_index } => events_kept && if tracks@.len() > 0 {
            restarted(
                n,
                tracks,
                if start_index < tracks@.len() {
                    start_index as int
                } else {
                    tracks@.len() - 1
                },
                now,
            )
        } else {
            n.same_playback(&o)
        },
        ListenCommand::Wave { tracks } => events_kept && if tracks is Some && tracks.unwrap()@.len()
            > 0 {
            restarted(n, tracks.unwrap(), 0, now)
        } else {
            n.same_playback(&o)
        },
        ListenCommand::Pause => events_kept && reanchored(o, n, o.live_pos(now), now)
            && !n.is_playing,
        ListenCommand::Resume => events_kept && reanchored(o, n, o.anchor_pos_ms as int, now)
            && n.is_playing,
        ListenCommand::Seek { position_ms } => events_kept && match position_ms {
            Some(p) => reanchored(o, n, if p < 0 {
                0
            } else {
                p as int
            }, now) && n.is_playing == o.is_playing,
            None => n.same_playback(&o),
        },
        ListenCommand::Next => events_kept && if o.index + 1 < o.tracks@.len() {
            restarted(n, o.tracks, o.index + 1, now)
        } else {
            &&& n.tracks == o.tracks
            &&& n.index == o.index
            &&& n.anchor_pos_ms == o.anchor_pos_ms
            &&& n.anchor_ts_ms == o.anchor_ts_ms
            &&& !n.is_playing
        },
        ListenCommand::Prev => events_kept && if o.live_pos(now) > PREV_RESTART_MS {
            reanchored(o, n, 0, now) && n.is_playing == o.is_playing
        } else if o.index > 0 {
            restarted(n, o.tracks, o.index - 1, now)
        } else {
            reanchored(o, n, 0, now) && n.is_playing == o.is_playing
        },
        ListenCommand::Reaction { emoji } => n.same_playback(&o) && match emoji {
            Some(t) => events_view(n.events@) == events_after_push(
                o.events@,
                user,
                "reaction"@,
                t@,
                now,
            ),
            None => events_kept,
        },
        ListenCommand::Chat { text } => n.same_playback(&o) && match text {
            Some(t) => if trim(t@).len() > 0 {
                events_view(n.events@) == events_after_push(o.events@, user, "chat"@, trim(t@), now)
            } else {
                events_kept
            },
            None => events_kept,
        },
        ListenCommand::Unknown => n.same_playback(&o) && events_kept,
    }
}

/// What a command needs of the room for its arithmetic to fit: the timeline
/// for `pause` and `prev`, a next event id for chat and reactions.
pub open spec fn command_fits(s: ListenSession, cmd: ListenCommand, now: int) -> bool {
    match cmd {
        ListenCommand::Pause => s.clock_fits(now),
        ListenCommand::Prev => s.clock_fits(now),
        ListenCommand::Reaction { .. } => next_event_id(s.events@) <= i64::MAX,
        ListenCommand::Chat { .. } => next_event_id(s.events@) <= i64::MAX,
        _ => true,
    }
}

impl ListenSession {
    /// Whether `cmd` at `now` stays within the arithmetic the room can hold
    /// (see `command_fits`).
    pub fn fits_command(&self, cmd: &ListenCommand, now: i64) -> (r: bool)
        ensures
            r == command_fits(*self, *cmd, now as int),
    {
        match cmd {
            ListenCommand::Pause => self.fits_clock(now),
            ListenCommand::Prev => self.fits_clock(now),
            ListenCommand::Reaction { .. } => self.events.len() == 0 || self.events[self.events.len()
                - 1].id < i64::MAX,
            ListenCommand::Chat { .. } => self.events.len() == 0 || self.events[self.events.len()
                - 1].id < i64::MAX,
            _ => true,
        }
    }

    /// Apply a member's command at server time `now`, then bump the
    /// revision.
    pub fn apply_command(&mut self, cmd: ListenCommand, username: &str, now: i64)
        requires
            old(self).wf(),
            old(self).rev < i64::MAX,
            command_fits(*old(self), cmd, now as int),
        ensures
            final(self).wf(),
            final(self).rev == old(self).rev + 1,
            final(self).same_room(&old(self)),
            command_effect(*old(self), *final(self), cmd, username@, now as int),
    {
        let ghost cmd0 = cmd;
        match cmd {
            ListenCommand::Play { tracks, start_index } => {
                if tracks.len() > 0 {
                    self.index = if start_index < tracks.len() {
                        start_index
                    } else {
                        tracks.len() - 1
                    };
                    self.tracks = tracks;
                    self.anchor_pos_ms = 0;
                    self.anchor_ts_ms = now;
                    self.is_playing = true;
                }
            },
            ListenCommand::Wave { tracks } => {
                if let Some(tracks) = tracks {
                    if tracks.len() > 0 {
                        self.tracks = tracks;
                        self.index = 0;
                        self.anchor_pos_ms = 0;
                        self.anchor_ts_ms = now;
                        self.is_playing = true;
                    }
                }
            },
            ListenCommand::Pause => {
                self.anchor_pos_ms = self.live_pos_ms(now);
                self.anchor_ts_ms = now;
                self.is_playing = false;
            },
            ListenCommand::Resume => {
                self.anchor_ts_ms = now;
                self.is_playing = true;
            },
            ListenCommand::Seek { position_ms } => {
                if let Some(p) = position_ms {
                    self.anchor_pos_ms = if p < 0 {
                        0
                    } else {
                        p
                    };
                    self.anchor_ts_ms = now;
                }
            },
            ListenCommand::Next => {
                if self.tracks.len() > 0 && self.index < self.tracks.len() - 1 {
                    self.index = self.index + 1;
                    self.anchor_pos_ms = 0;
                    self.anchor_ts_ms = now;
                    self.is_playing = true;
                } else {
                    self.is_playing = false;
                }
            },
            ListenCommand::Prev => {
                if self.live_pos_ms(now) > PREV_RESTART_MS {
                    self.anchor_pos_ms = 0;
                    self.anchor_ts_ms = now;
                } else if self.index > 0 {
                    self.index = self.index - 1;
                    self.anchor_pos_ms = 0;
                    self.anchor_ts_ms = now;
                    self.is_playing = true;
                } else {
                    self.anchor_pos_ms = 0;
                    self.anchor_ts_ms = now;
                }
            },
            ListenCommand::Reaction { emoji } => {
                if let Some(text) = emoji {
                    self.push_event(username, "reaction", text.as_str(), now);
                }
            },
            ListenCommand::Chat { text } => {
                if let Some(text) = text {
                    let t = crate::text::trim_str(text.as_str());
                    let tc = chars_of(t.as_str());
                    if tc.len() > 0 {
                        self.push_event(username, "chat", t.as_str(), now);
                    }
                }
            },
            ListenCommand::Unknown => {},
        }
        self.rev = self.rev + 1;
    }
}


/// Pausing freezes the timeline where it stood: after a pause at `now`, the
/// room reports the position it had at `now` at every later time, on the
/// same track.
pub proof fn law_pause_freezes_position(
    o: ListenSession,
    n: ListenSession,
    user: Seq<char>,
    now: int,
    later: int,
)
    requires
        command_effect(o, n, ListenCommand::Pause, user, now),
    ensures
        n.live_pos(later) == o.live_pos(now),
        n.index == o.index,
        n.tracks == o.tracks,
{
}

/// Pause then resume continues where playback was paused: after a pause at
/// `paused_at` and a resume at `resumed_at`, the position at any time `t`
/// is the paused position plus the time played since the resume.
pub proof fn law_resume_continues_from_pause(
    o: ListenSession,
    p: ListenSession,
    r: ListenSession,
    u1: Seq<char>,
    u2: Seq<char>,
    paused_at: int,
    resumed_at: int,
    t: int,
)
    requires
        command_effect(o, p, ListenCommand::Pause, u1, paused_at),
        command_effect(p, r, ListenCommand::Resume, u2, resumed_at),
    ensures
        r.is_playing,
        r.live_pos(t) == o.live_pos(paused_at) + (t - resumed_at),
        r.index == o.index,
        r.tracks == o.tracks,
{
}

/// `prev` restarts a track that has played more than three seconds and
/// otherwise steps back: for any room and time, when more than 3000 ms of
/// the current track have played it stays on that track and its position
/// right after is 0; otherwise, past the first track, the previous track
/// plays from 0, and on the first track that track starts over at 0.
pub proof fn law_prev_restarts_or_steps_back(o: ListenSession, n: ListenSession, user: Seq<char>, now: int)
    requires
        command_effect(o, n, ListenCommand::Prev, user, now),
    ensures
        n.tracks == o.tracks,
        n.live_pos(now) == 0,
        o.live_pos(now) > 3000 ==> n.index == o.index && n.is_playing == o.is_playing,
        o.live_pos(now) <= 3000 && o.index > 0 ==> n.index == o.index - 1 && n.is_playing,
        o.live_pos(now) <= 3000 && o.index == 0 ==> n.index == 0,
{
}

/// A seek moves the timeline to the requested position (negative ones to
/// the start) as of the moment it is made, keeping the track and whether
/// it plays.
pub proof fn law_seek_sets_position(
    o: ListenSession,
    n: ListenSession,
    user: Seq<char>,
    p: i64,
    now: int,
)
    requires
        command_effect(o, n, ListenCommand::Seek { position_ms: Some(p) }, user, now),
    ensures
        n.live_pos(now) == if p < 0 {
            0
        } else {
            p as int
        },
        n.index == o.index,
        n.is_playing == o.is_playing,
{
}

/// Joining and then leaving leaves the membership as if the member had
/// simply left: whatever the member's earlier presence, they are gone and
/// everyone else is as before.
pub proof fn law_join_then_leave(
    m0: Seq<(String, i64)>,
    m1: Seq<(String, i64)>,
    m2: Seq<(String, i64)>,
    user: Seq<char>,
    now: int,
)
    requires
        members_map(m1) == members_map(m0).insert(user, now),
        members_map(m2) == members_map(m1).remove(user),
    ensures
        members_map(m2) == members_map(m0).remove(user),
        !members_map(m2).contains_key(user),
{
    assert(members_map(m0).insert(user, now).remove(user) =~= members_map(m0).remove(user));
}

// ------------------------------------------------- presence and sweeping

/// The members still present at `now`: those seen within the TTL.
pub open spec fn fresh_members(m: Map<Seq<char>, int>, now: int) -> Map<Seq<char>, int> {
    Map::new(|k: Seq<char>| m.contains_key(k) && now - m[k] <= LISTEN_MEMBER_TTL_MS, |k: Seq<char>| m[k])
}

/// What the sweeper does to the timeline: when the room still has members
/// and the current track has played past its duration, move to the next
/// track (anchored where the last one ended) or stop at its end.
pub open spec fn sweep_effect(o: ListenSession, n: ListenSession, empty: bool, now: int) -> bool {
    let due = !empty && o.is_playing && o.current_duration() is Some
        && o.current_duration().unwrap() > 0 && o.live_pos(now) >= o.current_duration().unwrap();
    let d = o.current_duration().unwrap() as int;
    if due {
        &&& n.rev == o.rev + 1
        &&& n.tracks == o.tracks
        &&& if o.index + 1 < o.tracks@.len() {
            &&& n.index == o.index + 1
            &&& n.anchor_pos_ms == 0
            &&& n.anchor_ts_ms == o.anchor_ts_ms + d
            &&& n.is_playing == o.is_playing
        } else {
            &&& n.index == o.index
            &&& !n.is_playing
            &&& n.anchor_pos_ms == d
            &&& n.anchor_ts_ms == o.anchor_ts_ms
        }
    } else {
        n.same_playback(&o) && n.rev == o.rev
    }
}


pub open spec fn seen_within_ttl(now: int) -> spec_fn((String, i64)) -> bool {
    |e: (String, i64)| now - e.1 <= LISTEN_MEMBER_TTL_MS
}

proof fn lemma_fresh_filter(m: Seq<(String, i64)>, now: int)
    requires
        names_unique(m),
        names_unique(m.filter(seen_within_ttl(now))),
    ensures
        members_map(m.filter(seen_within_ttl(now))) == fresh_members(members_map(m), now),
{
    let f = m.filter(seen_within_ttl(now));
    let target = fresh_members(members_map(m), now);
    assert forall|k: Seq<char>| has_member(f, k) <==> target.contains_key(k) by {
        if has_member(f, k) {
            let j = choose|j: int| 0 <= j < f.len() && #[trigger] f[j].0@ == k;
            m.lemma_filter_pred(seen_within_ttl(now), j);
            assert(f.contains(f[j]));
            m.lemma_filter_contains_rev(seen_within_ttl(now), f[j]);
            let a = choose|a: int| 0 <= a < m.len() && m[a] == f[j];
            lemma_member_value(m, a);
        }
        if target.contains_key(k) {
            let a = choose|a: int| 0 <= a < m.len() && #[trigger] m[a].0@ == k;
            lemma_member_value(m, a);
            m.lemma_filter_contains(seen_within_ttl(now), a);
            let j = choose|j: int| 0 <= j < f.len() && f[j] == m[a];
            assert(f[j].0@ == k);
        }
    }
    assert forall|j: int| 0 <= j < f.len() implies #[trigger] target[f[j].0@] == f[j].1 as int by {
        m.lemma_filter_pred(seen_within_ttl(now), j);
        assert(f.contains(f[j]));
        m.lemma_filter_contains_rev(seen_within_ttl(now), f[j]);
        let a = choose|a: int| 0 <= a < m.len() && m[a] == f[j];
        lemma_member_value(m, a);
    }
    lemma_map_ext(m, f, target);
}

/// The members seen within the TTL at `now`, in their order.
fn fresh_member_list(m: &Vec<(String, i64)>, now: i64) -> (kept: Vec<(String, i64)>)
    requires
        names_unique(m@),
        forall|k: int| 0 <= k < m@.len() ==> #[trigger] m@[k].1 >= 0,
        now >= 0,
    ensures
        names_unique(kept@),
        forall|k: int| 0 <= k < kept@.len() ==> #[trigger] kept@[k].1 >= 0,
        members_map(kept@) == fresh_members(members_map(m@), now as int),
{
    let ghost pred = seen_within_ttl(now as int);
    let mut kept: Vec<(String, i64)> = Vec::new();
    let mut i: usize = 0;
    while i < m.len()
        invariant
            i <= m@.len(),
            now >= 0,
            names_unique(m@),
            pred == seen_within_ttl(now as int),
            kept@ == m@.take(i as int).filter(pred),
            names_unique(kept@),
            forall|j: int| 0 <= j < kept@.len() ==> #[trigger] kept@[j].1 >= 0,
            forall|k: int| 0 <= k < m@.len() ==> #[trigger] m@[k].1 >= 0,
        decreases m@.len() - i,
    {
        let ghost before = kept@;
        proof {
            assert(m@.take(i + 1) =~= m@.take(i as int).push(m@[i as int]));
            m@.take(i as int).lemma_filter_push(m@[i as int], pred);
        }
        let last = m[i].1;
        if now - last <= LISTEN_MEMBER_TTL_MS {
            let name = m[i].0.clone();
            kept.push((name, last));
            proof {
                assert(kept@[before.len() as int] == m@[i as int]);
                assert forall|a: int, b: int| 0 <= a < b < kept@.len() implies #[trigger] kept@[a].0@
                    != #[trigger] kept@[b].0@ by {
                    if b == before.len() {
                        assert(kept@[a] == before[a]);
                        assert(before.contains(before[a]));
                        m@.take(i as int).lemma_filter_contains_rev(pred, before[a]);
                        let c = choose|c: int| 0 <= c < i && m@.take(i as int)[c] == before[a];
                        assert(m@[c] == before[a]);
                        assert(m@[c].0@ != m@[i as int].0@);
                    } else {
                        assert(kept@[a] == before[a] && kept@[b] == before[b]);
                    }
                }
            }
        }
        i += 1;
    }
    proof {
        assert(m@.take(m@.len() as int) =~= m@);
        lemma_fresh_filter(m@, now as int);
    }
    kept
}

impl ListenSession {
    /// A member joins (or rejoins): seen `now`, revision bumped.
    pub fn join(&mut self, username: &str, now: i64)
        requires
            old(self).wf(),
            now >= 0,
            old(self).rev < i64::MAX,
        ensures
            final(self).wf(),
            members_map(final(self).members@) == members_map(old(self).members@).insert(
                username@,
                now as int,
            ),
            final(self).same_playback(&old(self)),
            final(self).events == old(self).events,
            final(self).rev == old(self).rev + 1,
    {
        self.touch_member(username, now);
        self.rev = self.rev + 1;
    }

    /// A member leaves, revision bumped; true when the room is now empty.
    pub fn leave(&mut self, username: &str) -> (empty: bool)
        requires
            old(self).wf(),
            old(self).rev < i64::MAX,
        ensures
            final(self).wf(),
            members_map(final(self).members@) == members_map(old(self).members@).remove(
                username@,
            ),
            empty == (final(self).members@.len() == 0),
            final(self).same_playback(&old(self)),
            final(self).events == old(self).events,
            final(self).rev == old(self).rev + 1,
    {
        let empty = self.remove_member(username);
        self.rev = self.rev + 1;
        empty
    }

    /// Whether the room changed after revision `since`.
    pub fn changed_since(&self, since: i64) -> (r: bool)
        ensures
            r == (self.rev > since),
    {
        self.rev > since
    }

    /// One sweeper tick at `now`: forget members not seen within the TTL,
    /// then advance a finished track. Returns whether the timeline changed
    /// and whether the room is empty.
    pub fn sweep(&mut self, now: i64) -> (r: (bool, bool))
        requires
            old(self).wf(),
            now >= 0,
            old(self).rev < i64::MAX,
            old(self).is_playing ==> old(self).clock_fits(now as int),
        ensures
            final(self).wf(),
            members_map(final(self).members@) == fresh_members(
                members_map(old(self).members@),
                now as int,
            ),
            r.1 == (final(self).members@.len() == 0),
            sweep_effect(*old(self), *final(self), r.1, now as int),
            r.0 == (final(self).rev != old(self).rev),
            final(self).events == old(self).events,
            final(self).code == old(self).code,
            final(self).host == old(self).host,
    {
        self.members = fresh_member_list(&self.members, now);
        let empty = self.members.len() == 0;
        let mut changed = false;
        if !empty && self.is_playing && self.index < self.tracks.len() {
            if let Some(dur) = self.tracks[self.index].duration_ms {
                if dur > 0 && self.live_pos_ms(now) >= dur {
                    if self.tracks.len() > 0 && self.index < self.tracks.len() - 1 {
                        self.index = self.index + 1;
                        self.anchor_pos_ms = 0;
                        self.anchor_ts_ms = self.anchor_ts_ms + dur;
                    } else {
                        self.is_playing = false;
                        self.anchor_pos_ms = dur;
                    }
                    self.rev = self.rev + 1;
                    changed = true;
                }
            }
        }
        (changed, empty)
    }

    /// The room as clients see it: member names, the current track, the
    /// rest of the queue after it, and the newest `SNAPSHOT_EVENTS` events,
    /// oldest first.
    pub fn snapshot(&self) -> (r: ListenSnapshot)
        requires
            self.wf(),
        ensures
            r.code == self.code,
            r.host == self.host,
            r.members@.len() == self.members@.len(),
            forall|i: int| 0 <= i < r.members@.len() ==> #[trigger] r.members@[i] == self.members@[i].0,
            self.index < self.tracks@.len() ==> r.track == Some(self.tracks@[self.index as int]),
            self.index >= self.tracks@.len() ==> r.track is None,
            r.queue@ == (if self.index + 1 <= self.tracks@.len() {
                self.tracks@.subrange(self.index + 1, self.tracks@.len() as int)
            } else {
                Seq::<ListenTrack>::empty()
            }),
            r.events@ == (if self.events@.len() > SNAPSHOT_EVENTS {
                self.events@.subrange(
                    self.events@.len() - SNAPSHOT_EVENTS,
                    self.events@.len() as int,
                )
            } else {
                self.events@
            }),
            r.anchor_pos_ms == self.anchor_pos_ms,
            r.anchor_ts_ms == self.anchor_ts_ms,
            r.is_playing == self.is_playing,
            r.rev == self.rev,
    {
        let mut members: Vec<String> = Vec::new();
        let mut i: usize = 0;
        while i < self.members.len()
            invariant
                i <= self.members@.len(),
                members@.len() == i,
                forall|k: int| 0 <= k < i ==> #[trigger] members@[k] == self.members@[k].0,
            decreases self.members@.len() - i,
        {
            members.push(self.members[i].0.clone());
            i += 1;
        }
        let track = match self.current() {
            Some(t) => Some(copy_track(t)),
            None => None,
        };
        let mut queue: Vec<ListenTrack> = Vec::new();
        if self.index < self.tracks.len() {
            let mut q: usize = self.index + 1;
            while q < self.tracks.len()
                invariant
                    self.index + 1 <= q <= self.tracks@.len(),
                    queue@ == self.tracks@.subrange(self.index + 1, q as int),
                decreases self.tracks@.len() - q,
            {
                queue.push(copy_track(&self.tracks[q]));
                proof {
                    assert(queue@ =~= self.tracks@.subrange(self.index + 1, q + 1));
                }
                q += 1;
            }
        } else {
            proof {
                assert(queue@ =~= Seq::<ListenTrack>::empty());
            }
        }
        let from: usize = if self.events.len() > SNAPSHOT_EVENTS {
            self.events.len() - SNAPSHOT_EVENTS
        } else {
            0
        };
        let mut events: Vec<ListenEvent> = Vec::new();
        let mut e: usize = from;
        while e < self.events.len()
            invariant
                from <= e <= self.events@.len(),
                events@ == self.events@.subrange(from as int, e as int),
            decreases self.events@.len() - e,
        {
            events.push(copy_event(&self.events[e]));
            proof {
                assert(events@ =~= self.events@.subrange(from as int, e + 1));
            }
            e += 1;
        }
        proof {
            if self.events@.len() <= SNAPSHOT_EVENTS {
                assert(events@ =~= self.events@);
            }
        }
        ListenSnapshot {
            code: self.code.clone(),
            host: self.host.clone(),
            members,
            track,
            queue,
            events,
            anchor_pos_ms: self.anchor_pos_ms,
            anchor_ts_ms: self.anchor_ts_ms,
            is_playing: self.is_playing,
            rev: self.rev,
        }
    }
}


// ------------------------------------------------------------ room codes

pub open spec fn upper_hex_digit(d: nat) -> char {
    if d < 10 {
        (48 + d) as char
    } else {
        (55 + d) as char
    }
}

/// `n` as `width` uppercase hex digits, most significant first.
pub open spec fn upper_hex(n: nat, width: nat) -> Seq<char>
    decreases width,
{
    if width == 0 {
        Seq::empty()
    } else {
        upper_hex(n / 16, (width - 1) as nat).push(upper_hex_digit(n % 16))
    }
}

fn upper_hex_exec(n: u64, width: usize) -> (r: Vec<char>)
    ensures
        r@ == upper_hex(n as nat, width as nat),
    decreases width,
{
    if width == 0 {
        Vec::new()
    } else {
        let mut v = upper_hex_exec(n / 16, width - 1);
        let d = n % 16;
        let c = if d < 10 {
            crate::text::digit_char(d as u32)
        } else {
            crate::text::char_from_ascii((55 + d) as u32)
        };
        v.push(c);
        v
    }
}

/// Six uppercase hex digits: the leading 24 bits of a random v4 UUID.
pub fn new_listen_code() -> (r: String)
    ensures
        exists|n: nat| n < 0x1000000 && r@ == upper_hex(n, 6),
{
    let u = crate::vtrack::random_u128();
    let top = u / 0x100000000000000000000000000u128;
    assert(top < 0x1000000) by (nonlinear_arith)
        requires
            top == u / 0x100000000000000000000000000u128,
            u < 0x100000000000000000000000000000000int,
    ;
    let v = upper_hex_exec(top as u64, 6);
    string_of(v.as_slice())
}

/// A room code as a member typed it: trimmed and uppercased.
pub fn normalize_room_code(raw: &str) -> (r: String)
    ensures
        r@ == crate::text::uppercased(trim(raw@)),
{
    let t = crate::text::trim_str(raw);
    crate::text::uppercase(t.as_str())
}

/// A room code from a query parameter: uppercased, empty when absent.
pub fn room_code_param(raw: Option<&str>) -> (r: String)
    ensures
        r@ == crate::text::uppercased(
            match raw {
                Some(c) => c@,
                None => Seq::<char>::empty(),
            },
        ),
{
    match raw {
        Some(c) => crate::text::uppercase(c),
        None => {
            let e = String::new();
            crate::text::uppercase(e.as_str())
        },
    }
}

} // verus!
