//! The synthetic discovery playlist: its summary, its JSON forms, how it
//! joins a `getPlaylists` answer, and when a cached list is used up.
use vstd::prelude::*;

use crate::json::{find_member, first_member, items_view, jview, lemma_first_member, lemma_jview_array, lemma_jview_object, lemma_members_view_remove, lemma_replace_member, member_or, members_view, push_member, put_member, with_member, Json, JsonView};
use crate::recs::{song_key, song_key_spec, ListenSeed};
use crate::similar::SeedTrack;
use crate::subsonic::{song_entry_view, songs_xml, write_songs_xml, SongEntry};
use crate::xml::{attr_text, inject_events, injected_text, push_attr, read_events, write_event, written, xml_read, MalformedXml, XmlKind};
use crate::text::{chars_of, copy_str, decimal, extend_chars, i64_decimal, signed_decimal, str_eq, string_of, u64_decimal};

verus! {

pub const DISCOVERY_ID: &'static str = "songarr_discovery";

pub const DISCOVERY_NAME: &'static str = "Songarr Discovery";

/// A generated discovery list is reused for this long.
pub const DISCOVERY_TTL_HOURS: u32 = 144;

/// Seeds give at most this many songs each.
pub const DISCOVERY_PER_SEED: usize = 6;

/// The discovery playlist as listed: its owner, size, total length and
/// last change.
#[derive(Debug, Clone)]
pub struct PlaylistSummary {
    pub owner: String,
    pub song_count: usize,
    pub duration: i64,
    pub changed: String,
}

/// The total of the known durations.
pub open spec fn durations_total(entries: Seq<SongEntry>) -> int
    decreases entries.len(),
{
    if entries.len() == 0 {
        0
    } else {
        durations_total(entries.drop_last()) + match entries.last().duration_secs {
            Some(d) => d as int,
            None => 0,
        }
    }
}

/// Every running total of the durations fits in `i64`.
pub open spec fn totals_fit(entries: Seq<SongEntry>) -> bool {
    forall|k: int|
        0 <= k <= entries.len() ==> i64::MIN <= #[trigger] durations_total(entries.take(k)) <= i64::MAX
}

impl PlaylistSummary {
    /// The summary of `entries` for `username`, changed at `changed`.
    pub fn from_entries_at(username: &str, entries: &Vec<SongEntry>, changed: String) -> (r: PlaylistSummary)
        requires
            totals_fit(entries@),
        ensures
            r.owner@ == username@,
            r.song_count == entries@.len(),
            r.duration == durations_total(entries@),
            r.changed == changed,
    {
        let mut total: i64 = 0;
        let mut i: usize = 0;
        while i < entries.len()
            invariant
                i <= entries@.len(),
                totals_fit(entries@),
                total == durations_total(entries@.take(i as int)),
            decreases entries@.len() - i,
        {
            proof {
                assert(entries@.take(i + 1).drop_last() =~= entries@.take(i as int));
                assert(entries@.take(i + 1).last() == entries@[i as int]);
                assert(i64::MIN <= durations_total(entries@.take(i + 1)) <= i64::MAX);
            }
            match entries[i].duration_secs {
                Some(d) => {
                    total = total + d;
                },
                None => {},
            }
            i += 1;
        }
        assert(entries@.take(entries@.len() as int) =~= entries@);
        PlaylistSummary { owner: copy_str(username), song_count: entries.len(), duration: total, changed }
    }

    /// The summary of `entries` for `username`, changed now.
    pub fn from_entries(username: &str, entries: &Vec<SongEntry>) -> (r: PlaylistSummary)
        requires
            totals_fit(entries@),
        ensures
            r.owner@ == username@,
            r.song_count == entries@.len(),
            r.duration == durations_total(entries@),
    {
        let changed = crate::vtrack::now_utc();
        PlaylistSummary::from_entries_at(username, entries, changed)
    }

    /// An empty discovery playlist for `username`, changed now.
    pub fn empty(username: &str) -> (r: PlaylistSummary)
        ensures
            r.owner@ == username@,
            r.song_count == 0,
            r.duration == 0,
    {
        PlaylistSummary {
            owner: copy_str(username),
            song_count: 0,
            duration: 0,
            changed: crate::vtrack::now_utc(),
        }
    }
}

/// The playlist as a JSON `playlist` object.
pub open spec fn summary_view(s: PlaylistSummary) -> JsonView {
    JsonView::Object(
        seq![
            ("id"@, JsonView::Str(DISCOVERY_ID@)),
            ("name"@, JsonView::Str(DISCOVERY_NAME@)),
            ("owner"@, JsonView::Str(s.owner@)),
            ("public"@, JsonView::Bool(false)),
            ("songCount"@, JsonView::Number(decimal(s.song_count as nat))),
            ("duration"@, JsonView::Number(signed_decimal(s.duration as int))),
            ("created"@, JsonView::Str(s.changed@)),
            ("changed"@, JsonView::Str(s.changed@)),
            ("comment"@, JsonView::Str("Generated by Songarr from recent listens"@)),
        ],
    )
}

fn summary_members(s: &PlaylistSummary) -> (m: Vec<(String, Json)>)
    ensures
        JsonView::Object(members_view(m@)) == summary_view(*s),
{
    let mut m: Vec<(String, Json)> = Vec::new();
    assert(members_view(m@) =~= Seq::<(Seq<char>, JsonView)>::empty());
    push_member(&mut m, "id", Json::Str(copy_str(DISCOVERY_ID)));
    push_member(&mut m, "name", Json::Str(copy_str(DISCOVERY_NAME)));
    push_member(&mut m, "owner", Json::Str(s.owner.clone()));
    push_member(&mut m, "public", Json::Bool(false));
    push_member(&mut m, "songCount", Json::Number(string_of(u64_decimal(s.song_count as u64).as_slice())));
    push_member(&mut m, "duration", Json::Number(string_of(i64_decimal(s.duration).as_slice())));
    push_member(&mut m, "created", Json::Str(s.changed.clone()));
    push_member(&mut m, "changed", Json::Str(s.changed.clone()));
    push_member(&mut m, "comment", Json::Str(copy_str("Generated by Songarr from recent listens")));
    proof {
        assert(members_view(m@) =~= summary_view(*s)->Object_0);
    }
    m
}

impl PlaylistSummary {
    pub fn to_json(&self) -> (r: Json)
        ensures
            jview(r) == summary_view(*self),
    {
        let m = summary_members(self);
        proof {
            lemma_jview_object(m);
        }
        Json::Object(m)
    }
}

pub open spec fn entries_view(e: Seq<SongEntry>) -> Seq<JsonView> {
    Seq::new(e.len(), |i: int| song_entry_view(e[i]))
}

pub(crate) fn entries_json(entries: &Vec<SongEntry>) -> (r: Vec<Json>)
    ensures
        items_view(r@) == entries_view(entries@),
{
    let mut out: Vec<Json> = Vec::new();
    let mut i: usize = 0;
    while i < entries.len()
        invariant
            i <= entries@.len(),
            out@.len() == i,
            items_view(out@) == entries_view(entries@).take(i as int),
        decreases entries@.len() - i,
    {
        let j = entries[i].to_json();
        let ghost before = out@;
        out.push(j);
        proof {
            assert forall|k: int| 0 <= k <= i implies #[trigger] items_view(out@)[k] == entries_view(
                entries@,
            )[k] by {
                if k < i {
                    assert(out@[k] == before[k]);
                    assert(items_view(before)[k] == entries_view(entries@).take(i as int)[k]);
                }
            }
            assert(items_view(out@) =~= entries_view(entries@).take(i + 1));
        }
        i += 1;
    }
    assert(entries_view(entries@).take(entries@.len() as int) =~= entries_view(entries@));
    out
}

/// The `getPlaylist` answer for the discovery playlist: its summary with
/// the songs as `entry`.
pub fn playlist_json(summary: &PlaylistSummary, entries: &Vec<SongEntry>) -> (r: Json)
    ensures
        jview(r) == JsonView::Object(
            summary_view(*summary)->Object_0.push(("entry"@, JsonView::Array(entries_view(entries@)))),
        ),
{
    let mut m = summary_members(summary);
    let list = entries_json(entries);
    proof {
        lemma_jview_array(list);
    }
    push_member(&mut m, "entry", Json::Array(list));
    proof {
        lemma_jview_object(m);
    }
    Json::Object(m)
}

// ------------------------------------------------ getPlaylists answers

/// Why the discovery playlist could not join a JSON `getPlaylists` answer.
#[derive(Debug, Clone, Copy, PartialEq, Eq)]
pub enum PlaylistInjectError {
    MissingEnvelope,
    PlaylistsNotObject,
    PlaylistNotListOrObject,
}

impl PlaylistInjectError {
    pub fn message(&self) -> (r: &'static str)
        ensures
            *self == PlaylistInjectError::MissingEnvelope ==> r@ == "missing subsonic-response envelope"@,
            *self == PlaylistInjectError::PlaylistsNotObject ==> r@ == "playlists is not an object"@,
            *self == PlaylistInjectError::PlaylistNotListOrObject ==> r@
                == "playlist is not an array or object"@,
    {
        match self {
            PlaylistInjectError::MissingEnvelope => "missing subsonic-response envelope",
            PlaylistInjectError::PlaylistsNotObject => "playlists is not an object",
            PlaylistInjectError::PlaylistNotListOrObject => "playlist is not an array or object",
        }
    }
}

/// A listed playlist is the discovery playlist: its `id` is the discovery
/// id.
pub open spec fn is_discovery(p: JsonView) -> bool {
    match p {
        JsonView::Object(m) => member_or(m, "id"@, JsonView::Null) == JsonView::Str(DISCOVERY_ID@),
        _ => false,
    }
}

/// The listed playlists other than an earlier discovery playlist.
pub open spec fn without_discovery(items: Seq<JsonView>) -> Seq<JsonView>
    decreases items.len(),
{
    if items.len() == 0 {
        Seq::empty()
    } else if is_discovery(items.last()) {
        without_discovery(items.drop_last())
    } else {
        without_discovery(items.drop_last()).push(items.last())
    }
}

/// The playlist list with the discovery playlist added last: an earlier
/// one dropped, a single listed playlist turned into a list, a null one
/// replaced.
pub open spec fn new_playlist_list(list: JsonView, summary: JsonView) -> Option<Seq<JsonView>> {
    match list {
        JsonView::Array(items) => Some(without_discovery(items).push(summary)),
        JsonView::Object(_) => if is_discovery(list) {
            Some(seq![summary])
        } else {
            Some(seq![list, summary])
        },
        JsonView::Null => Some(seq![summary]),
        _ => None,
    }
}

/// A `getPlaylists` answer with the discovery playlist added (see
/// `new_playlist_list`); `playlists` and its `playlist` list are created
/// when missing.
pub open spec fn inject_playlist_spec(top: JsonView, summary: JsonView) -> Result<JsonView, PlaylistInjectError> {
    match top {
        JsonView::Object(tm) => match first_member(tm, "subsonic-response"@) {
            Some(ei) => match tm[ei].1 {
                JsonView::Object(em) => match member_or(em, "playlists"@, JsonView::Object(Seq::empty())) {
                    JsonView::Object(pm) => match new_playlist_list(
                        member_or(pm, "playlist"@, JsonView::Array(Seq::empty())),
                        summary,
                    ) {
                        Some(list) => Ok(
                            JsonView::Object(
                                tm.update(
                                    ei,
                                    (
                                        "subsonic-response"@,
                                        JsonView::Object(
                                            with_member(
                                                em,
                                                "playlists"@,
                                                JsonView::Object(with_member(pm, "playlist"@, JsonView::Array(list))),
                                            ),
                                        ),
                                    ),
                                ),
                            ),
                        ),
                        None => Err(PlaylistInjectError::PlaylistNotListOrObject),
                    },
                    _ => Err(PlaylistInjectError::PlaylistsNotObject),
                },
                _ => Err(PlaylistInjectError::MissingEnvelope),
            },
            None => Err(PlaylistInjectError::MissingEnvelope),
        },
        _ => Err(PlaylistInjectError::MissingEnvelope),
    }
}

pub open spec fn playlist_result_view(r: Result<Json, PlaylistInjectError>) -> Result<JsonView, PlaylistInjectError> {
    match r {
        Ok(v) => Ok(jview(v)),
        Err(e) => Err(e),
    }
}

fn is_discovery_exec(p: &Json) -> (r: bool)
    ensures
        r == is_discovery(jview(*p)),
{
    match p {
        Json::Object(m) => {
            proof {
                lemma_jview_object(*m);
                lemma_first_member(members_view(m@), "id"@);
            }
            match find_member(m, "id") {
                Some(i) => match &m[i].1 {
                    Json::Str(s) => {
                        proof {
                            reveal_strlit("songarr_discovery");
                        }
                        str_eq(s.as_str(), DISCOVERY_ID)
                    },
                    _ => false,
                },
                None => false,
            }
        },
        _ => false,
    }
}

fn drop_discovery(items: Vec<Json>) -> (r: Vec<Json>)
    ensures
        items_view(r@) == without_discovery(items_view(items@)),
{
    let ghost iv = items_view(items@);
    let mut rest = items;
    let mut out: Vec<Json> = Vec::new();
    let mut k: usize = 0;
    let n = rest.len();
    proof {
        assert(iv.take(0) =~= Seq::<JsonView>::empty());
        assert(items_view(out@) =~= Seq::<JsonView>::empty());
    }
    while rest.len() > 0
        invariant
            k + rest@.len() == n,
            n == iv.len(),
            items_view(rest@) == iv.subrange(k as int, n as int),
            items_view(out@) == without_discovery(iv.take(k as int)),
        decreases rest@.len(),
    {
        let ghost r0 = rest@;
        let x = rest.remove(0);
        proof {
            assert(rest@ =~= r0.drop_first());
            assert(x == r0[0]);
            assert(items_view(r0)[0] == jview(x));
            assert(iv[k as int] == jview(x));
            assert forall|j: int| 0 <= j < rest@.len() implies #[trigger] items_view(rest@)[j]
                == iv.subrange(k + 1, n as int)[j] by {
                assert(rest@[j] == r0[j + 1]);
                assert(items_view(r0)[j + 1] == iv.subrange(k as int, n as int)[j + 1]);
            }
            assert(items_view(rest@) =~= iv.subrange(k + 1, n as int));
            assert(iv.take(k + 1).drop_last() =~= iv.take(k as int));
            assert(iv.take(k + 1).last() == jview(x));
        }
        if !is_discovery_exec(&x) {
            let ghost before = out@;
            out.push(x);
            proof {
                assert(items_view(out@) =~= items_view(before).push(jview(x)));
            }
        }
        k += 1;
    }
    proof {
        assert(iv.take(n as int) =~= iv);
    }
    out
}

/// Add the discovery playlist to a JSON `getPlaylists` answer (see
/// `inject_playlist_spec`).
#[verifier::spinoff_prover]
#[verifier::rlimit(100)]
pub fn inject_playlist_json(value: Json, summary: &PlaylistSummary) -> (r: Result<Json, PlaylistInjectError>)
    ensures
        playlist_result_view(r) == inject_playlist_spec(jview(value), summary_view(*summary)),
{
    let sj = summary.to_json();
    let ghost sv = jview(sj);
    let mut top = match value {
        Json::Object(m) => m,
        _ => return Err(PlaylistInjectError::MissingEnvelope),
    };
    proof {
        lemma_jview_object(top);
    }
    let ghost tm = members_view(top@);
    proof {
        lemma_first_member(tm, "subsonic-response"@);
    }
    let ei = match find_member(&top, "subsonic-response") {
        Some(i) => i,
        None => return Err(PlaylistInjectError::MissingEnvelope),
    };
    proof {
        lemma_members_view_remove(top@, ei as int);
    }
    let (ek, env) = top.remove(ei);
    let mut em = match env {
        Json::Object(m) => m,
        _ => return Err(PlaylistInjectError::MissingEnvelope),
    };
    proof {
        lemma_jview_object(em);
    }
    let ghost emv = members_view(em@);
    proof {
        lemma_first_member(emv, "playlists"@);
    }
    let pi = find_member(&em, "playlists");
    let mut pm: Vec<(String, Json)> = match pi {
        Some(i) => {
            proof {
                lemma_members_view_remove(em@, i as int);
            }
            let (_, p) = em.remove(i);
            match p {
                Json::Object(m) => {
                    proof {
                        lemma_jview_object(m);
                    }
                    m
                },
                _ => return Err(PlaylistInjectError::PlaylistsNotObject),
            }
        },
        None => Vec::new(),
    };
    proof {
        assert(pi is None ==> members_view(pm@) =~= Seq::<(Seq<char>, JsonView)>::empty());
    }
    let ghost pmv = members_view(pm@);
    proof {
        lemma_first_member(pmv, "playlist"@);
    }
    let li = find_member(&pm, "playlist");
    let current: Json = match li {
        Some(i) => {
            proof {
                lemma_members_view_remove(pm@, i as int);
            }
            let (_, l) = pm.remove(i);
            l
        },
        None => {
            let e: Vec<Json> = Vec::new();
            proof {
                lemma_jview_array(e);
                assert(items_view(e@) =~= Seq::<JsonView>::empty());
            }
            Json::Array(e)
        },
    };
    let ghost cur_v = jview(current);
    let new_list: Vec<Json> = match current {
        Json::Array(items) => {
            proof {
                lemma_jview_array(items);
            }
            let mut kept = drop_discovery(items);
            let ghost kv = items_view(kept@);
            kept.push(sj);
            proof {
                assert(items_view(kept@) =~= kv.push(sv));
            }
            kept
        },
        Json::Object(m) => {
            let single = Json::Object(m);
            if is_discovery_exec(&single) {
                let v: Vec<Json> = vec![sj];
                proof {
                    assert(items_view(v@) =~= seq![sv]);
                }
                v
            } else {
                let ghost one = jview(single);
                let v: Vec<Json> = vec![single, sj];
                proof {
                    assert(items_view(v@) =~= seq![one, sv]);
                }
                v
            }
        },
        Json::Null => {
            let v: Vec<Json> = vec![sj];
            proof {
                assert(items_view(v@) =~= seq![sv]);
            }
            v
        },
        _ => return Err(PlaylistInjectError::PlaylistNotListOrObject),
    };
    proof {
        assert(new_playlist_list(cur_v, sv) == Some(items_view(new_list@)));
        lemma_jview_array(new_list);
    }
    let ghost list_v = jview(Json::Array(new_list));
    match li {
        Some(i) => {
            put_member(&mut pm, Some(i), copy_str("playlist"), Json::Array(new_list));
            proof {
                lemma_replace_member(pmv, i as int, ("playlist"@, list_v));
            }
        },
        None => {
            push_member(&mut pm, "playlist", Json::Array(new_list));
        },
    }
    assert(members_view(pm@) == with_member(pmv, "playlist"@, list_v));
    proof {
        lemma_jview_object(pm);
    }
    let ghost pv = jview(Json::Object(pm));
    match pi {
        Some(i) => {
            put_member(&mut em, Some(i), copy_str("playlists"), Json::Object(pm));
            proof {
                lemma_replace_member(emv, i as int, ("playlists"@, pv));
            }
        },
        None => {
            push_member(&mut em, "playlists", Json::Object(pm));
        },
    }
    assert(members_view(em@) == with_member(emv, "playlists"@, pv));
    proof {
        lemma_jview_object(em);
    }
    let ghost ev = jview(Json::Object(em));
    put_member(&mut top, Some(ei), ek, Json::Object(em));
    proof {
        assert(ek@ == "subsonic-response"@);
        lemma_replace_member(tm, ei as int, ("subsonic-response"@, ev));
        lemma_jview_object(top);
    }
    Ok(Json::Object(top))
}

// ------------------------------------------------------------ seeding

pub open spec fn listed(listened: Seq<String>, id: Seq<char>) -> bool {
    exists|j: int| 0 <= j < listened.len() && #[trigger] listened[j]@ == id
}

fn contains_id(listened: &Vec<String>, id: &str) -> (r: bool)
    ensures
        r == listed(listened@, id@),
{
    let mut j: usize = 0;
    while j < listened.len()
        invariant
            j <= listened@.len(),
            forall|b: int| 0 <= b < j ==> listened@[b]@ != id@,
        decreases listened@.len() - j,
    {
        if str_eq(listened[j].as_str(), id) {
            assert(listened@[j as int]@ == id@);
            return true;
        }
        j += 1;
    }
    false
}

/// A cached discovery list is used up once every track on it was listened
/// to since it was made; an empty list never is.
pub fn discovery_consumed(track_ids: &Vec<String>, listened: &Vec<String>) -> (r: bool)
    ensures
        r == (track_ids@.len() > 0 && forall|i: int|
            0 <= i < track_ids@.len() ==> listed(listened@, #[trigger] track_ids@[i]@)),
{
    if track_ids.len() == 0 {
        return false;
    }
    let mut i: usize = 0;
    while i < track_ids.len()
        invariant
            i <= track_ids@.len(),
            forall|a: int| 0 <= a < i ==> listed(listened@, #[trigger] track_ids@[a]@),
        decreases track_ids@.len() - i,
    {
        if !contains_id(listened, track_ids[i].as_str()) {
            return false;
        }
        i += 1;
    }
    true
}

/// How many songs the next seed may add to a discovery list of `have`
/// songs aiming at `max_results` (at least one): at most six, zero once
/// the list is full.
pub fn discovery_per_seed(max_results: u32, have: usize) -> (r: usize)
    ensures
        ({
            let target: int = if max_results < 1 {
                1
            } else {
                max_results as int
            };
            let remaining: int = if have >= target {
                0
            } else {
                target - have
            };
            r == if remaining < DISCOVERY_PER_SEED {
                remaining
            } else {
                DISCOVERY_PER_SEED as int
            }
        }),
{
    let target: usize = if max_results < 1 {
        1
    } else {
        max_results as usize
    };
    let remaining = if have >= target {
        0
    } else {
        target - have
    };
    if remaining < DISCOVERY_PER_SEED {
        remaining
    } else {
        DISCOVERY_PER_SEED
    }
}

/// The seed of a listen that is not a stored virtual track: the listen
/// provider, keyed by its library id or `listen:` and its song key.
pub fn listen_seed_track(seed: ListenSeed) -> (r: SeedTrack)
    ensures
        r.artist == seed.artist,
        r.title == seed.title,
        r.provider@ == "listen"@,
        r.provider_track_id@ == match seed.subsonic_id {
            Some(id) => id@,
            None => "listen:"@ + song_key_spec(seed.artist@, seed.title@),
        },
{
    let provider_track_id = match seed.subsonic_id {
        Some(id) => id,
        None => {
            let mut v = chars_of("listen:");
            extend_chars(&mut v, chars_of(song_key(seed.artist.as_str(), seed.title.as_str()).as_str()).as_slice());
            string_of(v.as_slice())
        },
    };
    SeedTrack { artist: seed.artist, title: seed.title, provider: copy_str("listen"), provider_track_id }
}

// ----------------------------------------------------------------- XML

/// The content of the discovery playlist's tag named `element`.
pub open spec fn summary_tag(s: PlaylistSummary, element: Seq<char>) -> Seq<char> {
    element + attr_text("id"@, DISCOVERY_ID@) + attr_text("name"@, DISCOVERY_NAME@) + attr_text("owner"@, s.owner@)
        + attr_text("public"@, "false"@) + attr_text("songCount"@, decimal(s.song_count as nat)) + attr_text(
        "duration"@,
        signed_decimal(s.duration as int),
    ) + attr_text("created"@, s.changed@) + attr_text("changed"@, s.changed@) + attr_text(
        "comment"@,
        "Generated by Songarr from recent listens"@,
    )
}

fn summary_tag_exec(s: &PlaylistSummary, element: &str) -> (r: Vec<char>)
    ensures
        r@ == summary_tag(*s, element@),
{
    let mut tag = chars_of(element);
    push_attr(&mut tag, "id", DISCOVERY_ID);
    push_attr(&mut tag, "name", DISCOVERY_NAME);
    push_attr(&mut tag, "owner", s.owner.as_str());
    push_attr(&mut tag, "public", "false");
    push_attr(&mut tag, "songCount", string_of(u64_decimal(s.song_count as u64).as_slice()).as_str());
    push_attr(&mut tag, "duration", string_of(i64_decimal(s.duration).as_slice()).as_str());
    push_attr(&mut tag, "created", s.changed.as_str());
    push_attr(&mut tag, "changed", s.changed.as_str());
    push_attr(&mut tag, "comment", "Generated by Songarr from recent listens");
    assert(tag@ =~= summary_tag(*s, element@));
    tag
}

impl PlaylistSummary {
    /// The summary as an empty element named `element`.
    pub fn write_xml(&self, element: &str) -> (r: Vec<char>)
        ensures
            r@ == written(XmlKind::Empty, summary_tag(*self, element@)),
    {
        let tag = summary_tag_exec(self, element);
        let mut out: Vec<char> = Vec::new();
        write_event(&mut out, XmlKind::Empty, tag.as_slice());
        out
    }

    /// The summary as the start tag of a `playlist` element.
    pub fn write_xml_start(&self) -> (r: Vec<char>)
        ensures
            r@ == written(XmlKind::Start, summary_tag(*self, "playlist"@)),
    {
        let tag = summary_tag_exec(self, "playlist");
        let mut out: Vec<char> = Vec::new();
        write_event(&mut out, XmlKind::Start, tag.as_slice());
        out
    }
}

/// The discovery playlist as an XML `playlist` element: the summary's start
/// tag, each song as an `entry` element, and the end tag.
pub fn playlist_xml(summary: &PlaylistSummary, entries: &Vec<SongEntry>) -> (r: Vec<char>)
    ensures
        r@ == written(XmlKind::Start, summary_tag(*summary, "playlist"@)) + songs_xml(entries@, "entry"@)
            + written(XmlKind::End, "playlist"@),
{
    let mut out = summary.write_xml_start();
    let songs = write_songs_xml(entries.as_slice(), "entry");
    extend_chars(&mut out, songs.as_slice());
    let end = chars_of("playlist");
    write_event(&mut out, XmlKind::End, end.as_slice());
    out
}

/// An XML `getPlaylists` answer with the discovery playlist appended inside
/// `playlists` (an empty one is opened and closed around it, a missing one
/// created before the end of the response). A body quick-xml stops on with
/// an error is refused.
pub fn inject_playlist_xml(body: &str, summary: &PlaylistSummary) -> (r: Result<String, MalformedXml>)
    ensures
        match r {
            Ok(s) => !xml_read(body@).1 && s@ == injected_text(
                xml_read(body@).0,
                "playlists"@,
                written(XmlKind::Empty, summary_tag(*summary, "playlist"@)),
                true,
            ),
            Err(_) => xml_read(body@).1,
        },
{
    let (events, failed) = read_events(body);
    if failed {
        return Err(MalformedXml);
    }
    let payload = summary.write_xml("playlist");
    let out = inject_events(&events, "playlists", payload.as_slice(), true);
    Ok(string_of(out.as_slice()))
}

} // verus!
