//! Search injection: when a library search is extended with catalog hits,
//! and which hits are appended. Hits are deduplicated against the library's
//! own results and already-imported tracks by normalized artist and title,
//! with durations within three seconds.
use vstd::prelude::*;

use crate::catalog::artist_key_spec;
use crate::ingest::utf8_bytes;
use crate::recs::{artist_key, title_key, title_key_spec};
use crate::text::{chars_of, copy_str, extend_chars, parse_i64, parse_i64_spec, str_eq, string_of, trim, trim_by, trim_chars, trim_chars_by};
use crate::json::{as_str, at_key, at_key_exec, find_member, first_member, items_view, jview, key_or_null, lemma_first_member, lemma_jview_array, lemma_jview_object, lemma_members_view_remove, lemma_replace_member, member_or, members_view, put_member, str_at, with_member, Json, JsonView};
use crate::subsonic::{song_entry_view, songs_xml, write_songs_xml, SongEntry};
use crate::xml::{attr_or_empty, attr_text_or_empty, find_open, first_open, inject_events, injected_text, is_tag_open, read_events, tag_parts, xml_read, xml_tag, MalformedXml, XmlKind};
use crate::vtrack::CatalogTrack;

verus! {

#[derive(Debug, Clone, Copy, PartialEq, Eq)]
pub enum SearchKind {
    Search2,
    Search3,
}

impl SearchKind {
    /// The element of the response that holds the songs.
    pub fn result_key(self) -> (r: &'static str)
        ensures
            self == SearchKind::Search2 ==> r@ == "searchResult2"@,
            self == SearchKind::Search3 ==> r@ == "searchResult3"@,
    {
        match self {
            SearchKind::Search2 => "searchResult2",
            SearchKind::Search3 => "searchResult3",
        }
    }
}

// ----------------------------------------------------------- song keys

/// Normalized artist and title of a song, and its duration in seconds.
#[derive(Debug, Clone)]
pub struct SongKey {
    pub artist: String,
    pub title: String,
    pub duration_secs: Option<i64>,
}

impl View for SongKey {
    type V = (Seq<char>, Seq<char>, Option<int>);

    open spec fn view(&self) -> (Seq<char>, Seq<char>, Option<int>) {
        (
            self.artist@,
            self.title@,
            match self.duration_secs {
                Some(d) => Some(d as int),
                None => None,
            },
        )
    }
}

/// The key of a song: its artist key, its title key and its duration.
pub open spec fn key_spec(artist: Seq<char>, title: Seq<char>, duration_secs: Option<i64>) -> (
    Seq<char>,
    Seq<char>,
    Option<int>,
) {
    (
        artist_key_spec(artist),
        title_key_spec(title),
        match duration_secs {
            Some(d) => Some(d as int),
            None => None,
        },
    )
}

/// Same artist and title keys; durations only veto when both are known and
/// more than three seconds apart.
pub open spec fn keys_match(a: (Seq<char>, Seq<char>, Option<int>), b: (Seq<char>, Seq<char>, Option<int>)) -> bool {
    &&& a.0 == b.0
    &&& a.1 == b.1
    &&& match (a.2, b.2) {
        (Some(x), Some(y)) => -3 <= x - y <= 3,
        _ => true,
    }
}

impl SongKey {
    pub fn new(artist: &str, title: &str, duration_secs: Option<i64>) -> (r: SongKey)
        ensures
            r@ == key_spec(artist@, title@, duration_secs),
    {
        SongKey { artist: artist_key(artist), title: title_key(title), duration_secs }
    }

    pub fn matches(&self, other: &SongKey) -> (r: bool)
        ensures
            r == keys_match(self@, other@),
    {
        if !str_eq(self.artist.as_str(), other.artist.as_str()) || !str_eq(
            self.title.as_str(),
            other.title.as_str(),
        ) {
            return false;
        }
        match (self.duration_secs, other.duration_secs) {
            (Some(a), Some(b)) => {
                let d: i128 = a as i128 - b as i128;
                -3 <= d && d <= 3
            },
            _ => true,
        }
    }
}

/// Whole seconds of an optional duration in milliseconds, rounding toward
/// zero as Rust's `/` does.
pub open spec fn secs_of(ms: Option<i64>) -> Option<i64> {
    match ms {
        Some(m) => Some(crate::subsonic::whole_seconds(m)),
        None => None,
    }
}

pub fn secs_of_exec(ms: Option<i64>) -> (r: Option<i64>)
    ensures
        r == secs_of(ms),
{
    match ms {
        Some(m) => Some(m / 1000),
        None => None,
    }
}

/// The key of a catalog track.
pub open spec fn track_key(t: CatalogTrack) -> (Seq<char>, Seq<char>, Option<int>) {
    key_spec(t.artist@, t.title@, secs_of(t.duration_ms))
}

pub open spec fn keys_view(v: Seq<SongKey>) -> Seq<(Seq<char>, Seq<char>, Option<int>)> {
    v.map_values(|k: SongKey| k@)
}

/// Some key in `keys` matches `k`.
pub open spec fn any_match(keys: Seq<(Seq<char>, Seq<char>, Option<int>)>, k: (Seq<char>, Seq<char>, Option<int>)) -> bool {
    exists|i: int| 0 <= i < keys.len() && keys_match(#[trigger] keys[i], k)
}

/// Whether any key in `keys` matches `k`.
pub fn any_key_matches(keys: &Vec<SongKey>, k: &SongKey) -> (r: bool)
    ensures
        r == any_match(keys_view(keys@), k@),
{
    let mut i: usize = 0;
    while i < keys.len()
        invariant
            i <= keys@.len(),
            forall|j: int| 0 <= j < i ==> !keys_match(#[trigger] keys_view(keys@)[j], k@),
        decreases keys@.len() - i,
    {
        if keys[i].matches(k) {
            assert(keys_match(keys_view(keys@)[i as int], k@));
            return true;
        }
        i += 1;
    }
    false
}

/// The catalog hits appended to a search, in order: each hit that matches
/// nothing already shown, imported, or chosen before it, until `max` are
/// chosen.
pub open spec fn injections_spec(
    catalog: Seq<CatalogTrack>,
    blocked: Seq<(Seq<char>, Seq<char>, Option<int>)>,
    max: nat,
) -> Seq<CatalogTrack>
    decreases catalog.len(),
{
    if catalog.len() == 0 || max == 0 {
        Seq::empty()
    } else {
        let t = catalog[0];
        if any_match(blocked, track_key(t)) {
            injections_spec(catalog.drop_first(), blocked, max)
        } else {
            seq![t] + injections_spec(catalog.drop_first(), blocked.push(track_key(t)), (max - 1) as nat)
        }
    }
}

/// Choose the catalog hits to append (see `injections_spec`); `existing`
/// are the keys of the library's own results, `imported` those of imported
/// tracks.
pub fn choose_injections(
    catalog: Vec<CatalogTrack>,
    existing: &Vec<SongKey>,
    imported: &Vec<SongKey>,
    max: u32,
) -> (r: Vec<CatalogTrack>)
    ensures
        r@ == injections_spec(catalog@, keys_view(existing@) + keys_view(imported@), max as nat),
{
    let ghost blocked0 = keys_view(existing@) + keys_view(imported@);
    let mut blocked: Vec<SongKey> = Vec::new();
    let mut e: usize = 0;
    while e < existing.len()
        invariant
            e <= existing@.len(),
            keys_view(blocked@) == keys_view(existing@).take(e as int),
        decreases existing@.len() - e,
    {
        let ghost old_b = blocked@;
        let k = copy_key(&existing[e]);
        blocked.push(k);
        proof {
            assert(blocked@ == old_b.push(k));
            assert(keys_view(blocked@) =~= keys_view(old_b).push(k@));
            assert(keys_view(existing@)[e as int] == existing@[e as int]@);
            assert(keys_view(blocked@) =~= keys_view(existing@).take(e + 1));
        }
        e += 1;
    }
    let mut m: usize = 0;
    while m < imported.len()
        invariant
            m <= imported@.len(),
            keys_view(blocked@) == keys_view(existing@) + keys_view(imported@).take(m as int),
        decreases imported@.len() - m,
    {
        let ghost old_b = blocked@;
        let k = copy_key(&imported[m]);
        blocked.push(k);
        proof {
            assert(blocked@ == old_b.push(k));
            assert(keys_view(blocked@) =~= keys_view(old_b).push(k@));
            assert(keys_view(imported@)[m as int] == imported@[m as int]@);
            assert(keys_view(blocked@) =~= keys_view(existing@) + keys_view(imported@).take(m + 1));
        }
        m += 1;
    }
    proof {
        assert(keys_view(existing@).take(existing@.len() as int) =~= keys_view(existing@));
        assert(keys_view(imported@).take(imported@.len() as int) =~= keys_view(imported@));
        assert(keys_view(blocked@) =~= blocked0);
    }
    let mut chosen: Vec<CatalogTrack> = Vec::new();
    let mut rest = catalog;
    let mut remaining: u32 = max;
    let ghost target = injections_spec(rest@, blocked0, max as nat);
    // Walk the hits front to back, keeping what still has to be decided.
    let mut i: usize = 0;
    let n = rest.len();
    let ghost all = rest@;
    proof {
        assert(all.subrange(0, n as int) =~= all);
        assert(Seq::<CatalogTrack>::empty() + target =~= target);
    }
    while i < n && remaining > 0
        invariant
            n == all.len(),
            i <= n,
            rest@ == all,
            target == chosen@ + injections_spec(all.subrange(i as int, n as int), keys_view(blocked@), remaining as nat),
            remaining <= max,
        decreases n - i,
    {
        let ghost tail = all.subrange(i as int, n as int);
        proof {
            assert(tail[0] == all[i as int]);
            assert(tail.drop_first() =~= all.subrange(i + 1, n as int));
        }
        let t = &rest[i];
        let k = SongKey::new(t.artist.as_str(), t.title.as_str(), secs_of_exec(t.duration_ms));
        let ghost bv = keys_view(blocked@);
        proof {
            assert(*t == all[i as int]);
            assert(k@ == track_key(tail[0]));
            assert(tail.len() > 0);
            if any_match(bv, track_key(tail[0])) {
                assert(injections_spec(tail, bv, remaining as nat) == injections_spec(tail.drop_first(), bv, remaining as nat));
            } else {
                assert(injections_spec(tail, bv, remaining as nat) == seq![tail[0]] + injections_spec(tail.drop_first(), bv.push(track_key(tail[0])), (remaining - 1) as nat));
            }
        }
        if !any_key_matches(&blocked, &k) {
            let ghost before = chosen@;
            let ghost old_b = blocked@;
            chosen.push(copy_track(t));
            blocked.push(k);
            proof {
                assert(blocked@ == old_b.push(k));
                assert(keys_view(blocked@) =~= bv.push(k@));
                assert(chosen@ + injections_spec(all.subrange(i + 1, n as int), keys_view(blocked@), (remaining - 1) as nat)
                    =~= before + (seq![all[i as int]] + injections_spec(all.subrange(i + 1, n as int), keys_view(blocked@), (remaining - 1) as nat)));
            }
            remaining = remaining - 1;
        }
        i += 1;
    }
    proof {
        if i == n {
            assert(all.subrange(n as int, n as int) =~= Seq::<CatalogTrack>::empty());
        }
        assert(injections_spec(all.subrange(i as int, n as int), keys_view(blocked@), remaining as nat) =~= Seq::<CatalogTrack>::empty());
        assert(chosen@ + Seq::<CatalogTrack>::empty() =~= chosen@);
    }
    chosen
}

/// The appended hits `r` of `catalog` against `blocked` keys with limit
/// `max`: at most `max`, each one of the hits, none matching a blocked key,
/// no two matching each other.
pub open spec fn injections_clean(
    catalog: Seq<CatalogTrack>,
    blocked: Seq<(Seq<char>, Seq<char>, Option<int>)>,
    max: nat,
    r: Seq<CatalogTrack>,
) -> bool {
    &&& r.len() <= max
    &&& forall|i: int| 0 <= i < r.len() ==> catalog.contains(#[trigger] r[i])
    &&& forall|i: int, j: int|
        #![trigger r[i], blocked[j]]
        0 <= i < r.len() && 0 <= j < blocked.len() ==> !keys_match(blocked[j], track_key(r[i]))
    &&& forall|i: int, j: int|
        #![trigger r[i], r[j]]
        0 <= i < j < r.len() ==> !keys_match(track_key(r[i]), track_key(r[j]))
}

proof fn lemma_injections_clean(
    catalog: Seq<CatalogTrack>,
    blocked: Seq<(Seq<char>, Seq<char>, Option<int>)>,
    max: nat,
)
    ensures
        injections_clean(catalog, blocked, max, injections_spec(catalog, blocked, max)),
    decreases catalog.len(),
{
    let r = injections_spec(catalog, blocked, max);
    if catalog.len() == 0 || max == 0 {
        assert(r =~= Seq::<CatalogTrack>::empty());
    } else {
        let t = catalog[0];
        let rest = catalog.drop_first();
        assert forall|x: CatalogTrack| rest.contains(x) implies catalog.contains(x) by {
            let k = choose|k: int| 0 <= k < rest.len() && rest[k] == x;
            assert(catalog[k + 1] == x);
        }
        if any_match(blocked, track_key(t)) {
            lemma_injections_clean(rest, blocked, max);
        } else {
            let b2 = blocked.push(track_key(t));
            let r2 = injections_spec(rest, b2, (max - 1) as nat);
            lemma_injections_clean(rest, b2, (max - 1) as nat);
            assert(r == seq![t] + r2);
            assert(catalog.contains(t)) by {
                assert(catalog[0] == t);
            }
            assert forall|i: int| 0 <= i < r.len() implies catalog.contains(#[trigger] r[i]) by {
                if i > 0 {
                    assert(r[i] == r2[i - 1]);
                    assert(rest.contains(r2[i - 1]));
                }
            }
            assert forall|i: int, j: int|
                #![trigger r[i], blocked[j]]
                0 <= i < r.len() && 0 <= j < blocked.len() implies !keys_match(
                    blocked[j],
                    track_key(r[i]),
                ) by {
                if i == 0 {
                    if keys_match(blocked[j], track_key(t)) {
                        assert(any_match(blocked, track_key(t)));
                    }
                } else {
                    assert(r[i] == r2[i - 1]);
                    assert(b2[j] == blocked[j]);
                }
            }
            assert forall|i: int, j: int|
                #![trigger r[i], r[j]]
                0 <= i < j < r.len() implies !keys_match(track_key(r[i]), track_key(r[j])) by {
                assert(r[j] == r2[j - 1]);
                if i == 0 {
                    assert(b2[blocked.len() as int] == track_key(t));
                    assert(!keys_match(b2[blocked.len() as int], track_key(r2[j - 1])));
                } else {
                    assert(r[i] == r2[i - 1]);
                }
            }
        }
    }
}

/// Catalog hits appended to a search are deduplicated against the library:
/// for any hits, library results, imported tracks and limit, at most `max`
/// hits are appended, each is one of the hits, none matches a song already
/// in the results or imported, and no two of them match each other.
pub proof fn law_injections_deduplicated(
    catalog: Seq<CatalogTrack>,
    existing: Seq<SongKey>,
    imported: Seq<SongKey>,
    max: nat,
)
    ensures
        injections_clean(
            catalog,
            keys_view(existing) + keys_view(imported),
            max,
            injections_spec(catalog, keys_view(existing) + keys_view(imported), max),
        ),
{
    lemma_injections_clean(catalog, keys_view(existing) + keys_view(imported), max);
}

fn copy_key(k: &SongKey) -> (r: SongKey)
    ensures
        r@ == k@,
{
    SongKey { artist: k.artist.clone(), title: k.title.clone(), duration_secs: k.duration_secs }
}

fn copy_opt(o: &Option<String>) -> (r: Option<String>)
    ensures
        r == *o,
{
    match o {
        Some(s) => Some(s.clone()),
        None => None,
    }
}

fn copy_track(t: &CatalogTrack) -> (r: CatalogTrack)
    ensures
        r == *t,
{
    CatalogTrack {
        provider: t.provider,
        provider_track_id: t.provider_track_id.clone(),
        artist: t.artist.clone(),
        title: t.title.clone(),
        album: copy_opt(&t.album),
        duration_ms: t.duration_ms,
        isrc: copy_opt(&t.isrc),
        artwork_url: copy_opt(&t.artwork_url),
    }
}

// ---------------------------------------------- JSON search responses

/// The status of a JSON response is `ok`.
pub open spec fn is_ok_json_spec(v: Json) -> bool {
    as_str(at_key(at_key(v, "subsonic-response"@), "status"@)) == Some("ok"@)
}

pub fn is_ok_json(v: &Json) -> (r: bool)
    ensures
        r == is_ok_json_spec(*v),
{
    let null = Json::Null;
    let env = key_or_null(v, "subsonic-response", &null);
    match str_at(env, "status") {
        Some(s) => str_eq(s.as_str(), "ok"),
        None => false,
    }
}

/// `v.as_i64()`: an integral number within `i64`.
pub open spec fn as_i64(v: Json) -> Option<i64> {
    match v {
        Json::Number(t) => match parse_i64_spec(t@) {
            Some(n) => Some(n as i64),
            None => None,
        },
        _ => None,
    }
}

pub open spec fn str_or_empty(v: Json) -> Seq<char> {
    match as_str(v) {
        Some(s) => s,
        None => Seq::empty(),
    }
}

/// The key of a `song` object: its artist, title (missing ones empty) and
/// integral duration.
pub open spec fn song_json_key(s: Json) -> (Seq<char>, Seq<char>, Option<int>) {
    key_spec(
        str_or_empty(at_key(s, "artist"@)),
        str_or_empty(at_key(s, "title"@)),
        as_i64(at_key(s, "duration"@)),
    )
}

/// The keys of the songs in a JSON search result (`result_key` in the
/// envelope); none when there is no song array.
pub open spec fn existing_json_spec(v: Json, result_key: Seq<char>) -> Seq<(Seq<char>, Seq<char>, Option<int>)> {
    match at_key(at_key(at_key(v, "subsonic-response"@), result_key), "song"@) {
        Json::Array(items) => Seq::new(items@.len(), |i: int| song_json_key(items@[i])),
        _ => Seq::empty(),
    }
}

fn str_field(v: &Json, key: &str) -> (r: String)
    ensures
        r@ == str_or_empty(at_key(*v, key@)),
{
    match str_at(v, key) {
        Some(s) => s.clone(),
        None => String::new(),
    }
}

fn i64_field(v: &Json, key: &str) -> (r: Option<i64>)
    ensures
        r == as_i64(at_key(*v, key@)),
{
    match at_key_exec(v, key) {
        Some(Json::Number(t)) => parse_i64(chars_of(t.as_str()).as_slice()),
        _ => None,
    }
}

pub fn existing_songs_json(v: &Json, result_key: &str) -> (r: Vec<SongKey>)
    ensures
        keys_view(r@) == existing_json_spec(*v, result_key@),
{
    let null = Json::Null;
    let env = key_or_null(v, "subsonic-response", &null);
    let result = key_or_null(env, result_key, &null);
    let mut out: Vec<SongKey> = Vec::new();
    match at_key_exec(result, "song") {
        Some(Json::Array(items)) => {
            let mut i: usize = 0;
            while i < items.len()
                invariant
                    i <= items@.len(),
                    out@.len() == i,
                    keys_view(out@) == Seq::new(i as nat, |k: int| song_json_key(items@[k])),
                decreases items@.len() - i,
            {
                let s = &items[i];
                let k = SongKey::new(
                    str_field(s, "artist").as_str(),
                    str_field(s, "title").as_str(),
                    i64_field(s, "duration"),
                );
                assert(k@ == song_json_key(items@[i as int]));
                let ghost before = out@;
                out.push(k);
                proof {
                    assert(out@ == before.push(k));
                    assert forall|j: int| 0 <= j <= i implies #[trigger] keys_view(out@)[j] == song_json_key(
                        items@[j],
                    ) by {
                        if j < i {
                            assert(out@[j] == before[j]);
                            assert(keys_view(before)[j] == song_json_key(items@[j]));
                        }
                    }
                    assert(keys_view(out@) =~= Seq::new((i + 1) as nat, |k: int| song_json_key(items@[k])));
                }
                i += 1;
            }
            proof {
                assert(keys_view(out@) =~= existing_json_spec(*v, result_key@));
            }
        },
        _ => {
            assert(keys_view(out@) =~= Seq::<(Seq<char>, Seq<char>, Option<int>)>::empty());
        },
    }
    out
}

/// Why songs could not be added to a JSON response.
#[derive(Debug, Clone, Copy, PartialEq, Eq)]
pub enum InjectError {
    /// No `subsonic-response` object.
    MissingEnvelope,
    /// The result member is not an object.
    ResultNotObject,
    /// The result's `song` member is not an array.
    SongNotArray,
}

impl InjectError {
    pub fn message(&self, result_key: &str) -> (r: String)
        ensures
            *self == InjectError::MissingEnvelope ==> r@ == "missing subsonic-response envelope"@,
            *self == InjectError::ResultNotObject ==> r@ == result_key@ + " is not an object"@,
            *self == InjectError::SongNotArray ==> r@ == "song is not an array"@,
    {
        match self {
            InjectError::MissingEnvelope => copy_str("missing subsonic-response envelope"),
            InjectError::ResultNotObject => {
                let mut v = chars_of(result_key);
                extend_chars(&mut v, chars_of(" is not an object").as_slice());
                string_of(v.as_slice())
            },
            InjectError::SongNotArray => copy_str("song is not an array"),
        }
    }
}

/// A response with `songs` appended to its result's song list: the result
/// object and its song array are created when missing; everything else is
/// kept.
pub open spec fn inject_spec(top: JsonView, key: Seq<char>, songs: Seq<JsonView>) -> Result<
    JsonView,
    InjectError,
> {
    match top {
        JsonView::Object(tm) => match first_member(tm, "subsonic-response"@) {
            Some(ei) => match tm[ei].1 {
                JsonView::Object(em) => match member_or(em, key, JsonView::Object(Seq::empty())) {
                    JsonView::Object(rm) => match member_or(rm, "song"@, JsonView::Array(Seq::empty())) {
                        JsonView::Array(existing) => Ok(
                            JsonView::Object(
                                tm.update(
                                    ei,
                                    (
                                        "subsonic-response"@,
                                        JsonView::Object(
                                            with_member(
                                                em,
                                                key,
                                                JsonView::Object(
                                                    with_member(rm, "song"@, JsonView::Array(existing + songs)),
                                                ),
                                            ),
                                        ),
                                    ),
                                ),
                            ),
                        ),
                        _ => Err(InjectError::SongNotArray),
                    },
                    _ => Err(InjectError::ResultNotObject),
                },
                _ => Err(InjectError::MissingEnvelope),
            },
            None => Err(InjectError::MissingEnvelope),
        },
        _ => Err(InjectError::MissingEnvelope),
    }
}

pub open spec fn result_view(r: Result<Json, InjectError>) -> Result<JsonView, InjectError> {
    match r {
        Ok(v) => Ok(jview(v)),
        Err(e) => Err(e),
    }
}

/// Append `songs` to the result `result_key` of a JSON response (see
/// `inject_spec`).
#[verifier::spinoff_prover]
#[verifier::rlimit(100)]
pub fn inject_songs(value: Json, result_key: &str, songs: Vec<Json>) -> (r: Result<Json, InjectError>)
    ensures
        result_view(r) == inject_spec(jview(value), result_key@, items_view(songs@)),
{
    let ghost goal = inject_spec(jview(value), result_key@, items_view(songs@));
    let mut top = match value {
        Json::Object(m) => m,
        _ => return Err(InjectError::MissingEnvelope),
    };
    proof {
        lemma_jview_object(top);
    }
    let ghost tm = members_view(top@);
    let ei = match find_member(&top, "subsonic-response") {
        Some(i) => i,
        None => return Err(InjectError::MissingEnvelope),
    };
    proof {
        lemma_members_view_remove(top@, ei as int);
        lemma_first_member(tm, "subsonic-response"@);
    }
    let (ek, env) = top.remove(ei);
    assert(ek@ == "subsonic-response"@);
    let mut em = match env {
        Json::Object(m) => m,
        _ => return Err(InjectError::MissingEnvelope),
    };
    proof {
        lemma_jview_object(em);
    }
    let ghost emv = members_view(em@);
    let ri = find_member(&em, result_key);
    let (rk, mut rm): (String, Vec<(String, Json)>) = match ri {
        Some(i) => {
            proof {
                lemma_members_view_remove(em@, i as int);
                lemma_first_member(emv, result_key@);
            }
            let (k, r) = em.remove(i);
            assert(k@ == result_key@);
            match r {
                Json::Object(m) => {
                    proof {
                        lemma_jview_object(m);
                    }
                    (k, m)
                },
                _ => return Err(InjectError::ResultNotObject),
            }
        },
        None => (copy_str(result_key), Vec::new()),
    };
    proof {
        assert(ri is None ==> members_view(rm@) =~= Seq::<(Seq<char>, JsonView)>::empty());
    }
    let ghost rmv = members_view(rm@);
    let si = find_member(&rm, "song");
    let (sk, mut list): (String, Vec<Json>) = match si {
        Some(i) => {
            proof {
                lemma_members_view_remove(rm@, i as int);
                lemma_first_member(rmv, "song"@);
            }
            let (k, s) = rm.remove(i);
            assert(k@ == "song"@);
            match s {
                Json::Array(a) => {
                    proof {
                        lemma_jview_array(a);
                    }
                    (k, a)
                },
                _ => return Err(InjectError::SongNotArray),
            }
        },
        None => (copy_str("song"), Vec::new()),
    };
    proof {
        assert(si is None ==> items_view(list@) =~= Seq::<JsonView>::empty());
    }
    let ghost existing = items_view(list@);
    let mut songs = songs;
    let ghost sv = items_view(songs@);
    let ghost l0 = list@;
    list.append(&mut songs);
    proof {
        assert(items_view(list@) =~= existing + sv);
        lemma_jview_array(list);
    }
    let ghost new_list = jview(Json::Array(list));
    put_member(&mut rm, si, sk, Json::Array(list));
    proof {
        match si {
            Some(i) => {
                lemma_replace_member(rmv, i as int, ("song"@, new_list));
            },
            None => {},
        }
        assert(members_view(rm@) == with_member(rmv, "song"@, new_list));
        lemma_jview_object(rm);
    }
    let ghost new_result = jview(Json::Object(rm));
    put_member(&mut em, ri, rk, Json::Object(rm));
    proof {
        match ri {
            Some(i) => {
                lemma_replace_member(emv, i as int, (result_key@, new_result));
            },
            None => {},
        }
        assert(members_view(em@) == with_member(emv, result_key@, new_result));
        lemma_jview_object(em);
    }
    let ghost new_env = jview(Json::Object(em));
    put_member(&mut top, Some(ei), ek, Json::Object(em));
    proof {
        lemma_replace_member(tm, ei as int, ("subsonic-response"@, new_env));
        lemma_jview_object(top);
    }
    Ok(Json::Object(top))
}

pub open spec fn entries_view(e: Seq<SongEntry>) -> Seq<JsonView> {
    Seq::new(e.len(), |i: int| song_entry_view(e[i]))
}

/// Append song entries to the result `result_key` of a JSON response.
pub fn inject_json(value: Json, result_key: &str, entries: &Vec<SongEntry>) -> (r: Result<Json, InjectError>)
    ensures
        result_view(r) == inject_spec(jview(value), result_key@, entries_view(entries@)),
{
    let mut songs: Vec<Json> = Vec::new();
    let mut i: usize = 0;
    while i < entries.len()
        invariant
            i <= entries@.len(),
            songs@.len() == i,
            items_view(songs@) == entries_view(entries@).take(i as int),
        decreases entries@.len() - i,
    {
        let j = entries[i].to_json();
        assert(jview(j) == song_entry_view(entries@[i as int]));
        let ghost before = songs@;
        songs.push(j);
        proof {
            assert(songs@ == before.push(j));
            assert forall|k: int| 0 <= k <= i implies #[trigger] items_view(songs@)[k] == entries_view(
                entries@,
            )[k] by {
                if k < i {
                    assert(songs@[k] == before[k]);
                    assert(items_view(before)[k] == entries_view(entries@).take(i as int)[k]);
                }
            }
            assert(items_view(songs@) =~= entries_view(entries@).take(i + 1));
        }
        i += 1;
    }
    proof {
        assert(entries_view(entries@).take(entries@.len() as int) =~= entries_view(entries@));
    }
    inject_songs(value, result_key, songs)
}

// ------------------------------------------------------ interception

/// The query a search probes with: surrounding double quotes and then
/// whitespace trimmed (some clients send `""` to browse everything).
pub open spec fn effective_query_spec(q: Seq<char>) -> Seq<char> {
    trim(trim_by(q, Some('"')))
}

pub fn effective_query(q: &str) -> (r: Vec<char>)
    ensures
        r@ == effective_query_spec(q@),
{
    let a = trim_chars_by(chars_of(q).as_slice(), Some('"'));
    trim_chars(a.as_slice())
}

/// A search is extended with catalog hits when external search is enabled,
/// the client asked for a format the proxy can rewrite, the effective query
/// has at least `min_query_len` UTF-8 bytes, and the user is not denied.
pub open spec fn intercept_spec(
    enabled: bool,
    format_known: bool,
    query: Seq<char>,
    min_query_len: u32,
    deny: Seq<Seq<char>>,
    username: Seq<char>,
) -> bool {
    enabled && format_known && utf8_bytes(effective_query_spec(query)) >= min_query_len && !deny.contains(username)
}

pub open spec fn strings_view(v: Seq<String>) -> Seq<Seq<char>> {
    v.map_values(|s: String| s@)
}

pub fn should_intercept(
    enabled: bool,
    format_known: bool,
    query: &str,
    min_query_len: u32,
    deny: &Vec<String>,
    username: &str,
) -> (r: bool)
    ensures
        r == intercept_spec(enabled, format_known, query@, min_query_len, strings_view(deny@), username@),
{
    if !enabled || !format_known {
        return false;
    }
    let q = effective_query(query);
    let mut bytes: u128 = 0;
    let mut i: usize = 0;
    while i < q.len()
        invariant
            i <= q@.len(),
            bytes == utf8_bytes(q@.take(i as int)),
            bytes <= 4 * i,
        decreases q@.len() - i,
    {
        proof {
            assert(q@.take(i + 1).drop_last() =~= q@.take(i as int));
        }
        let w = crate::ingest::utf8_len_exec(q[i]);
        bytes = bytes + w as u128;
        i += 1;
    }
    proof {
        assert(q@.take(q@.len() as int) =~= q@);
    }
    if bytes < min_query_len as u128 {
        return false;
    }
    let mut d: usize = 0;
    while d < deny.len()
        invariant
            d <= deny@.len(),
            forall|j: int| 0 <= j < d ==> strings_view(deny@)[j] != username@,
        decreases deny@.len() - d,
    {
        if str_eq(deny[d].as_str(), username) {
            assert(strings_view(deny@)[d as int] == username@);
            return false;
        }
        d += 1;
    }
    proof {
        if strings_view(deny@).contains(username@) {
            let j = choose|j: int| 0 <= j < strings_view(deny@).len() && strings_view(deny@)[j] == username@;
            assert(strings_view(deny@)[j] != username@);
        }
    }
    true
}

// ----------------------------------------------- XML search responses

/// The root element of an XML response has a `status` attribute whose value
/// is `ok`. A body without a root element before the end or an error is not
/// ok.
pub open spec fn is_ok_xml_spec(body: Seq<char>) -> bool {
    let evs = xml_read(body).0;
    match first_open(evs, "subsonic-response"@) {
        Some(i) => has_status_ok(xml_tag(evs[i].1).1),
        None => false,
    }
}

/// Some attribute is `status` with the value `ok`.
pub open spec fn has_status_ok(attrs: Seq<(Seq<char>, Option<Seq<char>>)>) -> bool {
    exists|j: int| 0 <= j < attrs.len() && status_is_ok(#[trigger] attrs[j])
}

pub open spec fn status_is_ok(a: (Seq<char>, Option<Seq<char>>)) -> bool {
    a.0 == "status"@ && a.1 == Some("ok"@)
}

/// Whether an XML response is ok (see `is_ok_xml_spec`).
pub fn is_ok_xml(body: &str) -> (r: bool)
    ensures
        r == is_ok_xml_spec(body@),
{
    let (events, _failed) = read_events(body);
    match find_open(&events, "subsonic-response") {
        Some(i) => {
            let (_name, attrs) = tag_parts(events[i].text.as_str());
            let ghost av = crate::xml::attrs_view(attrs@);
            assert(crate::xml::events_view(events@)[i as int].1 == events@[i as int].text@);
            assert(av == xml_tag(xml_read(body@).0[i as int].1).1);
            let mut j: usize = 0;
            while j < attrs.len()
                invariant
                    j <= attrs@.len(),
                    av == crate::xml::attrs_view(attrs@),
                    first_open(xml_read(body@).0, "subsonic-response"@) == Some(i as int),
                    i < xml_read(body@).0.len(),
                    av == xml_tag(xml_read(body@).0[i as int].1).1,
                    forall|k: int| 0 <= k < j ==> !status_is_ok(#[trigger] av[k]),
                decreases attrs@.len() - j,
            {
                let ok = match &attrs[j].1 {
                    Some(v) => str_eq(v.as_str(), "ok"),
                    None => false,
                };
                if str_eq(attrs[j].0.as_str(), "status") && ok {
                    assert(status_is_ok(av[j as int]));
                    assert(has_status_ok(av));
                    return true;
                }
                j += 1;
            }
            false
        },
        None => false,
    }
}

/// The key of a `song` tag: its last `artist` and `title` attributes
/// (empty when missing or not unescaped) and its last `duration` attribute
/// read as an `i64`.
pub open spec fn song_tag_key(attrs: Seq<(Seq<char>, Option<Seq<char>>)>) -> (Seq<char>, Seq<char>, Option<int>) {
    key_spec(
        attr_or_empty(attrs, "artist"@),
        attr_or_empty(attrs, "title"@),
        match parse_i64_spec(attr_or_empty(attrs, "duration"@)) {
            Some(n) => Some(n as i64),
            None => None,
        },
    )
}

/// The keys of the `song` tags (start or empty) among the events, in order.
pub open spec fn xml_song_keys(evs: Seq<(XmlKind, Seq<char>)>) -> Seq<(Seq<char>, Seq<char>, Option<int>)>
    decreases evs.len(),
{
    if evs.len() == 0 {
        Seq::empty()
    } else {
        let prev = xml_song_keys(evs.drop_last());
        let e = evs.last();
        if is_tag_open(e.0) && xml_tag(e.1).0 == "song"@ {
            prev.push(song_tag_key(xml_tag(e.1).1))
        } else {
            prev
        }
    }
}

/// The keys of the songs in an XML search response: every `song` tag read
/// before the end of the body or its first error.
pub fn existing_songs_xml(body: &str) -> (r: Vec<SongKey>)
    ensures
        keys_view(r@) == xml_song_keys(xml_read(body@).0),
{
    let (events, _failed) = read_events(body);
    let ghost evs = crate::xml::events_view(events@);
    let mut out: Vec<SongKey> = Vec::new();
    let mut i: usize = 0;
    while i < events.len()
        invariant
            i <= events@.len(),
            evs == crate::xml::events_view(events@),
            keys_view(out@) == xml_song_keys(evs.take(i as int)),
        decreases events@.len() - i,
    {
        let e = &events[i];
        proof {
            assert(evs.take(i + 1).drop_last() =~= evs.take(i as int));
            assert(evs.take(i + 1).last() == (e.kind, e.text@));
        }
        if e.kind == XmlKind::Start || e.kind == XmlKind::Empty {
            let (name, attrs) = tag_parts(e.text.as_str());
            if str_eq(name.as_str(), "song") {
                let artist = attr_text_or_empty(&attrs, "artist");
                let title = attr_text_or_empty(&attrs, "title");
                let duration = parse_i64(chars_of(attr_text_or_empty(&attrs, "duration").as_str()).as_slice());
                let k = SongKey::new(artist.as_str(), title.as_str(), duration);
                let ghost before = out@;
                out.push(k);
                proof {
                    assert(out@ == before.push(k));
                    assert(keys_view(out@) =~= keys_view(before).push(k@));
                }
            }
        }
        i += 1;
    }
    assert(evs.take(events@.len() as int) =~= evs);
    out
}

/// The body of an XML search response with the entries appended as `song`
/// elements inside the result element: an empty result element is opened
/// and closed around them, and a missing one is created before the end of
/// the response; everything else is written back as read. A body quick-xml
/// stops on with an error is refused.
pub fn inject_xml(body: &str, result_key: &str, entries: &[SongEntry]) -> (r: Result<String, MalformedXml>)
    ensures
        match r {
            Ok(s) => !xml_read(body@).1 && s@ == injected_text(
                xml_read(body@).0,
                result_key@,
                songs_xml(entries@, "song"@),
                true,
            ),
            Err(_) => xml_read(body@).1,
        },
{
    let (events, failed) = read_events(body);
    if failed {
        return Err(MalformedXml);
    }
    let payload = write_songs_xml(entries, "song");
    let out = inject_events(&events, result_key, payload.as_slice(), true);
    Ok(string_of(out.as_slice()))
}

} // verus!
