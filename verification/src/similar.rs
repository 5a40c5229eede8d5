//! Recommendations for getSimilarSongs/getSimilarSongs2/getTopSongs: the
//! request rules, the seed, and which merged candidates become the virtual
//! songs appended to a response. Provider calls and storage happen at the
//! program's edge; every choice between them is made here.
use vstd::prelude::*;

use crate::recs::{normalize, normalize_spec, song_key, song_key_spec, RecCandidate};
use crate::search::{any_key_matches, any_match, keys_match, keys_view, key_spec, secs_of, secs_of_exec, SongKey};
use crate::text::{
    chars_of, copy_str, extend_chars, parse_u32, parse_unsigned, str_eq, string_of,
};
use crate::vtrack::{CatalogTrack, VirtualTrack};
use crate::json::{jview, lemma_jview_array, lemma_jview_object, members_view, push_member, Json, JsonView};
use crate::playlists::{entries_json, entries_view};
use crate::subsonic::{songs_xml, write_songs_xml, SongEntry};
use crate::xml::{write_event, written, XmlKind};

verus! {

pub const YTM_PROVIDER: &'static str = "ytmusic";

/// The most candidates asked of each provider.
pub const MAX_FETCH: usize = 50;

#[derive(Debug, Clone, Copy, PartialEq, Eq)]
pub enum RecKind {
    SimilarSongs,
    SimilarSongs2,
    TopSongs,
}

impl RecKind {
    /// The element of the response that holds the songs.
    pub fn result_key(self) -> (r: &'static str)
        ensures
            self == RecKind::SimilarSongs ==> r@ == "similarSongs"@,
            self == RecKind::SimilarSongs2 ==> r@ == "similarSongs2"@,
            self == RecKind::TopSongs ==> r@ == "topSongs"@,
    {
        match self {
            RecKind::SimilarSongs => "similarSongs",
            RecKind::SimilarSongs2 => "similarSongs2",
            RecKind::TopSongs => "topSongs",
        }
    }
}

/// What a seed needs to fan out to providers: who and what to look up, and
/// the provider identity that lets a ytmusic seed skip the song search.
#[derive(Debug, Clone)]
pub struct SeedTrack {
    pub artist: String,
    pub title: String,
    pub provider: String,
    pub provider_track_id: String,
}

impl SeedTrack {
    pub fn from_track(track: VirtualTrack) -> (r: SeedTrack)
        ensures
            r.artist == track.artist,
            r.title == track.title,
            r.provider == track.provider,
            r.provider_track_id == track.provider_track_id,
    {
        SeedTrack {
            artist: track.artist,
            title: track.title,
            provider: track.provider,
            provider_track_id: track.provider_track_id,
        }
    }
}

/// The `count` parameter: a `u32` when it parses, else `max_results`, and
/// never more than `max_results`.
pub open spec fn requested_count_spec(raw: Option<Seq<char>>, max_results: u32) -> int {
    let v: int = match raw {
        Some(s) => match parse_unsigned(s, u32::MAX as int) {
            Some(n) => n,
            None => max_results as int,
        },
        None => max_results as int,
    };
    if v < max_results {
        v
    } else {
        max_results as int
    }
}

pub fn requested_count(raw: Option<&str>, max_results: u32) -> (r: usize)
    ensures
        r == requested_count_spec(
            match raw {
                Some(s) => Some(s@),
                None => None,
            },
            max_results,
        ),
{
    let v: u32 = match raw {
        Some(s) => match parse_u32(chars_of(s).as_slice()) {
            Some(n) => n,
            None => max_results,
        },
        None => max_results,
    };
    let m = if v < max_results {
        v
    } else {
        max_results
    };
    m as usize
}

/// How many candidates to ask each provider for `count` results: twice the
/// count, within `count..=MAX_FETCH`.
pub open spec fn fetch_limit_spec(count: int) -> int {
    if 2 * count > MAX_FETCH {
        MAX_FETCH as int
    } else {
        2 * count
    }
}

pub fn fetch_limit(count: usize) -> (r: usize)
    requires
        count <= MAX_FETCH,
    ensures
        r == fetch_limit_spec(count as int),
        count <= r <= MAX_FETCH,
{
    if count > MAX_FETCH / 2 {
        MAX_FETCH
    } else {
        2 * count
    }
}

/// The cache key of a track seed: `track:` and its song key.
pub fn track_seed_key(seed: &SeedTrack) -> (r: String)
    ensures
        r@ == "track:"@ + song_key_spec(seed.artist@, seed.title@),
{
    let mut v = chars_of("track:");
    extend_chars(&mut v, chars_of(song_key(seed.artist.as_str(), seed.title.as_str()).as_str()).as_slice());
    string_of(v.as_slice())
}

/// The cache key of an artist seed: `artist:` and the normalized name.
pub fn artist_seed_key(artist: &str) -> (r: String)
    ensures
        r@ == "artist:"@ + normalize_spec(artist@),
{
    let mut v = chars_of("artist:");
    extend_chars(&mut v, chars_of(normalize(artist).as_str()).as_slice());
    string_of(v.as_slice())
}

pub fn watch_url(video_id: &str) -> (r: String)
    ensures
        r@ == "https://www.youtube.com/watch?v="@ + video_id@,
{
    crate::ingest_url::yt_watch(video_id)
}

/// A ytmusic seed radios from its own music id; others need a song search.
pub fn own_video_id(seed: &SeedTrack) -> (r: Option<String>)
    ensures
        (seed.provider@ == "ytmusic"@ && seed.provider_track_id@.len() > 0) ==> r == Some(
            seed.provider_track_id,
        ),
        !(seed.provider@ == "ytmusic"@ && seed.provider_track_id@.len() > 0) ==> r is None,
{
    if str_eq(seed.provider.as_str(), YTM_PROVIDER) && chars_of(seed.provider_track_id.as_str()).len()
        > 0 {
        Some(seed.provider_track_id.clone())
    } else {
        None
    }
}

/// The seed of a real song from its `getSong` fields; both are required.
pub fn seed_from_song(id: &str, artist: Option<String>, title: Option<String>) -> (r: Option<SeedTrack>)
    ensures
        (artist is Some && title is Some) ==> r is Some && r.unwrap().artist == artist.unwrap()
            && r.unwrap().title == title.unwrap() && r.unwrap().provider@ == "navidrome"@
            && r.unwrap().provider_track_id@ == id@,
        !(artist is Some && title is Some) ==> r is None,
{
    match (artist, title) {
        (Some(a), Some(t)) => Some(
            SeedTrack {
                artist: a,
                title: t,
                provider: copy_str("navidrome"),
                provider_track_id: copy_str(id),
            },
        ),
        _ => None,
    }
}

// ------------------------------------------------- choosing candidates

/// The key a merged candidate is deduplicated by.
pub open spec fn candidate_key(c: RecCandidate) -> (Seq<char>, Seq<char>, Option<int>) {
    key_spec(c.artist@, c.title@, secs_of(c.duration_ms))
}

pub fn candidate_song_key(c: &RecCandidate) -> (r: SongKey)
    ensures
        r@ == candidate_key(*c),
{
    SongKey::new(c.artist.as_str(), c.title.as_str(), secs_of_exec(c.duration_ms))
}

/// The catalog record for a chosen candidate: Deezer's own when it came
/// from Deezer, else a ytmusic track keyed by its provider id, its video id,
/// or `rec:<song key>`.
pub open spec fn candidate_track_spec(c: RecCandidate, t: CatalogTrack) -> bool {
    &&& t.provider@ == (if c.provider is Some && c.provider.unwrap()@ == "deezer"@ {
        "deezer"@
    } else {
        "ytmusic"@
    })
    &&& t.provider_track_id@ == (match c.provider_track_id {
        Some(p) => p@,
        None => match c.video_id {
            Some(v) => v@,
            None => "rec:"@ + song_key_spec(c.artist@, c.title@),
        },
    })
    &&& t.artist == c.artist
    &&& t.title == c.title
    &&& t.album == c.album
    &&& t.duration_ms == c.duration_ms
    &&& t.isrc == c.isrc
    &&& t.artwork_url == c.artwork_url
}

fn copy_opt(o: &Option<String>) -> (r: Option<String>)
    ensures
        r == *o,
{
    match o {
        Some(s) => Some(s.clone()),
        None => None,
    }
}

pub fn candidate_track(c: &RecCandidate) -> (r: CatalogTrack)
    ensures
        candidate_track_spec(*c, r),
{
    let provider: &'static str = match &c.provider {
        Some(p) => if str_eq(p.as_str(), "deezer") {
            "deezer"
        } else {
            YTM_PROVIDER
        },
        None => YTM_PROVIDER,
    };
    let provider_track_id = match &c.provider_track_id {
        Some(p) => p.clone(),
        None => match &c.video_id {
            Some(v) => v.clone(),
            None => {
                let mut s = chars_of("rec:");
                extend_chars(&mut s, chars_of(song_key(c.artist.as_str(), c.title.as_str()).as_str()).as_slice());
                string_of(s.as_slice())
            },
        },
    };
    CatalogTrack {
        provider,
        provider_track_id,
        artist: c.artist.clone(),
        title: c.title.clone(),
        album: copy_opt(&c.album),
        duration_ms: c.duration_ms,
        isrc: copy_opt(&c.isrc),
        artwork_url: copy_opt(&c.artwork_url),
    }
}

pub open spec fn strings_view(v: Seq<String>) -> Seq<Seq<char>> {
    v.map_values(|s: String| s@)
}

/// The merged candidates that become songs, as a walk over them: the
/// number still wanted, the keys already taken (shown, imported or chosen)
/// and the song keys shown recently.
pub struct RecSelection {
    pub blocked: Vec<SongKey>,
    pub shown: Vec<String>,
    pub wanted: usize,
    pub chosen: Vec<RecCandidate>,
}

/// A candidate is taken when its key matches nothing taken before and its
/// song key was not shown recently.
pub open spec fn takes(blocked: Seq<SongKey>, shown: Seq<String>, c: RecCandidate) -> bool {
    !any_match(keys_view(blocked), candidate_key(c)) && !strings_view(shown).contains(
        song_key_spec(c.artist@, c.title@),
    )
}

impl RecSelection {
    /// A walk that blocks the keys of the songs already in the response and
    /// of imported tracks, avoids `shown`, and wants `count` songs.
    pub fn new(existing: &Vec<SongKey>, imported: &Vec<SongKey>, shown: Vec<String>, count: usize) -> (r:
        RecSelection)
        ensures
            keys_view(r.blocked@) == keys_view(existing@) + keys_view(imported@),
            r.shown == shown,
            r.wanted == count,
            r.chosen@.len() == 0,
    {
        let mut blocked: Vec<SongKey> = Vec::new();
        let mut i: usize = 0;
        while i < existing.len()
            invariant
                i <= existing@.len(),
                keys_view(blocked@) == keys_view(existing@).take(i as int),
            decreases existing@.len() - i,
        {
            let ghost b0 = blocked@;
            let k = copy_key(&existing[i]);
            blocked.push(k);
            proof {
                assert(blocked@ == b0.push(k));
                assert(keys_view(blocked@) =~= keys_view(b0).push(k@));
                assert(keys_view(existing@)[i as int] == existing@[i as int]@);
                assert(keys_view(blocked@) =~= keys_view(existing@).take(i + 1));
            }
            i += 1;
        }
        let mut j: usize = 0;
        while j < imported.len()
            invariant
                j <= imported@.len(),
                keys_view(blocked@) == keys_view(existing@) + keys_view(imported@).take(j as int),
            decreases imported@.len() - j,
        {
            let ghost b0 = blocked@;
            let k = copy_key(&imported[j]);
            blocked.push(k);
            proof {
                assert(blocked@ == b0.push(k));
                assert(keys_view(blocked@) =~= keys_view(b0).push(k@));
                assert(keys_view(imported@)[j as int] == imported@[j as int]@);
                assert(keys_view(blocked@) =~= keys_view(existing@) + keys_view(imported@).take(j + 1));
            }
            j += 1;
        }
        proof {
            assert(keys_view(existing@).take(existing@.len() as int) =~= keys_view(existing@));
            assert(keys_view(imported@).take(imported@.len() as int) =~= keys_view(imported@));
        }
        RecSelection { blocked, shown, wanted: count, chosen: Vec::new() }
    }

    /// Whether the walk still wants songs.
    pub fn wants_more(&self) -> (r: bool)
        ensures
            r == (self.chosen@.len() < self.wanted),
    {
        self.chosen.len() < self.wanted
    }

    /// Whether `c` would be taken now.
    pub fn would_take(&self, c: &RecCandidate) -> (r: bool)
        ensures
            r == takes(self.blocked@, self.shown@, *c),
    {
        let k = candidate_song_key(c);
        if any_key_matches(&self.blocked, &k) {
            return false;
        }
        let sk = song_key(c.artist.as_str(), c.title.as_str());
        let mut i: usize = 0;
        while i < self.shown.len()
            invariant
                i <= self.shown@.len(),
                sk@ == song_key_spec(c.artist@, c.title@),
                forall|j: int| 0 <= j < i ==> strings_view(self.shown@)[j] != sk@,
            decreases self.shown@.len() - i,
        {
            if str_eq(self.shown[i].as_str(), sk.as_str()) {
                assert(strings_view(self.shown@)[i as int] == sk@);
                return false;
            }
            i += 1;
        }
        proof {
            if strings_view(self.shown@).contains(sk@) {
                let j = choose|j: int| 0 <= j < strings_view(self.shown@).len() && strings_view(self.shown@)[j] == sk@;
                assert(strings_view(self.shown@)[j] != sk@);
            }
        }
        true
    }

    /// Record that `c` was stored and appended: its key now blocks later
    /// candidates.
    pub fn take(&mut self, c: RecCandidate)
        ensures
            keys_view(final(self).blocked@) == keys_view(old(self).blocked@).push(candidate_key(c)),
            final(self).chosen@ == old(self).chosen@.push(c),
            final(self).shown == old(self).shown,
            final(self).wanted == old(self).wanted,
    {
        let k = candidate_song_key(&c);
        let ghost b0 = self.blocked@;
        self.blocked.push(k);
        proof {
            assert(self.blocked@ == b0.push(k));
            assert(keys_view(self.blocked@) =~= keys_view(b0).push(k@));
        }
        self.chosen.push(c);
    }
}

pub open spec fn chosen_keys(c: Seq<RecCandidate>) -> Seq<(Seq<char>, Seq<char>, Option<int>)> {
    c.map_values(|x: RecCandidate| candidate_key(x))
}

/// A walk over `base` (the keys of the songs already in the response and of
/// imported tracks) is clean: it blocks exactly `base` and what it chose,
/// and what it chose matches nothing in `base`, matches nothing else it
/// chose, and was not shown recently.
pub open spec fn selection_clean(base: Seq<(Seq<char>, Seq<char>, Option<int>)>, s: RecSelection) -> bool {
    let ck = chosen_keys(s.chosen@);
    &&& keys_view(s.blocked@) == base + ck
    &&& forall|i: int, j: int| #![trigger ck[i], ck[j]] 0 <= i < j < ck.len() ==> !keys_match(ck[i], ck[j])
    &&& forall|i: int, b: int|
        #![trigger ck[i], base[b]]
        0 <= i < ck.len() && 0 <= b < base.len() ==> !keys_match(base[b], ck[i])
    &&& forall|i: int|
        0 <= i < s.chosen@.len() ==> !strings_view(s.shown@).contains(
            song_key_spec(#[trigger] s.chosen@[i].artist@, s.chosen@[i].title@),
        )
}

/// A fresh walk is clean: it blocks the existing and imported keys and has
/// chosen nothing.
pub proof fn law_selection_starts_clean(existing: Seq<SongKey>, imported: Seq<SongKey>, s: RecSelection)
    requires
        keys_view(s.blocked@) == keys_view(existing) + keys_view(imported),
        s.chosen@.len() == 0,
    ensures
        selection_clean(keys_view(existing) + keys_view(imported), s),
{
    assert(chosen_keys(s.chosen@) =~= Seq::<(Seq<char>, Seq<char>, Option<int>)>::empty());
    assert(keys_view(existing) + keys_view(imported) + chosen_keys(s.chosen@) =~= keys_view(existing)
        + keys_view(imported));
}

/// Recommended songs never repeat the library, each other, or what was
/// shown recently: taking a candidate the walk would take keeps a clean walk
/// clean.
pub proof fn law_selection_takes_only_fresh(
    base: Seq<(Seq<char>, Seq<char>, Option<int>)>,
    s: RecSelection,
    n: RecSelection,
    c: RecCandidate,
)
    requires
        selection_clean(base, s),
        takes(s.blocked@, s.shown@, c),
        keys_view(n.blocked@) == keys_view(s.blocked@).push(candidate_key(c)),
        n.chosen@ == s.chosen@.push(c),
        n.shown == s.shown,
    ensures
        selection_clean(base, n),
{
    let ck = chosen_keys(s.chosen@);
    let nk = chosen_keys(n.chosen@);
    let bl = keys_view(s.blocked@);
    assert(nk =~= ck.push(candidate_key(c)));
    assert(keys_view(n.blocked@) =~= base + nk);
    assert forall|i: int, j: int| #![trigger nk[i], nk[j]] 0 <= i < j < nk.len() implies !keys_match(
        nk[i],
        nk[j],
    ) by {
        if j == ck.len() {
            assert(bl[base.len() + i] == ck[i]);
            if keys_match(nk[i], nk[j]) {
                assert(keys_match(bl[base.len() + i], candidate_key(c)));
                assert(any_match(bl, candidate_key(c)));
            }
        } else {
            assert(nk[i] == ck[i] && nk[j] == ck[j]);
        }
    }
    assert forall|i: int, b: int|
        #![trigger nk[i], base[b]]
        0 <= i < nk.len() && 0 <= b < base.len() implies !keys_match(base[b], nk[i]) by {
        if i == ck.len() {
            assert(bl[b] == base[b]);
            if keys_match(base[b], nk[i]) {
                assert(any_match(bl, candidate_key(c)));
            }
        } else {
            assert(nk[i] == ck[i]);
        }
    }
    assert forall|i: int| 0 <= i < n.chosen@.len() implies !strings_view(n.shown@).contains(
        song_key_spec(#[trigger] n.chosen@[i].artist@, n.chosen@[i].title@),
    ) by {
        if i < s.chosen@.len() {
            assert(n.chosen@[i] == s.chosen@[i]);
        }
    }
}

fn copy_key(k: &SongKey) -> (r: SongKey)
    ensures
        r@ == k@,
{
    SongKey { artist: k.artist.clone(), title: k.title.clone(), duration_secs: k.duration_secs }
}

/// A candidate goes to Deezer for canonical metadata unless it came from
/// Deezer or Deezer is not a weighted source.
pub fn needs_canonical(c: &RecCandidate, deezer_weighted: bool) -> (r: bool)
    ensures
        r == (!(c.provider is Some && c.provider.unwrap()@ == "deezer"@) && deezer_weighted),
{
    let from_deezer = match &c.provider {
        Some(p) => str_eq(p.as_str(), "deezer"),
        None => false,
    };
    !from_deezer && deezer_weighted
}

/// A Deezer canonical record keeps the video id of the candidate it replaces.
pub fn with_video_id(canonical: RecCandidate, replaced: &RecCandidate) -> (r: RecCandidate)
    ensures
        r == (RecCandidate { video_id: replaced.video_id, ..canonical }),
{
    RecCandidate { video_id: copy_opt(&replaced.video_id), ..canonical }
}

// ------------------------------------------------------------ payloads

/// The JSON payload of a song list answer: the entries under `song`.
pub fn songs_payload_json(entries: &Vec<SongEntry>) -> (r: Json)
    ensures
        jview(r) == JsonView::Object(seq![("song"@, JsonView::Array(entries_view(entries@)))]),
{
    let list = entries_json(entries);
    proof {
        lemma_jview_array(list);
    }
    let ghost lv = jview(Json::Array(list));
    let mut m: Vec<(String, Json)> = Vec::new();
    assert(members_view(m@) =~= Seq::<(Seq<char>, JsonView)>::empty());
    push_member(&mut m, "song", Json::Array(list));
    proof {
        lemma_jview_object(m);
        assert(members_view(m@) =~= seq![("song"@, lv)]);
    }
    Json::Object(m)
}

/// The XML payload of a song list answer: an element named `key` holding
/// the entries as `song` elements.
pub fn songs_payload_xml(key: &str, entries: &Vec<SongEntry>) -> (r: Vec<char>)
    ensures
        r@ == written(XmlKind::Start, key@) + songs_xml(entries@, "song"@) + written(XmlKind::End, key@),
{
    let name = chars_of(key);
    let mut out: Vec<char> = Vec::new();
    write_event(&mut out, XmlKind::Start, name.as_slice());
    let songs = write_songs_xml(entries.as_slice(), "song");
    extend_chars(&mut out, songs.as_slice());
    write_event(&mut out, XmlKind::End, name.as_slice());
    out
}

} // verus!
