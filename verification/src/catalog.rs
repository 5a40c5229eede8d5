//! External catalog data (Deezer public API shapes) and artist matching.
use vstd::prelude::*;

use crate::recs::{normalize, normalize_spec};
use crate::text::{
    chars_of, copy_str, extend_chars, lowercase, lowercased, seq_eq, str_eq, string_of,
    u64_decimal, decimal,
};
use crate::valbum::{AlbumPayload, AlbumTrackPayload, NewVirtualAlbum};
use crate::vtrack::CatalogTrack;

verus! {

pub const PROVIDER: &'static str = "deezer";

/// Artist identity with aliases for common Cyrillic/Latin spellings.
pub open spec fn artist_key_spec(name: Seq<char>) -> Seq<char> {
    let n = normalize_spec(name);
    if n == "oksimiron"@ || n == "oxxxymiron"@ {
        "oxxxymiron"@
    } else if n == "skriptonit"@ || n == "skryptonite"@ || n == "scriptonite"@ {
        "skryptonite"@
    } else {
        n
    }
}

pub fn artist_key(name: &str) -> (r: String)
    ensures
        r@ == artist_key_spec(name@),
{
    let n = normalize(name);
    let nc = chars_of(n.as_str());
    let is = |lit: &str| -> (b: bool)
        ensures b == (nc@ == lit@)
    {
        let l = chars_of(lit);
        seq_eq(nc.as_slice(), l.as_slice())
    };
    if is("oksimiron") || is("oxxxymiron") {
        copy_str("oxxxymiron")
    } else if is("skriptonit") || is("skryptonite") || is("scriptonite") {
        copy_str("skryptonite")
    } else {
        n
    }
}


// ------------------------------------------------------------ search

/// One entry of a Deezer search response.
#[derive(Debug, Clone)]
pub struct SearchTrack {
    pub id: u64,
    pub title: String,
    /// Seconds.
    pub duration: Option<i64>,
    pub artist_name: String,
    pub album: Option<SearchAlbum>,
    /// The entry's `type`; empty when the response leaves it out.
    pub kind: String,
}

#[derive(Debug, Clone)]
pub struct SearchAlbum {
    pub title: String,
    pub cover_big: Option<String>,
    pub cover_xl: Option<String>,
}

/// Seconds to milliseconds fit in `i64`.
pub open spec fn secs_fit(d: Option<i64>) -> bool {
    match d {
        Some(s) => i64::MIN <= s * 1000 <= i64::MAX,
        None => true,
    }
}

pub open spec fn secs_to_ms(d: Option<i64>) -> Option<i64> {
    match d {
        Some(s) => Some((s * 1000) as i64),
        None => None,
    }
}

fn secs_to_ms_exec(d: Option<i64>) -> (r: Option<i64>)
    requires
        secs_fit(d),
    ensures
        r == secs_to_ms(d),
{
    match d {
        Some(s) => Some(s * 1000),
        None => None,
    }
}

/// Search entries that are tracks: `type` absent or `track`.
pub open spec fn is_track_entry(t: SearchTrack) -> bool {
    t.kind@.len() == 0 || t.kind@ == "track"@
}

/// A search entry as catalog metadata: the decimal id, the album title, the
/// duration in milliseconds, and the album's XL cover else its big one.
pub open spec fn catalog_track_of(t: SearchTrack, c: CatalogTrack) -> bool {
    &&& c.provider@ == "deezer"@
    &&& c.provider_track_id@ == decimal(t.id as nat)
    &&& c.artist == t.artist_name
    &&& c.title == t.title
    &&& c.album == (match t.album {
        Some(a) => Some(a.title),
        None => None,
    })
    &&& c.duration_ms == secs_to_ms(t.duration)
    &&& c.isrc is None
    &&& c.artwork_url == (match t.album {
        Some(a) => if a.cover_xl is Some {
            a.cover_xl
        } else {
            a.cover_big
        },
        None => None,
    })
}

fn copy_opt(o: &Option<String>) -> (r: Option<String>)
    ensures
        r == *o,
{
    match o {
        Some(s) => Some(s.clone()),
        None => None,
    }
}

fn catalog_track_from(t: &SearchTrack) -> (c: CatalogTrack)
    requires
        secs_fit(t.duration),
    ensures
        catalog_track_of(*t, c),
{
    let (album, artwork_url) = match &t.album {
        Some(a) => (
            Some(a.title.clone()),
            if a.cover_xl.is_some() {
                copy_opt(&a.cover_xl)
            } else {
                copy_opt(&a.cover_big)
            },
        ),
        None => (None, None),
    };
    CatalogTrack {
        provider: PROVIDER,
        provider_track_id: string_of(u64_decimal(t.id).as_slice()),
        artist: t.artist_name.clone(),
        title: t.title.clone(),
        album,
        duration_ms: secs_to_ms_exec(t.duration),
        isrc: None,
        artwork_url,
    }
}

/// The track entries of a search response, in order, as catalog metadata.
pub open spec fn search_results_spec(data: Seq<SearchTrack>, out: Seq<CatalogTrack>) -> bool {
    let kept = data.filter(|t: SearchTrack| is_track_entry(t));
    &&& out.len() == kept.len()
    &&& forall|i: int| 0 <= i < out.len() ==> catalog_track_of(kept[i], #[trigger] out[i])
}

/// Map a Deezer search response to catalog tracks (other entry types are
/// dropped).
pub fn catalog_tracks_from_search(data: &Vec<SearchTrack>) -> (r: Vec<CatalogTrack>)
    requires
        forall|i: int| 0 <= i < data@.len() ==> secs_fit(#[trigger] data@[i].duration),
    ensures
        search_results_spec(data@, r@),
{
    let ghost pred = |t: SearchTrack| is_track_entry(t);
    let mut out: Vec<CatalogTrack> = Vec::new();
    let mut i: usize = 0;
    while i < data.len()
        invariant
            i <= data@.len(),
            pred == (|t: SearchTrack| is_track_entry(t)),
            forall|k: int| 0 <= k < data@.len() ==> secs_fit(#[trigger] data@[k].duration),
            out@.len() == data@.take(i as int).filter(pred).len(),
            forall|k: int|
                0 <= k < out@.len() ==> catalog_track_of(
                    data@.take(i as int).filter(pred)[k],
                    #[trigger] out@[k],
                ),
        decreases data@.len() - i,
    {
        proof {
            assert(data@.take(i + 1) =~= data@.take(i as int).push(data@[i as int]));
            data@.take(i as int).lemma_filter_push(data@[i as int], pred);
        }
        let t = &data[i];
        proof {
            reveal_strlit("track");
        }
        let kind = chars_of(t.kind.as_str());
        let is_track = kind.len() == 0 || str_eq(t.kind.as_str(), "track");
        if is_track {
            let c = catalog_track_from(t);
            out.push(c);
        }
        i += 1;
    }
    proof {
        assert(data@.take(data@.len() as int) =~= data@);
    }
    out
}

/// The advanced-search query for an artist's tracks: `artist:"NAME"` with
/// any double quotes in the name removed.
pub open spec fn artist_query_spec(artist: Seq<char>) -> Seq<char> {
    "artist:\""@ + artist.filter(|c: char| c != '"') + "\""@
}

pub fn artist_query(artist: &str) -> (r: String)
    ensures
        r@ == artist_query_spec(artist@),
{
    let a = chars_of(artist);
    let ghost pred = |c: char| c != '"';
    let mut kept: Vec<char> = Vec::new();
    let mut i: usize = 0;
    while i < a.len()
        invariant
            i <= a@.len(),
            pred == (|c: char| c != '"'),
            kept@ == a@.take(i as int).filter(pred),
        decreases a@.len() - i,
    {
        proof {
            assert(a@.take(i + 1) =~= a@.take(i as int).push(a@[i as int]));
            a@.take(i as int).lemma_filter_push(a@[i as int], pred);
        }
        if a[i] != '"' {
            kept.push(a[i]);
        }
        i += 1;
    }
    proof {
        assert(a@.take(a@.len() as int) =~= a@);
    }
    let mut v = chars_of("artist:\"");
    extend_chars(&mut v, kept.as_slice());
    extend_chars(&mut v, chars_of("\"").as_slice());
    string_of(v.as_slice())
}

/// An artist's top tracks keep only hits whose artist lowercases to the
/// wanted artist's lowercase form.
pub fn keep_artist_tracks(tracks: Vec<CatalogTrack>, artist: &str) -> (r: Vec<CatalogTrack>)
    ensures
        r@ == tracks@.filter(|t: CatalogTrack| lowercased(t.artist@) == lowercased(artist@)),
{
    let ghost pred = |t: CatalogTrack| lowercased(t.artist@) == lowercased(artist@);
    let wanted = lowercase(artist);
    let mut out: Vec<CatalogTrack> = Vec::new();
    let mut i: usize = 0;
    while i < tracks.len()
        invariant
            i <= tracks@.len(),
            pred == (|t: CatalogTrack| lowercased(t.artist@) == lowercased(artist@)),
            wanted@ == lowercased(artist@),
            out@ == tracks@.take(i as int).filter(pred),
        decreases tracks@.len() - i,
    {
        proof {
            assert(tracks@.take(i + 1) =~= tracks@.take(i as int).push(tracks@[i as int]));
            tracks@.take(i as int).lemma_filter_push(tracks@[i as int], pred);
        }
        let same = str_eq(lowercase(tracks[i].artist.as_str()).as_str(), wanted.as_str());
        if same {
            out.push(copy_catalog_track(&tracks[i]));
        }
        i += 1;
    }
    proof {
        assert(tracks@.take(tracks@.len() as int) =~= tracks@);
    }
    out
}

fn copy_catalog_track(t: &CatalogTrack) -> (r: CatalogTrack)
    ensures
        r == *t,
{
    CatalogTrack {
        provider: t.provider,
        provider_track_id: t.provider_track_id.clone(),
        artist: t.artist.clone(),
        title: t.title.clone(),
        album: copy_opt(&t.album),
        duration_ms: t.duration_ms,
        isrc: copy_opt(&t.isrc),
        artwork_url: copy_opt(&t.artwork_url),
    }
}


// ---------------------------------------------------------- artists

/// One entry of a Deezer artist search.
#[derive(Debug, Clone)]
pub struct ArtistHit {
    pub id: u64,
    pub name: String,
    pub nb_fan: Option<u64>,
    pub picture_big: Option<String>,
    pub picture_xl: Option<String>,
}

/// The catalog artist chosen for a library artist, with its match score.
#[derive(Debug, Clone)]
pub struct ResolvedArtist {
    pub id: u64,
    pub name: String,
    pub score: u32,
    pub artwork_url: Option<String>,
}

/// How well a catalog artist name matches a library artist: 100 when their
/// artist keys agree, 95 when their normalized names agree, else `fuzzy`
/// (the Jaro-Winkler similarity of the normalized names, scaled to 90 and
/// rounded, which the caller computes).
pub open spec fn match_score_spec(library: Seq<char>, candidate: Seq<char>, fuzzy: u32) -> u32 {
    if artist_key_spec(library) == artist_key_spec(candidate) {
        100
    } else if normalize_spec(library) == normalize_spec(candidate) {
        95
    } else {
        fuzzy
    }
}

pub fn artist_match_score(library_artist: &str, candidate: &str, fuzzy: u32) -> (r: u32)
    ensures
        r == match_score_spec(library_artist@, candidate@, fuzzy),
{
    let lk = artist_key(library_artist);
    let ck = artist_key(candidate);
    if str_eq(lk.as_str(), ck.as_str()) {
        return 100;
    }
    let ln = normalize(library_artist);
    let cn = normalize(candidate);
    if str_eq(ln.as_str(), cn.as_str()) {
        return 95;
    }
    fuzzy
}

pub open spec fn fans(h: ArtistHit) -> nat {
    match h.nb_fan {
        Some(n) => n as nat,
        None => 0,
    }
}

/// The index of the best hit among the first `n`: the highest score, ties
/// going to more fans, and remaining ties to the earlier hit.
pub open spec fn best_hit(scores: Seq<u32>, hits: Seq<ArtistHit>, n: nat) -> Option<int>
    decreases n,
{
    if n == 0 {
        None
    } else {
        let i = n - 1;
        match best_hit(scores, hits, (n - 1) as nat) {
            None => Some(i),
            Some(b) => if scores[i] > scores[b] || (scores[i] == scores[b] && fans(hits[i]) > fans(
                hits[b],
            )) {
                Some(i)
            } else {
                Some(b)
            },
        }
    }
}

proof fn lemma_best_hit_range(scores: Seq<u32>, hits: Seq<ArtistHit>, n: nat)
    ensures
        n == 0 <==> best_hit(scores, hits, n) is None,
        best_hit(scores, hits, n) is Some ==> 0 <= best_hit(scores, hits, n).unwrap() < n,
    decreases n,
{
    if n > 0 {
        lemma_best_hit_range(scores, hits, (n - 1) as nat);
    }
}

/// Pick the catalog artist for `library_artist` among search hits (see
/// `best_hit`), or nothing when there are no hits or the best scores below
/// `min_score`. `fuzzy[i]` is the fuzzy score of `hits[i]`.
pub fn resolve_artist_from_hits(
    library_artist: &str,
    hits: Vec<ArtistHit>,
    fuzzy: &Vec<u32>,
    min_score: u32,
) -> (r: Option<ResolvedArtist>)
    requires
        fuzzy@.len() == hits@.len(),
    ensures
        ({
            let scores = Seq::new(
                hits@.len(),
                |i: int| match_score_spec(library_artist@, hits@[i].name@, fuzzy@[i]),
            );
            match best_hit(scores, hits@, hits@.len()) {
                None => r is None,
                Some(b) => if scores[b] < min_score {
                    r is None
                } else {
                    &&& r is Some
                    &&& r.unwrap().id == hits@[b].id
                    &&& r.unwrap().name == hits@[b].name
                    &&& r.unwrap().score == scores[b]
                    &&& r.unwrap().artwork_url == (if hits@[b].picture_xl is Some {
                        hits@[b].picture_xl
                    } else {
                        hits@[b].picture_big
                    })
                },
            }
        }),
{
    let ghost scores = Seq::new(
        hits@.len(),
        |i: int| match_score_spec(library_artist@, hits@[i].name@, fuzzy@[i]),
    );
    let mut best: Option<(u32, usize)> = None;
    let mut i: usize = 0;
    while i < hits.len()
        invariant
            i <= hits@.len(),
            fuzzy@.len() == hits@.len(),
            scores == Seq::new(
                hits@.len(),
                |i: int| match_score_spec(library_artist@, hits@[i].name@, fuzzy@[i]),
            ),
            match best_hit(scores, hits@, i as nat) {
                None => best is None,
                Some(b) => best is Some && best.unwrap().1 == b && best.unwrap().0 == scores[b],
            },
        decreases hits@.len() - i,
    {
        proof {
            lemma_best_hit_range(scores, hits@, i as nat);
        }
        let score = artist_match_score(library_artist, hits[i].name.as_str(), fuzzy[i]);
        let fan_i: u64 = match hits[i].nb_fan {
            Some(n) => n,
            None => 0,
        };
        let replace = match best {
            None => true,
            Some((bs, bi)) => {
                let fan_b: u64 = match hits[bi].nb_fan {
                    Some(n) => n,
                    None => 0,
                };
                score > bs || (score == bs && fan_i > fan_b)
            },
        };
        if replace {
            best = Some((score, i));
        }
        i += 1;
    }
    proof {
        lemma_best_hit_range(scores, hits@, hits@.len());
    }
    match best {
        None => None,
        Some((score, bi)) => {
            if score < min_score {
                None
            } else {
                let h = &hits[bi];
                Some(
                    ResolvedArtist {
                        id: h.id,
                        name: h.name.clone(),
                        score,
                        artwork_url: if h.picture_xl.is_some() {
                            copy_opt(&h.picture_xl)
                        } else {
                            copy_opt(&h.picture_big)
                        },
                    },
                )
            }
        },
    }
}

// ----------------------------------------------------------- albums

/// One album of an artist's album list.
#[derive(Debug, Clone)]
pub struct AlbumSummary {
    pub id: u64,
    pub title: String,
    pub record_type: Option<String>,
    pub release_date: Option<String>,
    pub cover_big: Option<String>,
    pub cover_xl: Option<String>,
    pub nb_tracks: Option<i64>,
}

/// An album with its track list, as the album endpoint returns it.
#[derive(Debug, Clone)]
pub struct AlbumDetail {
    pub id: u64,
    pub title: String,
    pub record_type: Option<String>,
    pub release_date: Option<String>,
    pub cover_big: Option<String>,
    pub cover_xl: Option<String>,
    pub nb_tracks: Option<i64>,
    pub artist_name: String,
    pub tracks: Vec<AlbumTrack>,
}

#[derive(Debug, Clone)]
pub struct AlbumTrack {
    pub id: u64,
    pub title: String,
    /// Seconds.
    pub duration: Option<i64>,
    pub artist_name: Option<String>,
    pub disk_number: Option<i64>,
    pub track_position: Option<i64>,
    pub isrc: Option<String>,
}

/// An album as cached for artist expansion.
#[derive(Debug, Clone)]
pub struct CatalogAlbumCache {
    pub provider_album_id: String,
    pub artist: String,
    pub title: String,
    pub album_type: Option<String>,
    pub release_date: Option<String>,
    pub artwork_url: Option<String>,
    pub track_count: Option<i64>,
    pub payload: AlbumPayload,
}

/// A payload track made from an album track: its own artist else the
/// album's, the album title, milliseconds, and the album artwork.
pub open spec fn payload_track_of(
    d: AlbumDetail,
    t: AlbumTrack,
    artwork: Option<String>,
    p: AlbumTrackPayload,
) -> bool {
    &&& p.provider_track_id@ == decimal(t.id as nat)
    &&& p.artist == (match t.artist_name {
        Some(a) => a,
        None => d.artist_name,
    })
    &&& p.title == t.title
    &&& p.album == d.title
    &&& p.duration_ms == secs_to_ms(t.duration)
    &&& p.isrc == t.isrc
    &&& p.artwork_url == artwork
    &&& p.disc_number == t.disk_number
    &&& p.track_number == t.track_position
}

impl AlbumDetail {
    /// The album's artwork: the XL cover else the big one.
    pub open spec fn artwork(self) -> Option<String> {
        if self.cover_xl is Some {
            self.cover_xl
        } else {
            self.cover_big
        }
    }

    /// The cache record for this album, keeping at most `max_tracks` tracks.
    pub fn into_cache(self, max_tracks: u32) -> (r: CatalogAlbumCache)
        requires
            forall|i: int| 0 <= i < self.tracks@.len() ==> secs_fit(#[trigger] self.tracks@[i].duration),
        ensures
            r.provider_album_id@ == decimal(self.id as nat),
            r.artist == self.artist_name,
            r.title == self.title,
            r.album_type == self.record_type,
            r.release_date == self.release_date,
            r.artwork_url == self.artwork(),
            r.track_count == self.nb_tracks,
            r.payload.tracks@.len() == (if self.tracks@.len() < max_tracks {
                self.tracks@.len() as int
            } else {
                max_tracks as int
            }),
            forall|i: int|
                0 <= i < r.payload.tracks@.len() ==> payload_track_of(
                    self,
                    self.tracks@[i],
                    self.artwork(),
                    #[trigger] r.payload.tracks@[i],
                ),
    {
        let artwork_url = if self.cover_xl.is_some() {
            copy_opt(&self.cover_xl)
        } else {
            copy_opt(&self.cover_big)
        };
        let limit: usize = if (max_tracks as u64) < (self.tracks.len() as u64) {
            max_tracks as usize
        } else {
            self.tracks.len()
        };
        let mut tracks: Vec<AlbumTrackPayload> = Vec::new();
        let mut i: usize = 0;
        while i < limit
            invariant
                i <= limit <= self.tracks@.len(),
                artwork_url == self.artwork(),
                forall|k: int| 0 <= k < self.tracks@.len() ==> secs_fit(#[trigger] self.tracks@[k].duration),
                tracks@.len() == i,
                forall|k: int|
                    0 <= k < i ==> payload_track_of(
                        self,
                        self.tracks@[k],
                        self.artwork(),
                        #[trigger] tracks@[k],
                    ),
            decreases limit - i,
        {
            let t = &self.tracks[i];
            let artist = match &t.artist_name {
                Some(a) => a.clone(),
                None => self.artist_name.clone(),
            };
            tracks.push(
                AlbumTrackPayload {
                    provider_track_id: string_of(u64_decimal(t.id).as_slice()),
                    artist,
                    title: t.title.clone(),
                    album: self.title.clone(),
                    duration_ms: secs_to_ms_exec(t.duration),
                    isrc: copy_opt(&t.isrc),
                    artwork_url: copy_opt(&artwork_url),
                    disc_number: t.disk_number,
                    track_number: t.track_position,
                },
            );
            i += 1;
        }
        CatalogAlbumCache {
            provider_album_id: string_of(u64_decimal(self.id).as_slice()),
            artist: self.artist_name,
            title: self.title,
            album_type: self.record_type,
            release_date: self.release_date,
            artwork_url,
            track_count: self.nb_tracks,
            payload: AlbumPayload { tracks },
        }
    }
}

impl CatalogAlbumCache {
    /// The cached album as a Deezer virtual album to store.
    pub fn into_new_virtual_album(self) -> (r: NewVirtualAlbum)
        ensures
            r.provider@ == "deezer"@,
            r.provider_album_id == self.provider_album_id,
            r.artist == self.artist,
            r.title == self.title,
            r.album_type == self.album_type,
            r.release_date == self.release_date,
            r.artwork_url == self.artwork_url,
            r.track_count == self.track_count,
            r.payload.tracks@ == self.payload.tracks@,
    {
        NewVirtualAlbum {
            provider: PROVIDER,
            provider_album_id: self.provider_album_id,
            artist: self.artist,
            title: self.title,
            album_type: self.album_type,
            release_date: self.release_date,
            artwork_url: self.artwork_url,
            track_count: self.track_count,
            payload: self.payload,
        }
    }
}

// ---------------------------------------------------- catalog sources

/// Which catalogs a search asks, by the configured provider: Deezer serves
/// `deezer` and `ytmusic`, Yandex serves `yandex`, `both` asks Deezer then
/// Yandex (a Yandex failure then only abstains).
pub fn search_sources(provider: crate::config::Provider) -> (r: (bool, bool))
    ensures
        r.0 == (provider != crate::config::Provider::Yandex),
        r.1 == (provider == crate::config::Provider::Yandex || provider
            == crate::config::Provider::Both),
{
    match provider {
        crate::config::Provider::Deezer => (true, false),
        crate::config::Provider::Ytmusic => (true, false),
        crate::config::Provider::Yandex => (false, true),
        crate::config::Provider::Both => (true, true),
    }
}

/// A Yandex helper track as catalog metadata.
pub fn catalog_track_from_yandex(track: crate::yandex::YandexTrack) -> (r: CatalogTrack)
    ensures
        r.provider@ == "yandex"@,
        r.provider_track_id == track.track_id,
        r.artist == track.artist,
        r.title == track.title,
        r.album == track.album,
        r.duration_ms == track.duration_ms,
        r.isrc == track.isrc,
        r.artwork_url == track.artwork_url,
{
    CatalogTrack {
        provider: crate::yandex::PROVIDER,
        provider_track_id: track.track_id,
        artist: track.artist,
        title: track.title,
        album: track.album,
        duration_ms: track.duration_ms,
        isrc: track.isrc,
        artwork_url: track.artwork_url,
    }
}

} // verus!
