//! Artist expansion: provider albums appended to a library artist as
//! virtual `sga_` albums. Fetching the catalog, storing albums and editing
//! the response happen at the program's edge; which albums are kept, how
//! they are completed and how each is summarized is decided here.
use vstd::prelude::*;

use crate::catalog::{AlbumSummary, CatalogAlbumCache, ResolvedArtist};
use crate::json::{
    as_str, at_key, at_key_exec, key_or_null, str_at, find_member, first_member, items_view, jview, lemma_first_member, lemma_jview_array,
    lemma_jview_object, lemma_members_view_remove, lemma_replace_member, member_or, members_view,
    opt_num_view, opt_str_view, push_member, push_opt, push_opt_num, push_opt_str, put_member,
    set_member, with_member, Json, JsonView,
};
use crate::recs::{normalize, normalize_spec};
use crate::text::{
    all_ascii, chars_of, contains, contains_exec, copy_str, decimal, extend_chars, i64_decimal,
    parse_i64, parse_i64_spec, signed_decimal, slice_chars, str_eq, string_of, u64_decimal,
};
use crate::valbum::{AlbumPayload, AlbumTrackPayload};
use crate::vtrack::CatalogTrack;
use crate::xml::{
    attr_text, attrs_view, events_view, inject_events, injected_text, is_tag_open, last_attr,
    opt_attr_text, opt_seq, push_attr, push_opt_attr, read_events, tag_parts, write_event, written,
    xml_read, xml_tag, MalformedXml, XmlKind,
};
use crate::subsonic::{opt_number, push_opt_number_attr};

verus! {

/// The library artist being expanded: its id, name, and the keys of the
/// albums it already has.
#[derive(Debug, Clone)]
pub struct ArtistContext {
    pub id: String,
    pub name: String,
    pub local_album_keys: Vec<String>,
}

/// A virtual album as listed under an artist.
#[derive(Debug, Clone)]
pub struct AlbumSummaryEntry {
    pub id: String,
    pub name: String,
    pub artist: String,
    pub artist_id: String,
    pub cover_art: Option<String>,
    pub song_count: i64,
    pub duration: i64,
    pub created: String,
    pub year: Option<i64>,
    pub artwork_url: Option<String>,
}

/// An album's identity for matching local albums: its normalized title.
pub fn album_key(title: &str) -> (r: String)
    ensures
        r@ == normalize_spec(title@),
{
    normalize(title)
}

fn copy_opt(o: &Option<String>) -> (r: Option<String>)
    ensures
        r == *o,
{
    match o {
        Some(s) => Some(s.clone()),
        None => None,
    }
}

/// A regular album without artwork (not the top-songs playlist).
pub open spec fn has_artwork_hole(a: CatalogAlbumCache) -> bool {
    a.artwork_url is None && !(a.album_type is Some && a.album_type.unwrap()@ == "playlist"@)
        && !contains(a.provider_album_id@, ":top"@)
}

/// A cached catalog is refetched when some regular album lacks artwork.
pub fn cached_catalog_has_artwork_holes(albums: &[CatalogAlbumCache]) -> (r: bool)
    ensures
        r == exists|i: int| 0 <= i < albums@.len() && has_artwork_hole(#[trigger] albums@[i]),
{
    let mut i: usize = 0;
    while i < albums.len()
        invariant
            i <= albums@.len(),
            forall|j: int| 0 <= j < i ==> !has_artwork_hole(#[trigger] albums@[j]),
        decreases albums@.len() - i,
    {
        let a = &albums[i];
        let playlist = match &a.album_type {
            Some(t) => str_eq(t.as_str(), "playlist"),
            None => false,
        };
        let top = contains_exec(chars_of(a.provider_album_id.as_str()).as_slice(), chars_of(":top").as_slice());
        if a.artwork_url.is_none() && !playlist && !top {
            assert(has_artwork_hole(albums@[i as int]));
            return true;
        }
        i += 1;
    }
    false
}

/// An album's cover: its own artwork, else the first track artwork.
pub fn album_cover_artwork_url(album: &CatalogAlbumCache) -> (r: Option<String>)
    ensures
        r == (if album.artwork_url is Some {
            album.artwork_url
        } else {
            crate::valbum::first_track_artwork(album.payload.tracks@)
        }),
{
    let tracks = &album.payload;
    let detail = crate::valbum::VirtualAlbum {
        id: String::new(),
        provider: String::new(),
        provider_album_id: String::new(),
        artist: String::new(),
        title: String::new(),
        album_type: None,
        release_date: None,
        artwork_url: copy_opt(&album.artwork_url),
        track_count: None,
        payload_json: String::new(),
        status: String::new(),
    };
    crate::valbum::album_artwork_url(&detail, Some(tracks))
}

/// The albums of a resolved artist worth fetching: singles dropped unless
/// wanted, then the first `max_albums`.
pub open spec fn is_single(a: AlbumSummary) -> bool {
    a.record_type is Some && a.record_type.unwrap()@ == "single"@
}

pub fn albums_to_fetch(summaries: Vec<AlbumSummary>, include_singles: bool, max_albums: u32) -> (r: Vec<
    AlbumSummary,
>)
    ensures
        ({
            let kept = if include_singles {
                summaries@
            } else {
                summaries@.filter(|a: AlbumSummary| !is_single(a))
            };
            r@ == kept.take(if kept.len() < max_albums { kept.len() as int } else { max_albums as int })
        }),
{
    let ghost pred = |a: AlbumSummary| !is_single(a);
    let mut kept: Vec<AlbumSummary> = Vec::new();
    let mut i: usize = 0;
    let mut rest = summaries;
    let ghost all = rest@;
    let n = rest.len();
    while i < n
        invariant
            n == all.len(),
            i <= n,
            rest@ == all,
            pred == (|a: AlbumSummary| !is_single(a)),
            kept@ == (if include_singles { all.take(i as int) } else { all.take(i as int).filter(pred) }),
        decreases n - i,
    {
        proof {
            assert(all.take(i + 1) =~= all.take(i as int).push(all[i as int]));
            all.take(i as int).lemma_filter_push(all[i as int], pred);
        }
        let single = match &rest[i].record_type {
            Some(t) => str_eq(t.as_str(), "single"),
            None => false,
        };
        if include_singles || !single {
            kept.push(rest[i].clone_summary());
        }
        i += 1;
    }
    proof {
        assert(all.take(n as int) =~= all);
    }
    let limit: usize = if (kept.len() as u64) < (max_albums as u64) {
        kept.len()
    } else {
        max_albums as usize
    };
    let mut out: Vec<AlbumSummary> = Vec::new();
    let mut j: usize = 0;
    while j < limit
        invariant
            j <= limit <= kept@.len(),
            out@ == kept@.take(j as int),
        decreases limit - j,
    {
        out.push(kept[j].clone_summary());
        proof {
            assert(out@ =~= kept@.take(j + 1));
        }
        j += 1;
    }
    out
}

impl AlbumSummary {
    pub fn clone_summary(&self) -> (r: AlbumSummary)
        ensures
            r == *self,
    {
        AlbumSummary {
            id: self.id,
            title: self.title.clone(),
            record_type: copy_opt(&self.record_type),
            release_date: copy_opt(&self.release_date),
            cover_big: copy_opt(&self.cover_big),
            cover_xl: copy_opt(&self.cover_xl),
            nb_tracks: self.nb_tracks,
        }
    }
}

/// An option, else a fallback.
pub open spec fn or_opt<T>(a: Option<T>, b: Option<T>) -> Option<T> {
    if a is Some {
        a
    } else {
        b
    }
}

/// A fetched album completed from its summary: missing artwork, date, type
/// and count come from the summary, and tracks without artwork take the
/// album's.
pub fn complete_album(album: CatalogAlbumCache, summary: &AlbumSummary) -> (r: CatalogAlbumCache)
    ensures
        r.provider_album_id == album.provider_album_id,
        r.artist == album.artist,
        r.title == album.title,
        r.artwork_url == or_opt(album.artwork_url, or_opt(summary.cover_xl, summary.cover_big)),
        r.release_date == or_opt(album.release_date, summary.release_date),
        r.album_type == or_opt(album.album_type, summary.record_type),
        r.track_count == or_opt(album.track_count, summary.nb_tracks),
        r.payload.tracks@.len() == album.payload.tracks@.len(),
        forall|i: int|
            0 <= i < r.payload.tracks@.len() ==> #[trigger] r.payload.tracks@[i] == (AlbumTrackPayload {
                artwork_url: or_opt(album.payload.tracks@[i].artwork_url, r.artwork_url),
                ..album.payload.tracks@[i]
            }),
{
    let artwork_url = if album.artwork_url.is_some() {
        album.artwork_url
    } else if summary.cover_xl.is_some() {
        copy_opt(&summary.cover_xl)
    } else {
        copy_opt(&summary.cover_big)
    };
    let release_date = if album.release_date.is_some() {
        album.release_date
    } else {
        copy_opt(&summary.release_date)
    };
    let album_type = if album.album_type.is_some() {
        album.album_type
    } else {
        copy_opt(&summary.record_type)
    };
    let track_count = if album.track_count.is_some() {
        album.track_count
    } else {
        summary.nb_tracks
    };
    let mut tracks: Vec<AlbumTrackPayload> = Vec::new();
    let src = album.payload.tracks;
    let mut i: usize = 0;
    while i < src.len()
        invariant
            i <= src@.len(),
            tracks@.len() == i,
            forall|k: int|
                0 <= k < i ==> #[trigger] tracks@[k] == (AlbumTrackPayload {
                    artwork_url: or_opt(src@[k].artwork_url, artwork_url),
                    ..src@[k]
                }),
        decreases src@.len() - i,
    {
        let t = &src[i];
        tracks.push(
            AlbumTrackPayload {
                provider_track_id: t.provider_track_id.clone(),
                artist: t.artist.clone(),
                title: t.title.clone(),
                album: t.album.clone(),
                duration_ms: t.duration_ms,
                isrc: copy_opt(&t.isrc),
                artwork_url: if t.artwork_url.is_some() {
                    copy_opt(&t.artwork_url)
                } else {
                    copy_opt(&artwork_url)
                },
                disc_number: t.disc_number,
                track_number: t.track_number,
            },
        );
        i += 1;
    }
    CatalogAlbumCache {
        provider_album_id: album.provider_album_id,
        artist: album.artist,
        title: album.title,
        album_type,
        release_date,
        artwork_url,
        track_count,
        payload: AlbumPayload { tracks },
    }
}

/// The first artwork among catalog tracks.
pub open spec fn first_catalog_artwork(tracks: Seq<CatalogTrack>) -> Option<String>
    decreases tracks.len(),
{
    if tracks.len() == 0 {
        None
    } else if tracks[0].artwork_url is Some {
        tracks[0].artwork_url
    } else {
        first_catalog_artwork(tracks.drop_first())
    }
}

/// The artist's top tracks as a `Top Songs` playlist album, when there are
/// any: artwork from the artist picture, else the first track's; tracks
/// without artwork take the album's.
pub fn top_songs_album(resolved: &ResolvedArtist, top: Vec<CatalogTrack>) -> (r: Option<CatalogAlbumCache>)
    ensures
        top@.len() == 0 ==> r is None,
        top@.len() > 0 ==> ({
            let art = or_opt(resolved.artwork_url, first_catalog_artwork(top@));
            &&& r is Some
            &&& r.unwrap().provider_album_id@ == "artist:"@ + decimal(resolved.id as nat) + ":top"@
            &&& r.unwrap().artist == resolved.name
            &&& r.unwrap().title@ == "Top Songs"@
            &&& r.unwrap().album_type is Some && r.unwrap().album_type.unwrap()@ == "playlist"@
            &&& r.unwrap().release_date is None
            &&& r.unwrap().artwork_url == art
            &&& r.unwrap().track_count == Some(top@.len() as i64)
            &&& r.unwrap().payload.tracks@.len() == top@.len()
            &&& forall|i: int|
                0 <= i < top@.len() ==> {
                    let p = #[trigger] r.unwrap().payload.tracks@[i];
                    &&& p.provider_track_id == top@[i].provider_track_id
                    &&& p.artist == top@[i].artist
                    &&& p.title == top@[i].title
                    &&& p.album@ == "Top Songs"@
                    &&& p.duration_ms == top@[i].duration_ms
                    &&& p.isrc == top@[i].isrc
                    &&& p.artwork_url == or_opt(top@[i].artwork_url, art)
                    &&& p.disc_number == Some(1i64)
                    &&& p.track_number is None
                }
        }),
{
    if top.len() == 0 {
        return None;
    }
    let mut k: usize = 0;
    proof {
        assert(top@.subrange(0, top@.len() as int) =~= top@);
    }
    while k < top.len() && top[k].artwork_url.is_none()
        invariant
            k <= top@.len(),
            first_catalog_artwork(top@) == first_catalog_artwork(top@.subrange(k as int, top@.len() as int)),
        decreases top@.len() - k,
    {
        proof {
            let rest = top@.subrange(k as int, top@.len() as int);
            assert(rest[0] == top@[k as int]);
            assert(rest.drop_first() =~= top@.subrange(k + 1, top@.len() as int));
        }
        k += 1;
    }
    let first_art = if k < top.len() {
        proof {
            let rest = top@.subrange(k as int, top@.len() as int);
            assert(rest[0] == top@[k as int]);
        }
        copy_opt(&top[k].artwork_url)
    } else {
        proof {
            assert(top@.subrange(k as int, top@.len() as int) =~= Seq::<CatalogTrack>::empty());
        }
        None
    };
    let art = if resolved.artwork_url.is_some() {
        copy_opt(&resolved.artwork_url)
    } else {
        first_art
    };
    let mut tracks: Vec<AlbumTrackPayload> = Vec::new();
    let mut i: usize = 0;
    while i < top.len()
        invariant
            i <= top@.len(),
            tracks@.len() == i,
            forall|j: int|
                0 <= j < i ==> {
                    let p = #[trigger] tracks@[j];
                    &&& p.provider_track_id == top@[j].provider_track_id
                    &&& p.artist == top@[j].artist
                    &&& p.title == top@[j].title
                    &&& p.album@ == "Top Songs"@
                    &&& p.duration_ms == top@[j].duration_ms
                    &&& p.isrc == top@[j].isrc
                    &&& p.artwork_url == or_opt(top@[j].artwork_url, art)
                    &&& p.disc_number == Some(1i64)
                    &&& p.track_number is None
                },
        decreases top@.len() - i,
    {
        let t = &top[i];
        tracks.push(
            AlbumTrackPayload {
                provider_track_id: t.provider_track_id.clone(),
                artist: t.artist.clone(),
                title: t.title.clone(),
                album: copy_str("Top Songs"),
                duration_ms: t.duration_ms,
                isrc: copy_opt(&t.isrc),
                artwork_url: if t.artwork_url.is_some() {
                    copy_opt(&t.artwork_url)
                } else {
                    copy_opt(&art)
                },
                disc_number: Some(1),
                track_number: None,
            },
        );
        i += 1;
    }
    let mut pid = chars_of("artist:");
    extend_chars(&mut pid, u64_decimal(resolved.id).as_slice());
    extend_chars(&mut pid, chars_of(":top").as_slice());
    Some(
        CatalogAlbumCache {
            provider_album_id: string_of(pid.as_slice()),
            artist: resolved.name.clone(),
            title: copy_str("Top Songs"),
            album_type: Some(copy_str("playlist")),
            release_date: None,
            artwork_url: art,
            track_count: Some(top.len() as i64),
            payload: AlbumPayload { tracks },
        },
    )
}

/// An album already in the library (same album key) is not appended.
pub fn is_local_album(ctx: &ArtistContext, title: &str) -> (r: bool)
    ensures
        r == exists|i: int| 0 <= i < ctx.local_album_keys@.len() && #[trigger] ctx.local_album_keys@[i]@ == normalize_spec(title@),
{
    let key = album_key(title);
    let mut i: usize = 0;
    while i < ctx.local_album_keys.len()
        invariant
            i <= ctx.local_album_keys@.len(),
            key@ == normalize_spec(title@),
            forall|j: int| 0 <= j < i ==> ctx.local_album_keys@[j]@ != key@,
        decreases ctx.local_album_keys@.len() - i,
    {
        if str_eq(ctx.local_album_keys[i].as_str(), key.as_str()) {
            return true;
        }
        i += 1;
    }
    false
}

/// The year of a release date: its first four characters, when they are
/// ASCII and parse as an integer.
pub open spec fn year_spec(date: Option<String>) -> Option<i64> {
    match date {
        Some(d) => if d@.len() >= 4 && all_ascii(d@.take(4)) {
            match parse_i64_spec(d@.take(4)) {
                Some(v) => Some(v as i64),
                None => None,
            }
        } else {
            None
        },
        None => None,
    }
}

pub fn release_year(date: &Option<String>) -> (r: Option<i64>)
    ensures
        r == year_spec(*date),
{
    match date {
        Some(d) => {
            let c = chars_of(d.as_str());
            assert(c@ == d@);
            if c.len() < 4 {
                return None;
            }
            let mut k: usize = 0;
            while k < 4
                invariant
                    k <= 4 <= c@.len(),
                    c@ == d@,
                    *date == Some(*d),
                    forall|j: int| 0 <= j < k ==> crate::text::is_ascii(#[trigger] c@[j]),
                decreases 4 - k,
            {
                if (c[k] as u32) >= 128 {
                    assert(d@.take(4)[k as int] == c@[k as int]);
                    assert(!crate::text::is_ascii(d@.take(4)[k as int]));
                    return None;
                }
                k += 1;
            }
            let head = slice_chars(c.as_slice(), 0, 4);
            assert(head@ =~= d@.take(4));
            match parse_i64(head.as_slice()) {
                Some(v) => Some(v),
                None => None,
            }
        },
        None => None,
    }
}

/// Total whole seconds of the tracks with a duration.
pub open spec fn total_seconds(tracks: Seq<AlbumTrackPayload>) -> int
    decreases tracks.len(),
{
    if tracks.len() == 0 {
        0
    } else {
        total_seconds(tracks.drop_last()) + match tracks.last().duration_ms {
            Some(ms) => crate::subsonic::whole_seconds(ms) as int,
            None => 0,
        }
    }
}

/// The sum fits in `i64` at every step.
pub open spec fn seconds_fit(tracks: Seq<AlbumTrackPayload>) -> bool {
    forall|k: int| 0 <= k <= tracks.len() ==> i64::MIN <= #[trigger] total_seconds(tracks.take(k)) <= i64::MAX
}

/// The listing of a stored virtual album: its song count (the album's own
/// count, else its tracks, never negative), total duration, cover id when it
/// has artwork, and year.
pub fn summary_entry(album: &CatalogAlbumCache, id: String, artist_id: &str, created: String) -> (r:
    AlbumSummaryEntry)
    requires
        seconds_fit(album.payload.tracks@),
    ensures
        r.id == id,
        r.name == album.title,
        r.artist == album.artist,
        r.artist_id@ == artist_id@,
        r.artwork_url == or_opt(album.artwork_url, crate::valbum::first_track_artwork(album.payload.tracks@)),
        r.cover_art == (if r.artwork_url is Some { Some(id) } else { None }),
        r.song_count == ({
            let n: int = match album.track_count {
                Some(c) => c as int,
                None => (album.payload.tracks@.len() as i64) as int,
            };
            if n < 0 { 0 } else { n }
        }),
        r.duration == total_seconds(album.payload.tracks@),
        r.created == created,
        r.year == year_spec(album.release_date),
{
    let tracks = &album.payload.tracks;
    let mut duration: i64 = 0;
    let mut i: usize = 0;
    while i < tracks.len()
        invariant
            i <= tracks@.len(),
            seconds_fit(tracks@),
            duration == total_seconds(tracks@.take(i as int)),
        decreases tracks@.len() - i,
    {
        proof {
            assert(tracks@.take(i + 1).drop_last() =~= tracks@.take(i as int));
            assert(i64::MIN <= total_seconds(tracks@.take(i + 1)) <= i64::MAX);
        }
        match tracks[i].duration_ms {
            Some(ms) => {
                duration = duration + ms / 1000;
            },
            None => {},
        }
        i += 1;
    }
    proof {
        assert(tracks@.take(tracks@.len() as int) =~= tracks@);
    }
    let n: i64 = match album.track_count {
        Some(c) => c,
        None => tracks.len() as i64,
    };
    let artwork_url = album_cover_artwork_url(album);
    let cover_art = match &artwork_url {
        Some(_) => Some(id.clone()),
        None => None,
    };
    AlbumSummaryEntry {
        id,
        name: album.title.clone(),
        artist: album.artist.clone(),
        artist_id: copy_str(artist_id),
        cover_art,
        song_count: if n < 0 { 0 } else { n },
        duration,
        created,
        year: release_year(&album.release_date),
        artwork_url,
    }
}

// ------------------------------------------------- JSON artist answers

/// An album summary as a JSON `album` object: the fixed fields, then cover
/// art and year when known.
pub open spec fn album_entry_view(e: AlbumSummaryEntry) -> JsonView {
    let base = Seq::<(Seq<char>, JsonView)>::empty().push(("id"@, JsonView::Str(e.id@))).push(
        ("name"@, JsonView::Str(e.name@)),
    ).push(("artist"@, JsonView::Str(e.artist@))).push(("artistId"@, JsonView::Str(e.artist_id@))).push(
        ("songCount"@, JsonView::Number(signed_decimal(e.song_count as int))),
    ).push(("duration"@, JsonView::Number(signed_decimal(e.duration as int)))).push(
        ("created"@, JsonView::Str(e.created@)),
    );
    JsonView::Object(
        push_opt(push_opt(base, "coverArt"@, opt_str_view(e.cover_art)), "year"@, opt_num_view(e.year)),
    )
}

impl AlbumSummaryEntry {
    pub fn to_json(&self) -> (r: Json)
        ensures
            jview(r) == album_entry_view(*self),
    {
        let mut m: Vec<(String, Json)> = Vec::new();
        assert(members_view(m@) =~= Seq::<(Seq<char>, JsonView)>::empty());
        push_member(&mut m, "id", Json::Str(self.id.clone()));
        push_member(&mut m, "name", Json::Str(self.name.clone()));
        push_member(&mut m, "artist", Json::Str(self.artist.clone()));
        push_member(&mut m, "artistId", Json::Str(self.artist_id.clone()));
        push_member(&mut m, "songCount", Json::Number(string_of(i64_decimal(self.song_count).as_slice())));
        push_member(&mut m, "duration", Json::Number(string_of(i64_decimal(self.duration).as_slice())));
        push_member(&mut m, "created", Json::Str(self.created.clone()));
        push_opt_str(&mut m, "coverArt", &self.cover_art);
        push_opt_num(&mut m, "year", self.year);
        proof {
            lemma_jview_object(m);
        }
        Json::Object(m)
    }
}

/// Why albums could not be added to a JSON `getArtist` answer.
#[derive(Debug, Clone, Copy, PartialEq, Eq)]
pub enum AlbumInjectError {
    /// No `artist` object in the envelope.
    MissingArtist,
    /// The artist's `album` member is not an array.
    AlbumNotArray,
}

impl AlbumInjectError {
    pub fn message(&self) -> (r: &'static str)
        ensures
            *self == AlbumInjectError::MissingArtist ==> r@ == "missing artist object"@,
            *self == AlbumInjectError::AlbumNotArray ==> r@ == "artist.album is not an array"@,
    {
        match self {
            AlbumInjectError::MissingArtist => "missing artist object",
            AlbumInjectError::AlbumNotArray => "artist.album is not an array",
        }
    }
}

/// A `getArtist` answer with `albums` appended to the artist's album list
/// (created when missing) and `albumCount` set to the new length.
pub open spec fn inject_albums_spec(top: JsonView, albums: Seq<JsonView>) -> Result<
    JsonView,
    AlbumInjectError,
> {
    match top {
        JsonView::Object(tm) => match first_member(tm, "subsonic-response"@) {
            Some(ei) => match tm[ei].1 {
                JsonView::Object(em) => match first_member(em, "artist"@) {
                    Some(ai) => match em[ai].1 {
                        JsonView::Object(am) => match member_or(am, "album"@, JsonView::Array(Seq::empty())) {
                            JsonView::Array(existing) => {
                                let list = existing + albums;
                                let am2 = with_member(
                                    with_member(am, "album"@, JsonView::Array(list)),
                                    "albumCount"@,
                                    JsonView::Number(decimal(list.len())),
                                );
                                Ok(
                                    JsonView::Object(
                                        tm.update(
                                            ei,
                                            (
                                                "subsonic-response"@,
                                                JsonView::Object(em.update(ai, ("artist"@, JsonView::Object(am2)))),
                                            ),
                                        ),
                                    ),
                                )
                            },
                            _ => Err(AlbumInjectError::AlbumNotArray),
                        },
                        _ => Err(AlbumInjectError::MissingArtist),
                    },
                    None => Err(AlbumInjectError::MissingArtist),
                },
                _ => Err(AlbumInjectError::MissingArtist),
            },
            None => Err(AlbumInjectError::MissingArtist),
        },
        _ => Err(AlbumInjectError::MissingArtist),
    }
}

pub open spec fn album_result_view(r: Result<Json, AlbumInjectError>) -> Result<JsonView, AlbumInjectError> {
    match r {
        Ok(v) => Ok(jview(v)),
        Err(e) => Err(e),
    }
}

pub open spec fn album_entries_view(e: Seq<AlbumSummaryEntry>) -> Seq<JsonView> {
    Seq::new(e.len(), |i: int| album_entry_view(e[i]))
}

/// Take member `i` (named `key`) out of `m`, as an object's members.
fn take_object(m: &mut Vec<(String, Json)>, i: usize, Ghost(key): Ghost<Seq<char>>) -> (r: Option<(String, Vec<(String, Json)>)>)
    requires
        i < old(m)@.len(),
        members_view(old(m)@)[i as int].0 == key,
    ensures
        members_view(final(m)@) == members_view(old(m)@).remove(i as int),
        final(m)@.len() == old(m)@.len() - 1,
        match r {
            Some((k, o)) => k@ == key && JsonView::Object(members_view(o@)) == members_view(old(m)@)[i as int].1,
            None => !(members_view(old(m)@)[i as int].1 is Object),
        },
{
    proof {
        lemma_members_view_remove(m@, i as int);
    }
    let (k, v) = m.remove(i);
    match v {
        Json::Object(o) => {
            proof {
                lemma_jview_object(o);
            }
            Some((k, o))
        },
        _ => None,
    }
}

/// Append album summaries to the artist of a JSON `getArtist` answer (see
/// `inject_albums_spec`).
#[verifier::spinoff_prover]
#[verifier::rlimit(100)]
pub fn inject_albums(value: Json, entries: &Vec<AlbumSummaryEntry>) -> (r: Result<Json, AlbumInjectError>)
    ensures
        album_result_view(r) == inject_albums_spec(jview(value), album_entries_view(entries@)),
{
    let mut albums: Vec<Json> = Vec::new();
    let mut n: usize = 0;
    while n < entries.len()
        invariant
            n <= entries@.len(),
            albums@.len() == n,
            items_view(albums@) == album_entries_view(entries@).take(n as int),
        decreases entries@.len() - n,
    {
        let j = entries[n].to_json();
        let ghost before = albums@;
        albums.push(j);
        proof {
            assert forall|k: int| 0 <= k <= n implies #[trigger] items_view(albums@)[k] == album_entries_view(
                entries@,
            )[k] by {
                if k < n {
                    assert(albums@[k] == before[k]);
                    assert(items_view(before)[k] == album_entries_view(entries@).take(n as int)[k]);
                }
            }
            assert(items_view(albums@) =~= album_entries_view(entries@).take(n + 1));
        }
        n += 1;
    }
    proof {
        assert(album_entries_view(entries@).take(entries@.len() as int) =~= album_entries_view(entries@));
    }
    let ghost av = items_view(albums@);
    let mut top = match value {
        Json::Object(m) => m,
        _ => return Err(AlbumInjectError::MissingArtist),
    };
    proof {
        lemma_jview_object(top);
    }
    let ghost tm = members_view(top@);
    proof {
        lemma_first_member(tm, "subsonic-response"@);
    }
    let ei = match find_member(&top, "subsonic-response") {
        Some(i) => i,
        None => return Err(AlbumInjectError::MissingArtist),
    };
    let (ek, mut em) = match take_object(&mut top, ei, Ghost("subsonic-response"@)) {
        Some(p) => p,
        None => return Err(AlbumInjectError::MissingArtist),
    };
    let ghost emv = members_view(em@);
    proof {
        lemma_first_member(emv, "artist"@);
    }
    let ai = match find_member(&em, "artist") {
        Some(i) => i,
        None => return Err(AlbumInjectError::MissingArtist),
    };
    let (ak, mut am) = match take_object(&mut em, ai, Ghost("artist"@)) {
        Some(p) => p,
        None => return Err(AlbumInjectError::MissingArtist),
    };
    let ghost amv = members_view(am@);
    proof {
        lemma_first_member(amv, "album"@);
    }
    let li = find_member(&am, "album");
    let mut list: Vec<Json> = match li {
        Some(i) => {
            proof {
                lemma_members_view_remove(am@, i as int);
            }
            let (_, l) = am.remove(i);
            match l {
                Json::Array(a) => {
                    proof {
                        lemma_jview_array(a);
                    }
                    a
                },
                _ => return Err(AlbumInjectError::AlbumNotArray),
            }
        },
        None => Vec::new(),
    };
    proof {
        assert(li is None ==> items_view(list@) =~= Seq::<JsonView>::empty());
    }
    let ghost existing = items_view(list@);
    list.append(&mut albums);
    proof {
        assert(items_view(list@) =~= existing + av);
    }
    let count = list.len();
    proof {
        lemma_jview_array(list);
    }
    let ghost new_list = jview(Json::Array(list));
    match li {
        Some(i) => {
            put_member(&mut am, Some(i), copy_str("album"), Json::Array(list));
            proof {
                lemma_replace_member(amv, i as int, ("album"@, new_list));
            }
        },
        None => {
            push_member(&mut am, "album", Json::Array(list));
        },
    }
    assert(members_view(am@) == with_member(amv, "album"@, new_list));
    set_member(&mut am, "albumCount", Json::Number(string_of(u64_decimal(count as u64).as_slice())));
    proof {
        lemma_jview_object(am);
    }
    let ghost new_artist = jview(Json::Object(am));
    put_member(&mut em, Some(ai), ak, Json::Object(am));
    proof {
        lemma_replace_member(emv, ai as int, ("artist"@, new_artist));
        lemma_jview_object(em);
    }
    let ghost new_env = jview(Json::Object(em));
    put_member(&mut top, Some(ei), ek, Json::Object(em));
    proof {
        lemma_replace_member(tm, ei as int, ("subsonic-response"@, new_env));
        lemma_jview_object(top);
    }
    Ok(Json::Object(top))
}

/// The album titles of a JSON artist: each album's `name`, else its
/// `title`, skipping albums with neither.
pub open spec fn album_titles(albums: Seq<Json>) -> Seq<Seq<char>>
    decreases albums.len(),
{
    if albums.len() == 0 {
        Seq::empty()
    } else {
        let rest = album_titles(albums.drop_last());
        let a = albums.last();
        match as_str(at_key(a, "name"@)) {
            Some(n) => rest.push(n),
            None => match as_str(at_key(a, "title"@)) {
                Some(t) => rest.push(t),
                None => rest,
            },
        }
    }
}

pub open spec fn keys_of(titles: Seq<Seq<char>>) -> Seq<Seq<char>> {
    titles.map_values(|t: Seq<char>| normalize_spec(t))
}

pub open spec fn strings_view(v: Seq<String>) -> Seq<Seq<char>> {
    v.map_values(|s: String| s@)
}

/// The artist of a JSON `getArtist` answer: its id and name (empty when
/// missing) and the keys of its albums' titles.
pub fn extract_artist_context_json(value: &Json) -> (r: ArtistContext)
    ensures
        r.id@ == str_or_empty(at_key(at_key(*value, "subsonic-response"@), "artist"@), "id"@),
        r.name@ == str_or_empty(at_key(at_key(*value, "subsonic-response"@), "artist"@), "name"@),
        strings_view(r.local_album_keys@) == match at_key(
            at_key(at_key(*value, "subsonic-response"@), "artist"@),
            "album"@,
        ) {
            Json::Array(albums) => keys_of(album_titles(albums@)),
            _ => Seq::empty(),
        },
{
    let null = Json::Null;
    let env = key_or_null(value, "subsonic-response", &null);
    let artist = key_or_null(env, "artist", &null);
    let id = match str_at(artist, "id") {
        Some(s) => s.clone(),
        None => String::new(),
    };
    let name = match str_at(artist, "name") {
        Some(s) => s.clone(),
        None => String::new(),
    };
    let mut keys: Vec<String> = Vec::new();
    match at_key_exec(artist, "album") {
        Some(Json::Array(albums)) => {
            let mut i: usize = 0;
            while i < albums.len()
                invariant
                    i <= albums@.len(),
                    strings_view(keys@) == keys_of(album_titles(albums@.take(i as int))),
                decreases albums@.len() - i,
            {
                proof {
                    assert(albums@.take(i + 1).drop_last() =~= albums@.take(i as int));
                    assert(albums@.take(i + 1).last() == albums@[i as int]);
                }
                let a = &albums[i];
                let title: Option<&String> = match str_at(a, "name") {
                    Some(n) => Some(n),
                    None => str_at(a, "title"),
                };
                match title {
                    Some(t) => {
                        let k = album_key(t.as_str());
                        let ghost before = keys@;
                        keys.push(k);
                        proof {
                            assert(strings_view(keys@) =~= strings_view(before).push(normalize_spec(t@)));
                            assert(keys_of(album_titles(albums@.take(i as int)).push(t@)) =~= keys_of(
                                album_titles(albums@.take(i as int)),
                            ).push(normalize_spec(t@)));
                        }
                    },
                    None => {},
                }
                i += 1;
            }
            proof {
                assert(albums@.take(albums@.len() as int) =~= albums@);
            }
        },
        _ => {
            assert(strings_view(keys@) =~= Seq::<Seq<char>>::empty());
        },
    }
    ArtistContext { id, name, local_album_keys: keys }
}

pub open spec fn str_or_empty(v: Json, key: Seq<char>) -> Seq<char> {
    match as_str(at_key(v, key)) {
        Some(s) => s,
        None => Seq::empty(),
    }
}

// -------------------------------------------------- XML artist answers

/// The artist, its name and its album keys as read so far.
pub type ArtistXmlState = (Seq<char>, Seq<char>, Seq<Seq<char>>);

/// The keys of an `album` tag's `name` and `title` attributes, in order.
pub open spec fn album_attr_keys(attrs: Seq<(Seq<char>, Option<Seq<char>>)>) -> Seq<Seq<char>>
    decreases attrs.len(),
{
    if attrs.len() == 0 {
        Seq::empty()
    } else {
        let prev = album_attr_keys(attrs.drop_last());
        let a = attrs.last();
        if a.0 == "name"@ || a.0 == "title"@ {
            prev.push(
                normalize_spec(
                    match a.1 {
                        Some(v) => v,
                        None => Seq::empty(),
                    },
                ),
            )
        } else {
            prev
        }
    }
}

pub open spec fn all_unescaped(attrs: Seq<(Seq<char>, Option<Seq<char>>)>) -> bool {
    forall|j: int| 0 <= j < attrs.len() ==> (#[trigger] attrs[j]).1 is Some
}

pub open spec fn titles_unescaped(attrs: Seq<(Seq<char>, Option<Seq<char>>)>) -> bool {
    forall|j: int|
        0 <= j < attrs.len() && ((#[trigger] attrs[j]).0 == "name"@ || attrs[j].0 == "title"@) ==> attrs[j].1 is Some
}

pub open spec fn or_keep(v: Option<Option<Seq<char>>>, current: Seq<char>) -> Seq<char> {
    match v {
        Some(Some(x)) => x,
        _ => current,
    }
}

/// One event of a `getArtist` answer: an `artist` tag sets the id and name
/// from its `id` and `name` attributes, an `album` tag adds the keys of its
/// `name` and `title` attributes; an attribute read that does not unescape
/// (any attribute of the artist, a title of an album) gives up.
pub open spec fn artist_xml_step(state: Option<ArtistXmlState>, e: (XmlKind, Seq<char>)) -> Option<ArtistXmlState> {
    match state {
        None => None,
        Some((id, name, keys)) => {
            let attrs = xml_tag(e.1).1;
            if is_tag_open(e.0) && xml_tag(e.1).0 == "artist"@ {
                if all_unescaped(attrs) {
                    Some((or_keep(last_attr(attrs, "id"@), id), or_keep(last_attr(attrs, "name"@), name), keys))
                } else {
                    None
                }
            } else if is_tag_open(e.0) && xml_tag(e.1).0 == "album"@ {
                if titles_unescaped(attrs) {
                    Some((id, name, keys + album_attr_keys(attrs)))
                } else {
                    None
                }
            } else {
                state
            }
        },
    }
}

pub open spec fn artist_xml_prefix(evs: Seq<(XmlKind, Seq<char>)>, n: nat) -> Option<ArtistXmlState>
    decreases n,
{
    if n == 0 || n > evs.len() {
        Some((Seq::empty(), Seq::empty(), Seq::empty()))
    } else {
        artist_xml_step(artist_xml_prefix(evs, (n - 1) as nat), evs[n - 1])
    }
}

/// The artist of an XML `getArtist` answer (see `artist_xml_step`); none
/// when the body is not well formed.
pub open spec fn artist_context_xml_spec(body: Seq<char>) -> Option<ArtistXmlState> {
    let (evs, failed) = xml_read(body);
    if failed {
        None
    } else {
        artist_xml_prefix(evs, evs.len())
    }
}

proof fn lemma_artist_prefix_gives_up(evs: Seq<(XmlKind, Seq<char>)>, n: nat, m: nat)
    requires
        n <= m <= evs.len(),
        artist_xml_prefix(evs, n) is None,
    ensures
        artist_xml_prefix(evs, m) is None,
    decreases m - n,
{
    if n < m {
        lemma_artist_prefix_gives_up(evs, n, (m - 1) as nat);
    }
}

pub open spec fn context_state(c: ArtistContext) -> ArtistXmlState {
    (c.id@, c.name@, strings_view(c.local_album_keys@))
}

/// The artist of an XML `getArtist` answer (see `artist_context_xml_spec`).
pub fn extract_artist_context_xml(body: &str) -> (r: Option<ArtistContext>)
    ensures
        match r {
            Some(c) => artist_context_xml_spec(body@) == Some(context_state(c)),
            None => artist_context_xml_spec(body@) is None,
        },
{
    let (events, failed) = read_events(body);
    let ghost evs = events_view(events@);
    let mut id = String::new();
    let mut name = String::new();
    let mut keys: Vec<String> = Vec::new();
    let mut i: usize = 0;
    proof {
        assert(strings_view(keys@) =~= Seq::<Seq<char>>::empty());
    }
    while i < events.len()
        invariant
            i <= events@.len(),
            evs == events_view(events@),
            (evs, failed) == xml_read(body@),
            artist_xml_prefix(evs, i as nat) == Some((id@, name@, strings_view(keys@))),
        decreases events@.len() - i,
    {
        let e = &events[i];
        assert(evs[i as int] == (e.kind, e.text@));
        if e.kind == XmlKind::Start || e.kind == XmlKind::Empty {
            let (tag_name, attrs) = tag_parts(e.text.as_str());
            let ghost av = attrs_view(attrs@);
            if str_eq(tag_name.as_str(), "artist") {
                let ghost id0 = id@;
                let ghost name0 = name@;
                let mut j: usize = 0;
                while j < attrs.len()
                    invariant
                        j <= attrs@.len(),
                        av == attrs_view(attrs@),
                        evs == events_view(events@),
                        (evs, failed) == xml_read(body@),
                        i < evs.len(),
                        is_tag_open(evs[i as int].0),
                        xml_tag(evs[i as int].1) == (tag_name@, av),
                        tag_name@ == "artist"@,
                        artist_xml_prefix(evs, i as nat) == Some((id0, name0, strings_view(keys@))),
                        all_unescaped(av.take(j as int)),
                        id@ == or_keep(last_attr(av.take(j as int), "id"@), id0),
                        name@ == or_keep(last_attr(av.take(j as int), "name"@), name0),
                    decreases attrs@.len() - j,
                {
                    proof {
                        assert(av.take(j + 1).drop_last() =~= av.take(j as int));
                        assert(av.take(j + 1).last() == av[j as int]);
                    }
                    proof {
                        reveal_strlit("id");
                        reveal_strlit("name");
                        assert("id"@.len() != "name"@.len());
                        assert("id"@ != "name"@);
                        assert(av[j as int].0 == attrs@[j as int].0@);
                    }
                    match &attrs[j].1 {
                        Some(v) => {
                            if str_eq(attrs[j].0.as_str(), "id") {
                                id = v.clone();
                            } else if str_eq(attrs[j].0.as_str(), "name") {
                                name = v.clone();
                            }
                        },
                        None => {
                            proof {
                                assert(!all_unescaped(av));
                                assert(artist_xml_prefix(evs, (i + 1) as nat) is None);
                                lemma_artist_prefix_gives_up(evs, (i + 1) as nat, evs.len());
                            }
                            return None;
                        },
                    }
                    proof {
                        assert forall|k: int| 0 <= k < j + 1 implies (#[trigger] av.take(j + 1)[k]).1 is Some by {
                            if k < j {
                                assert(av.take(j + 1)[k] == av.take(j as int)[k]);
                            }
                        }
                    }
                    j += 1;
                }
                proof {
                    assert(av.take(attrs@.len() as int) =~= av);
                }
            } else if str_eq(tag_name.as_str(), "album") {
                let ghost keys0 = strings_view(keys@);
                assert(tag_name@ != "artist"@);
                let mut j: usize = 0;
                proof {
                    assert(album_attr_keys(av.take(0)) =~= Seq::<Seq<char>>::empty());
                    assert(keys0 + Seq::<Seq<char>>::empty() =~= keys0);
                }
                while j < attrs.len()
                    invariant
                        j <= attrs@.len(),
                        av == attrs_view(attrs@),
                        evs == events_view(events@),
                        (evs, failed) == xml_read(body@),
                        i < evs.len(),
                        is_tag_open(evs[i as int].0),
                        xml_tag(evs[i as int].1) == (tag_name@, av),
                        tag_name@ == "album"@,
                        tag_name@ != "artist"@,
                        artist_xml_prefix(evs, i as nat) == Some((id@, name@, keys0)),
                        titles_unescaped(av.take(j as int)),
                        strings_view(keys@) == keys0 + album_attr_keys(av.take(j as int)),
                    decreases attrs@.len() - j,
                {
                    proof {
                        assert(av.take(j + 1).drop_last() =~= av.take(j as int));
                        assert(av.take(j + 1).last() == av[j as int]);
                    }
                    if str_eq(attrs[j].0.as_str(), "name") || str_eq(attrs[j].0.as_str(), "title") {
                        match &attrs[j].1 {
                            Some(v) => {
                                let k = album_key(v.as_str());
                                let ghost before = keys@;
                                keys.push(k);
                                proof {
                                    assert(strings_view(keys@) =~= strings_view(before).push(k@));
                                }
                            },
                            None => {
                                proof {
                                    assert(!titles_unescaped(av));
                                    assert(artist_xml_prefix(evs, (i + 1) as nat) is None);
                                    lemma_artist_prefix_gives_up(evs, (i + 1) as nat, evs.len());
                                }
                                return None;
                            },
                        }
                    }
                    proof {
                        assert forall|k: int|
                            0 <= k < j + 1 && ((#[trigger] av.take(j + 1)[k]).0 == "name"@ || av.take(j + 1)[k].0
                                == "title"@) implies av.take(j + 1)[k].1 is Some by {
                            if k < j {
                                assert(av.take(j + 1)[k] == av.take(j as int)[k]);
                            }
                        }
                    }
                    j += 1;
                }
                proof {
                    assert(av.take(attrs@.len() as int) =~= av);
                }
            }
        }
        i += 1;
    }
    if failed {
        return None;
    }
    Some(ArtistContext { id, name, local_album_keys: keys })
}

/// An album summary as an empty `album` element: the fixed attributes with
/// cover art and year when known, in the order the answer lists them.
pub open spec fn album_entry_tag(e: AlbumSummaryEntry) -> Seq<char> {
    "album"@ + attr_text("id"@, e.id@) + attr_text("name"@, e.name@) + attr_text("artist"@, e.artist@)
        + attr_text("artistId"@, e.artist_id@) + opt_attr_text("coverArt"@, opt_seq(e.cover_art))
        + attr_text("songCount"@, signed_decimal(e.song_count as int)) + attr_text(
        "duration"@,
        signed_decimal(e.duration as int),
    ) + attr_text("created"@, e.created@) + opt_attr_text("year"@, opt_number(e.year))
}

impl AlbumSummaryEntry {
    /// The summary as an empty `album` element (see `album_entry_tag`).
    pub fn write_xml(&self) -> (r: Vec<char>)
        ensures
            r@ == written(XmlKind::Empty, album_entry_tag(*self)),
    {
        let mut tag = chars_of("album");
        push_attr(&mut tag, "id", self.id.as_str());
        push_attr(&mut tag, "name", self.name.as_str());
        push_attr(&mut tag, "artist", self.artist.as_str());
        push_attr(&mut tag, "artistId", self.artist_id.as_str());
        push_opt_attr(&mut tag, "coverArt", &self.cover_art);
        push_attr(&mut tag, "songCount", string_of(i64_decimal(self.song_count).as_slice()).as_str());
        push_attr(&mut tag, "duration", string_of(i64_decimal(self.duration).as_slice()).as_str());
        push_attr(&mut tag, "created", self.created.as_str());
        push_opt_number_attr(&mut tag, "year", self.year);
        assert(tag@ =~= album_entry_tag(*self));
        let mut out: Vec<char> = Vec::new();
        write_event(&mut out, XmlKind::Empty, tag.as_slice());
        out
    }
}

/// The summaries written one after another.
pub open spec fn albums_xml(entries: Seq<AlbumSummaryEntry>) -> Seq<char>
    decreases entries.len(),
{
    if entries.len() == 0 {
        Seq::empty()
    } else {
        albums_xml(entries.drop_last()) + written(XmlKind::Empty, album_entry_tag(entries.last()))
    }
}

/// An XML `getArtist` answer with the summaries appended inside the
/// `artist` element (an empty one is opened and closed around them); with
/// no `artist` element nothing is added. A body quick-xml stops on with an
/// error is refused.
pub fn inject_albums_xml(body: &str, entries: &Vec<AlbumSummaryEntry>) -> (r: Result<String, MalformedXml>)
    ensures
        match r {
            Ok(s) => !xml_read(body@).1 && s@ == injected_text(
                xml_read(body@).0,
                "artist"@,
                albums_xml(entries@),
                false,
            ),
            Err(_) => xml_read(body@).1,
        },
{
    let (events, failed) = read_events(body);
    if failed {
        return Err(MalformedXml);
    }
    let mut payload: Vec<char> = Vec::new();
    let mut i: usize = 0;
    while i < entries.len()
        invariant
            i <= entries@.len(),
            payload@ == albums_xml(entries@.take(i as int)),
        decreases entries@.len() - i,
    {
        let piece = entries[i].write_xml();
        extend_chars(&mut payload, piece.as_slice());
        proof {
            assert(entries@.take(i + 1).drop_last() =~= entries@.take(i as int));
            assert(entries@.take(i + 1).last() == entries@[i as int]);
        }
        i += 1;
    }
    assert(entries@.take(entries@.len() as int) =~= entries@);
    let out = inject_events(&events, "artist", payload.as_slice(), false);
    Ok(string_of(out.as_slice()))
}

} // verus!
