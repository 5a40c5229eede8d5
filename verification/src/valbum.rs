//! Virtual albums: `sga_` ids, the album records artist expansion stores,
//! and the artwork rules read from their track payloads.
use vstd::prelude::*;

use crate::catalog::{artist_key, artist_key_spec};
use crate::recs::{title_key, title_key_spec};
use crate::text::{chars_of, is_ascii_alnum, extend_chars, starts_with, starts_with_exec, str_eq, string_of};
use crate::vtrack::{base62_22, base62_spec, random_u128, VirtualTrack};

verus! {

pub const ID_PREFIX: &'static str = "sga_";

#[derive(Debug, Clone)]
pub struct VirtualAlbum {
    pub id: String,
    pub provider: String,
    pub provider_album_id: String,
    pub artist: String,
    pub title: String,
    pub album_type: Option<String>,
    pub release_date: Option<String>,
    pub artwork_url: Option<String>,
    pub track_count: Option<i64>,
    pub payload_json: String,
    pub status: String,
}

#[derive(Debug, Clone)]
pub struct NewVirtualAlbum {
    pub provider: &'static str,
    pub provider_album_id: String,
    pub artist: String,
    pub title: String,
    pub album_type: Option<String>,
    pub release_date: Option<String>,
    pub artwork_url: Option<String>,
    pub track_count: Option<i64>,
    pub payload: AlbumPayload,
}

/// The tracks of a virtual album, as stored in its JSON payload.
#[derive(Debug, Clone)]
pub struct AlbumPayload {
    pub tracks: Vec<AlbumTrackPayload>,
}

#[derive(Debug, Clone)]
pub struct AlbumTrackPayload {
    pub provider_track_id: String,
    pub artist: String,
    pub title: String,
    pub album: String,
    pub duration_ms: Option<i64>,
    pub isrc: Option<String>,
    pub artwork_url: Option<String>,
    pub disc_number: Option<i64>,
    pub track_number: Option<i64>,
}

pub fn is_virtual_album_id(id: &str) -> (r: bool)
    ensures
        r == starts_with(id@, "sga_"@),
{
    let c = chars_of(id);
    let p = chars_of(ID_PREFIX);
    starts_with_exec(c.as_slice(), p.as_slice())
}

/// Virtual album ids have one shape: for any value, `sga_` and 22 base62
/// digits make a 26-character id that `is_virtual_album_id` recognizes,
/// whose digits are ASCII letters and digits, and which is never a virtual
/// track id.
pub proof fn law_virtual_album_id_shape(n: nat)
    ensures
        ("sga_"@ + base62_spec(n)).len() == 26,
        starts_with("sga_"@ + base62_spec(n), "sga_"@),
        !starts_with("sga_"@ + base62_spec(n), "sgr_"@),
        forall|i: int| 0 <= i < 22 ==> is_ascii_alnum(#[trigger] base62_spec(n)[i]),
{
    reveal_strlit("sga_");
    reveal_strlit("sgr_");
    crate::vtrack::law_virtual_id_shape(n);
    let id = "sga_"@ + base62_spec(n);
    assert(id.subrange(0, 4) =~= "sga_"@);
    assert(id.subrange(0, 4)[2] != "sgr_"@[2]);
}

/// A fresh virtual album id: `sga_` and 22 base62 digits of a random value.
pub fn new_virtual_album_id() -> (r: String)
    ensures
        exists|n: nat| r@ == "sga_"@ + base62_spec(n),
{
    let n = random_u128();
    let b = base62_22(n);
    let mut v = chars_of(ID_PREFIX);
    extend_chars(&mut v, chars_of(b.as_str()).as_slice());
    string_of(v.as_slice())
}

/// A cached artist catalog is still usable: its age in seconds (the
/// difference saturating at the `i64` bounds) is within the TTL.
pub open spec fn catalog_cache_fresh_spec(now: i64, fetched_at: i64, ttl_hours: u32) -> bool {
    let age = if now - fetched_at < i64::MIN {
        i64::MIN as int
    } else if now - fetched_at > i64::MAX {
        i64::MAX as int
    } else {
        now - fetched_at
    };
    age <= ttl_hours * 3600
}

pub fn catalog_cache_fresh(now: i64, fetched_at: i64, ttl_hours: u32) -> (r: bool)
    ensures
        r == catalog_cache_fresh_spec(now, fetched_at, ttl_hours),
{
    let diff: i128 = now as i128 - fetched_at as i128;
    let age: i128 = if diff < i64::MIN as i128 {
        i64::MIN as i128
    } else if diff > i64::MAX as i128 {
        i64::MAX as i128
    } else {
        diff
    };
    age <= (ttl_hours as i128) * 3600
}

/// The first artwork of any track in a payload.
pub open spec fn first_track_artwork(tracks: Seq<AlbumTrackPayload>) -> Option<String>
    decreases tracks.len(),
{
    if tracks.len() == 0 {
        None
    } else if tracks[0].artwork_url is Some {
        tracks[0].artwork_url
    } else {
        first_track_artwork(tracks.drop_first())
    }
}

fn copy_opt(o: &Option<String>) -> (r: Option<String>)
    ensures
        r == *o,
{
    match o {
        Some(s) => Some(s.clone()),
        None => None,
    }
}

/// An album's artwork: its own, else the first track artwork in its
/// payload (`payload` is the album's payload JSON when it parsed).
pub fn album_artwork_url(album: &VirtualAlbum, payload: Option<&AlbumPayload>) -> (r: Option<
    String,
>)
    ensures
        r == (if album.artwork_url is Some {
            album.artwork_url
        } else {
            match payload {
                Some(p) => first_track_artwork(p.tracks@),
                None => None,
            }
        }),
{
    if album.artwork_url.is_some() {
        return copy_opt(&album.artwork_url);
    }
    match payload {
        Some(p) => {
            let mut i: usize = 0;
            assert(p.tracks@.subrange(0, p.tracks@.len() as int) =~= p.tracks@);
            while i < p.tracks.len()
                invariant
                    i <= p.tracks@.len(),
                    payload == Some(p),
                    album.artwork_url is None,
                    first_track_artwork(p.tracks@) == first_track_artwork(
                        p.tracks@.subrange(i as int, p.tracks@.len() as int),
                    ),
                decreases p.tracks@.len() - i,
            {
                proof {
                    let rest = p.tracks@.subrange(i as int, p.tracks@.len() as int);
                    assert(rest.drop_first() =~= p.tracks@.subrange(i + 1, p.tracks@.len() as int));
                    assert(rest[0] == p.tracks@[i as int]);
                }
                if p.tracks[i].artwork_url.is_some() {
                    return copy_opt(&p.tracks[i].artwork_url);
                }
                i += 1;
            }
            None
        },
        None => None,
    }
}

/// A payload track stands for `track`: the same provider track id, or the
/// same song identity (alias-aware artist key and bracket-free title key).
pub open spec fn payload_track_matches(p: AlbumTrackPayload, track: VirtualTrack) -> bool {
    p.provider_track_id@ == track.provider_track_id@ || (artist_key_spec(p.artist@)
        == artist_key_spec(track.artist@) && title_key_spec(p.title@) == title_key_spec(
        track.title@,
    ))
}

/// The artwork found for `track` in a list of stored albums of its provider
/// (album artwork and parsed payload, in order): for the first matching
/// payload track, its own artwork else its album's; `None` when no payload
/// track matches.
pub open spec fn artwork_in_albums(
    rows: Seq<(Option<String>, AlbumPayload)>,
    track: VirtualTrack,
) -> Option<Option<String>>
    decreases rows.len(),
{
    if rows.len() == 0 {
        None
    } else {
        match artwork_in_tracks(rows[0].1.tracks@, rows[0].0, track) {
            Some(a) => Some(a),
            None => artwork_in_albums(rows.drop_first(), track),
        }
    }
}

pub open spec fn artwork_in_tracks(
    tracks: Seq<AlbumTrackPayload>,
    album_artwork: Option<String>,
    track: VirtualTrack,
) -> Option<Option<String>>
    decreases tracks.len(),
{
    if tracks.len() == 0 {
        None
    } else if payload_track_matches(tracks[0], track) {
        Some(
            if tracks[0].artwork_url is Some {
                tracks[0].artwork_url
            } else {
                album_artwork
            },
        )
    } else {
        artwork_in_tracks(tracks.drop_first(), album_artwork, track)
    }
}

fn artwork_in_tracks_exec(
    tracks: &Vec<AlbumTrackPayload>,
    album_artwork: &Option<String>,
    track: &VirtualTrack,
    wanted_artist: &str,
    wanted_title: &str,
) -> (r: Option<Option<String>>)
    requires
        wanted_artist@ == artist_key_spec(track.artist@),
        wanted_title@ == title_key_spec(track.title@),
    ensures
        r == artwork_in_tracks(tracks@, *album_artwork, *track),
{
    let mut i: usize = 0;
    assert(tracks@.subrange(0, tracks@.len() as int) =~= tracks@);
    while i < tracks.len()
        invariant
            i <= tracks@.len(),
            wanted_artist@ == artist_key_spec(track.artist@),
            wanted_title@ == title_key_spec(track.title@),
            artwork_in_tracks(tracks@, *album_artwork, *track) == artwork_in_tracks(
                tracks@.subrange(i as int, tracks@.len() as int),
                *album_artwork,
                *track,
            ),
        decreases tracks@.len() - i,
    {
        proof {
            let rest = tracks@.subrange(i as int, tracks@.len() as int);
            assert(rest.drop_first() =~= tracks@.subrange(i + 1, tracks@.len() as int));
            assert(rest[0] == tracks@[i as int]);
        }
        let t = &tracks[i];
        let exact = str_eq(t.provider_track_id.as_str(), track.provider_track_id.as_str());
        let same_song = str_eq(artist_key(t.artist.as_str()).as_str(), wanted_artist) && str_eq(
            title_key(t.title.as_str()).as_str(),
            wanted_title,
        );
        if exact || same_song {
            if t.artwork_url.is_some() {
                return Some(copy_opt(&t.artwork_url));
            } else {
                return Some(copy_opt(album_artwork));
            }
        }
        i += 1;
    }
    None
}

/// Artwork for a virtual track missing one, from the stored albums of its
/// provider (see `artwork_in_albums`); `None` when no payload track matches
/// or the match has no artwork.
pub fn find_artwork_for_track(rows: &Vec<(Option<String>, AlbumPayload)>, track: &VirtualTrack) -> (r:
    Option<String>)
    ensures
        r == (match artwork_in_albums(rows@, *track) {
            Some(a) => a,
            None => None,
        }),
{
    let wanted_artist = artist_key(track.artist.as_str());
    let wanted_title = title_key(track.title.as_str());
    let mut i: usize = 0;
    assert(rows@.subrange(0, rows@.len() as int) =~= rows@);
    while i < rows.len()
        invariant
            i <= rows@.len(),
            wanted_artist@ == artist_key_spec(track.artist@),
            wanted_title@ == title_key_spec(track.title@),
            artwork_in_albums(rows@, *track) == artwork_in_albums(
                rows@.subrange(i as int, rows@.len() as int),
                *track,
            ),
        decreases rows@.len() - i,
    {
        proof {
            let rest = rows@.subrange(i as int, rows@.len() as int);
            assert(rest.drop_first() =~= rows@.subrange(i + 1, rows@.len() as int));
            assert(rest[0] == rows@[i as int]);
        }
        let found = artwork_in_tracks_exec(
            &rows[i].1.tracks,
            &rows[i].0,
            track,
            wanted_artist.as_str(),
            wanted_title.as_str(),
        );
        if let Some(a) = found {
            return a;
        }
        i += 1;
    }
    None
}

} // verus!
