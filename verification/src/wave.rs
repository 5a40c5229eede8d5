//! The wave: an endless personal queue built from liked and played seeds,
//! the Yandex wave, cached provider tracks and the library itself. Fetching
//! each source happens at the program's edge; how much is asked of each
//! and which of its tracks join the queue is decided here.
use vstd::prelude::*;

use crate::catalog::artist_key_spec;
use crate::json::{as_str, at_key, at_key_exec, str_at, Json};
use crate::recs::opt_view;
use crate::search::as_i64;
use crate::recs::{artist_key, song_key, song_key_spec};
use crate::search::{any_key_matches, any_match, keys_view, SongKey};
use crate::subsonic::{form_encode, form_encoded_of, SongEntry};
use crate::text::{chars_of, copy_str, extend_chars, parse_unsigned, parse_usize, slice_chars, str_eq, string_of, trim, trim_chars};

verus! {

pub const DEFAULT_NEXT_COUNT: usize = 12;
pub const MAX_NEXT_COUNT: usize = 30;
pub const SEED_EXTENSION_TIMEOUT_SECS: u64 = 2;
pub const FEEDBACK_SKIP_COOLDOWN_DAYS: i64 = 14;
pub const FEEDBACK_DISLIKE_COOLDOWN_DAYS: i64 = 365;
pub const MAX_RANDOM_FALLBACK_COUNT: usize = 90;
/// Tracks a single seed may contribute to one batch.
pub const PER_SEED_COUNT: usize = 6;

/// Why a track is in the wave.
#[derive(Debug, Clone)]
pub struct WaveReason {
    pub kind: &'static str,
    pub source: Option<&'static str>,
    pub seed_artist: Option<String>,
    pub seed_title: Option<String>,
}

impl WaveReason {
    /// A track from a source as such.
    pub fn source(kind: &'static str, source: &'static str) -> (r: WaveReason)
        ensures
            r.kind == kind,
            r.source == Some(source),
            r.seed_artist is None,
            r.seed_title is None,
    {
        WaveReason { kind, source: Some(source), seed_artist: None, seed_title: None }
    }

    /// A track recommended for a seed.
    pub fn seed(kind: &'static str, source: Option<&'static str>, seed: &crate::similar::SeedTrack) -> (r:
        WaveReason)
        ensures
            r.kind == kind,
            r.source == source,
            r.seed_artist == Some(seed.artist),
            r.seed_title == Some(seed.title),
    {
        WaveReason {
            kind,
            source,
            seed_artist: Some(seed.artist.clone()),
            seed_title: Some(seed.title.clone()),
        }
    }
}

#[derive(Debug, Clone)]
pub struct WaveTrack {
    pub id: String,
    pub title: String,
    pub artist: String,
    pub provider: Option<String>,
    pub reason: Option<WaveReason>,
    pub artist_id: Option<String>,
    pub album: Option<String>,
    pub album_id: Option<String>,
    pub duration_secs: Option<i64>,
    pub cover_art: Option<String>,
    pub stream_url: String,
}

/// The source label a seed's provider is reported under.
pub open spec fn source_of_provider(p: Seq<char>) -> Option<Seq<char>> {
    if p == "yandex"@ {
        Some("yandex"@)
    } else if p == "ytmusic"@ || p == "ytm"@ {
        Some("ytm"@)
    } else if p == "deezer"@ {
        Some("deezer"@)
    } else if p == "lastfm"@ {
        Some("lastfm"@)
    } else if p == "listen"@ || p == "feedback"@ {
        Some("library"@)
    } else {
        None
    }
}

pub fn source_from_provider(provider: &str) -> (r: Option<&'static str>)
    ensures
        match source_of_provider(provider@) {
            Some(s) => r is Some && r.unwrap()@ == s,
            None => r is None,
        },
{
    if str_eq(provider, "yandex") {
        Some("yandex")
    } else if str_eq(provider, "ytmusic") || str_eq(provider, "ytm") {
        Some("ytm")
    } else if str_eq(provider, "deezer") {
        Some("deezer")
    } else if str_eq(provider, "lastfm") {
        Some("lastfm")
    } else if str_eq(provider, "listen") || str_eq(provider, "feedback") {
        Some("library")
    } else {
        None
    }
}

// ------------------------------------------------------- requests

#[derive(Debug, Clone)]
pub struct NowPlayingRequest {
    pub id: String,
    pub title: String,
    pub artist: String,
    pub album: Option<String>,
    pub cover_art: Option<String>,
}

#[derive(Debug, Clone)]
pub struct ProfileUpdate {
    pub display_name: Option<String>,
}

#[derive(Debug, Clone)]
pub struct ListenJoinRequest {
    pub code: String,
}

#[derive(Debug, Clone)]
pub struct IngestRequest {
    pub url: String,
}

#[derive(Debug, Clone)]
pub struct FeedbackRequest {
    pub track_id: String,
    pub action: String,
}

/// The feedback actions the wave records.
pub open spec fn is_feedback_action(a: Seq<char>) -> bool {
    a == "play"@ || a == "skip"@ || a == "like"@ || a == "dislike"@
}

/// The trimmed feedback action, when it is one the wave records.
pub fn feedback_action(raw: &str) -> (r: Option<String>)
    ensures
        is_feedback_action(trim(raw@)) ==> r is Some && r.unwrap()@ == trim(raw@),
        !is_feedback_action(trim(raw@)) ==> r is None,
{
    let t = crate::text::trim_str(raw);
    let known = str_eq(t.as_str(), "play") || str_eq(t.as_str(), "skip") || str_eq(t.as_str(), "like")
        || str_eq(t.as_str(), "dislike");
    if known {
        Some(t)
    } else {
        None
    }
}

/// Display names are trimmed and cut to this many characters.
pub const MAX_DISPLAY_NAME: usize = 40;

/// Avatars larger than this are refused.
pub const MAX_AVATAR_BYTES: usize = 262144;

/// A display name as stored: trimmed, at most `MAX_DISPLAY_NAME`
/// characters, and none when that leaves nothing.
pub open spec fn display_name_spec(raw: Option<Seq<char>>) -> Option<Seq<char>> {
    match raw {
        Some(s) => {
            let t = trim(s);
            let cut = if t.len() <= MAX_DISPLAY_NAME {
                t
            } else {
                t.subrange(0, MAX_DISPLAY_NAME as int)
            };
            if cut.len() == 0 {
                None
            } else {
                Some(cut)
            }
        },
        None => None,
    }
}

pub fn display_name(raw: Option<String>) -> (r: Option<String>)
    ensures
        match display_name_spec(
            match raw {
                Some(s) => Some(s@),
                None => None,
            },
        ) {
            Some(n) => r is Some && r.unwrap()@ == n,
            None => r is None,
        },
{
    match raw {
        Some(s) => {
            let t = trim_chars(chars_of(s.as_str()).as_slice());
            let n = if t.len() <= MAX_DISPLAY_NAME {
                t.len()
            } else {
                MAX_DISPLAY_NAME
            };
            let cut = slice_chars(t.as_slice(), 0, n);
            proof {
                if t@.len() <= MAX_DISPLAY_NAME {
                    assert(cut@ =~= t@);
                }
            }
            if cut.len() == 0 {
                None
            } else {
                Some(string_of(cut.as_slice()))
            }
        },
        None => None,
    }
}

/// Why an avatar upload is refused.
#[derive(Debug, Clone, Copy, PartialEq, Eq)]
pub enum AvatarError {
    Empty,
    TooLarge,
}

pub fn check_avatar(len: usize) -> (r: Result<(), AvatarError>)
    ensures
        len == 0 ==> r == Err::<(), AvatarError>(AvatarError::Empty),
        len > MAX_AVATAR_BYTES ==> r == Err::<(), AvatarError>(AvatarError::TooLarge),
        0 < len <= MAX_AVATAR_BYTES ==> r is Ok,
{
    if len == 0 {
        Err(AvatarError::Empty)
    } else if len > MAX_AVATAR_BYTES {
        Err(AvatarError::TooLarge)
    } else {
        Ok(())
    }
}

/// The stored avatar type: the request's `image/*` content type, else
/// `image/jpeg`.
pub fn avatar_mime(content_type: Option<&str>) -> (r: String)
    ensures
        match content_type {
            Some(c) => if crate::text::starts_with(c@, "image/"@) {
                r@ == c@
            } else {
                r@ == "image/jpeg"@
            },
            None => r@ == "image/jpeg"@,
        },
{
    match content_type {
        Some(c) => {
            if crate::text::starts_with_exec(chars_of(c).as_slice(), chars_of("image/").as_slice()) {
                copy_str(c)
            } else {
                copy_str("image/jpeg")
            }
        },
        None => copy_str("image/jpeg"),
    }
}

/// A link ingest failed on the link itself (a client error) rather than on
/// fetching it.
pub fn ingest_error_is_client(message: &str) -> (r: bool)
    ensures
        r == crate::text::starts_with(message@, "unsupported link"@),
{
    crate::text::starts_with_exec(chars_of(message).as_slice(), chars_of("unsupported link").as_slice())
}

// ------------------------------------------------------ small rules

/// The `count` parameter: a `usize` when it parses, else the default, then
/// clamped to `1..=MAX_NEXT_COUNT`.
pub open spec fn requested_count_spec(raw: Option<Seq<char>>) -> int {
    let v: int = match raw {
        Some(s) => match parse_unsigned(s, usize::MAX as int) {
            Some(n) => n,
            None => DEFAULT_NEXT_COUNT as int,
        },
        None => DEFAULT_NEXT_COUNT as int,
    };
    if v < 1 {
        1
    } else if v > MAX_NEXT_COUNT {
        MAX_NEXT_COUNT as int
    } else {
        v
    }
}

pub fn requested_count(raw: Option<&str>) -> (r: usize)
    ensures
        r == requested_count_spec(
            match raw {
                Some(s) => Some(s@),
                None => None,
            },
        ),
        1 <= r <= MAX_NEXT_COUNT,
{
    let v: usize = match raw {
        Some(s) => match parse_usize(chars_of(s).as_slice()) {
            Some(n) => n,
            None => DEFAULT_NEXT_COUNT,
        },
        None => DEFAULT_NEXT_COUNT,
    };
    if v < 1 {
        1
    } else if v > MAX_NEXT_COUNT {
        MAX_NEXT_COUNT
    } else {
        v
    }
}

/// The text after the last `.` of a path (the whole path when it has none).
pub open spec fn last_dot_piece(path: Seq<char>) -> Seq<char> {
    let pieces = crate::text::split_char(path, '.');
    pieces[pieces.len() - 1]
}

/// The content type served for a bundled asset, by its extension.
pub open spec fn content_type_spec(path: Seq<char>) -> Seq<char> {
    let ext = last_dot_piece(path);
    if ext == "html"@ {
        "text/html; charset=utf-8"@
    } else if ext == "js"@ {
        "text/javascript; charset=utf-8"@
    } else if ext == "css"@ {
        "text/css; charset=utf-8"@
    } else if ext == "json"@ || ext == "webmanifest"@ {
        "application/manifest+json"@
    } else if ext == "png"@ {
        "image/png"@
    } else if ext == "svg"@ {
        "image/svg+xml"@
    } else if ext == "ico"@ {
        "image/x-icon"@
    } else if ext == "wasm"@ {
        "application/wasm"@
    } else {
        "application/octet-stream"@
    }
}

pub fn content_type(path: &str) -> (r: &'static str)
    ensures
        r@ == content_type_spec(path@),
{
    let pieces = crate::text::split_char_exec(chars_of(path).as_slice(), '.');
    proof {
        crate::text::lemma_split_char_nonempty(path@, '.');
    }
    let ext = &pieces[pieces.len() - 1];
    let e = ext.as_slice();
    if crate::text::seq_eq(e, chars_of("html").as_slice()) {
        "text/html; charset=utf-8"
    } else if crate::text::seq_eq(e, chars_of("js").as_slice()) {
        "text/javascript; charset=utf-8"
    } else if crate::text::seq_eq(e, chars_of("css").as_slice()) {
        "text/css; charset=utf-8"
    } else if crate::text::seq_eq(e, chars_of("json").as_slice()) || crate::text::seq_eq(
        e,
        chars_of("webmanifest").as_slice(),
    ) {
        "application/manifest+json"
    } else if crate::text::seq_eq(e, chars_of("png").as_slice()) {
        "image/png"
    } else if crate::text::seq_eq(e, chars_of("svg").as_slice()) {
        "image/svg+xml"
    } else if crate::text::seq_eq(e, chars_of("ico").as_slice()) {
        "image/x-icon"
    } else if crate::text::seq_eq(e, chars_of("wasm").as_slice()) {
        "application/wasm"
    } else {
        "application/octet-stream"
    }
}

/// `&`, `"`, `<` and `>` escaped for HTML, in that order.
pub open spec fn html_escape_char(c: char) -> Seq<char> {
    if c == '&' {
        "&amp;"@
    } else if c == '"' {
        "&quot;"@
    } else if c == '<' {
        "&lt;"@
    } else if c == '>' {
        "&gt;"@
    } else {
        seq![c]
    }
}

pub open spec fn html_escape_spec(s: Seq<char>) -> Seq<char>
    decreases s.len(),
{
    if s.len() == 0 {
        Seq::empty()
    } else {
        html_escape_spec(s.drop_last()) + html_escape_char(s.last())
    }
}

pub fn html_escape(value: &str) -> (r: String)
    ensures
        r@ == html_escape_spec(value@),
{
    let c = chars_of(value);
    let mut out: Vec<char> = Vec::new();
    let mut i: usize = 0;
    while i < c.len()
        invariant
            i <= c@.len(),
            out@ == html_escape_spec(c@.take(i as int)),
        decreases c@.len() - i,
    {
        proof {
            assert(c@.take(i + 1).drop_last() =~= c@.take(i as int));
        }
        let ch = c[i];
        if ch == '&' {
            extend_chars(&mut out, chars_of("&amp;").as_slice());
        } else if ch == '"' {
            extend_chars(&mut out, chars_of("&quot;").as_slice());
        } else if ch == '<' {
            extend_chars(&mut out, chars_of("&lt;").as_slice());
        } else if ch == '>' {
            extend_chars(&mut out, chars_of("&gt;").as_slice());
        } else {
            out.push(ch);
            proof {
                assert(out@ =~= html_escape_spec(c@.take(i as int)) + seq![ch]);
            }
        }
        i += 1;
    }
    proof {
        assert(c@.take(c@.len() as int) =~= c@);
    }
    string_of(out.as_slice())
}

/// The stream URL of a song for the wave player.
pub fn stream_url(auth_stream: &str, id: &str) -> (r: String)
    ensures
        r@ == "/rest/stream?"@ + auth_stream@ + "&id="@ + form_encoded_of(id@),
{
    let mut v = chars_of("/rest/stream?");
    extend_chars(&mut v, chars_of(auth_stream).as_slice());
    extend_chars(&mut v, chars_of("&id=").as_slice());
    extend_chars(&mut v, chars_of(form_encode(id).as_str()).as_slice());
    string_of(v.as_slice())
}

/// A synthesized song as a wave track.
pub fn wave_track_from_entry(entry: SongEntry, auth_stream: &str) -> (r: WaveTrack)
    ensures
        r.stream_url@ == "/rest/stream?"@ + auth_stream@ + "&id="@ + form_encoded_of(entry.id@),
        r.id == entry.id,
        r.title == entry.title,
        r.artist == entry.artist,
        r.provider is None,
        r.reason is None,
        r.artist_id is None,
        r.album == entry.album,
        r.album_id is None,
        r.duration_secs == entry.duration_secs,
        r.cover_art == entry.cover_art,
{
    let url = stream_url(auth_stream, entry.id.as_str());
    WaveTrack {
        stream_url: url,
        id: entry.id,
        title: entry.title,
        artist: entry.artist,
        provider: None,
        reason: None,
        artist_id: None,
        album: entry.album,
        album_id: None,
        duration_secs: entry.duration_secs,
        cover_art: entry.cover_art,
    }
}

fn opt_string(v: &Json, key: &str) -> (r: Option<String>)
    ensures
        match r {
            Some(s) => as_str(at_key(*v, key@)) == Some(s@),
            None => as_str(at_key(*v, key@)) is None,
        },
{
    match str_at(v, key) {
        Some(s) => Some(s.clone()),
        None => None,
    }
}

/// A library song object as a wave track: it needs an id; a missing title
/// or artist reads "Unknown" / "Unknown artist"; the stream URL is built
/// from the auth query.
pub fn wave_track_from_json(song: &Json, auth_stream: &str) -> (r: Option<WaveTrack>)
    ensures
        as_str(at_key(*song, "id"@)) is None ==> r is None,
        as_str(at_key(*song, "id"@)) is Some ==> r is Some && ({
            let t = r.unwrap();
            let id = as_str(at_key(*song, "id"@)).unwrap();
            &&& t.id@ == id
            &&& t.stream_url@ == "/rest/stream?"@ + auth_stream@ + "&id="@ + form_encoded_of(id)
            &&& t.title@ == (match as_str(at_key(*song, "title"@)) {
                Some(x) => x,
                None => "Unknown"@,
            })
            &&& t.artist@ == (match as_str(at_key(*song, "artist"@)) {
                Some(x) => x,
                None => "Unknown artist"@,
            })
            &&& t.provider is None
            &&& t.reason is None
            &&& opt_view(t.artist_id) == as_str(at_key(*song, "artistId"@))
            &&& opt_view(t.album) == as_str(at_key(*song, "album"@))
            &&& opt_view(t.album_id) == as_str(at_key(*song, "albumId"@))
            &&& t.duration_secs == as_i64(at_key(*song, "duration"@))
            &&& opt_view(t.cover_art) == as_str(at_key(*song, "coverArt"@))
        }),
{
    let id = match str_at(song, "id") {
        Some(s) => s.clone(),
        None => return None,
    };
    let title = match str_at(song, "title") {
        Some(s) => s.clone(),
        None => copy_str("Unknown"),
    };
    let artist = match str_at(song, "artist") {
        Some(s) => s.clone(),
        None => copy_str("Unknown artist"),
    };
    let duration_secs = match at_key_exec(song, "duration") {
        Some(Json::Number(t)) => crate::text::parse_i64(chars_of(t.as_str()).as_slice()),
        _ => None,
    };
    Some(
        WaveTrack {
            stream_url: stream_url(auth_stream, id.as_str()),
            id,
            title,
            artist,
            provider: None,
            reason: None,
            artist_id: opt_string(song, "artistId"),
            album: opt_string(song, "album"),
            album_id: opt_string(song, "albumId"),
            duration_secs,
            cover_art: opt_string(song, "coverArt"),
        },
    )
}

/// A wave track as a listen-together queue entry; seconds become
/// milliseconds.
pub fn listen_track_from_wave(track: WaveTrack) -> (r: crate::listen::ListenTrack)
    requires
        match track.duration_secs {
            Some(s) => i64::MIN <= s * 1000 <= i64::MAX,
            None => true,
        },
    ensures
        r.id == track.id,
        r.title == track.title,
        r.artist == track.artist,
        r.provider == track.provider,
        r.artist_id == track.artist_id,
        r.album == track.album,
        r.album_id == track.album_id,
        r.cover_art == track.cover_art,
        r.duration_ms == (match track.duration_secs {
            Some(s) => Some((s * 1000) as i64),
            None => None,
        }),
{
    crate::listen::ListenTrack {
        id: track.id,
        title: track.title,
        artist: track.artist,
        provider: track.provider,
        artist_id: track.artist_id,
        album: track.album,
        album_id: track.album_id,
        cover_art: track.cover_art,
        duration_ms: match track.duration_secs {
            Some(s) => Some(s * 1000),
            None => None,
        },
    }
}


// ------------------------------------------------------- auth query

/// `name=value` pairs joined by `&`, each side form-encoded, as
/// `url::form_urlencoded::Serializer::append_pair` writes them.
pub open spec fn form_query_spec(pairs: Seq<(Seq<char>, Seq<char>)>) -> Seq<char>
    decreases pairs.len(),
{
    if pairs.len() == 0 {
        Seq::empty()
    } else {
        let init = form_query_spec(pairs.drop_last());
        let p = pairs.last();
        (if init.len() > 0 {
            init + "&"@
        } else {
            init
        }) + form_encoded_of(p.0) + "="@ + form_encoded_of(p.1)
    }
}

pub fn form_query(pairs: &Vec<(String, String)>) -> (r: String)
    ensures
        r@ == form_query_spec(crate::subsonic::pairs_view(pairs@)),
{
    let ghost pv = crate::subsonic::pairs_view(pairs@);
    let mut out: Vec<char> = Vec::new();
    let mut i: usize = 0;
    while i < pairs.len()
        invariant
            i <= pairs@.len(),
            pv == crate::subsonic::pairs_view(pairs@),
            out@ == form_query_spec(pv.take(i as int)),
        decreases pairs@.len() - i,
    {
        proof {
            assert(pv.take(i + 1).drop_last() =~= pv.take(i as int));
            assert(pv.take(i + 1).last() == (pairs@[i as int].0@, pairs@[i as int].1@));
        }
        if out.len() > 0 {
            out.push('&');
        }
        proof {
            reveal_strlit("&");
            reveal_strlit("=");
        }
        extend_chars(&mut out, chars_of(form_encode(pairs[i].0.as_str()).as_str()).as_slice());
        out.push('=');
        extend_chars(&mut out, chars_of(form_encode(pairs[i].1.as_str()).as_str()).as_slice());
        proof {
            let init = form_query_spec(pv.take(i as int));
            assert(out@ =~= (if init.len() > 0 { init + "&"@ } else { init }) + form_encoded_of(pairs@[i as int].0@) + "="@ + form_encoded_of(pairs@[i as int].1@));
        }
        i += 1;
    }
    proof {
        assert(pv.take(pairs@.len() as int) =~= pv);
    }
    string_of(out.as_slice())
}

/// The Subsonic auth parameters the wave forwards, in this order.
pub open spec fn auth_keys() -> Seq<Seq<char>> {
    seq!["u"@, "t"@, "s"@, "p"@, "v"@, "c"@]
}

/// The pairs of the wave's auth query: each auth parameter present (last
/// occurrence), then `f` when a format is given.
pub open spec fn auth_pairs_spec(
    params: Seq<(Seq<char>, Seq<char>)>,
    format: Option<Seq<char>>,
) -> Seq<(Seq<char>, Seq<char>)> {
    let present = auth_keys().filter(|k: Seq<char>| crate::subsonic::last_value(params, k) is Some);
    let base = present.map_values(|k: Seq<char>| (k, crate::subsonic::last_value(params, k).unwrap()));
    match format {
        Some(f) => base.push(("f"@, f)),
        None => base,
    }
}

/// The auth part of a query for the wave's own requests, with an optional
/// format.
pub fn auth_query_with_format(params: &Vec<(String, String)>, format: Option<&str>) -> (r: String)
    ensures
        r@ == form_query_spec(auth_pairs_spec(crate::subsonic::pairs_view(params@), match format {
            Some(f) => Some(f@),
            None => None,
        })),
{
    let ghost pv = crate::subsonic::pairs_view(params@);
    let keys: Vec<&'static str> = vec!["u", "t", "s", "p", "v", "c"];
    let ghost kv = keys@.map_values(|k: &'static str| k@);
    proof {
        reveal_strlit("u");
        reveal_strlit("t");
        reveal_strlit("s");
        reveal_strlit("p");
        reveal_strlit("v");
        reveal_strlit("c");
        assert(kv =~= auth_keys());
    }
    let ghost pred = |k: Seq<char>| crate::subsonic::last_value(pv, k) is Some;
    let ghost val = |k: Seq<char>| (k, crate::subsonic::last_value(pv, k).unwrap());
    let mut pairs: Vec<(String, String)> = Vec::new();
    let mut i: usize = 0;
    while i < keys.len()
        invariant
            i <= keys@.len(),
            keys@.len() == 6,
            kv == keys@.map_values(|k: &'static str| k@),
            pv == crate::subsonic::pairs_view(params@),
            pred == (|k: Seq<char>| crate::subsonic::last_value(pv, k) is Some),
            val == (|k: Seq<char>| (k, crate::subsonic::last_value(pv, k).unwrap())),
            crate::subsonic::pairs_view(pairs@) == kv.take(i as int).filter(pred).map_values(val),
        decreases keys@.len() - i,
    {
        proof {
            assert(kv.take(i + 1) =~= kv.take(i as int).push(kv[i as int]));
            kv.take(i as int).lemma_filter_push(kv[i as int], pred);
        }
        let ghost before = pairs@;
        match crate::subsonic::param(params, keys[i]) {
            Some(v) => {
                pairs.push((copy_str(keys[i]), v.clone()));
                proof {
                    assert(crate::subsonic::pairs_view(pairs@) =~= crate::subsonic::pairs_view(before).push((kv[i as int], v@)));
                    assert(kv.take(i + 1).filter(pred).map_values(val) =~= kv.take(i as int).filter(pred).map_values(val).push(val(kv[i as int])));
                }
            },
            None => {
            },
        }
        i += 1;
    }
    proof {
        assert(kv.take(6) =~= kv);
    }
    match format {
        Some(f) => {
            let ghost before = pairs@;
            pairs.push((copy_str("f"), copy_str(f)));
            proof {
                assert(crate::subsonic::pairs_view(pairs@) =~= crate::subsonic::pairs_view(before).push(("f"@, f@)));
            }
        },
        None => {},
    }
    form_query(&pairs)
}

/// The auth query with the client's own `f`, when it gave one.
pub fn auth_query(params: &Vec<(String, String)>) -> (r: String)
    ensures
        r@ == form_query_spec(auth_pairs_spec(crate::subsonic::pairs_view(params@), crate::subsonic::last_value(crate::subsonic::pairs_view(params@), "f"@))),
{
    match crate::subsonic::param(params, "f") {
        Some(f) => auth_query_with_format(params, Some(f.as_str())),
        None => auth_query_with_format(params, None),
    }
}

// --------------------------------------------------- suppression

/// Songs and artists the user recently skipped or disliked.
#[derive(Debug, Clone)]
pub struct FeedbackSuppression {
    pub song_keys: Vec<String>,
    pub artist_keys: Vec<String>,
}

pub open spec fn strings_view(v: Seq<String>) -> Seq<Seq<char>> {
    v.map_values(|s: String| s@)
}

/// A stored feedback row: song key, artist key, action, time.
pub open spec fn row_suppresses_song(action: Seq<char>, at: int, now: int) -> bool {
    action == "dislike"@ || (action == "skip"@ && at >= now - FEEDBACK_SKIP_COOLDOWN_DAYS * 86400)
}

pub open spec fn row_suppresses_artist(action: Seq<char>) -> bool {
    action == "dislike"@
}

impl FeedbackSuppression {
    /// The suppression from the user's skip/dislike rows of the last year:
    /// a dislike suppresses the song and its artist, a skip within the skip
    /// cooldown the song.
    pub fn from_rows(rows: &Vec<(String, String, String, i64)>, now: i64) -> (r: FeedbackSuppression)
        requires
            now - FEEDBACK_SKIP_COOLDOWN_DAYS * 86400 >= i64::MIN,
        ensures
            forall|k: Seq<char>| strings_view(r.song_keys@).contains(k) <==> exists|i: int|
                0 <= i < rows@.len() && #[trigger] rows@[i].0@ == k && row_suppresses_song(rows@[i].2@, rows@[i].3 as int, now as int),
            forall|k: Seq<char>| strings_view(r.artist_keys@).contains(k) <==> exists|i: int|
                0 <= i < rows@.len() && #[trigger] rows@[i].1@ == k && row_suppresses_artist(rows@[i].2@),
    {
        let cutoff = now - FEEDBACK_SKIP_COOLDOWN_DAYS * 86400;
        let mut songs: Vec<String> = Vec::new();
        let mut artists: Vec<String> = Vec::new();
        let mut i: usize = 0;
        while i < rows.len()
            invariant
                i <= rows@.len(),
                cutoff == now - FEEDBACK_SKIP_COOLDOWN_DAYS * 86400,
                forall|k: Seq<char>| strings_view(songs@).contains(k) <==> exists|j: int|
                    0 <= j < i && #[trigger] rows@[j].0@ == k && row_suppresses_song(rows@[j].2@, rows@[j].3 as int, now as int),
                forall|k: Seq<char>| strings_view(artists@).contains(k) <==> exists|j: int|
                    0 <= j < i && #[trigger] rows@[j].1@ == k && row_suppresses_artist(rows@[j].2@),
            decreases rows@.len() - i,
        {
            let row = &rows[i];
            let dislike = str_eq(row.2.as_str(), "dislike");
            let skip = str_eq(row.2.as_str(), "skip");
            let ghost s0 = songs@;
            let ghost a0 = artists@;
            if dislike {
                songs.push(row.0.clone());
                artists.push(row.1.clone());
            } else if skip && row.3 >= cutoff {
                songs.push(row.0.clone());
            }
            proof {
                assert forall|k: Seq<char>| strings_view(songs@).contains(k) <==> exists|j: int|
                    0 <= j < i + 1 && #[trigger] rows@[j].0@ == k && row_suppresses_song(rows@[j].2@, rows@[j].3 as int, now as int) by {
                    if strings_view(songs@).contains(k) {
                        let m = choose|m: int| 0 <= m < strings_view(songs@).len() && strings_view(songs@)[m] == k;
                        if m < s0.len() {
                            assert(strings_view(s0)[m] == k);
                            assert(strings_view(s0).contains(k));
                        } else {
                            assert(rows@[i as int].0@ == k);
                        }
                    }
                    if exists|j: int| 0 <= j < i + 1 && #[trigger] rows@[j].0@ == k && row_suppresses_song(rows@[j].2@, rows@[j].3 as int, now as int) {
                        let j = choose|j: int| 0 <= j < i + 1 && #[trigger] rows@[j].0@ == k && row_suppresses_song(rows@[j].2@, rows@[j].3 as int, now as int);
                        if j < i {
                            assert(exists|j2: int| 0 <= j2 < i && #[trigger] rows@[j2].0@ == k && row_suppresses_song(rows@[j2].2@, rows@[j2].3 as int, now as int));
                            assert(strings_view(s0).contains(k));
                            let m = choose|m: int| 0 <= m < strings_view(s0).len() && strings_view(s0)[m] == k;
                            assert(strings_view(songs@)[m] == k);
                        } else {
                            assert(strings_view(songs@)[s0.len() as int] == k);
                        }
                    }
                }
                assert forall|k: Seq<char>| strings_view(artists@).contains(k) <==> exists|j: int|
                    0 <= j < i + 1 && #[trigger] rows@[j].1@ == k && row_suppresses_artist(rows@[j].2@) by {
                    if strings_view(artists@).contains(k) {
                        let m = choose|m: int| 0 <= m < strings_view(artists@).len() && strings_view(artists@)[m] == k;
                        if m < a0.len() {
                            assert(strings_view(a0)[m] == k);
                            assert(strings_view(a0).contains(k));
                        } else {
                            assert(rows@[i as int].1@ == k);
                        }
                    }
                    if exists|j: int| 0 <= j < i + 1 && #[trigger] rows@[j].1@ == k && row_suppresses_artist(rows@[j].2@) {
                        let j = choose|j: int| 0 <= j < i + 1 && #[trigger] rows@[j].1@ == k && row_suppresses_artist(rows@[j].2@);
                        if j < i {
                            assert(exists|j2: int| 0 <= j2 < i && #[trigger] rows@[j2].1@ == k && row_suppresses_artist(rows@[j2].2@));
                            assert(strings_view(a0).contains(k));
                            let m = choose|m: int| 0 <= m < strings_view(a0).len() && strings_view(a0)[m] == k;
                            assert(strings_view(artists@)[m] == k);
                        } else {
                            assert(strings_view(artists@)[a0.len() as int] == k);
                        }
                    }
                }
            }
            i += 1;
        }
        FeedbackSuppression { song_keys: songs, artist_keys: artists }
    }

    pub open spec fn suppresses(&self, artist: Seq<char>, title: Seq<char>) -> bool {
        strings_view(self.song_keys@).contains(song_key_spec(artist, title)) || strings_view(
            self.artist_keys@,
        ).contains(artist_key_spec(artist))
    }

    /// The song or its artist is suppressed.
    pub fn is_suppressed(&self, artist: &str, title: &str) -> (r: bool)
        ensures
            r == self.suppresses(artist@, title@),
    {
        let sk = song_key(artist, title);
        let ak = artist_key(artist);
        contains_string(&self.song_keys, sk.as_str()) || contains_string(&self.artist_keys, ak.as_str())
    }
}

fn contains_string(v: &Vec<String>, s: &str) -> (r: bool)
    ensures
        r == strings_view(v@).contains(s@),
{
    let mut i: usize = 0;
    while i < v.len()
        invariant
            i <= v@.len(),
            forall|j: int| 0 <= j < i ==> strings_view(v@)[j] != s@,
        decreases v@.len() - i,
    {
        if str_eq(v[i].as_str(), s) {
            assert(strings_view(v@)[i as int] == s@);
            return true;
        }
        i += 1;
    }
    proof {
        if strings_view(v@).contains(s@) {
            let j = choose|j: int| 0 <= j < strings_view(v@).len() && strings_view(v@)[j] == s@;
            assert(strings_view(v@)[j] != s@);
        }
    }
    false
}


// ------------------------------------------------------------ budgets

/// A seed may add up to `PER_SEED_COUNT` of what the batch still lacks;
/// zero means the batch is full.
pub fn seed_budget(count: usize, have: usize) -> (r: usize)
    ensures
        r == (if have >= count {
            0
        } else if count - have < PER_SEED_COUNT {
            count - have
        } else {
            PER_SEED_COUNT as int
        }),
{
    if have >= count {
        0
    } else if count - have < PER_SEED_COUNT {
        count - have
    } else {
        PER_SEED_COUNT
    }
}

/// How many recommendations to ask for `count` tracks: twice the count,
/// within `count..=MAX_NEXT_COUNT`.
pub fn seed_request_count(count: usize) -> (r: usize)
    requires
        count <= MAX_NEXT_COUNT,
    ensures
        r == (if 2 * count > MAX_NEXT_COUNT {
            MAX_NEXT_COUNT as int
        } else {
            2 * count
        }),
        count <= r <= MAX_NEXT_COUNT,
{
    if count > MAX_NEXT_COUNT / 2 {
        MAX_NEXT_COUNT
    } else {
        2 * count
    }
}

/// The cached-provider step: fill up to half the batch (at least one) of
/// what is missing, sampling three times what is missing (at least the
/// share). Returns the length to stop at and the sample size.
pub fn cached_budget(count: usize, have: usize) -> (r: (usize, usize))
    requires
        have < count,
    ensures
        ({
            let remaining = count - have;
            let half: int = if count / 2 > 1 {
                (count / 2) as int
            } else {
                1
            };
            let share = if remaining < half {
                remaining
            } else {
                half
            };
            let triple: int = if 3 * remaining > usize::MAX {
                usize::MAX as int
            } else {
                3 * remaining
            };
            &&& r.0 == have + share
            &&& r.1 == (if triple > share {
                triple
            } else {
                share
            })
        }),
{
    let remaining = count - have;
    let half = if count / 2 > 1 {
        count / 2
    } else {
        1
    };
    let share = if remaining < half {
        remaining
    } else {
        half
    };
    let triple = if remaining > usize::MAX / 3 {
        usize::MAX
    } else {
        remaining * 3
    };
    (have + share, if triple > share {
        triple
    } else {
        share
    })
}

/// The random library sample for what is missing: eight times it, at
/// least 24 (and at least what is missing), at most
/// `MAX_RANDOM_FALLBACK_COUNT`.
pub fn random_sample_count(count: usize, have: usize) -> (r: usize)
    requires
        have < count,
    ensures
        ({
            let remaining = count - have;
            let eight: int = if 8 * remaining > usize::MAX {
                usize::MAX as int
            } else {
                8 * remaining
            };
            let floor: int = if remaining > 24 {
                remaining
            } else {
                24
            };
            let wanted = if eight > floor {
                eight
            } else {
                floor
            };
            r == if wanted < MAX_RANDOM_FALLBACK_COUNT {
                wanted
            } else {
                MAX_RANDOM_FALLBACK_COUNT as int
            }
        }),
{
    let remaining = count - have;
    let eight = if remaining > usize::MAX / 8 {
        usize::MAX
    } else {
        remaining * 8
    };
    let floor = if remaining > 24 {
        remaining
    } else {
        24
    };
    let wanted = if eight > floor {
        eight
    } else {
        floor
    };
    if wanted < MAX_RANDOM_FALLBACK_COUNT {
        wanted
    } else {
        MAX_RANDOM_FALLBACK_COUNT
    }
}

// ---------------------------------------------------------- extending

/// How a source's tracks are checked before joining the batch.
#[derive(Debug, Clone, Copy, PartialEq, Eq)]
pub enum ExtendRule {
    /// Recommendations for a seed: suppressed songs are skipped; every other
    /// key is remembered, and the track joins unless its id is already in.
    Seed,
    /// The Yandex wave: suppressed songs, ids already in, and keys matching
    /// a remembered key are skipped.
    YandexWave,
    /// Cached provider tracks and random library tracks: (optionally)
    /// suppressed songs, keys matching a remembered key, and tracks whose id
    /// or song key is already in are skipped.
    Library { respect_suppression: bool },
}

pub open spec fn has_id(tracks: Seq<WaveTrack>, id: Seq<char>) -> bool {
    exists|i: int| 0 <= i < tracks.len() && #[trigger] tracks[i].id@ == id
}

pub open spec fn has_id_or_song(tracks: Seq<WaveTrack>, c: WaveTrack) -> bool {
    exists|i: int| #![trigger tracks[i]]
        0 <= i < tracks.len() && (tracks[i].id@ == c.id@ || song_key_spec(tracks[i].artist@, tracks[i].title@)
            == song_key_spec(c.artist@, c.title@))
}

/// The batch and remembered keys after offering `cands` (track and key) in
/// order, stopping once the batch reaches `target`.
pub open spec fn extend_spec(
    tracks: Seq<WaveTrack>,
    existing: Seq<(Seq<char>, Seq<char>, Option<int>)>,
    cands: Seq<(WaveTrack, SongKey)>,
    sup: FeedbackSuppression,
    target: nat,
    rule: ExtendRule,
) -> (Seq<WaveTrack>, Seq<(Seq<char>, Seq<char>, Option<int>)>)
    decreases cands.len(),
{
    if cands.len() == 0 {
        (tracks, existing)
    } else {
        let c = cands[0].0;
        let k = cands[0].1@;
        let rest = cands.drop_first();
        let suppressed = sup.suppresses(c.artist@, c.title@);
        let skip = match rule {
            ExtendRule::Seed => suppressed,
            ExtendRule::YandexWave => suppressed || has_id(tracks, c.id@) || any_match(existing, k),
            ExtendRule::Library { respect_suppression } => (respect_suppression && suppressed)
                || any_match(existing, k) || has_id_or_song(tracks, c),
        };
        if skip {
            extend_spec(tracks, existing, rest, sup, target, rule)
        } else {
            let e2 = existing.push(k);
            let t2 = if rule == ExtendRule::Seed && has_id(tracks, c.id@) {
                tracks
            } else {
                tracks.push(c)
            };
            if t2.len() >= target {
                (t2, e2)
            } else {
                extend_spec(t2, e2, rest, sup, target, rule)
            }
        }
    }
}

fn copy_opt(o: &Option<String>) -> (r: Option<String>)
    ensures
        r == *o,
{
    match o {
        Some(s) => Some(s.clone()),
        None => None,
    }
}

pub fn copy_wave_track(t: &WaveTrack) -> (r: WaveTrack)
    ensures
        r == *t,
{
    WaveTrack {
        id: t.id.clone(),
        title: t.title.clone(),
        artist: t.artist.clone(),
        provider: copy_opt(&t.provider),
        reason: match &t.reason {
            Some(w) => Some(
                WaveReason {
                    kind: w.kind,
                    source: w.source,
                    seed_artist: copy_opt(&w.seed_artist),
                    seed_title: copy_opt(&w.seed_title),
                },
            ),
            None => None,
        },
        artist_id: copy_opt(&t.artist_id),
        album: copy_opt(&t.album),
        album_id: copy_opt(&t.album_id),
        duration_secs: t.duration_secs,
        cover_art: copy_opt(&t.cover_art),
        stream_url: t.stream_url.clone(),
    }
}

fn track_has_id(tracks: &Vec<WaveTrack>, id: &str) -> (r: bool)
    ensures
        r == has_id(tracks@, id@),
{
    let mut i: usize = 0;
    while i < tracks.len()
        invariant
            i <= tracks@.len(),
            forall|j: int| 0 <= j < i ==> tracks@[j].id@ != id@,
        decreases tracks@.len() - i,
    {
        if str_eq(tracks[i].id.as_str(), id) {
            return true;
        }
        i += 1;
    }
    false
}

fn track_has_id_or_song(tracks: &Vec<WaveTrack>, c: &WaveTrack) -> (r: bool)
    ensures
        r == has_id_or_song(tracks@, *c),
{
    let want = song_key(c.artist.as_str(), c.title.as_str());
    let mut i: usize = 0;
    while i < tracks.len()
        invariant
            i <= tracks@.len(),
            want@ == song_key_spec(c.artist@, c.title@),
            forall|j: int| #![trigger tracks@[j]]
                0 <= j < i ==> !(tracks@[j].id@ == c.id@ || song_key_spec(
                    tracks@[j].artist@,
                    tracks@[j].title@,
                ) == song_key_spec(c.artist@, c.title@)),
        decreases tracks@.len() - i,
    {
        if str_eq(tracks[i].id.as_str(), c.id.as_str()) {
            return true;
        }
        let k = song_key(tracks[i].artist.as_str(), tracks[i].title.as_str());
        if str_eq(k.as_str(), want.as_str()) {
            return true;
        }
        i += 1;
    }
    false
}

/// Offer a source's tracks to the batch (see `extend_spec`).
pub fn extend_wave(
    tracks: &mut Vec<WaveTrack>,
    existing: &mut Vec<SongKey>,
    cands: &Vec<(WaveTrack, SongKey)>,
    sup: &FeedbackSuppression,
    target: usize,
    rule: ExtendRule,
)
    ensures
        (final(tracks)@, keys_view(final(existing)@)) == extend_spec(
            old(tracks)@,
            keys_view(old(existing)@),
            cands@,
            *sup,
            target as nat,
            rule,
        ),
{
    let ghost goal = extend_spec(tracks@, keys_view(existing@), cands@, *sup, target as nat, rule);
    let mut i: usize = 0;
    let mut done = false;
    proof {
        assert(cands@.subrange(0, cands@.len() as int) =~= cands@);
    }
    while i < cands.len() && !done
        invariant
            i <= cands@.len(),
            done ==> goal == (tracks@, keys_view(existing@)),
            !done ==> goal == extend_spec(
                tracks@,
                keys_view(existing@),
                cands@.subrange(i as int, cands@.len() as int),
                *sup,
                target as nat,
                rule,
            ),
        decreases cands@.len() - i,
    {
        let ghost rest = cands@.subrange(i as int, cands@.len() as int);
        proof {
            assert(rest[0] == cands@[i as int]);
            assert(rest.drop_first() =~= cands@.subrange(i + 1, cands@.len() as int));
        }
        let c = &cands[i].0;
        let k = &cands[i].1;
        let suppressed = sup.is_suppressed(c.artist.as_str(), c.title.as_str());
        let skip = match rule {
            ExtendRule::Seed => suppressed,
            ExtendRule::YandexWave => suppressed || track_has_id(tracks, c.id.as_str())
                || any_key_matches(existing, k),
            ExtendRule::Library { respect_suppression } => (respect_suppression && suppressed)
                || any_key_matches(existing, k) || track_has_id_or_song(tracks, c),
        };
        if !skip {
            let ghost e0 = existing@;
            let ghost t0 = tracks@;
            let nk = SongKey { artist: k.artist.clone(), title: k.title.clone(), duration_secs: k.duration_secs };
            existing.push(nk);
            proof {
                assert(existing@ == e0.push(nk));
                assert(keys_view(existing@) =~= keys_view(e0).push(k@));
            }
            let seed_dup = match rule {
                ExtendRule::Seed => track_has_id(tracks, c.id.as_str()),
                _ => false,
            };
            if !seed_dup {
                tracks.push(copy_wave_track(c));
            }
            if tracks.len() >= target {
                done = true;
            }
        }
        i += 1;
    }
    proof {
        if !done {
            assert(cands@.subrange(i as int, cands@.len() as int) =~= Seq::<(WaveTrack, SongKey)>::empty());
        }
    }
}


/// Whether a rule skips suppressed songs.
pub open spec fn respects_suppression(rule: ExtendRule) -> bool {
    match rule {
        ExtendRule::Seed => true,
        ExtendRule::YandexWave => true,
        ExtendRule::Library { respect_suppression } => respect_suppression,
    }
}

pub open spec fn cand_tracks(cands: Seq<(WaveTrack, SongKey)>) -> Seq<WaveTrack> {
    cands.map_values(|c: (WaveTrack, SongKey)| c.0)
}

/// What offering `cands` to the batch `tracks` may produce `out`: the batch
/// only grows at its end; each added track is one of the candidates, not
/// suppressed when the rule respects suppression, and with an id not yet in
/// the batch; a batch short of `target` ends no longer than `target`.
pub open spec fn extend_clean(
    tracks: Seq<WaveTrack>,
    cands: Seq<(WaveTrack, SongKey)>,
    sup: FeedbackSuppression,
    target: nat,
    rule: ExtendRule,
    out: Seq<WaveTrack>,
) -> bool {
    &&& tracks.len() <= out.len()
    &&& out.subrange(0, tracks.len() as int) == tracks
    &&& forall|i: int| tracks.len() <= i < out.len() ==> cand_tracks(cands).contains(#[trigger] out[i])
    &&& respects_suppression(rule) ==> forall|i: int|
        tracks.len() <= i < out.len() ==> !sup.suppresses(#[trigger] out[i].artist@, out[i].title@)
    &&& forall|i: int| tracks.len() <= i < out.len() ==> !has_id(out.take(i), #[trigger] out[i].id@)
    &&& tracks.len() < target ==> out.len() <= target
}

proof fn lemma_extend_clean(
    tracks: Seq<WaveTrack>,
    existing: Seq<(Seq<char>, Seq<char>, Option<int>)>,
    cands: Seq<(WaveTrack, SongKey)>,
    sup: FeedbackSuppression,
    target: nat,
    rule: ExtendRule,
)
    ensures
        extend_clean(tracks, cands, sup, target, rule, extend_spec(tracks, existing, cands, sup, target, rule).0),
    decreases cands.len(),
{
    let out = extend_spec(tracks, existing, cands, sup, target, rule).0;
    if cands.len() == 0 {
        assert(out.subrange(0, tracks.len() as int) =~= tracks);
    } else {
        let c = cands[0].0;
        let k = cands[0].1@;
        let rest = cands.drop_first();
        assert forall|x: WaveTrack| cand_tracks(rest).contains(x) implies cand_tracks(cands).contains(x) by {
            let j = choose|j: int| 0 <= j < cand_tracks(rest).len() && cand_tracks(rest)[j] == x;
            assert(cand_tracks(cands)[j + 1] == x);
        }
        assert(cand_tracks(cands)[0] == c);
        let suppressed = sup.suppresses(c.artist@, c.title@);
        let skip = match rule {
            ExtendRule::Seed => suppressed,
            ExtendRule::YandexWave => suppressed || has_id(tracks, c.id@) || any_match(existing, k),
            ExtendRule::Library { respect_suppression } => (respect_suppression && suppressed)
                || any_match(existing, k) || has_id_or_song(tracks, c),
        };
        if skip {
            lemma_extend_clean(tracks, existing, rest, sup, target, rule);
        } else {
            let e2 = existing.push(k);
            let pushed = !(rule == ExtendRule::Seed && has_id(tracks, c.id@));
            let t2 = if pushed {
                tracks.push(c)
            } else {
                tracks
            };
            if pushed {
                assert(!has_id(tracks, c.id@)) by {
                    if has_id(tracks, c.id@) {
                        let i = choose|i: int| 0 <= i < tracks.len() && #[trigger] tracks[i].id@ == c.id@;
                        if let ExtendRule::Library { .. } = rule {
                            assert(has_id_or_song(tracks, c));
                        }
                    }
                }
            }
            if t2.len() >= target {
                assert(out == t2);
                assert(out.subrange(0, tracks.len() as int) =~= tracks);
                if pushed {
                    assert(out.take(tracks.len() as int) =~= tracks);
                }
            } else {
                lemma_extend_clean(t2, e2, rest, sup, target, rule);
                assert(out == extend_spec(t2, e2, rest, sup, target, rule).0);
                assert(out.subrange(0, tracks.len() as int) =~= t2.subrange(0, tracks.len() as int));
                assert(t2.subrange(0, tracks.len() as int) =~= tracks);
                if pushed {
                    assert(out[tracks.len() as int] == t2[tracks.len() as int]);
                    assert(out.take(tracks.len() as int) =~= tracks);
                }
            }
        }
    }
}

/// Offering a source's tracks never disturbs the batch or repeats a track:
/// for any batch, remembered keys, candidates, suppression, target and
/// rule, the batch only grows at its end, each added track is one of the
/// candidates, is not suppressed when the rule respects suppression, and
/// has an id not already in the batch, and a batch short of the target
/// does not overshoot it.
pub proof fn law_extend_appends_fresh_tracks(
    tracks: Seq<WaveTrack>,
    existing: Seq<SongKey>,
    cands: Seq<(WaveTrack, SongKey)>,
    sup: FeedbackSuppression,
    target: nat,
    rule: ExtendRule,
)
    ensures
        extend_clean(
            tracks,
            cands,
            sup,
            target,
            rule,
            extend_spec(tracks, keys_view(existing), cands, sup, target, rule).0,
        ),
{
    lemma_extend_clean(tracks, keys_view(existing), cands, sup, target, rule);
}

/// No two tracks of a batch share an id.
pub open spec fn ids_distinct(s: Seq<WaveTrack>) -> bool {
    forall|i: int| 0 <= i < s.len() ==> !has_id(s.take(i), #[trigger] s[i].id@)
}

/// A batch built stage by stage never holds one id twice: for any batch
/// whose ids are distinct and any source offered to it under any rule, the
/// batch after the offer still has distinct ids; so every batch built from
/// the empty one by offers in turn has distinct ids.
pub proof fn law_batch_ids_stay_distinct(
    tracks: Seq<WaveTrack>,
    existing: Seq<SongKey>,
    cands: Seq<(WaveTrack, SongKey)>,
    sup: FeedbackSuppression,
    target: nat,
    rule: ExtendRule,
)
    requires
        ids_distinct(tracks),
    ensures
        ids_distinct(extend_spec(tracks, keys_view(existing), cands, sup, target, rule).0),
{
    let out = extend_spec(tracks, keys_view(existing), cands, sup, target, rule).0;
    lemma_extend_clean(tracks, keys_view(existing), cands, sup, target, rule);
    assert forall|i: int| 0 <= i < out.len() implies !has_id(out.take(i), #[trigger] out[i].id@) by {
        if i < tracks.len() {
            assert(out[i] == out.subrange(0, tracks.len() as int)[i]);
            assert(out.take(i) =~= tracks.take(i));
            assert(out[i] == tracks[i]);
        }
    }
}

// ------------------------------------------------------------- stages

/// The steps of building a batch, in order: seed recommendations, the
/// Yandex wave, cached Yandex tracks, random library tracks (respecting
/// suppression, then not).
#[derive(Debug, Clone, Copy, PartialEq, Eq, Structural)]
pub enum WaveStage {
    Seeds,
    YandexWave,
    CachedProvider,
    RandomRespecting,
    RandomAll,
    Done,
}

pub open spec fn stage_rank(s: WaveStage) -> int {
    match s {
        WaveStage::Seeds => 0,
        WaveStage::YandexWave => 1,
        WaveStage::CachedProvider => 2,
        WaveStage::RandomRespecting => 3,
        WaveStage::RandomAll => 4,
        WaveStage::Done => 5,
    }
}

/// The stage after `done`: the next one that still has work, given the
/// batch size wanted, the tracks gathered, and whether Yandex is available
/// (cached Yandex tracks are only tried then). Every stage after the seeds
/// runs only while the batch is short.
pub open spec fn next_stage_spec(done: WaveStage, count: nat, have: nat, yandex: bool) -> WaveStage
    decreases 5 - stage_rank(done),
{
    let candidate = match done {
        WaveStage::Seeds => WaveStage::YandexWave,
        WaveStage::YandexWave => WaveStage::CachedProvider,
        WaveStage::CachedProvider => WaveStage::RandomRespecting,
        WaveStage::RandomRespecting => WaveStage::RandomAll,
        _ => WaveStage::Done,
    };
    if candidate == WaveStage::Done {
        WaveStage::Done
    } else if have < count && (candidate != WaveStage::CachedProvider || yandex) {
        candidate
    } else {
        next_stage_spec(candidate, count, have, yandex)
    }
}

pub fn next_stage(done: WaveStage, count: usize, have: usize, yandex: bool) -> (r: WaveStage)
    ensures
        r == next_stage_spec(done, count as nat, have as nat, yandex),
        stage_rank(r) > stage_rank(done) || r == WaveStage::Done,
        r != WaveStage::Done ==> have < count,
    decreases 5 - stage_rank(done),
{
    let candidate = match done {
        WaveStage::Seeds => WaveStage::YandexWave,
        WaveStage::YandexWave => WaveStage::CachedProvider,
        WaveStage::CachedProvider => WaveStage::RandomRespecting,
        WaveStage::RandomRespecting => WaveStage::RandomAll,
        _ => WaveStage::Done,
    };
    if candidate == WaveStage::Done {
        WaveStage::Done
    } else if have < count && (candidate != WaveStage::CachedProvider || yandex) {
        candidate
    } else {
        next_stage(candidate, count, have, yandex)
    }
}

} // verus!
