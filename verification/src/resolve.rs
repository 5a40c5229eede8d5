//! Virtual track to a concrete YouTube source: when a stored resolution is
//! still good, which search hit wins, the innertube audio format and its
//! chunked fetch. Running yt-dlp and HTTP happen at the program's edge; the
//! float match score is computed there too.
use vstd::prelude::*;

use crate::subsonic::{form_pairs, pairs_view, query_params};
use crate::text::{chars_of, contains, contains_exec, copy_str, extend_chars, is_ascii_alnum, is_ascii_alnum_exec, lowercase, lowercased, parse_i64, parse_u64, parse_unsigned, slice_chars, split_once, split_once_exec, starts_with, starts_with_exec, str_eq, string_of, transliterate, transliterated, u64_decimal, decimal};
use crate::json::{as_str, at_key, at_key_exec, key_or_null, str_at, Json};
use crate::recs::opt_view;
use crate::search::as_i64;
use crate::vtrack::VirtualTrack;

verus! {

/// A stored resolution older than this is searched again.
pub const RESOLUTION_TTL_SECS: i64 = 86400;

#[derive(Debug, Clone)]
pub struct Resolution {
    pub url: String,
    pub score: i64,
    pub candidate_title: String,
}

/// The plain parts of a yt-dlp search hit.
#[derive(Debug, Clone)]
pub struct SearchHit {
    pub id: String,
    pub url: Option<String>,
    pub title: String,
}

/// A hit's URL: its own, else the watch URL of its id.
pub fn hit_watch_url(hit: &SearchHit) -> (r: String)
    ensures
        r@ == (match hit.url {
            Some(u) => u@,
            None => "https://www.youtube.com/watch?v="@ + hit.id@,
        }),
{
    match &hit.url {
        Some(u) => u.clone(),
        None => crate::ingest_url::yt_watch(hit.id.as_str()),
    }
}

/// A stored resolution is used while younger than the TTL.
pub open spec fn resolution_fresh(at: i64, now: i64) -> bool {
    now - at < RESOLUTION_TTL_SECS
}

/// The stored resolution of a track, when it has all of URL, score and time
/// and is still fresh; its title defaults to empty.
pub fn cached_resolution(track: &VirtualTrack, now: i64) -> (r: Option<Resolution>)
    requires
        track.resolved_at_epoch is Some ==> i64::MIN <= now - track.resolved_at_epoch.unwrap() <= i64::MAX,
    ensures
        (track.resolved_url is Some && track.resolved_score is Some && track.resolved_at_epoch is Some
            && resolution_fresh(track.resolved_at_epoch.unwrap(), now)) ==> r is Some
            && r.unwrap().url == track.resolved_url.unwrap() && r.unwrap().score
            == track.resolved_score.unwrap() && r.unwrap().candidate_title@ == (match track.resolved_title {
            Some(t) => t@,
            None => Seq::<char>::empty(),
        }),
        !(track.resolved_url is Some && track.resolved_score is Some && track.resolved_at_epoch is Some
            && resolution_fresh(track.resolved_at_epoch.unwrap(), now)) ==> r is None,
{
    match (&track.resolved_url, track.resolved_score, track.resolved_at_epoch) {
        (Some(url), Some(score), Some(at)) => {
            if now - at < RESOLUTION_TTL_SECS {
                Some(
                    Resolution {
                        url: url.clone(),
                        score,
                        candidate_title: match &track.resolved_title {
                            Some(t) => t.clone(),
                            None => String::new(),
                        },
                    },
                )
            } else {
                None
            }
        },
        _ => None,
    }
}

/// Prefetching skips imported tracks and tracks with a fresh resolution.
pub fn needs_prefetch(track: &VirtualTrack, now: i64) -> (r: bool)
    requires
        track.resolved_at_epoch is Some ==> i64::MIN <= now - track.resolved_at_epoch.unwrap() <= i64::MAX,
    ensures
        r == (track.real_subsonic_id is None && !(track.resolved_at_epoch is Some && resolution_fresh(
            track.resolved_at_epoch.unwrap(),
            now,
        ))),
{
    if track.real_subsonic_id.is_some() {
        return false;
    }
    match track.resolved_at_epoch {
        Some(at) => !(now - at < RESOLUTION_TTL_SECS),
        None => true,
    }
}

/// The index of the best-scoring hit; among equal scores the last one
/// (as `Iterator::max_by_key` keeps).
pub open spec fn best_index(scores: Seq<i64>, n: nat) -> int
    decreases n,
{
    if n <= 1 {
        0
    } else {
        let b = best_index(scores, (n - 1) as nat);
        if scores[n - 1] >= scores[b] {
            n - 1
        } else {
            b
        }
    }
}

proof fn lemma_best_index(scores: Seq<i64>, n: nat)
    requires
        n >= 1,
    ensures
        0 <= best_index(scores, n) < n,
        forall|i: int| 0 <= i < n ==> #[trigger] scores[i] <= scores[best_index(scores, n)],
    decreases n,
{
    if n > 1 {
        lemma_best_index(scores, (n - 1) as nat);
    }
}

/// The resolution from scored search hits (`scores[i]` is the match score
/// of `hits[i]`): the best-scoring hit; none when there are no hits.
pub fn best_resolution(hits: &Vec<SearchHit>, scores: &Vec<i64>) -> (r: Option<Resolution>)
    requires
        scores@.len() == hits@.len(),
    ensures
        hits@.len() == 0 ==> r is None,
        hits@.len() > 0 ==> ({
            let b = best_index(scores@, hits@.len());
            &&& r is Some
            &&& r.unwrap().url@ == (match hits@[b].url {
                Some(u) => u@,
                None => "https://www.youtube.com/watch?v="@ + hits@[b].id@,
            })
            &&& r.unwrap().score == scores@[b]
            &&& r.unwrap().candidate_title == hits@[b].title
            &&& forall|i: int| 0 <= i < hits@.len() ==> scores@[i] <= r.unwrap().score
        }),
{
    if hits.len() == 0 {
        return None;
    }
    let mut b: usize = 0;
    let mut i: usize = 1;
    while i < hits.len()
        invariant
            1 <= i <= hits@.len(),
            scores@.len() == hits@.len(),
            b == best_index(scores@, i as nat),
        decreases hits@.len() - i,
    {
        proof {
            lemma_best_index(scores@, i as nat);
        }
        if scores[i] >= scores[b] {
            b = i;
        }
        i += 1;
    }
    proof {
        lemma_best_index(scores@, hits@.len());
    }
    Some(
        Resolution {
            url: hit_watch_url(&hits[b]),
            score: scores[b],
            candidate_title: hits[b].title.clone(),
        },
    )
}

/// Text for fuzzy matching: transliterated to ASCII, lowercased, only
/// ASCII letters, digits and spaces kept, whitespace runs collapsed to
/// single spaces without leading or trailing space.
pub open spec fn keep_alnum_space(s: Seq<char>) -> Seq<char> {
    s.filter(|c: char| is_ascii_alnum(c) || c == ' ')
}

pub open spec fn words_joined(s: Seq<char>) -> Seq<char> {
    crate::recs::collapse_ws(s)
}

pub open spec fn match_text_spec(value: Seq<char>) -> Seq<char> {
    crate::recs::collapse_ws(keep_alnum_space(lowercased(transliterated(value))))
}

pub fn match_text(value: &str) -> (r: String)
    ensures
        r@ == match_text_spec(value@),
{
    let ascii = transliterate(value);
    let lower = lowercase(ascii.as_str());
    let c = chars_of(lower.as_str());
    let ghost pred = |ch: char| is_ascii_alnum(ch) || ch == ' ';
    let mut kept: Vec<char> = Vec::new();
    let mut i: usize = 0;
    while i < c.len()
        invariant
            i <= c@.len(),
            pred == (|ch: char| is_ascii_alnum(ch) || ch == ' '),
            kept@ == c@.take(i as int).filter(pred),
        decreases c@.len() - i,
    {
        proof {
            assert(c@.take(i + 1) =~= c@.take(i as int).push(c@[i as int]));
            c@.take(i as int).lemma_filter_push(c@[i as int], pred);
        }
        if is_ascii_alnum_exec(c[i]) || c[i] == ' ' {
            kept.push(c[i]);
        }
        i += 1;
    }
    proof {
        assert(c@.take(c@.len() as int) =~= c@);
    }
    let collapsed = crate::recs::collapse_ws_exec(kept.as_slice());
    string_of(collapsed.as_slice())
}

// ------------------------------------------------------------ innertube

#[derive(Debug, Clone, PartialEq, Eq)]
pub struct DirectAudio {
    pub url: String,
    pub mime_type: String,
    pub bitrate: i64,
    /// Total bytes of the stream, which drives the chunk loop.
    pub content_length: Option<u64>,
}

/// The plain fields of one `adaptiveFormats` entry of a player response.
#[derive(Debug, Clone)]
pub struct AudioFormat {
    pub mime_type: Option<String>,
    pub url: Option<String>,
    pub bitrate: Option<i64>,
    pub average_bitrate: Option<i64>,
    /// `contentLength` when it is a string.
    pub content_length_text: Option<String>,
    /// `contentLength` when it is a number.
    pub content_length_number: Option<u64>,
}

/// A format that can be fetched directly: audio, with a plain URL and a
/// bitrate (its own, else the average).
pub open spec fn usable(f: AudioFormat) -> bool {
    f.mime_type is Some && starts_with(f.mime_type.unwrap()@, "audio/"@) && f.url is Some && (
    f.bitrate is Some || f.average_bitrate is Some)
}

pub open spec fn bitrate_of(f: AudioFormat) -> i64 {
    if f.bitrate is Some {
        f.bitrate.unwrap()
    } else {
        f.average_bitrate.unwrap()
    }
}

/// The stream length: the string form parsed as `u64`, else the number.
pub open spec fn content_length_of(f: AudioFormat) -> Option<u64> {
    match f.content_length_text {
        Some(t) => match parse_unsigned(t@, u64::MAX as int) {
            Some(n) => Some(n as u64),
            None => f.content_length_number,
        },
        None => f.content_length_number,
    }
}

/// The last usable format with the highest bitrate among the first `n`.
pub open spec fn best_audio(formats: Seq<AudioFormat>, n: nat) -> Option<int>
    decreases n,
{
    if n == 0 {
        None
    } else {
        let i = n - 1;
        let prev = best_audio(formats, (n - 1) as nat);
        if !usable(formats[i]) {
            prev
        } else {
            match prev {
                None => Some(i),
                Some(b) => if bitrate_of(formats[i]) >= bitrate_of(formats[b]) {
                    Some(i)
                } else {
                    Some(b)
                },
            }
        }
    }
}

proof fn lemma_best_audio(formats: Seq<AudioFormat>, n: nat)
    ensures
        best_audio(formats, n) is Some ==> 0 <= best_audio(formats, n).unwrap() < n && usable(
            formats[best_audio(formats, n).unwrap()],
        ),
    decreases n,
{
    if n > 0 {
        lemma_best_audio(formats, (n - 1) as nat);
    }
}

/// The highest-bitrate directly fetchable audio format (formats that need
/// signature solving have no plain URL and are skipped).
pub fn pick_best_audio(formats: &Vec<AudioFormat>) -> (r: Option<DirectAudio>)
    ensures
        match best_audio(formats@, formats@.len()) {
            None => r is None,
            Some(b) => r is Some && r.unwrap().url == formats@[b].url.unwrap() && r.unwrap().mime_type
                == formats@[b].mime_type.unwrap() && r.unwrap().bitrate == bitrate_of(formats@[b])
                && r.unwrap().content_length == content_length_of(formats@[b]),
        },
{
    let mut best: Option<usize> = None;
    let mut i: usize = 0;
    while i < formats.len()
        invariant
            i <= formats@.len(),
            match best_audio(formats@, i as nat) {
                None => best is None,
                Some(b) => best == Some(b as usize),
            },
        decreases formats@.len() - i,
    {
        proof {
            lemma_best_audio(formats@, i as nat);
        }
        let f = &formats[i];
        let audio = match &f.mime_type {
            Some(m) => starts_with_exec(chars_of(m.as_str()).as_slice(), chars_of("audio/").as_slice()),
            None => false,
        };
        let ok = audio && f.url.is_some() && (f.bitrate.is_some() || f.average_bitrate.is_some());
        if ok {
            let rate = match f.bitrate {
                Some(b) => b,
                None => f.average_bitrate.unwrap(),
            };
            match best {
                None => {
                    best = Some(i);
                },
                Some(b) => {
                    let brate = match formats[b].bitrate {
                        Some(x) => x,
                        None => match formats[b].average_bitrate {
                            Some(y) => y,
                            None => 0,
                        },
                    };
                    if rate >= brate {
                        best = Some(i);
                    }
                },
            }
        }
        i += 1;
    }
    proof {
        lemma_best_audio(formats@, formats@.len());
    }
    match best {
        None => None,
        Some(b) => {
            let f = &formats[b];
            let content_length = match &f.content_length_text {
                Some(t) => match parse_u64(chars_of(t.as_str()).as_slice()) {
                    Some(n) => Some(n),
                    None => f.content_length_number,
                },
                None => f.content_length_number,
            };
            Some(
                DirectAudio {
                    url: match &f.url {
                        Some(u) => u.clone(),
                        None => String::new(),
                    },
                    mime_type: match &f.mime_type {
                        Some(m) => m.clone(),
                        None => String::new(),
                    },
                    bitrate: match f.bitrate {
                        Some(x) => x,
                        None => match f.average_bitrate {
                            Some(y) => y,
                            None => 0,
                        },
                    },
                    content_length,
                },
            )
        },
    }
}

// ------------------------------------------------- player responses

/// `v.as_u64()`: a non-negative integral number within `u64`.
pub open spec fn as_u64(v: Json) -> Option<u64> {
    match v {
        Json::Number(t) => match parse_unsigned(t@, u64::MAX as int) {
            Some(n) => Some(n as u64),
            None => None,
        },
        _ => None,
    }
}

fn opt_str_of(v: &Json, key: &str) -> (r: Option<String>)
    ensures
        opt_view(r) == as_str(at_key(*v, key@)),
{
    match str_at(v, key) {
        Some(s) => Some(s.clone()),
        None => None,
    }
}

/// The plain fields of a JSON `adaptiveFormats` entry.
pub fn audio_format_of(f: &Json) -> (r: AudioFormat)
    ensures
        opt_view(r.mime_type) == as_str(at_key(*f, "mimeType"@)),
        opt_view(r.url) == as_str(at_key(*f, "url"@)),
        r.bitrate == as_i64(at_key(*f, "bitrate"@)),
        r.average_bitrate == as_i64(at_key(*f, "averageBitrate"@)),
        opt_view(r.content_length_text) == as_str(at_key(*f, "contentLength"@)),
        r.content_length_number == as_u64(at_key(*f, "contentLength"@)),
{
    let bitrate = match at_key_exec(f, "bitrate") {
        Some(Json::Number(t)) => parse_i64(chars_of(t.as_str()).as_slice()),
        _ => None,
    };
    let average_bitrate = match at_key_exec(f, "averageBitrate") {
        Some(Json::Number(t)) => parse_i64(chars_of(t.as_str()).as_slice()),
        _ => None,
    };
    let content_length_number = match at_key_exec(f, "contentLength") {
        Some(Json::Number(t)) => parse_u64(chars_of(t.as_str()).as_slice()),
        _ => None,
    };
    AudioFormat {
        mime_type: opt_str_of(f, "mimeType"),
        url: opt_str_of(f, "url"),
        bitrate,
        average_bitrate,
        content_length_text: opt_str_of(f, "contentLength"),
        content_length_number,
    }
}

/// Why a player response gave no audio.
#[derive(Debug, Clone, PartialEq, Eq)]
pub enum PlayerError {
    /// The video is not playable: its status (`MISSING` when absent) and
    /// the reason given (empty when none).
    Unplayable { status: String, reason: String },
    /// No format has a plain URL (the rest need signature solving).
    NoDirectAudio,
}

pub open spec fn formats_view(v: Json) -> Seq<Json> {
    match at_key(at_key(v, "streamingData"@), "adaptiveFormats"@) {
        Json::Array(items) => items@,
        _ => Seq::empty(),
    }
}

/// The status of a player response, `MISSING` when it has none.
pub open spec fn playability(v: Json) -> Seq<char> {
    match as_str(at_key(at_key(v, "playabilityStatus"@), "status"@)) {
        Some(s) => s,
        None => "MISSING"@,
    }
}

/// The direct audio of a player response: refused unless its status is
/// `OK`; else the best of its adaptive formats (see `best_audio`).
pub fn player_audio(response: &Json) -> (r: Result<DirectAudio, PlayerError>)
    ensures
        playability(*response) != "OK"@ ==> (r matches Err(PlayerError::Unplayable { status, reason })
            && status@ == playability(*response) && reason@ == (match as_str(
            at_key(at_key(*response, "playabilityStatus"@), "reason"@),
        ) {
            Some(s) => s,
            None => Seq::<char>::empty(),
        })),
        playability(*response) == "OK"@ ==> exists|formats: Seq<AudioFormat>|
            #![trigger best_audio(formats, formats.len())]
            formats.len() == formats_view(*response).len() && (forall|i: int|
                0 <= i < formats.len() ==> formats_match(#[trigger] formats[i], formats_view(*response)[i]))
                && match best_audio(formats, formats.len()) {
                None => r == Err::<DirectAudio, PlayerError>(PlayerError::NoDirectAudio),
                Some(b) => r is Ok && r.unwrap().url == formats[b].url.unwrap()
                    && r.unwrap().mime_type == formats[b].mime_type.unwrap() && r.unwrap().bitrate
                    == bitrate_of(formats[b]) && r.unwrap().content_length == content_length_of(formats[b]),
            },
{
    let null = Json::Null;
    let ps = key_or_null(response, "playabilityStatus", &null);
    let status = match str_at(ps, "status") {
        Some(s) => s.clone(),
        None => copy_str("MISSING"),
    };
    if !str_eq(status.as_str(), "OK") {
        let reason = match str_at(ps, "reason") {
            Some(s) => s.clone(),
            None => String::new(),
        };
        return Err(PlayerError::Unplayable { status, reason });
    }
    let sd = key_or_null(response, "streamingData", &null);
    let mut formats: Vec<AudioFormat> = Vec::new();
    let ghost fv = formats_view(*response);
    match at_key_exec(sd, "adaptiveFormats") {
        Some(Json::Array(items)) => {
            let mut i: usize = 0;
            while i < items.len()
                invariant
                    i <= items@.len(),
                    fv == items@,
                    formats@.len() == i,
                    forall|k: int| 0 <= k < i ==> formats_match(#[trigger] formats@[k], fv[k]),
                decreases items@.len() - i,
            {
                let f = audio_format_of(&items[i]);
                formats.push(f);
                i += 1;
            }
        },
        _ => {},
    }
    match pick_best_audio(&formats) {
        Some(a) => Ok(a),
        None => Err(PlayerError::NoDirectAudio),
    }
}

/// An `AudioFormat` holds the fields of a JSON format entry.
pub open spec fn formats_match(f: AudioFormat, j: Json) -> bool {
    &&& opt_view(f.mime_type) == as_str(at_key(j, "mimeType"@))
    &&& opt_view(f.url) == as_str(at_key(j, "url"@))
    &&& f.bitrate == as_i64(at_key(j, "bitrate"@))
    &&& f.average_bitrate == as_i64(at_key(j, "averageBitrate"@))
    &&& opt_view(f.content_length_text) == as_str(at_key(j, "contentLength"@))
    &&& f.content_length_number == as_u64(at_key(j, "contentLength"@))
}

/// A YouTube video id: eleven ASCII letters, digits, `-` or `_`.
pub open spec fn looks_like_id_spec(s: Seq<char>) -> bool {
    s.len() == 11 && forall|i: int| 0 <= i < 11 ==> (is_ascii_alnum(#[trigger] s[i]) || s[i] == '-' || s[i] == '_')
}

pub fn looks_like_id(s: &str) -> (r: bool)
    ensures
        r == looks_like_id_spec(s@),
{
    let c = chars_of(s);
    if c.len() != 11 {
        return false;
    }
    let mut i: usize = 0;
    while i < 11
        invariant
            i <= 11,
            c@.len() == 11,
            c@ == s@,
            forall|j: int| 0 <= j < i ==> (is_ascii_alnum(#[trigger] c@[j]) || c@[j] == '-' || c@[j] == '_'),
        decreases 11 - i,
    {
        if !(is_ascii_alnum_exec(c[i]) || c[i] == '-' || c[i] == '_') {
            return false;
        }
        i += 1;
    }
    true
}


/// The first value named `v` that looks like a video id.
pub open spec fn first_id_value(pairs: Seq<(Seq<char>, Seq<char>)>) -> Option<Seq<char>>
    decreases pairs.len(),
{
    if pairs.len() == 0 {
        None
    } else if pairs[0].0 == "v"@ && looks_like_id_spec(pairs[0].1) {
        Some(pairs[0].1)
    } else {
        first_id_value(pairs.drop_first())
    }
}

/// The text between the first and second occurrence of `pat` (to the end
/// when it occurs once), as `str::split(pat).nth(1)` yields it.
pub open spec fn second_piece(s: Seq<char>, pat: Seq<char>) -> Option<Seq<char>> {
    match split_once(s, pat) {
        Some((_, after)) => match split_once(after, pat) {
            Some((mid, _)) => Some(mid),
            None => Some(after),
        },
        None => None,
    }
}

pub open spec fn id_stop(c: char) -> bool {
    c == '?' || c == '&' || c == '/'
}

/// The text before the first `?`, `&` or `/`.
pub open spec fn before_stop(s: Seq<char>) -> Seq<char> {
    if exists|i: int| 0 <= i < s.len() && id_stop(s[i]) {
        s.take(choose|i: int| 0 <= i < s.len() && id_stop(s[i]) && forall|j: int| 0 <= j < i ==> !id_stop(#[trigger] s[j]))
    } else {
        s
    }
}

/// The video id of a watch URL (`v=` in its query), a short `youtu.be/`
/// link, or a bare id.
pub open spec fn video_id_spec(url: Seq<char>) -> Option<Seq<char>> {
    let q = crate::text::split_char(url, '?');
    let from_query = if q.len() >= 2 {
        first_id_value(form_pairs(q[1]))
    } else {
        None
    };
    if from_query is Some {
        from_query
    } else {
        let short = match second_piece(url, "youtu.be/"@) {
            Some(rest) => if looks_like_id_spec(before_stop(rest)) {
                Some(before_stop(rest))
            } else {
                None
            },
            None => None,
        };
        if short is Some {
            short
        } else if looks_like_id_spec(url) {
            Some(url)
        } else {
            None
        }
    }
}

fn first_id_value_exec(params: &Vec<(String, String)>) -> (r: Option<String>)
    ensures
        match first_id_value(pairs_view(params@)) {
            Some(v) => r is Some && r.unwrap()@ == v,
            None => r is None,
        },
{
    let ghost pv = pairs_view(params@);
    let mut i: usize = 0;
    proof {
        assert(pv.subrange(0, pv.len() as int) =~= pv);
    }
    while i < params.len()
        invariant
            i <= params@.len(),
            pv == pairs_view(params@),
            first_id_value(pv) == first_id_value(pv.subrange(i as int, pv.len() as int)),
        decreases params@.len() - i,
    {
        proof {
            let rest = pv.subrange(i as int, pv.len() as int);
            assert(rest[0] == pv[i as int]);
            assert(rest.drop_first() =~= pv.subrange(i + 1, pv.len() as int));
        }
        if str_eq(params[i].0.as_str(), "v") && looks_like_id(params[i].1.as_str()) {
            return Some(params[i].1.clone());
        }
        i += 1;
    }
    None
}

fn before_stop_exec(s: &[char]) -> (r: Vec<char>)
    ensures
        r@ == before_stop(s@),
{
    let mut i: usize = 0;
    while i < s.len() && !(s[i] == '?' || s[i] == '&' || s[i] == '/')
        invariant
            i <= s@.len(),
            forall|j: int| 0 <= j < i ==> !id_stop(#[trigger] s@[j]),
        decreases s@.len() - i,
    {
        i += 1;
    }
    proof {
        if i < s@.len() {
            let c = choose|c: int| 0 <= c < s@.len() && id_stop(s@[c]) && forall|j: int| 0 <= j < c ==> !id_stop(#[trigger] s@[j]);
            if c < i {
                assert(!id_stop(s@[c]));
            } else if c > i {
                assert(!id_stop(s@[i as int]));
            }
            assert(c == i);
        } else {
            assert(s@.take(i as int) =~= s@);
        }
    }
    slice_chars(s, 0, i)
}

/// Extract the video id of a watch URL, short link or bare id.
pub fn video_id(url: &str) -> (r: Option<String>)
    ensures
        match video_id_spec(url@) {
            Some(v) => r is Some && r.unwrap()@ == v,
            None => r is None,
        },
{
    let c = chars_of(url);
    let q = crate::text::split_char_exec(c.as_slice(), '?');
    if q.len() >= 2 {
        let params = query_params(string_of(q[1].as_slice()).as_str());
        if let Some(v) = first_id_value_exec(&params) {
            return Some(v);
        }
    }
    let pat = chars_of("youtu.be/");
    match split_once_exec(c.as_slice(), pat.as_slice()) {
        Some((_, after)) => {
            let rest = match split_once_exec(after.as_slice(), pat.as_slice()) {
                Some((mid, _)) => mid,
                None => after,
            };
            let id = before_stop_exec(rest.as_slice());
            let ids = string_of(id.as_slice());
            if looks_like_id(ids.as_str()) {
                return Some(ids);
            }
        },
        None => {},
    }
    if looks_like_id(url) {
        return Some(copy_str(url));
    }
    None
}

// --------------------------------------------------------- media chunks

/// googlevideo serves at most this many bytes per ranged request.
pub const CHUNK_BYTES: u64 = 1048576;

/// Bytes fetched inline before committing to the direct source.
pub const VALIDATE_BYTES: u64 = 2097152;

/// The last byte asked for in a chunk from `offset`: a whole chunk, clamped
/// to the last byte of a known total.
pub open spec fn chunk_end_spec(offset: u64, total: Option<u64>) -> int {
    let end = offset + CHUNK_BYTES - 1;
    match total {
        Some(t) => {
            let last: int = if t == 0 { 0 } else { t - 1 };
            if end < last { end } else { last }
        },
        None => end,
    }
}

/// The URL of the chunk from `offset`: `range=<offset>-<end>` added as a
/// query parameter.
pub fn chunk_url(url: &str, offset: u64, total: Option<u64>) -> (r: String)
    requires
        offset + CHUNK_BYTES <= u64::MAX,
    ensures
        r@ == url@ + (if contains(url@, seq!['?']) { seq!['&'] } else { seq!['?'] }) + "range="@
            + decimal(offset as nat) + seq!['-'] + decimal(chunk_end_spec(offset, total) as nat),
{
    let end0 = offset + CHUNK_BYTES - 1;
    let end = match total {
        Some(t) => {
            let last = if t == 0 { 0 } else { t - 1 };
            if end0 < last { end0 } else { last }
        },
        None => end0,
    };
    let c = chars_of(url);
    let qmark: Vec<char> = vec!['?'];
    assert(qmark@ =~= seq!['?']);
    let has_query = contains_exec(c.as_slice(), qmark.as_slice());
    let mut v = chars_of(url);
    v.push(if has_query { '&' } else { '?' });
    extend_chars(&mut v, chars_of("range=").as_slice());
    extend_chars(&mut v, u64_decimal(offset).as_slice());
    v.push('-');
    extend_chars(&mut v, u64_decimal(end).as_slice());
    string_of(v.as_slice())
}

/// After a chunk of `n` bytes: the new offset, and whether the stream
/// ended (the known total reached, or with no total a short chunk).
pub fn after_chunk(offset: u64, n: u64, total: Option<u64>) -> (r: (u64, bool))
    requires
        offset + n <= u64::MAX,
    ensures
        r.0 == offset + n,
        r.1 == (match total {
            Some(t) => offset + n >= t,
            None => n < CHUNK_BYTES,
        }),
{
    let next = offset + n;
    let eof = match total {
        Some(t) => next >= t,
        None => n < CHUNK_BYTES,
    };
    (next, eof)
}

/// Inline fetching stops once the validation window is cleared.
pub fn validated(offset: u64) -> (r: bool)
    ensures
        r == (offset >= VALIDATE_BYTES),
{
    offset >= VALIDATE_BYTES
}

/// A chunk never asks for more than a MiB, and never past the end: for any
/// offset and total, the chunk from `offset` ends at most 1048575 bytes
/// after it; with a known non-empty total it ends at or before the last
/// byte; and it is as long as these allow: a whole MiB when that fits, else
/// up to the last byte.
pub proof fn law_chunk_spans_at_most_a_mebibyte(offset: u64, total: Option<u64>)
    ensures
        chunk_end_spec(offset, total) - offset + 1 <= 1048576,
        match total {
            Some(t) => t > 0 ==> chunk_end_spec(offset, total) <= t - 1 && (chunk_end_spec(offset, total)
                == offset + 1048575 || chunk_end_spec(offset, total) == t - 1),
            None => chunk_end_spec(offset, total) == offset + 1048575,
        },
        match total {
            Some(t) => offset + 1048575 <= t - 1 ==> chunk_end_spec(offset, total) == offset + 1048575,
            None => true,
        },
{
}

} // verus!
