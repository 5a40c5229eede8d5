//! Ingest: the rules that turn a staged stream into a library track. The
//! worker, the file system, ffmpeg, tagging and the library scan run at the
//! program's edge; what they are asked to do is decided here.
use vstd::prelude::*;

use crate::recs::{normalize, normalize_spec};
use crate::text::{
    chars_of, contains, contains_exec, copy_str, decimal, extend_chars, i64_decimal, is_ctrl,
    is_ctrl_exec, signed_decimal, str_eq, string_of, trim, trim_by, trim_chars, trim_chars_by,
    u64_decimal,
};
use crate::vtrack::VirtualTrack;

verus! {

/// How an ingest job ended.
#[derive(Debug, Clone)]
pub enum IngestOutcome {
    Imported { real_id: String },
    NeedsReview { reason: String },
}

/// Path components are cut to at most this many UTF-8 bytes.
pub const MAX_COMPONENT_BYTES: usize = 120;

// ------------------------------------------------------- file names

/// Characters that are unsafe in a path component on some platform.
pub open spec fn is_reserved(c: char) -> bool {
    c == '/' || c == '\\' || c == ':' || c == '*' || c == '?' || c == '"' || c == '<' || c == '>'
        || c == '|' || is_ctrl(c)
}

pub open spec fn replace_reserved(s: Seq<char>) -> Seq<char> {
    s.map_values(|c: char| if is_reserved(c) { '_' } else { c })
}

/// Bytes of a char in UTF-8.
pub open spec fn utf8_len(c: char) -> nat {
    let v = c as u32;
    if v < 0x80 {
        1
    } else if v < 0x800 {
        2
    } else if v < 0x10000 {
        3
    } else {
        4
    }
}

/// Bytes of a string in UTF-8.
pub open spec fn utf8_bytes(s: Seq<char>) -> nat
    decreases s.len(),
{
    if s.len() == 0 {
        0
    } else {
        utf8_bytes(s.drop_last()) + utf8_len(s.last())
    }
}

/// The longest prefix of `s` that fits in `max` UTF-8 bytes: the string
/// truncated at the last char boundary at or before `max`.
pub open spec fn fit_prefix_len(s: Seq<char>, max: nat, k: nat) -> nat
    decreases s.len() - k,
{
    if k >= s.len() || utf8_bytes(s.take(k + 1 as int)) > max {
        k
    } else {
        fit_prefix_len(s, max, k + 1)
    }
}

pub open spec fn truncate_bytes(s: Seq<char>, max: nat) -> Seq<char> {
    s.take(fit_prefix_len(s, max, 0) as int)
}

/// Reserved characters and controls become `_`; then whitespace, dots and
/// whitespace again are trimmed from both ends; the rest is cut to
/// `MAX_COMPONENT_BYTES` bytes at a char boundary; an empty result reads
/// `Unknown`.
pub open spec fn sanitize_spec(value: Seq<char>) -> Seq<char> {
    let trimmed = trim(trim_by(trim(replace_reserved(value)), Some('.')));
    let cut = truncate_bytes(trimmed, MAX_COMPONENT_BYTES as nat);
    if cut.len() == 0 {
        "Unknown"@
    } else {
        cut
    }
}

pub(crate) fn utf8_len_exec(c: char) -> (r: usize)
    ensures
        r == utf8_len(c),
{
    let v = c as u32;
    if v < 0x80 {
        1
    } else if v < 0x800 {
        2
    } else if v < 0x10000 {
        3
    } else {
        4
    }
}

proof fn lemma_utf8_bytes_push(s: Seq<char>, c: char)
    ensures
        utf8_bytes(s.push(c)) == utf8_bytes(s) + utf8_len(c),
{
    assert(s.push(c).drop_last() =~= s);
}

proof fn lemma_utf8_bytes_bound(s: Seq<char>)
    ensures
        utf8_bytes(s) <= 4 * s.len(),
    decreases s.len(),
{
    if s.len() > 0 {
        lemma_utf8_bytes_bound(s.drop_last());
    }
}

proof fn lemma_fit_prefix(s: Seq<char>, max: nat, k: nat)
    requires
        k <= s.len(),
        forall|j: nat| j <= k ==> utf8_bytes(#[trigger] s.take(j as int)) <= max,
    ensures
        k <= fit_prefix_len(s, max, k) <= s.len(),
        utf8_bytes(s.take(fit_prefix_len(s, max, k) as int)) <= max,
    decreases s.len() - k,
{
    if k >= s.len() || utf8_bytes(s.take(k + 1 as int)) > max {
    } else {
        assert forall|j: nat| j <= k + 1 implies utf8_bytes(#[trigger] s.take(j as int)) <= max by {
            if j <= k {
            }
        }
        lemma_fit_prefix(s, max, k + 1);
    }
}

/// Conservative cross-platform sanitization for a path component.
pub fn sanitize_filename(value: &str) -> (r: String)
    ensures
        r@ == sanitize_spec(value@),
        utf8_bytes(r@) <= MAX_COMPONENT_BYTES,
        r@.len() > 0,
{
    let c = chars_of(value);
    let mut cleaned: Vec<char> = Vec::new();
    let mut i: usize = 0;
    while i < c.len()
        invariant
            i <= c@.len(),
            cleaned@ == replace_reserved(c@.take(i as int)),
        decreases c@.len() - i,
    {
        let ch = c[i];
        let bad = ch == '/' || ch == '\\' || ch == ':' || ch == '*' || ch == '?' || ch == '"' || ch
            == '<' || ch == '>' || ch == '|' || is_ctrl_exec(ch);
        cleaned.push(if bad { '_' } else { ch });
        proof {
            assert(replace_reserved(c@.take(i + 1)) =~= replace_reserved(c@.take(i as int)).push(
                if is_reserved(ch) { '_' } else { ch },
            ));
        }
        i += 1;
    }
    proof {
        assert(c@.take(c@.len() as int) =~= c@);
    }
    let t1 = trim_chars(cleaned.as_slice());
    let t2 = trim_chars_by(t1.as_slice(), Some('.'));
    let t3 = trim_chars(t2.as_slice());
    let ghost s = t3@;
    // longest prefix within the byte budget
    let mut k: usize = 0;
    let mut bytes: usize = 0;
    proof {
        assert(s.take(0) =~= Seq::<char>::empty());
    }
    while k < t3.len() && bytes + utf8_len_exec(t3[k]) <= MAX_COMPONENT_BYTES
        invariant
            k <= s.len(),
            s == t3@,
            bytes == utf8_bytes(s.take(k as int)),
            bytes <= MAX_COMPONENT_BYTES,
            fit_prefix_len(s, MAX_COMPONENT_BYTES as nat, 0) == fit_prefix_len(
                s,
                MAX_COMPONENT_BYTES as nat,
                k as nat,
            ),
        decreases s.len() - k,
    {
        proof {
            assert(s.take(k + 1) =~= s.take(k as int).push(s[k as int]));
            lemma_utf8_bytes_push(s.take(k as int), s[k as int]);
        }
        bytes = bytes + utf8_len_exec(t3[k]);
        k += 1;
    }
    proof {
        if k < s.len() {
            assert(s.take(k + 1) =~= s.take(k as int).push(s[k as int]));
            lemma_utf8_bytes_push(s.take(k as int), s[k as int]);
        }
        assert(fit_prefix_len(s, MAX_COMPONENT_BYTES as nat, k as nat) == k);
    }
    if k == 0 {
        proof {
            reveal_strlit("Unknown");
            lemma_utf8_bytes_bound("Unknown"@);
        }
        return copy_str("Unknown");
    }
    let cut = crate::text::slice_chars(t3.as_slice(), 0, k);
    proof {
        assert(cut@ =~= s.take(k as int));
    }
    string_of(cut.as_slice())
}

/// `<artist> - <title>.<ext>`, with ` [<tail>]` before the extension when
/// the plain name is already taken.
pub fn library_file_name(track: &VirtualTrack, ext: &str, tail: Option<&str>) -> (r: String)
    ensures
        r@ == sanitize_spec(track.artist@) + " - "@ + sanitize_spec(track.title@) + (match tail {
            Some(t) => " ["@ + t@ + "]"@,
            None => Seq::<char>::empty(),
        }) + "."@ + ext@,
{
    let artist = sanitize_filename(track.artist.as_str());
    let title = sanitize_filename(track.title.as_str());
    let mut v = chars_of(artist.as_str());
    extend_chars(&mut v, chars_of(" - ").as_slice());
    extend_chars(&mut v, chars_of(title.as_str()).as_slice());
    let ghost before = v@;
    match tail {
        Some(t) => {
            extend_chars(&mut v, chars_of(" [").as_slice());
            extend_chars(&mut v, chars_of(t).as_slice());
            extend_chars(&mut v, chars_of("]").as_slice());
        },
        None => {
            assert(before + Seq::<char>::empty() =~= before);
        },
    }
    extend_chars(&mut v, chars_of(".").as_slice());
    extend_chars(&mut v, chars_of(ext).as_slice());
    string_of(v.as_slice())
}

/// The artist directory a track is filed under.
pub fn library_artist_dir(track: &VirtualTrack) -> (r: String)
    ensures
        r@ == sanitize_spec(track.artist@),
{
    sanitize_filename(track.artist.as_str())
}

// ------------------------------------------------------------ gating

/// Why an ingest waits for review instead of importing, if it does: with
/// `force` never; else when auto-import is off, or when the match score
/// (0 when unknown) is below the threshold.
pub open spec fn gate_spec(force: bool, auto_import: bool, score: Option<i64>, min_score: u32) -> Option<
    Seq<char>,
> {
    let s: int = match score {
        Some(v) => v as int,
        None => 0,
    };
    if force {
        None
    } else if !auto_import {
        Some("auto_import disabled"@)
    } else if s < min_score {
        Some(
            "match score "@ + signed_decimal(s) + " below threshold "@ + decimal(min_score as nat),
        )
    } else {
        None
    }
}

pub fn import_gate(force: bool, auto_import: bool, score: Option<i64>, min_score: u32) -> (r:
    Option<String>)
    ensures
        match gate_spec(force, auto_import, score, min_score) {
            Some(m) => r is Some && r.unwrap()@ == m,
            None => r is None,
        },
{
    let s: i64 = match score {
        Some(v) => v,
        None => 0,
    };
    if force {
        None
    } else if !auto_import {
        Some(copy_str("auto_import disabled"))
    } else if s < min_score as i64 {
        let mut v = chars_of("match score ");
        extend_chars(&mut v, i64_decimal(s).as_slice());
        extend_chars(&mut v, chars_of(" below threshold ").as_slice());
        extend_chars(&mut v, u64_decimal(min_score as u64).as_slice());
        Some(string_of(v.as_slice()))
    } else {
        None
    }
}

// ------------------------------------------------------------- remux

/// The final container and ffmpeg audio arguments for a probed codec: the
/// audio stream is always copied, never re-encoded; codecs the library
/// serves natively get their usual container, any other codec goes into
/// Matroska audio, which holds any codec.
pub open spec fn remux_spec(codec: Seq<char>) -> (Seq<char>, Seq<Seq<char>>) {
    if codec == "opus"@ {
        ("opus"@, seq!["-c:a"@, "copy"@])
    } else if codec == "vorbis"@ {
        ("ogg"@, seq!["-c:a"@, "copy"@])
    } else if codec == "aac"@ || codec == "alac"@ {
        ("m4a"@, seq!["-c:a"@, "copy"@, "-movflags"@, "+faststart"@])
    } else if codec == "mp3"@ {
        ("mp3"@, seq!["-c:a"@, "copy"@])
    } else if codec == "flac"@ {
        ("flac"@, seq!["-c:a"@, "copy"@])
    } else {
        ("mka"@, seq!["-c:a"@, "copy"@])
    }
}

pub open spec fn strs_view(v: Seq<&'static str>) -> Seq<Seq<char>> {
    v.map_values(|s: &'static str| s@)
}

pub fn remux_plan(codec: &str) -> (r: (&'static str, Vec<&'static str>))
    ensures
        (r.0@, strs_view(r.1@)) == remux_spec(codec@),
{
    let (ext, args): (&'static str, Vec<&'static str>) = if str_eq(codec, "opus") {
        ("opus", vec!["-c:a", "copy"])
    } else if str_eq(codec, "vorbis") {
        ("ogg", vec!["-c:a", "copy"])
    } else if str_eq(codec, "aac") || str_eq(codec, "alac") {
        ("m4a", vec!["-c:a", "copy", "-movflags", "+faststart"])
    } else if str_eq(codec, "mp3") {
        ("mp3", vec!["-c:a", "copy"])
    } else if str_eq(codec, "flac") {
        ("flac", vec!["-c:a", "copy"])
    } else {
        ("mka", vec!["-c:a", "copy"])
    };
    proof {
        assert(strs_view(args@) =~= remux_spec(codec@).1);
    }
    (ext, args)
}

/// Codecs the library serves as they are.
pub open spec fn native_codec(codec: Seq<char>) -> bool {
    codec == "opus"@ || codec == "vorbis"@ || codec == "aac"@ || codec == "alac"@ || codec
        == "mp3"@ || codec == "flac"@
}

/// Remuxing is never lossy to lossy: for any probed codec the audio stream
/// is copied as it is; a natively served codec keeps its usual container and
/// any other codec goes into Matroska audio.
pub proof fn law_remux_copies_native_codecs(codec: Seq<char>)
    ensures
        remux_spec(codec).1.take(2) == seq!["-c:a"@, "copy"@],
        !native_codec(codec) ==> remux_spec(codec) == ("mka"@, seq!["-c:a"@, "copy"@]),
{
    assert(remux_spec(codec).1.take(2) =~= seq!["-c:a"@, "copy"@]);
}

// -------------------------------------------------- finding the import

/// A song from the library's search results after the scan.
#[derive(Debug, Clone)]
pub struct ScannedSong {
    pub id: Option<String>,
    pub artist: Option<String>,
    pub title: Option<String>,
    pub path: Option<String>,
}

pub open spec fn opt_text(o: Option<String>) -> Seq<char> {
    match o {
        Some(s) => s@,
        None => Seq::empty(),
    }
}

/// A scanned song is the imported track: same normalized artist and title.
pub open spec fn is_imported_song(s: ScannedSong, track: VirtualTrack) -> bool {
    normalize_spec(opt_text(s.artist)) == normalize_spec(track.artist@) && normalize_spec(
        opt_text(s.title),
    ) == normalize_spec(track.title@)
}

/// A matching song stored under the ingest folder.
pub open spec fn is_preferred_song(s: ScannedSong, track: VirtualTrack, subdir: Seq<char>) -> bool {
    is_imported_song(s, track) && s.path is Some && contains(s.path.unwrap()@, subdir)
}

pub open spec fn first_index(songs: Seq<ScannedSong>, p: spec_fn(ScannedSong) -> bool) -> Option<int> {
    if exists|i: int| 0 <= i < songs.len() && p(songs[i]) {
        Some(choose|i: int| 0 <= i < songs.len() && p(songs[i]) && forall|j: int| 0 <= j < i ==> !p(#[trigger] songs[j]))
    } else {
        None
    }
}

/// The real id of an imported track among scan results: the first match
/// under the ingest folder, else the first match; its id (empty when the
/// song has none). `None` when nothing matches.
pub fn pick_real_id(songs: &Vec<ScannedSong>, track: &VirtualTrack, ingest_subdir: &str) -> (r:
    Option<String>)
    ensures
        ({
            let pref = |s: ScannedSong| is_preferred_song(s, *track, ingest_subdir@);
            let any = |s: ScannedSong| is_imported_song(s, *track);
            match first_index(songs@, pref) {
                Some(i) => r is Some && r.unwrap()@ == opt_text(songs@[i].id),
                None => match first_index(songs@, any) {
                    Some(i) => r is Some && r.unwrap()@ == opt_text(songs@[i].id),
                    None => r is None,
                },
            }
        }),
{
    let ghost pref = |s: ScannedSong| is_preferred_song(s, *track, ingest_subdir@);
    let ghost any = |s: ScannedSong| is_imported_song(s, *track);
    let want_artist = normalize(track.artist.as_str());
    let want_title = normalize(track.title.as_str());
    let sub = chars_of(ingest_subdir);
    let mut first_match: Option<usize> = None;
    let mut i: usize = 0;
    while i < songs.len()
        invariant
            i <= songs@.len(),
            want_artist@ == normalize_spec(track.artist@),
            want_title@ == normalize_spec(track.title@),
            sub@ == ingest_subdir@,
            pref == (|s: ScannedSong| is_preferred_song(s, *track, ingest_subdir@)),
            any == (|s: ScannedSong| is_imported_song(s, *track)),
            forall|j: int| 0 <= j < i ==> !pref(#[trigger] songs@[j]),
            match first_match {
                Some(f) => f < i && any(songs@[f as int]) && forall|j: int| 0 <= j < f ==> !any(#[trigger] songs@[j]),
                None => forall|j: int| 0 <= j < i ==> !any(#[trigger] songs@[j]),
            },
        decreases songs@.len() - i,
    {
        let s = &songs[i];
        let artist = normalize_opt(&s.artist);
        let title = normalize_opt(&s.title);
        let matched = str_eq(artist.as_str(), want_artist.as_str()) && str_eq(
            title.as_str(),
            want_title.as_str(),
        );
        assert(matched == any(songs@[i as int]));
        if matched {
            if first_match.is_none() {
                first_match = Some(i);
            }
            let under = match &s.path {
                Some(p) => contains_exec(chars_of(p.as_str()).as_slice(), sub.as_slice()),
                None => false,
            };
            if under {
                proof {
                    assert(pref(songs@[i as int]));
                    assert(first_index(songs@, pref) == Some(i as int));
                }
                return Some(id_text(&s.id));
            }
        }
        i += 1;
    }
    proof {
        assert(first_index(songs@, pref) is None);
    }
    match first_match {
        Some(f) => {
            proof {
                assert(first_index(songs@, any) == Some(f as int));
            }
            Some(id_text(&songs[f].id))
        },
        None => None,
    }
}

fn normalize_opt(o: &Option<String>) -> (r: String)
    ensures
        r@ == normalize_spec(opt_text(*o)),
{
    match o {
        Some(a) => normalize(a.as_str()),
        None => {
            let e = String::new();
            normalize(e.as_str())
        },
    }
}

fn id_text(id: &Option<String>) -> (r: String)
    ensures
        r@ == opt_text(*id),
{
    match id {
        Some(s) => s.clone(),
        None => String::new(),
    }
}

} // verus!
