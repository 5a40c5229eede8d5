//! YouTube Music radio and search responses. The response shape rotates,
//! so the parser searches the whole JSON tree for song renderers instead of
//! trusting one path; a renderer it cannot read is skipped.
use vstd::prelude::*;

use crate::json::{
    as_str, at_index, at_index_exec, at_key, at_key_exec, key_or_null, member, member_exec, str_at, Json,
};
use crate::recs::{cands_view, opt_view, CandidateView, RecCandidate};
use crate::text::{
    chars_of, copy_str, extend_chars, lemma_split_char_nonempty, parse_i64, parse_i64_spec,
    seq_eq, split_char, split_char_exec, str_eq, string_of, trim, trim_chars,
};

verus! {

// --------------------------------------------------------------- text

/// The text of one run, empty when it has none.
pub open spec fn text_of_run(run: Json) -> Seq<char> {
    match as_str(at_key(run, "text"@)) {
        Some(t) => t,
        None => Seq::empty(),
    }
}

pub open spec fn texts_of(runs: Seq<Json>) -> Seq<char>
    decreases runs.len(),
{
    if runs.len() == 0 {
        Seq::empty()
    } else {
        texts_of(runs.drop_last()) + text_of_run(runs.last())
    }
}

/// A text field: its runs' texts joined, else its `simpleText`, else empty.
pub open spec fn runs_text_spec(v: Json) -> Seq<char> {
    match at_key(v, "runs"@) {
        Json::Array(runs) => texts_of(runs@),
        _ => match as_str(at_key(v, "simpleText"@)) {
            Some(t) => t,
            None => Seq::empty(),
        },
    }
}

pub fn runs_text(value: &Json) -> (r: String)
    ensures
        r@ == runs_text_spec(*value),
{
    match at_key_exec(value, "runs") {
        Some(Json::Array(runs)) => {
            let mut out: Vec<char> = Vec::new();
            let mut i: usize = 0;
            while i < runs.len()
                invariant
                    i <= runs@.len(),
                    out@ == texts_of(runs@.take(i as int)),
                decreases runs@.len() - i,
            {
                proof {
                    assert(runs@.take(i + 1).drop_last() =~= runs@.take(i as int));
                    assert(runs@.take(i + 1).last() == runs@[i as int]);
                }
                match str_at(&runs[i], "text") {
                    Some(t) => {
                        let tc = chars_of(t.as_str());
                        extend_chars(&mut out, tc.as_slice());
                    },
                    None => {
                        assert(out@ + Seq::<char>::empty() =~= out@);
                    },
                }
                i += 1;
            }
            proof {
                assert(runs@.take(runs@.len() as int) =~= runs@);
            }
            string_of(out.as_slice())
        },
        _ => match str_at(value, "simpleText") {
            Some(t) => t.clone(),
            None => String::new(),
        },
    }
}

/// The artist of a byline: the runs' texts up to the first `•` separator,
/// trimmed; a byline without runs is read as plain text.
pub open spec fn byline_of(runs: Seq<Json>) -> Seq<char>
    decreases runs.len(),
{
    if runs.len() == 0 {
        Seq::empty()
    } else if trim(text_of_run(runs[0])) == "•"@ {
        Seq::empty()
    } else {
        text_of_run(runs[0]) + byline_of(runs.drop_first())
    }
}

pub open spec fn byline_artist_spec(v: Json) -> Seq<char> {
    match at_key(v, "runs"@) {
        Json::Array(runs) => trim(byline_of(runs@)),
        _ => runs_text_spec(v),
    }
}

pub fn byline_artist(value: &Json) -> (r: String)
    ensures
        r@ == byline_artist_spec(*value),
{
    match at_key_exec(value, "runs") {
        Some(Json::Array(runs)) => {
            let bullet = chars_of("•");
            let mut artist: Vec<char> = Vec::new();
            let mut i: usize = 0;
            proof {
                assert(runs@.subrange(0, runs@.len() as int) =~= runs@);
                assert(Seq::<char>::empty() + byline_of(runs@) =~= byline_of(runs@));
            }
            while i < runs.len()
                invariant
                    i <= runs@.len(),
                    bullet@ == "•"@,
                    byline_of(runs@) == artist@ + byline_of(runs@.subrange(i as int, runs@.len() as int)),
                ensures
                    byline_of(runs@) == artist@,
                decreases runs@.len() - i,
            {
                let ghost rest = runs@.subrange(i as int, runs@.len() as int);
                proof {
                    assert(rest[0] == runs@[i as int]);
                    assert(rest.drop_first() =~= runs@.subrange(i + 1, runs@.len() as int));
                }
                let text: Vec<char> = match str_at(&runs[i], "text") {
                    Some(t) => chars_of(t.as_str()),
                    None => Vec::new(),
                };
                assert(text@ == text_of_run(runs@[i as int]));
                let trimmed = trim_chars(text.as_slice());
                if seq_eq(trimmed.as_slice(), bullet.as_slice()) {
                    assert(byline_of(rest) == Seq::<char>::empty());
                    assert(artist@ + Seq::<char>::empty() =~= artist@);
                    break;
                }
                let ghost before = artist@;
                extend_chars(&mut artist, text.as_slice());
                proof {
                    assert(before + (text@ + byline_of(rest.drop_first())) =~= artist@ + byline_of(
                        rest.drop_first(),
                    ));
                }
                i += 1;
                proof {
                    if i == runs@.len() {
                        assert(runs@.subrange(i as int, runs@.len() as int) =~= Seq::<Json>::empty());
                        assert(artist@ + Seq::<char>::empty() =~= artist@);
                    }
                }
            }
            let t = trim_chars(artist.as_slice());
            string_of(t.as_slice())
        },
        _ => runs_text(value),
    }
}

// ------------------------------------------------------------ durations

/// Whole seconds of clock parts (`h:m:s`, `m:s`, ...), each trimmed and
/// read as an `i64`: `None` when a part is not a number or a step of the
/// sum leaves `i64`.
pub open spec fn clock_secs(parts: Seq<Seq<char>>) -> Option<int>
    decreases parts.len(),
{
    if parts.len() == 0 {
        Some(0)
    } else {
        match clock_secs(parts.drop_last()) {
            None => None,
            Some(acc) => match parse_i64_spec(trim(parts.last())) {
                None => None,
                Some(v) => if i64::MIN <= acc * 60 <= i64::MAX && i64::MIN <= acc * 60 + v
                    <= i64::MAX {
                    Some(acc * 60 + v)
                } else {
                    None
                },
            },
        }
    }
}

/// `"3:45"` / `"1:02:03"` as milliseconds.
pub open spec fn clock_ms(text: Seq<char>) -> Option<i64> {
    match clock_secs(split_char(text, ':')) {
        Some(s) => if i64::MIN <= s * 1000 <= i64::MAX {
            Some((s * 1000) as i64)
        } else {
            None
        },
        None => None,
    }
}

proof fn lemma_clock_none_sticks(parts: Seq<Seq<char>>, k: int)
    requires
        0 <= k <= parts.len(),
        clock_secs(parts.take(k)) is None,
    ensures
        clock_secs(parts) is None,
    decreases parts.len() - k,
{
    if k < parts.len() {
        assert(parts.take(k + 1).drop_last() =~= parts.take(k));
        lemma_clock_none_sticks(parts, k + 1);
    } else {
        assert(parts.take(k) =~= parts);
    }
}

/// A clock text as milliseconds (see `clock_ms`).
pub fn parse_clock(text: &str) -> (r: Option<i64>)
    ensures
        r == clock_ms(text@),
{
    let chars = chars_of(text);
    let parts = split_char_exec(chars.as_slice(), ':');
    let ghost ps = split_char(text@, ':');
    let mut secs: i64 = 0;
    let mut i: usize = 0;
    assert(ps.take(0) =~= Seq::<Seq<char>>::empty());
    while i < parts.len()
        invariant
            i <= parts@.len(),
            parts@.len() == ps.len(),
            ps == split_char(text@, ':'),
            forall|k: int| 0 <= k < parts@.len() ==> (#[trigger] parts@[k])@ == ps[k],
            clock_secs(ps.take(i as int)) == Some(secs as int),
        decreases parts@.len() - i,
    {
        proof {
            assert(ps.take(i + 1).drop_last() =~= ps.take(i as int));
            assert(ps.take(i + 1).last() == ps[i as int]);
        }
        let m = match secs.checked_mul(60) {
            Some(m) => m,
            None => {
                proof {
                    lemma_clock_none_sticks(ps, i + 1);
                }
                return None;
            },
        };
        let t = trim_chars(parts[i].as_slice());
        let v = match parse_i64(t.as_slice()) {
            Some(v) => v,
            None => {
                proof {
                    lemma_clock_none_sticks(ps, i + 1);
                }
                return None;
            },
        };
        let s2 = match m.checked_add(v) {
            Some(s2) => s2,
            None => {
                proof {
                    lemma_clock_none_sticks(ps, i + 1);
                }
                return None;
            },
        };
        secs = s2;
        i += 1;
    }
    proof {
        assert(ps.take(ps.len() as int) =~= ps);
    }
    secs.checked_mul(1000)
}

// ---------------------------------------------------------- candidates

/// A YouTube Music candidate: keyed by its video id.
pub open spec fn ytmusic_view(
    id: Seq<char>,
    artist: Seq<char>,
    title: Seq<char>,
    duration: Option<i64>,
) -> CandidateView {
    CandidateView {
        artist,
        title,
        album: None,
        duration_ms: duration,
        isrc: None,
        artwork_url: None,
        provider: Some("ytmusic"@),
        provider_track_id: Some(id),
        video_id: Some(id),
    }
}

fn ytmusic_candidate(id: String, artist: String, title: String, duration_ms: Option<i64>) -> (r:
    RecCandidate)
    ensures
        r@ == ytmusic_view(id@, artist@, title@, duration_ms),
{
    RecCandidate {
        artist,
        title,
        album: None,
        duration_ms,
        isrc: None,
        artwork_url: None,
        provider: Some(copy_str("ytmusic")),
        provider_track_id: Some(id.clone()),
        video_id: Some(id),
    }
}

/// A queue entry's length: the first run of `lengthText`, else its
/// `simpleText`, read as a clock.
pub open spec fn renderer_duration(r: Json) -> Option<i64> {
    let len = at_key(r, "lengthText"@);
    match as_str(at_key(at_index(at_key(len, "runs"@), 0), "text"@)) {
        Some(t) => clock_ms(t),
        None => match as_str(at_key(len, "simpleText"@)) {
            Some(t) => clock_ms(t),
            None => None,
        },
    }
}

/// The candidate of a queue entry (`playlistPanelVideoRenderer`): it needs
/// a video id, a title and a byline artist.
pub open spec fn renderer_candidate(r: Json) -> Option<CandidateView> {
    match as_str(at_key(r, "videoId"@)) {
        Some(id) => {
            let title = runs_text_spec(at_key(r, "title"@));
            let artist = byline_artist_spec(at_key(r, "longBylineText"@));
            if title.len() == 0 || artist.len() == 0 {
                None
            } else {
                Some(ytmusic_view(id, artist, title, renderer_duration(r)))
            }
        },
        None => None,
    }
}

pub open spec fn opt_cand_view(o: Option<RecCandidate>) -> Option<CandidateView> {
    match o {
        Some(c) => Some(c@),
        None => None,
    }
}

pub fn candidate_from_renderer(renderer: &Json) -> (r: Option<RecCandidate>)
    ensures
        opt_cand_view(r) == renderer_candidate(*renderer),
{
    let null = Json::Null;
    let video_id = match str_at(renderer, "videoId") {
        Some(id) => id.clone(),
        None => return None,
    };
    let title = runs_text(key_or_null(renderer, "title", &null));
    let artist = byline_artist(key_or_null(renderer, "longBylineText", &null));
    if chars_of(title.as_str()).len() == 0 || chars_of(artist.as_str()).len() == 0 {
        return None;
    }
    let len = key_or_null(renderer, "lengthText", &null);
    let runs = key_or_null(len, "runs", &null);
    let first = match at_index_exec(runs, 0) {
        Some(x) => x,
        None => &null,
    };
    let duration_ms = match str_at(first, "text") {
        Some(t) => parse_clock(t.as_str()),
        None => match str_at(len, "simpleText") {
            Some(t) => parse_clock(t.as_str()),
            None => None,
        },
    };
    Some(ytmusic_candidate(video_id, artist, title, duration_ms))
}

/// The first non-empty `videoId` string in `v`, searching an object's own
/// member before its values, depth first in order.
pub open spec fn video_id_in(v: Json) -> Option<Seq<char>>
    decreases v,
{
    match v {
        Json::Object(m) => match as_str(member(m@, "videoId"@)) {
            Some(id) => if id.len() > 0 {
                Some(id)
            } else {
                video_id_in_members(m@)
            },
            None => video_id_in_members(m@),
        },
        Json::Array(items) => video_id_in_items(items@),
        _ => None,
    }
}

pub open spec fn video_id_in_members(m: Seq<(String, Json)>) -> Option<Seq<char>>
    decreases m,
{
    if m.len() == 0 {
        None
    } else {
        match video_id_in(m[0].1) {
            Some(id) => Some(id),
            None => video_id_in_members(m.drop_first()),
        }
    }
}

pub open spec fn video_id_in_items(items: Seq<Json>) -> Option<Seq<char>>
    decreases items,
{
    if items.len() == 0 {
        None
    } else {
        match video_id_in(items[0]) {
            Some(id) => Some(id),
            None => video_id_in_items(items.drop_first()),
        }
    }
}

pub fn find_video_id(value: &Json) -> (r: Option<String>)
    ensures
        opt_view(r) == video_id_in(*value),
    decreases value,
{
    match value {
        Json::Object(m) => {
            match member_exec(m, "videoId") {
                Some(Json::Str(id)) => {
                    if chars_of(id.as_str()).len() > 0 {
                        return Some(id.clone());
                    }
                },
                _ => {},
            }
            let mut i: usize = 0;
            proof {
                assert(m@.subrange(0, m@.len() as int) =~= m@);
            }
            while i < m.len()
                invariant
                    i <= m@.len(),
                    video_id_in(*value) == video_id_in_members(m@.subrange(i as int, m@.len() as int)),
                    *value == Json::Object(*m),
                decreases m@.len() - i,
            {
                let ghost rest = m@.subrange(i as int, m@.len() as int);
                proof {
                    assert(rest[0] == m@[i as int]);
                    assert(rest.drop_first() =~= m@.subrange(i + 1, m@.len() as int));
                    assert(decreases_to!(*value => m@[i as int].1));
                }
                match find_video_id(&m[i].1) {
                    Some(id) => return Some(id),
                    None => {},
                }
                i += 1;
            }
            None
        },
        Json::Array(items) => {
            let mut i: usize = 0;
            proof {
                assert(items@.subrange(0, items@.len() as int) =~= items@);
            }
            while i < items.len()
                invariant
                    i <= items@.len(),
                    video_id_in(*value) == video_id_in_items(items@.subrange(i as int, items@.len() as int)),
                    *value == Json::Array(*items),
                decreases items@.len() - i,
            {
                let ghost rest = items@.subrange(i as int, items@.len() as int);
                proof {
                    assert(rest[0] == items@[i as int]);
                    assert(rest.drop_first() =~= items@.subrange(i + 1, items@.len() as int));
                    assert(decreases_to!(*value => items@[i as int]));
                }
                match find_video_id(&items[i]) {
                    Some(id) => return Some(id),
                    None => {},
                }
                i += 1;
            }
            None
        },
        _ => None,
    }
}

/// The text of a search result's flexible column.
pub open spec fn flex_text(v: Json) -> Seq<char> {
    runs_text_spec(at_key(at_key(v, "musicResponsiveListItemFlexColumnRenderer"@), "text"@))
}

/// The text of a search result's fixed column.
pub open spec fn fixed_text(v: Json) -> Seq<char> {
    runs_text_spec(at_key(at_key(v, "musicResponsiveListItemFixedColumnRenderer"@), "text"@))
}

pub fn flex_column_text(value: &Json) -> (r: String)
    ensures
        r@ == flex_text(*value),
{
    let null = Json::Null;
    let col = key_or_null(value, "musicResponsiveListItemFlexColumnRenderer", &null);
    runs_text(key_or_null(col, "text", &null))
}

pub fn fixed_column_text(value: &Json) -> (r: String)
    ensures
        r@ == fixed_text(*value),
{
    let null = Json::Null;
    let col = key_or_null(value, "musicResponsiveListItemFixedColumnRenderer", &null);
    runs_text(key_or_null(col, "text", &null))
}

/// A search result's length: its first fixed column, when not empty, read
/// as a clock.
pub open spec fn fixed_duration(r: Json) -> Option<i64> {
    match at_key(r, "fixedColumns"@) {
        Json::Array(cols) => if cols@.len() > 0 && fixed_text(cols@[0]).len() > 0 {
            clock_ms(fixed_text(cols@[0]))
        } else {
            None
        },
        _ => None,
    }
}

/// The candidate of a search result (`musicResponsiveListItemRenderer`):
/// a video id somewhere inside it, the title from the first flexible
/// column, the artist from the second column up to its first `•` (else the
/// byline), and both non-empty.
pub open spec fn music_item_candidate(r: Json) -> Option<CandidateView> {
    match video_id_in(r) {
        None => None,
        Some(id) => match at_key(r, "flexColumns"@) {
            Json::Array(flex) => if flex@.len() == 0 {
                None
            } else {
                let title = flex_text(flex@[0]);
                let first = if flex@.len() > 1 {
                    trim(split_char(flex_text(flex@[1]), '•')[0])
                } else {
                    Seq::empty()
                };
                let artist = if first.len() == 0 {
                    byline_artist_spec(at_key(r, "longBylineText"@))
                } else {
                    first
                };
                if title.len() == 0 || artist.len() == 0 {
                    None
                } else {
                    Some(ytmusic_view(id, artist, title, fixed_duration(r)))
                }
            },
            _ => None,
        },
    }
}

pub fn candidate_from_music_item(renderer: &Json) -> (r: Option<RecCandidate>)
    ensures
        opt_cand_view(r) == music_item_candidate(*renderer),
{
    let null = Json::Null;
    let video_id = match find_video_id(renderer) {
        Some(id) => id,
        None => return None,
    };
    let flex = match at_key_exec(renderer, "flexColumns") {
        Some(Json::Array(flex)) => flex,
        _ => return None,
    };
    if flex.len() == 0 {
        return None;
    }
    let title = flex_column_text(&flex[0]);
    let mut artist: String = if flex.len() > 1 {
        let text = flex_column_text(&flex[1]);
        let tc = chars_of(text.as_str());
        let pieces = split_char_exec(tc.as_slice(), '•');
        proof {
            lemma_split_char_nonempty(tc@, '•');
        }
        let first = trim_chars(pieces[0].as_slice());
        string_of(first.as_slice())
    } else {
        String::new()
    };
    if chars_of(artist.as_str()).len() == 0 {
        artist = byline_artist(key_or_null(renderer, "longBylineText", &null));
    }
    if chars_of(title.as_str()).len() == 0 || chars_of(artist.as_str()).len() == 0 {
        return None;
    }
    let duration_ms = match at_key_exec(renderer, "fixedColumns") {
        Some(Json::Array(cols)) => if cols.len() > 0 {
            let text = fixed_column_text(&cols[0]);
            if chars_of(text.as_str()).len() > 0 {
                parse_clock(text.as_str())
            } else {
                None
            }
        } else {
            None
        },
        _ => None,
    };
    Some(ytmusic_candidate(video_id, artist, title, duration_ms))
}

// ------------------------------------------------------------- walking

/// The queue entries (`playlistPanelVideoRenderer` members) anywhere in
/// `v`, in document order; an entry's own contents are not searched.
pub open spec fn renderers(v: Json) -> Seq<Json>
    decreases v,
{
    match v {
        Json::Array(items) => renderers_in(items@),
        Json::Object(members) => renderers_of(members@),
        _ => Seq::empty(),
    }
}

pub open spec fn renderers_in(items: Seq<Json>) -> Seq<Json>
    decreases items,
{
    if items.len() == 0 {
        Seq::empty()
    } else {
        renderers(items[0]) + renderers_in(items.drop_first())
    }
}

pub open spec fn renderers_of(members: Seq<(String, Json)>) -> Seq<Json>
    decreases members,
{
    if members.len() == 0 {
        Seq::empty()
    } else {
        (if members[0].0@ == "playlistPanelVideoRenderer"@ {
            seq![members[0].1]
        } else {
            renderers(members[0].1)
        }) + renderers_of(members.drop_first())
    }
}

pub open spec fn refs_view(v: Seq<&Json>) -> Seq<Json> {
    v.map_values(|r: &Json| *r)
}

/// Append every queue entry (`playlistPanelVideoRenderer`) in `value`, in
/// document order.
pub fn collect_renderers<'a>(value: &'a Json, out: &mut Vec<&'a Json>)
    ensures
        refs_view(final(out)@) == refs_view(old(out)@) + renderers(*value),
    decreases value,
{
    match value {
        Json::Object(m) => {
            let ghost start = refs_view(out@);
            let mut i: usize = 0;
            proof {
                assert(m@.subrange(0, m@.len() as int) =~= m@);
                assert(start + renderers_of(m@) =~= refs_view(out@) + renderers_of(
                    m@.subrange(0, m@.len() as int),
                ));
            }
            while i < m.len()
                invariant
                    i <= m@.len(),
                    *value == Json::Object(*m),
                    start + renderers_of(m@) == refs_view(out@) + renderers_of(
                        m@.subrange(i as int, m@.len() as int),
                    ),
                decreases m@.len() - i,
            {
                let ghost rest = m@.subrange(i as int, m@.len() as int);
                let ghost before = refs_view(out@);
                proof {
                    assert(rest[0] == m@[i as int]);
                    assert(rest.drop_first() =~= m@.subrange(i + 1, m@.len() as int));
                    assert(value->Object_0 == *m);
                    assert(decreases_to!(*value => value->Object_0));
                    assert(decreases_to!(m@ => m@[i as int]));
                    assert(decreases_to!(m@[i as int] => m@[i as int].1));
                    assert(decreases_to!(*value => m@[i as int].1));
                }
                if str_eq(m[i].0.as_str(), "playlistPanelVideoRenderer") {
                    out.push(&m[i].1);
                    proof {
                        assert(refs_view(out@) =~= before.push(m@[i as int].1));
                        assert(before + renderers_of(rest) =~= refs_view(out@) + renderers_of(
                            rest.drop_first(),
                        ));
                    }
                } else {
                    collect_renderers(&m[i].1, out);
                    proof {
                        assert(before + renderers_of(rest) =~= refs_view(out@) + renderers_of(
                            rest.drop_first(),
                        ));
                    }
                }
                i += 1;
            }
            proof {
                assert(m@.subrange(i as int, m@.len() as int) =~= Seq::<(String, Json)>::empty());
                assert(refs_view(out@) + Seq::<Json>::empty() =~= refs_view(out@));
            }
        },
        Json::Array(items) => {
            let ghost start = refs_view(out@);
            let mut i: usize = 0;
            proof {
                assert(items@.subrange(0, items@.len() as int) =~= items@);
            }
            while i < items.len()
                invariant
                    i <= items@.len(),
                    *value == Json::Array(*items),
                    start + renderers_in(items@) == refs_view(out@) + renderers_in(
                        items@.subrange(i as int, items@.len() as int),
                    ),
                decreases items@.len() - i,
            {
                let ghost rest = items@.subrange(i as int, items@.len() as int);
                let ghost before = refs_view(out@);
                proof {
                    assert(rest[0] == items@[i as int]);
                    assert(rest.drop_first() =~= items@.subrange(i + 1, items@.len() as int));
                    assert(value->Array_0 == *items);
                    assert(decreases_to!(*value => value->Array_0));
                    assert(decreases_to!(items@ => items@[i as int]));
                    assert(decreases_to!(*value => items@[i as int]));
                }
                collect_renderers(&items[i], out);
                proof {
                    assert(before + renderers_in(rest) =~= refs_view(out@) + renderers_in(
                        rest.drop_first(),
                    ));
                }
                i += 1;
            }
            proof {
                assert(items@.subrange(i as int, items@.len() as int) =~= Seq::<Json>::empty());
                assert(refs_view(out@) + Seq::<Json>::empty() =~= refs_view(out@));
            }
        },
        _ => {
            assert(refs_view(out@) + Seq::<Json>::empty() =~= refs_view(out@));
        },
    }
}

pub open spec fn opt_seq(o: Option<CandidateView>) -> Seq<CandidateView> {
    match o {
        Some(c) => seq![c],
        None => Seq::empty(),
    }
}

/// The candidates anywhere in a search response, in document order: queue
/// entries and search results that can be read; other members are
/// searched.
pub open spec fn search_candidates(v: Json) -> Seq<CandidateView>
    decreases v,
{
    match v {
        Json::Array(items) => search_candidates_in(items@),
        Json::Object(members) => search_candidates_of(members@),
        _ => Seq::empty(),
    }
}

pub open spec fn search_candidates_in(items: Seq<Json>) -> Seq<CandidateView>
    decreases items,
{
    if items.len() == 0 {
        Seq::empty()
    } else {
        search_candidates(items[0]) + search_candidates_in(items.drop_first())
    }
}

pub open spec fn search_candidates_of(members: Seq<(String, Json)>) -> Seq<CandidateView>
    decreases members,
{
    if members.len() == 0 {
        Seq::empty()
    } else {
        (if members[0].0@ == "playlistPanelVideoRenderer"@ {
            opt_seq(renderer_candidate(members[0].1))
        } else if members[0].0@ == "musicResponsiveListItemRenderer"@ {
            opt_seq(music_item_candidate(members[0].1))
        } else {
            search_candidates(members[0].1)
        }) + search_candidates_of(members.drop_first())
    }
}

fn push_opt(out: &mut Vec<RecCandidate>, c: Option<RecCandidate>)
    ensures
        cands_view(final(out)@) == cands_view(old(out)@) + opt_seq(opt_cand_view(c)),
{
    let ghost before = cands_view(out@);
    match c {
        Some(c) => {
            out.push(c);
            assert(cands_view(out@) =~= before + opt_seq(opt_cand_view(Some(c))));
        },
        None => {
            assert(cands_view(out@) =~= before + Seq::<CandidateView>::empty());
        },
    }
}

/// Append every readable candidate in a search response (see
/// `search_candidates`).
pub fn collect_candidates(value: &Json, out: &mut Vec<RecCandidate>)
    ensures
        cands_view(final(out)@) == cands_view(old(out)@) + search_candidates(*value),
    decreases value,
{
    match value {
        Json::Object(m) => {
            let ghost start = cands_view(out@);
            let mut i: usize = 0;
            proof {
                assert(m@.subrange(0, m@.len() as int) =~= m@);
            }
            while i < m.len()
                invariant
                    i <= m@.len(),
                    *value == Json::Object(*m),
                    start + search_candidates_of(m@) == cands_view(out@) + search_candidates_of(
                        m@.subrange(i as int, m@.len() as int),
                    ),
                decreases m@.len() - i,
            {
                let ghost rest = m@.subrange(i as int, m@.len() as int);
                let ghost before = cands_view(out@);
                proof {
                    assert(rest[0] == m@[i as int]);
                    assert(rest.drop_first() =~= m@.subrange(i + 1, m@.len() as int));
                    assert(value->Object_0 == *m);
                    assert(decreases_to!(*value => value->Object_0));
                    assert(decreases_to!(*value => m@[i as int].1));
                }
                let key = m[i].0.as_str();
                if str_eq(key, "playlistPanelVideoRenderer") {
                    push_opt(out, candidate_from_renderer(&m[i].1));
                } else if str_eq(key, "musicResponsiveListItemRenderer") {
                    push_opt(out, candidate_from_music_item(&m[i].1));
                } else {
                    collect_candidates(&m[i].1, out);
                }
                proof {
                    assert(before + search_candidates_of(rest) =~= cands_view(out@)
                        + search_candidates_of(rest.drop_first()));
                }
                i += 1;
            }
            proof {
                assert(m@.subrange(i as int, m@.len() as int) =~= Seq::<(String, Json)>::empty());
                assert(cands_view(out@) + Seq::<CandidateView>::empty() =~= cands_view(out@));
            }
        },
        Json::Array(items) => {
            let ghost start = cands_view(out@);
            let mut i: usize = 0;
            proof {
                assert(items@.subrange(0, items@.len() as int) =~= items@);
            }
            while i < items.len()
                invariant
                    i <= items@.len(),
                    *value == Json::Array(*items),
                    start + search_candidates_in(items@) == cands_view(out@) + search_candidates_in(
                        items@.subrange(i as int, items@.len() as int),
                    ),
                decreases items@.len() - i,
            {
                let ghost rest = items@.subrange(i as int, items@.len() as int);
                let ghost before = cands_view(out@);
                proof {
                    assert(rest[0] == items@[i as int]);
                    assert(rest.drop_first() =~= items@.subrange(i + 1, items@.len() as int));
                    assert(value->Array_0 == *items);
                    assert(decreases_to!(*value => value->Array_0));
                    assert(decreases_to!(*value => items@[i as int]));
                }
                collect_candidates(&items[i], out);
                proof {
                    assert(before + search_candidates_in(rest) =~= cands_view(out@)
                        + search_candidates_in(rest.drop_first()));
                }
                i += 1;
            }
            proof {
                assert(items@.subrange(i as int, items@.len() as int) =~= Seq::<Json>::empty());
                assert(cands_view(out@) + Seq::<CandidateView>::empty() =~= cands_view(out@));
            }
        },
        _ => {
            assert(cands_view(out@) + Seq::<CandidateView>::empty() =~= cands_view(out@));
        },
    }
}

/// A radio queue from its entries: the readable ones, without the seed's
/// own video, at most `limit`.
pub open spec fn queue_of(rs: Seq<Json>, seed: Seq<char>, limit: nat) -> Seq<CandidateView>
    decreases rs.len(),
{
    if rs.len() == 0 || limit == 0 {
        Seq::empty()
    } else {
        match renderer_candidate(rs[0]) {
            Some(c) => if c.video_id != Some(seed) {
                seq![c] + queue_of(rs.drop_first(), seed, (limit - 1) as nat)
            } else {
                queue_of(rs.drop_first(), seed, limit)
            },
            None => queue_of(rs.drop_first(), seed, limit),
        }
    }
}

/// The radio queue in a `next` response (see `queue_of`), its entries
/// found anywhere in the tree.
pub fn parse_queue(response: &Json, seed_video_id: &str, limit: usize) -> (r: Vec<RecCandidate>)
    ensures
        cands_view(r@) == queue_of(renderers(*response), seed_video_id@, limit as nat),
{
    let mut found: Vec<&Json> = Vec::new();
    collect_renderers(response, &mut found);
    let ghost rs = refs_view(found@);
    assert(rs =~= renderers(*response));
    let mut out: Vec<RecCandidate> = Vec::new();
    let mut i: usize = 0;
    proof {
        assert(rs.subrange(0, rs.len() as int) =~= rs);
        assert(cands_view(out@) + queue_of(rs, seed_video_id@, limit as nat) =~= queue_of(
            rs,
            seed_video_id@,
            limit as nat,
        ));
    }
    while i < found.len() && out.len() < limit
        invariant
            i <= found@.len(),
            rs == refs_view(found@),
            out@.len() <= limit,
            queue_of(rs, seed_video_id@, limit as nat) == cands_view(out@) + queue_of(
                rs.subrange(i as int, rs.len() as int),
                seed_video_id@,
                (limit - out@.len()) as nat,
            ),
        decreases found@.len() - i,
    {
        let ghost rest = rs.subrange(i as int, rs.len() as int);
        let ghost before = cands_view(out@);
        proof {
            assert(rest[0] == rs[i as int]);
            assert(rest.drop_first() =~= rs.subrange(i + 1, rs.len() as int));
        }
        match candidate_from_renderer(found[i]) {
            Some(c) => {
                let is_seed = match &c.video_id {
                    Some(v) => str_eq(v.as_str(), seed_video_id),
                    None => false,
                };
                if !is_seed {
                    out.push(c);
                    proof {
                        assert(cands_view(out@) =~= before.push(c@));
                        assert(before + (seq![c@] + queue_of(rest.drop_first(), seed_video_id@, (limit - out@.len()) as nat))
                            =~= cands_view(out@) + queue_of(rest.drop_first(), seed_video_id@, (limit - out@.len()) as nat));
                    }
                }
            },
            None => {},
        }
        i += 1;
    }
    proof {
        if i == found@.len() {
            assert(rs.subrange(i as int, rs.len() as int) =~= Seq::<Json>::empty());
        }
        assert(cands_view(out@) + Seq::<CandidateView>::empty() =~= cands_view(out@));
    }
    out
}

/// The first `limit` candidates of a search response (see
/// `search_candidates`).
pub fn parse_search_results(response: &Json, limit: usize) -> (r: Vec<RecCandidate>)
    ensures
        cands_view(r@) == (if limit <= search_candidates(*response).len() {
            search_candidates(*response).take(limit as int)
        } else {
            search_candidates(*response)
        }),
{
    let mut out: Vec<RecCandidate> = Vec::new();
    collect_candidates(response, &mut out);
    assert(cands_view(out@) =~= search_candidates(*response));
    let ghost all = out@;
    out.truncate(limit);
    proof {
        if limit <= all.len() {
            assert(cands_view(out@) =~= cands_view(all).take(limit as int));
        }
    }
    out
}

} // verus!
