//! Reverse-proxy rules: upstream URLs, query rewrites, request limits,
//! cover-art sniffing and scrobble times. Moving bytes to and from the
//! library server happens at the program's edge.
use vstd::prelude::*;

use crate::subsonic::{form_pairs, pairs_view, query_params};
use crate::text::{
    chars_of, copy_str, extend_chars, is_ascii_alnum, is_ascii_alnum_exec, parse_i64,
    parse_i64_spec, parse_unsigned, parse_usize, split_char, split_char_exec, starts_with,
    starts_with_exec, str_eq, string_of, trim, trim_chars, trim_end_by, trim_end_chars,
    ascii_lower_chars, ascii_lower_seq,
};
use crate::wave::{form_query, form_query_spec};
use crate::subsonic::Format;
use crate::json::{as_str, at_key, jview, lemma_jview_object, members_view, push_member, str_at, Json, JsonView};
use crate::vtrack::is_virtual_id;

verus! {

/// Request bodies with a Content-Length are buffered up to this size.
pub const MAX_BUFFERED_REQUEST_BODY: usize = 16777216;

/// The upstream URL for a request: the base without trailing slashes, then
/// the request's raw path and query, untouched.
pub fn build_upstream_url(base_url: &str, path_and_query: &str) -> (r: String)
    ensures
        r@ == trim_end_by(base_url@, Some('/')) + path_and_query@,
{
    let mut v = trim_end_chars(chars_of(base_url).as_slice(), Some('/'));
    extend_chars(&mut v, chars_of(path_and_query).as_slice());
    string_of(v.as_slice())
}

/// A request's Content-Length is acceptable when it parses as a `usize` no
/// larger than `MAX_BUFFERED_REQUEST_BODY`; it is then the read limit.
pub fn acceptable_content_length(value: &str) -> (r: Option<usize>)
    ensures
        match parse_unsigned(value@, usize::MAX as int) {
            Some(n) => if n <= MAX_BUFFERED_REQUEST_BODY {
                r == Some(n as usize)
            } else {
                r is None
            },
            None => r is None,
        },
{
    match parse_usize(chars_of(value).as_slice()) {
        Some(n) => if n <= MAX_BUFFERED_REQUEST_BODY {
            Some(n)
        } else {
            None
        },
        None => None,
    }
}

/// The content type of cached artwork, by its leading bytes.
pub open spec fn sniff_spec(b: Seq<u8>) -> Seq<char> {
    if b.len() >= 2 && b[0] == 0xFF && b[1] == 0xD8 {
        "image/jpeg"@
    } else if b.len() >= 4 && b[0] == 0x89 && b[1] == 0x50 && b[2] == 0x4E && b[3] == 0x47 {
        "image/png"@
    } else if b.len() >= 12 && b[0] == 0x52 && b[1] == 0x49 && b[2] == 0x46 && b[3] == 0x46
        && b[8] == 0x57 && b[9] == 0x45 && b[10] == 0x42 && b[11] == 0x50 {
        "image/webp"@
    } else {
        "application/octet-stream"@
    }
}

pub fn sniff_image_content_type(bytes: &[u8]) -> (r: &'static str)
    ensures
        r@ == sniff_spec(bytes@),
{
    let n = bytes.len();
    if n >= 2 && bytes[0] == 0xFF && bytes[1] == 0xD8 {
        "image/jpeg"
    } else if n >= 4 && bytes[0] == 0x89 && bytes[1] == 0x50 && bytes[2] == 0x4E && bytes[3] == 0x47 {
        "image/png"
    } else if n >= 12 && bytes[0] == 0x52 && bytes[1] == 0x49 && bytes[2] == 0x46 && bytes[3] == 0x46
        && bytes[8] == 0x57 && bytes[9] == 0x45 && bytes[10] == 0x42 && bytes[11] == 0x50 {
        "image/webp"
    } else {
        "application/octet-stream"
    }
}

// ------------------------------------------------------ query rewrites

/// The query that forwards a request to a real id: every pair kept in
/// order, `id` replaced where it occurs, and appended when it does not.
pub open spec fn rewrite_id_pairs(
    pairs: Seq<(Seq<char>, Seq<char>)>,
    new_id: Seq<char>,
) -> Seq<(Seq<char>, Seq<char>)> {
    let mapped = pairs.map_values(
        |p: (Seq<char>, Seq<char>)| if p.0 == "id"@ {
            ("id"@, new_id)
        } else {
            p
        },
    );
    if exists|i: int| 0 <= i < pairs.len() && pairs[i].0 == "id"@ {
        mapped
    } else {
        mapped.push(("id"@, new_id))
    }
}

pub fn rewrite_id_query(query: &str, new_id: &str) -> (r: String)
    ensures
        r@ == form_query_spec(rewrite_id_pairs(form_pairs(query@), new_id@)),
{
    let params = query_params(query);
    let ghost pv = pairs_view(params@);
    let mut out: Vec<(String, String)> = Vec::new();
    let mut replaced = false;
    let mut i: usize = 0;
    while i < params.len()
        invariant
            i <= params@.len(),
            pv == pairs_view(params@),
            pairs_view(out@) == pv.take(i as int).map_values(
                |p: (Seq<char>, Seq<char>)| if p.0 == "id"@ {
                    ("id"@, new_id@)
                } else {
                    p
                },
            ),
            replaced == exists|j: int| 0 <= j < i && pv[j].0 == "id"@,
        decreases params@.len() - i,
    {
        let ghost before = out@;
        if str_eq(params[i].0.as_str(), "id") {
            out.push((copy_str("id"), copy_str(new_id)));
            replaced = true;
        } else {
            out.push((params[i].0.clone(), params[i].1.clone()));
        }
        proof {
            assert(pairs_view(out@) =~= pairs_view(before).push(
                if pv[i as int].0 == "id"@ { ("id"@, new_id@) } else { pv[i as int] },
            ));
            assert(pv.take(i + 1) =~= pv.take(i as int).push(pv[i as int]));
            assert(pv.take(i + 1).map_values(
                |p: (Seq<char>, Seq<char>)| if p.0 == "id"@ {
                    ("id"@, new_id@)
                } else {
                    p
                },
            ) =~= pv.take(i as int).map_values(
                |p: (Seq<char>, Seq<char>)| if p.0 == "id"@ {
                    ("id"@, new_id@)
                } else {
                    p
                },
            ).push(if pv[i as int].0 == "id"@ { ("id"@, new_id@) } else { pv[i as int] }));
        }
        i += 1;
    }
    proof {
        assert(pv.take(params@.len() as int) =~= pv);
    }
    if !replaced {
        let ghost before = out@;
        out.push((copy_str("id"), copy_str(new_id)));
        proof {
            assert(pairs_view(out@) =~= pairs_view(before).push(("id"@, new_id@)));
        }
    }
    form_query(&out)
}

/// The album id behind a real `al-<id>[_…]` cover id, when it is a plain
/// alphanumeric id.
pub open spec fn album_repair_id_spec(id: Seq<char>) -> Option<Seq<char>> {
    if starts_with(id, "al-"@) {
        let rest = id.subrange(3, id.len() as int);
        let album = split_char(rest, '_')[0];
        if album.len() > 0 && forall|i: int| 0 <= i < album.len() ==> is_ascii_alnum(#[trigger] album[i]) {
            Some(album)
        } else {
            None
        }
    } else {
        None
    }
}

pub fn album_repair_id(id: &str) -> (r: Option<String>)
    ensures
        match album_repair_id_spec(id@) {
            Some(a) => r is Some && r.unwrap()@ == a,
            None => r is None,
        },
{
    let c = chars_of(id);
    proof {
        reveal_strlit("al-");
        assert("al-"@.len() == 3);
    }
    if !starts_with_exec(c.as_slice(), chars_of("al-").as_slice()) {
        return None;
    }
    let rest = crate::text::slice_chars(c.as_slice(), 3, c.len());
    let pieces = split_char_exec(rest.as_slice(), '_');
    proof {
        crate::text::lemma_split_char_nonempty(rest@, '_');
    }
    let album = &pieces[0];
    assert(album@ == split_char(id@.subrange(3, id@.len() as int), '_')[0]);
    if album.len() == 0 {
        return None;
    }
    let mut i: usize = 0;
    while i < album.len()
        invariant
            i <= album@.len(),
            starts_with(id@, "al-"@),
            album@ == split_char(id@.subrange(3, id@.len() as int), '_')[0],
            forall|j: int| 0 <= j < i ==> is_ascii_alnum(#[trigger] album@[j]),
        decreases album@.len() - i,
    {
        if !is_ascii_alnum_exec(album[i]) {
            return None;
        }
        i += 1;
    }
    Some(string_of(album.as_slice()))
}

/// The query asking for an album's songs with the caller's auth: every
/// pair but `id`, `f` and `size`, then the album id and `f=json`.
pub open spec fn album_query_pairs(
    pairs: Seq<(Seq<char>, Seq<char>)>,
    album_id: Seq<char>,
) -> Seq<(Seq<char>, Seq<char>)> {
    pairs.filter(|p: (Seq<char>, Seq<char>)| p.0 != "id"@ && p.0 != "f"@ && p.0 != "size"@).push(
        ("id"@, album_id),
    ).push(("f"@, "json"@))
}

pub fn album_songs_query(original_query: &str, album_id: &str) -> (r: String)
    ensures
        r@ == form_query_spec(album_query_pairs(form_pairs(original_query@), album_id@)),
{
    let params = query_params(original_query);
    let ghost pv = pairs_view(params@);
    let ghost pred = |p: (Seq<char>, Seq<char>)| p.0 != "id"@ && p.0 != "f"@ && p.0 != "size"@;
    let mut out: Vec<(String, String)> = Vec::new();
    let mut i: usize = 0;
    while i < params.len()
        invariant
            i <= params@.len(),
            pv == pairs_view(params@),
            pred == (|p: (Seq<char>, Seq<char>)| p.0 != "id"@ && p.0 != "f"@ && p.0 != "size"@),
            pairs_view(out@) == pv.take(i as int).filter(pred),
        decreases params@.len() - i,
    {
        proof {
            assert(pv.take(i + 1) =~= pv.take(i as int).push(pv[i as int]));
            pv.take(i as int).lemma_filter_push(pv[i as int], pred);
        }
        let k = params[i].0.as_str();
        if !str_eq(k, "id") && !str_eq(k, "f") && !str_eq(k, "size") {
            let ghost before = out@;
            out.push((params[i].0.clone(), params[i].1.clone()));
            proof {
                assert(pairs_view(out@) =~= pairs_view(before).push(pv[i as int]));
            }
        }
        i += 1;
    }
    proof {
        assert(pv.take(params@.len() as int) =~= pv);
    }
    let ghost before = out@;
    out.push((copy_str("id"), copy_str(album_id)));
    out.push((copy_str("f"), copy_str("json")));
    proof {
        assert(pairs_view(out@) =~= pairs_view(before).push(("id"@, album_id@)).push(("f"@, "json"@)));
    }
    form_query(&out)
}

// ------------------------------------------------------------ scrobbles

/// The value of the first pair named `key`.
pub open spec fn first_value(pairs: Seq<(Seq<char>, Seq<char>)>, key: Seq<char>) -> Option<Seq<char>>
    decreases pairs.len(),
{
    if pairs.len() == 0 {
        None
    } else if pairs[0].0 == key {
        Some(pairs[0].1)
    } else {
        first_value(pairs.drop_first(), key)
    }
}

/// A scrobble's time in seconds: the first `time` parameter as an `i64`,
/// divided by 1000 when it is in milliseconds (above 10^10), used when
/// positive; otherwise `now`.
pub open spec fn scrobble_time_spec(pairs: Seq<(Seq<char>, Seq<char>)>, now: i64) -> i64 {
    match first_value(pairs, "time"@) {
        Some(v) => match parse_i64_spec(v) {
            Some(t) => if t > 10000000000 {
                (t / 1000) as i64
            } else if t > 0 {
                t as i64
            } else {
                now
            },
            None => now,
        },
        None => now,
    }
}

pub fn scrobble_time_at(query: &str, now: i64) -> (r: i64)
    ensures
        r == scrobble_time_spec(form_pairs(query@), now),
{
    let params = query_params(query);
    let ghost pv = pairs_view(params@);
    let mut i: usize = 0;
    proof {
        assert(pv.subrange(0, pv.len() as int) =~= pv);
    }
    while i < params.len() && !str_eq(params[i].0.as_str(), "time")
        invariant
            i <= params@.len(),
            pv == pairs_view(params@),
            first_value(pv, "time"@) == first_value(pv.subrange(i as int, pv.len() as int), "time"@),
        decreases params@.len() - i,
    {
        proof {
            let rest = pv.subrange(i as int, pv.len() as int);
            assert(rest[0] == pv[i as int]);
            assert(rest.drop_first() =~= pv.subrange(i + 1, pv.len() as int));
        }
        i += 1;
    }
    if i == params.len() {
        proof {
            assert(pv.subrange(i as int, pv.len() as int) =~= Seq::<(Seq<char>, Seq<char>)>::empty());
        }
        return now;
    }
    proof {
        let rest = pv.subrange(i as int, pv.len() as int);
        assert(rest[0] == pv[i as int]);
    }
    match parse_i64(chars_of(params[i].1.as_str()).as_slice()) {
        Some(t) => {
            if t > 10000000000 {
                t / 1000
            } else if t > 0 {
                t
            } else {
                now
            }
        },
        None => now,
    }
}

/// A scrobble's time from its query, falling back to the current time.
pub fn scrobble_time_epoch(query: &str) -> (r: i64)
    ensures
        exists|now: i64| r == scrobble_time_spec(form_pairs(query@), now),
{
    let now = crate::vtrack::epoch_secs();
    scrobble_time_at(query, now)
}

// --------------------------------------------------------- hop-by-hop

/// The hop-by-hop headers a proxy never forwards (RFC 9110 §7.6.1, plus
/// `keep-alive`), by their lowercase names.
pub open spec fn hop_by_hop_names() -> Seq<Seq<char>> {
    seq![
        "connection"@,
        "proxy-authenticate"@,
        "proxy-authorization"@,
        "te"@,
        "trailer"@,
        "transfer-encoding"@,
        "upgrade"@,
        "keep-alive"@,
    ]
}

pub open spec fn strings_view(v: Seq<String>) -> Seq<Seq<char>> {
    v.map_values(|s: String| s@)
}

/// The trimmed comma-separated tokens of `Connection` header values, in
/// order.
pub open spec fn connection_tokens_spec(values: Seq<Seq<char>>) -> Seq<Seq<char>>
    decreases values.len(),
{
    if values.len() == 0 {
        Seq::empty()
    } else {
        connection_tokens_spec(values.drop_last()) + split_char(values.last(), ',').map_values(
            |t: Seq<char>| trim(t),
        )
    }
}

/// The header names a `Connection` header lists, as tokens to be read as
/// header names.
pub fn connection_tokens(values: &Vec<String>) -> (r: Vec<String>)
    ensures
        strings_view(r@) == connection_tokens_spec(strings_view(values@)),
{
    let ghost vs = strings_view(values@);
    let mut out: Vec<String> = Vec::new();
    let mut i: usize = 0;
    while i < values.len()
        invariant
            i <= values@.len(),
            vs == strings_view(values@),
            strings_view(out@) == connection_tokens_spec(vs.take(i as int)),
        decreases values@.len() - i,
    {
        proof {
            assert(vs.take(i + 1).drop_last() =~= vs.take(i as int));
            assert(vs.take(i + 1).last() == values@[i as int]@);
        }
        let vc = chars_of(values[i].as_str());
        let pieces = split_char_exec(vc.as_slice(), ',');
        let ghost base = strings_view(out@);
        let ghost ps = split_char(vc@, ',');
        let mut j: usize = 0;
        while j < pieces.len()
            invariant
                j <= pieces@.len(),
                pieces@.len() == ps.len(),
                forall|k: int| 0 <= k < pieces@.len() ==> (#[trigger] pieces@[k])@ == ps[k],
                strings_view(out@) == base + ps.take(j as int).map_values(|t: Seq<char>| trim(t)),
            decreases pieces@.len() - j,
        {
            let t = trim_chars(pieces[j].as_slice());
            let ghost before = strings_view(out@);
            out.push(string_of(t.as_slice()));
            proof {
                assert(strings_view(out@) =~= before.push(t@));
                assert(ps.take(j + 1).map_values(|t: Seq<char>| trim(t)) =~= ps.take(j as int).map_values(
                    |t: Seq<char>| trim(t),
                ).push(trim(ps[j as int])));
            }
            j += 1;
        }
        proof {
            assert(ps.take(ps.len() as int) =~= ps);
        }
        i += 1;
    }
    proof {
        assert(vs.take(vs.len() as int) =~= vs);
    }
    out
}

/// Whether a header (by lowercase name) stays on this hop: one of the
/// hop-by-hop headers, or named by `Connection`.
pub fn is_hop_by_hop(name: &str, connection_named: &Vec<String>) -> (r: bool)
    ensures
        r == (hop_by_hop_names().contains(name@) || strings_view(connection_named@).contains(name@)),
{
    let fixed: Vec<&str> = vec![
        "connection",
        "proxy-authenticate",
        "proxy-authorization",
        "te",
        "trailer",
        "transfer-encoding",
        "upgrade",
        "keep-alive",
    ];
    assert(fixed@.map_values(|s: &str| s@) =~= hop_by_hop_names());
    let mut i: usize = 0;
    while i < fixed.len()
        invariant
            i <= fixed@.len(),
            fixed@.map_values(|s: &str| s@) == hop_by_hop_names(),
            forall|k: int| 0 <= k < i ==> hop_by_hop_names()[k] != name@,
        decreases fixed@.len() - i,
    {
        if str_eq(fixed[i], name) {
            assert(hop_by_hop_names()[i as int] == name@);
            return true;
        }
        i += 1;
    }
    let mut j: usize = 0;
    while j < connection_named.len()
        invariant
            j <= connection_named@.len(),
            forall|k: int| 0 <= k < j ==> strings_view(connection_named@)[k] != name@,
        decreases connection_named@.len() - j,
    {
        if str_eq(connection_named[j].as_str(), name) {
            assert(strings_view(connection_named@)[j as int] == name@);
            return true;
        }
        j += 1;
    }
    false
}

/// A request or response header as the proxy sees it: its lowercase name,
/// and its value when that is visible ASCII text.
pub open spec fn headers_view(v: Seq<(String, Option<String>)>) -> Seq<(Seq<char>, Option<Seq<char>>)> {
    v.map_values(
        |h: (String, Option<String>)|
            (
                h.0@,
                match h.1 {
                    Some(s) => Some(s@),
                    None => None,
                },
            ),
    )
}

/// The text values of the `Connection` headers, in order.
pub open spec fn connection_values(hs: Seq<(Seq<char>, Option<Seq<char>>)>) -> Seq<Seq<char>>
    decreases hs.len(),
{
    if hs.len() == 0 {
        Seq::empty()
    } else {
        let prev = connection_values(hs.drop_last());
        let h = hs.last();
        match h.1 {
            Some(v) => if h.0 == "connection"@ {
                prev.push(v)
            } else {
                prev
            },
            None => prev,
        }
    }
}

/// The header names the `Connection` headers list, as header names
/// (lowercased).
pub open spec fn named_by_connection(hs: Seq<(Seq<char>, Option<Seq<char>>)>) -> Seq<Seq<char>> {
    connection_tokens_spec(connection_values(hs)).map_values(|t: Seq<char>| ascii_lower_seq(t))
}

/// The headers kept, in order: those neither hop-by-hop nor in `named`.
pub open spec fn kept_headers(hs: Seq<(Seq<char>, Option<Seq<char>>)>, named: Seq<Seq<char>>) -> Seq<
    (Seq<char>, Option<Seq<char>>),
>
    decreases hs.len(),
{
    if hs.len() == 0 {
        Seq::empty()
    } else {
        let prev = kept_headers(hs.drop_last(), named);
        let h = hs.last();
        if hop_by_hop_names().contains(h.0) || named.contains(h.0) {
            prev
        } else {
            prev.push(h)
        }
    }
}

/// The headers forwarded on the next hop: every header but the hop-by-hop
/// ones and those the `Connection` headers name; end-to-end headers
/// (`Accept-Encoding`, `Range`, ...) pass untouched, in order.
pub fn strip_hop_by_hop(headers: &Vec<(String, Option<String>)>) -> (r: Vec<(String, Option<String>)>)
    ensures
        headers_view(r@) == kept_headers(headers_view(headers@), named_by_connection(headers_view(headers@))),
{
    let ghost hv = headers_view(headers@);
    let mut values: Vec<String> = Vec::new();
    let mut i: usize = 0;
    while i < headers.len()
        invariant
            i <= headers@.len(),
            hv == headers_view(headers@),
            strings_view(values@) == connection_values(hv.take(i as int)),
        decreases headers@.len() - i,
    {
        proof {
            assert(hv.take(i + 1).drop_last() =~= hv.take(i as int));
            assert(hv.take(i + 1).last() == hv[i as int]);
        }
        match &headers[i].1 {
            Some(v) => {
                if str_eq(headers[i].0.as_str(), "connection") {
                    let ghost before = values@;
                    values.push(v.clone());
                    proof {
                        assert(strings_view(values@) =~= strings_view(before).push(v@));
                    }
                }
            },
            None => {},
        }
        i += 1;
    }
    assert(hv.take(headers@.len() as int) =~= hv);
    let tokens = connection_tokens(&values);
    let ghost tv = strings_view(tokens@);
    let mut named: Vec<String> = Vec::new();
    let mut t: usize = 0;
    while t < tokens.len()
        invariant
            t <= tokens@.len(),
            tv == strings_view(tokens@),
            named@.len() == t,
            strings_view(named@) == tv.take(t as int).map_values(|s: Seq<char>| ascii_lower_seq(s)),
        decreases tokens@.len() - t,
    {
        let lowered = string_of(ascii_lower_chars(chars_of(tokens[t].as_str()).as_slice()).as_slice());
        let ghost before = named@;
        named.push(lowered);
        proof {
            assert(tv[t as int] == tokens@[t as int]@);
            assert forall|j: int| 0 <= j < t + 1 implies #[trigger] strings_view(named@)[j] == tv.take(t + 1).map_values(
                |s: Seq<char>| ascii_lower_seq(s),
            )[j] by {
                if j < t {
                    assert(named@[j] == before[j]);
                    assert(strings_view(before)[j] == tv.take(t as int).map_values(|s: Seq<char>| ascii_lower_seq(s))[j]);
                }
            }
            assert(strings_view(named@) =~= tv.take(t + 1).map_values(|s: Seq<char>| ascii_lower_seq(s)));
        }
        t += 1;
    }
    assert(tv.take(tokens@.len() as int) =~= tv);
    let ghost nv = strings_view(named@);
    assert(nv == named_by_connection(hv));
    let mut kept: Vec<(String, Option<String>)> = Vec::new();
    let mut k: usize = 0;
    while k < headers.len()
        invariant
            k <= headers@.len(),
            hv == headers_view(headers@),
            nv == strings_view(named@),
            headers_view(kept@) == kept_headers(hv.take(k as int), nv),
        decreases headers@.len() - k,
    {
        proof {
            assert(hv.take(k + 1).drop_last() =~= hv.take(k as int));
            assert(hv.take(k + 1).last() == hv[k as int]);
        }
        if !is_hop_by_hop(headers[k].0.as_str(), &named) {
            let h = (headers[k].0.clone(), match &headers[k].1 {
                Some(v) => Some(v.clone()),
                None => None,
            });
            let ghost before = kept@;
            kept.push(h);
            proof {
                assert(headers_view(kept@) =~= headers_view(before).push(hv[k as int]));
            }
        }
        k += 1;
    }
    assert(hv.take(headers@.len() as int) =~= hv);
    kept
}

// ------------------------------------------ scrobbles for virtual tracks

/// The `id` values of a query, in order, that name virtual tracks (when
/// `virt`) or real ones.
pub open spec fn ids_where(pairs: Seq<(Seq<char>, Seq<char>)>, virt: bool) -> Seq<Seq<char>>
    decreases pairs.len(),
{
    if pairs.len() == 0 {
        Seq::empty()
    } else {
        let prev = ids_where(pairs.drop_last(), virt);
        let p = pairs.last();
        if p.0 == "id"@ && starts_with(p.1, "sgr_"@) == virt {
            prev.push(p.1)
        } else {
            prev
        }
    }
}

/// The query's pairs without the `id`s of virtual tracks.
pub open spec fn without_virtual_ids(pairs: Seq<(Seq<char>, Seq<char>)>) -> Seq<(Seq<char>, Seq<char>)>
    decreases pairs.len(),
{
    if pairs.len() == 0 {
        Seq::empty()
    } else {
        let prev = without_virtual_ids(pairs.drop_last());
        let p = pairs.last();
        if p.0 == "id"@ && starts_with(p.1, "sgr_"@) {
            prev
        } else {
            prev.push(p)
        }
    }
}

/// The response format an `f` value asks for (see
/// `Format::from_query_value`).
pub open spec fn format_spec(value: Option<Seq<char>>) -> Option<Format> {
    match value {
        None => Some(Format::Xml),
        Some(v) => if v == "xml"@ {
            Some(Format::Xml)
        } else if v == "json"@ {
            Some(Format::Json)
        } else {
            None
        },
    }
}

/// What a scrobble, star or unstar request carries: the format and user of
/// its first `f` and `u`, its ids split into virtual and real ones, and the
/// query to forward for the real ones (the same pairs without the virtual
/// ids).
pub struct ScrobblePlan {
    pub format: Option<Format>,
    pub username: String,
    pub virtual_ids: Vec<String>,
    pub real_ids: Vec<String>,
    pub forward_query: String,
}

pub open spec fn opt_or_empty(o: Option<Seq<char>>) -> Seq<char> {
    match o {
        Some(s) => s,
        None => Seq::empty(),
    }
}

fn first_param(params: &Vec<(String, String)>, key: &str) -> (r: Option<String>)
    ensures
        match r {
            Some(v) => first_value(pairs_view(params@), key@) == Some(v@),
            None => first_value(pairs_view(params@), key@) is None,
        },
{
    let ghost pv = pairs_view(params@);
    let mut i: usize = 0;
    proof {
        assert(pv.subrange(0, pv.len() as int) =~= pv);
    }
    while i < params.len()
        invariant
            i <= params@.len(),
            pv == pairs_view(params@),
            first_value(pv, key@) == first_value(pv.subrange(i as int, pv.len() as int), key@),
        decreases params@.len() - i,
    {
        let ghost rest = pv.subrange(i as int, pv.len() as int);
        proof {
            assert(rest[0] == pv[i as int]);
            assert(rest.drop_first() =~= pv.subrange(i + 1, pv.len() as int));
        }
        if str_eq(params[i].0.as_str(), key) {
            return Some(params[i].1.clone());
        }
        i += 1;
    }
    proof {
        assert(pv.subrange(i as int, pv.len() as int) =~= Seq::<(Seq<char>, Seq<char>)>::empty());
    }
    None
}

/// Read a scrobble, star or unstar query (see `ScrobblePlan`).
pub fn scrobble_plan(query: &str) -> (r: ScrobblePlan)
    ensures
        r.format == format_spec(first_value(form_pairs(query@), "f"@)),
        r.username@ == opt_or_empty(first_value(form_pairs(query@), "u"@)),
        strings_view(r.virtual_ids@) == ids_where(form_pairs(query@), true),
        strings_view(r.real_ids@) == ids_where(form_pairs(query@), false),
        r.forward_query@ == form_query_spec(without_virtual_ids(form_pairs(query@))),
{
    let params = query_params(query);
    let ghost pv = pairs_view(params@);
    let f = first_param(&params, "f");
    let format = match &f {
        Some(v) => Format::from_query_value(Some(v.as_str())),
        None => Format::from_query_value(None),
    };
    let username = match first_param(&params, "u") {
        Some(u) => u,
        None => String::new(),
    };
    let mut virtual_ids: Vec<String> = Vec::new();
    let mut real_ids: Vec<String> = Vec::new();
    let mut kept: Vec<(String, String)> = Vec::new();
    let mut i: usize = 0;
    while i < params.len()
        invariant
            i <= params@.len(),
            pv == pairs_view(params@),
            strings_view(virtual_ids@) == ids_where(pv.take(i as int), true),
            strings_view(real_ids@) == ids_where(pv.take(i as int), false),
            pairs_view(kept@) == without_virtual_ids(pv.take(i as int)),
        decreases params@.len() - i,
    {
        proof {
            assert(pv.take(i + 1).drop_last() =~= pv.take(i as int));
            assert(pv.take(i + 1).last() == pv[i as int]);
        }
        let is_id = str_eq(params[i].0.as_str(), "id");
        let virt = is_virtual_id(params[i].1.as_str());
        if is_id {
            let ghost before = if virt { virtual_ids@ } else { real_ids@ };
            if virt {
                virtual_ids.push(params[i].1.clone());
                proof {
                    assert(strings_view(virtual_ids@) =~= strings_view(before).push(pv[i as int].1));
                }
            } else {
                real_ids.push(params[i].1.clone());
                proof {
                    assert(strings_view(real_ids@) =~= strings_view(before).push(pv[i as int].1));
                }
            }
        }
        if !(is_id && virt) {
            let ghost before = kept@;
            kept.push((params[i].0.clone(), params[i].1.clone()));
            proof {
                assert(pairs_view(kept@) =~= pairs_view(before).push(pv[i as int]));
            }
        }
        i += 1;
    }
    assert(pv.take(params@.len() as int) =~= pv);
    let forward_query = form_query(&kept);
    ScrobblePlan { format, username, virtual_ids, real_ids, forward_query }
}

/// How a scrobble, star or unstar request is answered.
#[derive(Debug, Clone, Copy, PartialEq, Eq)]
pub enum ScrobbleReply {
    /// No virtual ids: pass the request through unchanged.
    Passthrough,
    /// Virtual and real ids: forward the request with the plan's query.
    Forward,
    /// Only virtual ids: answer an empty success in this format.
    Answer(Format),
}

/// The answer to a request (see `ScrobbleReply`); the virtual ids are kept
/// as pending actions whenever there are some.
pub fn scrobble_reply(plan: &ScrobblePlan) -> (r: ScrobbleReply)
    ensures
        plan.virtual_ids@.len() == 0 ==> r == ScrobbleReply::Passthrough,
        plan.virtual_ids@.len() > 0 && plan.real_ids@.len() > 0 ==> r == ScrobbleReply::Forward,
        plan.virtual_ids@.len() > 0 && plan.real_ids@.len() == 0 ==> r == ScrobbleReply::Answer(
            match plan.format {
                Some(f) => f,
                None => Format::Xml,
            },
        ),
{
    if plan.virtual_ids.len() == 0 {
        ScrobbleReply::Passthrough
    } else if plan.real_ids.len() > 0 {
        ScrobbleReply::Forward
    } else {
        ScrobbleReply::Answer(
            match plan.format {
                Some(f) => f,
                None => Format::Xml,
            },
        )
    }
}

/// A scrobble, star or unstar received for a virtual track, kept until the
/// track is imported and then replayed against the real id as the user.
pub struct PendingAction {
    pub id: String,
    pub virtual_track_id: String,
    pub username: String,
    pub action: String,
    pub payload_json: Option<String>,
}

/// The stored payload of a pending action: the endpoint and the whole
/// original query (it carries the user's auth and the scrobble's extras).
pub open spec fn pending_payload_view(endpoint: Seq<char>, query: Seq<char>) -> JsonView {
    JsonView::Object(seq![("endpoint"@, JsonView::Str(endpoint)), ("query"@, JsonView::Str(query))])
}

pub fn pending_payload(endpoint: &str, query: &str) -> (r: Json)
    ensures
        jview(r) == pending_payload_view(endpoint@, query@),
{
    let mut m: Vec<(String, Json)> = Vec::new();
    assert(members_view(m@) =~= Seq::<(Seq<char>, JsonView)>::empty());
    push_member(&mut m, "endpoint", Json::Str(copy_str(endpoint)));
    push_member(&mut m, "query", Json::Str(copy_str(query)));
    proof {
        lemma_jview_object(m);
        assert(members_view(m@) =~= pending_payload_view(endpoint@, query@)->Object_0);
    }
    Json::Object(m)
}

/// The pairs of a replayed request: every `id` becomes the real id, `f` is
/// dropped, and `f=json` is added at the end.
pub open spec fn replay_pairs(pairs: Seq<(Seq<char>, Seq<char>)>, real_id: Seq<char>) -> Seq<(Seq<char>, Seq<char>)> {
    replay_body(pairs, real_id).push(("f"@, "json"@))
}

pub open spec fn replay_body(pairs: Seq<(Seq<char>, Seq<char>)>, real_id: Seq<char>) -> Seq<(Seq<char>, Seq<char>)>
    decreases pairs.len(),
{
    if pairs.len() == 0 {
        Seq::empty()
    } else {
        let prev = replay_body(pairs.drop_last(), real_id);
        let p = pairs.last();
        if p.0 == "id"@ {
            prev.push(("id"@, real_id))
        } else if p.0 == "f"@ {
            prev
        } else {
            prev.push(p)
        }
    }
}

/// The query a pending action is replayed with (see `replay_pairs`).
pub fn replay_query(original_query: &str, real_id: &str) -> (r: String)
    ensures
        r@ == form_query_spec(replay_pairs(form_pairs(original_query@), real_id@)),
{
    let params = query_params(original_query);
    let ghost pv = pairs_view(params@);
    let mut out: Vec<(String, String)> = Vec::new();
    let mut i: usize = 0;
    while i < params.len()
        invariant
            i <= params@.len(),
            pv == pairs_view(params@),
            pairs_view(out@) == replay_body(pv.take(i as int), real_id@),
        decreases params@.len() - i,
    {
        proof {
            assert(pv.take(i + 1).drop_last() =~= pv.take(i as int));
            assert(pv.take(i + 1).last() == pv[i as int]);
        }
        let ghost before = out@;
        if str_eq(params[i].0.as_str(), "id") {
            out.push((copy_str("id"), copy_str(real_id)));
            proof {
                assert(pairs_view(out@) =~= pairs_view(before).push(("id"@, real_id@)));
            }
        } else if !str_eq(params[i].0.as_str(), "f") {
            out.push((params[i].0.clone(), params[i].1.clone()));
            proof {
                assert(pairs_view(out@) =~= pairs_view(before).push(pv[i as int]));
            }
        }
        i += 1;
    }
    assert(pv.take(params@.len() as int) =~= pv);
    let ghost body = out@;
    out.push((copy_str("f"), copy_str("json")));
    proof {
        assert(pairs_view(out@) =~= pairs_view(body).push(("f"@, "json"@)));
    }
    form_query(&out)
}

/// Where a pending action is replayed: its payload's endpoint and the
/// replay query for the real id; none when the payload lacks either.
pub fn replay_target(payload: &Json, real_id: &str) -> (r: Option<(String, String)>)
    ensures
        match (as_str(at_key(*payload, "endpoint"@)), as_str(at_key(*payload, "query"@))) {
            (Some(e), Some(q)) => r is Some && r.unwrap().0@ == e && r.unwrap().1@ == form_query_spec(
                replay_pairs(form_pairs(q), real_id@),
            ),
            _ => r is None,
        },
{
    let endpoint = match str_at(payload, "endpoint") {
        Some(e) => e.clone(),
        None => return None,
    };
    let query = match str_at(payload, "query") {
        Some(q) => q,
        None => return None,
    };
    Some((endpoint, replay_query(query.as_str(), real_id)))
}

} // verus!
