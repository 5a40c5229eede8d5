//! Lyrics: LRC parsing, cache answers, and choosing among LRCLIB records.
use vstd::prelude::*;

use crate::json::{
    as_str, at_key, at_key_exec, items_view, jview, key_or_null, lemma_jview_array,
    lemma_jview_object, members_view, push_member, str_at, Json, JsonView,
};
use crate::text::{
    all_digits, chars_of, copy_str, digits_value, i64_decimal, signed_decimal, lemma_skip_from_bounds, parse_i64, parse_i64_spec,
    slice_chars, split_char, split_char_exec, split_once, split_once_exec, string_of, trim,
    trim_chars, trim_start_by, trim_start_chars,
};

use crate::text::extend_chars;
use crate::xml::{
    attr_text, attrs_view, find_open, first_open, push_attr, read_events, tag_parts,
    write_event, written, xml_read, xml_tag, XmlKind,
};

verus! {

/// How long a "no lyrics found" answer is trusted before asking again.
pub const NEGATIVE_TTL_SECS: i64 = 604800;

/// Synced timestamps are kept only when the provider's recording length is
/// within this many seconds of ours.
pub const SYNC_DURATION_TOLERANCE_SECS: i64 = 3;

#[derive(Debug, Clone, PartialEq, Eq)]
pub struct SyncedLine {
    pub start_ms: i64,
    pub value: String,
}

impl View for SyncedLine {
    type V = (int, Seq<char>);

    open spec fn view(&self) -> (int, Seq<char>) {
        (self.start_ms as int, self.value@)
    }
}

#[derive(Debug, Clone)]
pub struct Lyrics {
    pub artist: String,
    pub title: String,
    pub plain: Option<String>,
    pub synced: Option<Vec<SyncedLine>>,
}

impl Lyrics {
    pub fn is_empty(&self) -> (r: bool)
        ensures
            r == (self.plain is None && self.synced is None),
    {
        self.plain.is_none() && self.synced.is_none()
    }
}

pub open spec fn lines_view(v: Seq<SyncedLine>) -> Seq<(int, Seq<char>)> {
    v.map_values(|l: SyncedLine| l@)
}

// ------------------------------------------------------------- lines

pub open spec fn strip_cr(p: Seq<char>) -> Seq<char> {
    if p.len() > 0 && p.last() == '\r' {
        p.drop_last()
    } else {
        p
    }
}

/// `str::lines`: split at `\n`, a `\r` before a `\n` dropped, no final
/// empty line.
pub open spec fn lines_spec(t: Seq<char>) -> Seq<Seq<char>> {
    let parts = split_char(t, '\n');
    let n = parts.len();
    let count = if n > 0 && parts[n - 1].len() == 0 {
        n - 1
    } else {
        n as int
    };
    Seq::new(count as nat, |i: int| line_at(parts, i))
}

pub open spec fn line_at(parts: Seq<Seq<char>>, i: int) -> Seq<char> {
    if i < parts.len() - 1 {
        strip_cr(parts[i])
    } else {
        parts[i]
    }
}

proof fn lemma_lines_at(t: Seq<char>, i: int)
    requires
        0 <= i < lines_spec(t).len(),
    ensures
        lines_spec(t)[i] == line_at(split_char(t, '\n'), i),
{
}

fn strip_cr_exec(p: &Vec<char>) -> (r: Vec<char>)
    ensures
        r@ == strip_cr(p@),
{
    if p.len() > 0 && p[p.len() - 1] == '\r' {
        let w = slice_chars(p.as_slice(), 0, p.len() - 1);
        assert(w@ =~= p@.drop_last());
        w
    } else {
        let w = slice_chars(p.as_slice(), 0, p.len());
        assert(w@ =~= p@);
        w
    }
}

pub fn lines(t: &[char]) -> (r: Vec<Vec<char>>)
    ensures
        r@.len() == lines_spec(t@).len(),
        forall|i: int| 0 <= i < r@.len() ==> (#[trigger] r@[i])@ == lines_spec(t@)[i],
{
    let parts = split_char_exec(t, '\n');
    let ghost ps = split_char(t@, '\n');
    proof {
        crate::text::lemma_split_char_nonempty(t@, '\n');
    }
    let n = parts.len();
    let count = if parts[n - 1].len() == 0 {
        n - 1
    } else {
        n
    };
    let mut r: Vec<Vec<char>> = Vec::new();
    let mut i: usize = 0;
    while i < count
        invariant
            n == parts@.len(),
            ps == split_char(t@, '\n'),
            n == ps.len(),
            n >= 1,
            count <= n,
            count == lines_spec(t@).len(),
            forall|k: int| 0 <= k < n ==> (#[trigger] parts@[k])@ == ps[k],
            i <= count,
            r@.len() == i,
            forall|k: int| 0 <= k < i ==> (#[trigger] r@[k])@ == lines_spec(t@)[k],
        decreases count - i,
    {
        let piece = if i + 1 < n {
            strip_cr_exec(&parts[i])
        } else {
            let w = slice_chars(parts[i].as_slice(), 0, parts[i].len());
            assert(w@ =~= parts@[i as int]@);
            w
        };
        proof {
            lemma_lines_at(t@, i as int);
        }
        assert(piece@ == lines_spec(t@)[i as int]);
        r.push(piece);
        i += 1;
    }
    r
}

/// The trimmed lines that are not empty, in order.
pub open spec fn trimmed_nonempty(ls: Seq<Seq<char>>) -> Seq<Seq<char>>
    decreases ls.len(),
{
    if ls.len() == 0 {
        Seq::empty()
    } else {
        let rest = trimmed_nonempty(ls.drop_last());
        let t = trim(ls.last());
        if t.len() > 0 {
            rest.push(t)
        } else {
            rest
        }
    }
}

pub open spec fn strings_view(v: Seq<String>) -> Seq<Seq<char>> {
    v.map_values(|s: String| s@)
}

/// The lines of plain lyrics (none when there are none), trimmed, blank
/// ones dropped.
pub fn plain_lines(plain: Option<&str>) -> (r: Vec<String>)
    ensures
        strings_view(r@) == trimmed_nonempty(
            lines_spec(
                match plain {
                    Some(p) => p@,
                    None => Seq::<char>::empty(),
                },
            ),
        ),
{
    let text: Vec<char> = match plain {
        Some(p) => chars_of(p),
        None => Vec::new(),
    };
    let ls = lines(text.as_slice());
    let ghost lv = lines_spec(text@);
    let mut out: Vec<String> = Vec::new();
    let mut i: usize = 0;
    while i < ls.len()
        invariant
            i <= ls@.len(),
            ls@.len() == lv.len(),
            lv == lines_spec(text@),
            forall|k: int| 0 <= k < ls@.len() ==> (#[trigger] ls@[k])@ == lv[k],
            strings_view(out@) == trimmed_nonempty(lv.take(i as int)),
        decreases ls@.len() - i,
    {
        proof {
            assert(lv.take(i + 1).drop_last() =~= lv.take(i as int));
            assert(lv.take(i + 1).last() == lv[i as int]);
        }
        let t = trim_chars(ls[i].as_slice());
        if t.len() > 0 {
            let ghost before = out@;
            out.push(string_of(t.as_slice()));
            proof {
                assert(strings_view(out@) =~= strings_view(before).push(t@));
            }
        }
        i += 1;
    }
    proof {
        assert(lv.take(lv.len() as int) =~= lv);
    }
    out
}

// -------------------------------------------------------- timestamps

/// Milliseconds from a two- or three-digit (or one-digit) fraction.
pub open spec fn frac_ms_spec(digits: Seq<char>) -> Option<int> {
    match parse_i64_spec(digits) {
        Some(v) => Some(
            if digits.len() == 1 {
                v * 100
            } else if digits.len() == 2 {
                v * 10
            } else {
                v
            },
        ),
        None => None,
    }
}

/// `mm:ss`, `mm:ss.x`, `mm:ss.xx` or `mm:ss.xxx` in milliseconds. An
/// enormous minute count wraps around as the release build's arithmetic does.
pub open spec fn parse_timestamp_spec(stamp: Seq<char>) -> Option<i64> {
    match split_once(stamp, ":"@) {
        None => None,
        Some((m, seconds)) => {
            let (s, frac) = match split_once(seconds, "."@) {
                Some((a, b)) => (a, Some(b)),
                None => (seconds, None),
            };
            match (parse_i64_spec(m), parse_i64_spec(s)) {
                (Some(mv), Some(sv)) => {
                    if 0 <= sv < 60 {
                        let f: Option<int> = match frac {
                            Some(fr) => frac_ms_spec(fr.take(if fr.len() < 3 {
                                fr.len() as int
                            } else {
                                3
                            })),
                            None => Some(0),
                        };
                        match f {
                            Some(fv) => Some(
                                (mv as i64).wrapping_mul(60000).wrapping_add(
                                    (sv * 1000) as i64,
                                ).wrapping_add(fv as i64),
                            ),
                            None => None,
                        }
                    } else {
                        None
                    }
                },
                _ => None,
            }
        },
    }
}

proof fn lemma_split_at_first(a: Seq<char>, c: char, b: Seq<char>)
    requires
        forall|i: int| 0 <= i < a.len() ==> a[i] != c,
    ensures
        split_once(a + seq![c] + b, seq![c]) == Some((a, b)),
{
    let s = a + seq![c] + b;
    let sep = seq![c];
    assert(s.subrange(a.len() as int, a.len() as int + 1) =~= sep);
    assert(crate::text::occurs_at(s, sep, a.len() as int));
    assert forall|j: int| 0 <= j < a.len() implies !crate::text::occurs_at(s, sep, j) by {
        assert(s.subrange(j, j + 1)[0] == a[j]);
    }
    assert(crate::text::first_occurrence(s, sep, a.len() as int));
    assert(crate::text::contains(s, sep));
    let i = choose|i: int| crate::text::first_occurrence(s, sep, i);
    crate::text::lemma_first_occurrence_unique(s, sep, i, a.len() as int);
    assert(s.subrange(0, a.len() as int) =~= a);
    assert(s.subrange(a.len() as int + 1, s.len() as int) =~= b);
}

proof fn lemma_digits_push(d: Seq<char>, c: char)
    ensures
        digits_value(d.push(c)) == digits_value(d) * 10 + (c as int - 48),
{
    assert(d.push(c).drop_last() =~= d);
}

proof fn lemma_parse_digits(d: Seq<char>)
    requires
        d.len() > 0,
        all_digits(d),
        digits_value(d) <= 1000000,
    ensures
        parse_i64_spec(d) == Some(digits_value(d)),
{
    crate::text::lemma_digits_value_nonneg(d);
    assert(crate::text::is_ascii_digit(d[0]));
}

/// A fraction read as thousandths of a second: padded on the right with
/// zeros to three digits.
pub open spec fn thousandths(frac: Seq<char>) -> Seq<char> {
    if frac.len() == 1 {
        frac + seq!['0', '0']
    } else if frac.len() == 2 {
        frac + seq!['0']
    } else {
        frac
    }
}

/// An LRC time is minutes, seconds and a decimal fraction of a second: for
/// any `mm:ss.f` with digit minutes (up to a million), seconds below 60 and
/// a fraction of one to three digits, the time in milliseconds is
/// `mm * 60000 + ss * 1000` plus the fraction read as thousandths (`.5` is
/// 500 ms, `.45` is 450 ms, `.345` is 345 ms).
pub proof fn law_timestamp_fraction_in_milliseconds(mm: Seq<char>, ss: Seq<char>, frac: Seq<char>)
    requires
        mm.len() > 0,
        all_digits(mm),
        digits_value(mm) <= 1000000,
        ss.len() > 0,
        all_digits(ss),
        digits_value(ss) < 60,
        1 <= frac.len() <= 3,
        all_digits(frac),
    ensures
        parse_timestamp_spec(mm + seq![':'] + ss + seq!['.'] + frac) == Some(
            (digits_value(mm) * 60000 + digits_value(ss) * 1000 + digits_value(thousandths(frac))) as i64,
        ),
{
    reveal_strlit(":");
    reveal_strlit(".");
    let rest = ss + seq!['.'] + frac;
    assert(mm + seq![':'] + ss + seq!['.'] + frac =~= mm + seq![':'] + rest);
    assert forall|i: int| 0 <= i < mm.len() implies mm[i] != ':' by {
        assert(crate::text::is_ascii_digit(mm[i]));
    }
    lemma_split_at_first(mm, ':', rest);
    assert forall|i: int| 0 <= i < ss.len() implies ss[i] != '.' by {
        assert(crate::text::is_ascii_digit(ss[i]));
    }
    lemma_split_at_first(ss, '.', frac);
    lemma_parse_digits(mm);
    lemma_parse_digits(ss);
    crate::text::lemma_digits_value_nonneg(mm);
    crate::text::lemma_digits_value_nonneg(ss);
    crate::text::lemma_digits_value_nonneg(frac);
    let taken = frac.take(if frac.len() < 3 { frac.len() as int } else { 3 });
    assert(taken =~= frac);
    let mv = digits_value(mm);
    let sv = digits_value(ss);
    let fv = digits_value(frac);
    // The fraction has at most three digits, so its value is below 1000.
    let t = thousandths(frac);
    let e = Seq::<char>::empty();
    assert(digits_value(e) == 0);
    assert(crate::text::is_ascii_digit(frac[0]));
    let d0 = frac[0] as int - 48;
    lemma_digits_push(e, frac[0]);
    assert(e.push(frac[0]) =~= frac.take(1));
    if frac.len() == 1 {
        assert(frac.take(1) =~= frac);
        assert(fv == d0);
        lemma_digits_push(frac, '0');
        lemma_digits_push(frac.push('0'), '0');
        assert(t =~= frac.push('0').push('0'));
        assert(digits_value(t) == fv * 100);
        assert(fv <= 9);
    } else {
        assert(crate::text::is_ascii_digit(frac[1]));
        let d1 = frac[1] as int - 48;
        lemma_digits_push(frac.take(1), frac[1]);
        assert(frac.take(1).push(frac[1]) =~= frac.take(2));
        assert(digits_value(frac.take(2)) == d0 * 10 + d1);
        if frac.len() == 2 {
            assert(frac.take(2) =~= frac);
            lemma_digits_push(frac, '0');
            assert(t =~= frac.push('0'));
            assert(digits_value(t) == fv * 10);
            assert(fv <= 99);
        } else {
            assert(crate::text::is_ascii_digit(frac[2]));
            lemma_digits_push(frac.take(2), frac[2]);
            assert(frac.take(2).push(frac[2]) =~= frac);
            assert(fv == (d0 * 10 + d1) * 10 + frac[2] as int - 48);
            assert(t == frac);
            assert(fv <= 999);
        }
    }
    lemma_parse_digits(frac);
    assert(frac_ms_spec(taken) == Some(digits_value(thousandths(frac))));
    let prod = mv * 60000;
    assert(0 <= prod <= 60000000000) by (nonlinear_arith)
        requires
            0 <= mv <= 1000000,
            prod == mv * 60000,
    ;
    assert((mv as i64).wrapping_mul(60000) == prod) by {
        vstd::arithmetic::div_mod::lemma_small_mod(prod as nat, 0x1_0000_0000_0000_0000nat);
    }
    let ms = digits_value(t);
    assert(0 <= ms < 1000);
    let a1 = (prod as i64).wrapping_add((sv * 1000) as i64);
    assert(a1 == prod + sv * 1000);
    let a2 = a1.wrapping_add(ms as i64);
    assert(a2 == prod + sv * 1000 + ms);
    let whole = mm + seq![':'] + ss + seq!['.'] + frac;
    assert(":"@ =~= seq![':']);
    assert("."@ =~= seq!['.']);
    assert(split_once(whole, ":"@) == Some((mm, rest)));
    assert(split_once(rest, "."@) == Some((ss, frac)));
    assert(parse_i64_spec(mm) == Some(mv));
    assert(parse_i64_spec(ss) == Some(sv));
    assert(frac_ms_spec(taken) == Some(ms));
    assert(parse_timestamp_spec(whole) == Some(a2));
}

pub fn parse_timestamp(stamp: &[char]) -> (r: Option<i64>)
    ensures
        r == parse_timestamp_spec(stamp@),
{
    let colon = chars_of(":");
    let dot = chars_of(".");
    let (m, seconds) = match split_once_exec(stamp, colon.as_slice()) {
        Some(p) => p,
        None => return None,
    };
    let (s, frac) = match split_once_exec(seconds.as_slice(), dot.as_slice()) {
        Some((a, b)) => (a, Some(b)),
        None => (seconds, None),
    };
    let mv = match parse_i64(m.as_slice()) {
        Some(v) => v,
        None => return None,
    };
    let sv = match parse_i64(s.as_slice()) {
        Some(v) => v,
        None => return None,
    };
    if !(0 <= sv && sv < 60) {
        return None;
    }
    let fv: i64 = match frac {
        Some(fr) => {
            let k = if fr.len() < 3 {
                fr.len()
            } else {
                3
            };
            let digits = slice_chars(fr.as_slice(), 0, k);
            assert(digits@ =~= fr@.take(k as int));
            let v = match parse_i64(digits.as_slice()) {
                Some(v) => v,
                None => return None,
            };
            proof {
                lemma_three_digit_bound(digits@);
            }
            if digits.len() == 1 {
                v * 100
            } else if digits.len() == 2 {
                v * 10
            } else {
                v
            }
        },
        None => 0,
    };
    Some(mv.wrapping_mul(60000).wrapping_add(sv * 1000).wrapping_add(fv))
}

/// A number of at most three chars is small.
proof fn lemma_three_digit_bound(d: Seq<char>)
    requires
        d.len() <= 3,
    ensures
        parse_i64_spec(d) is Some ==> -999 <= parse_i64_spec(d).unwrap() <= 999,
{
    let body = if d.len() > 0 && (d[0] == '+' || d[0] == '-') {
        d.drop_first()
    } else {
        d
    };
    if body.len() > 0 && all_digits(body) {
        lemma_small_digits(body);
    }
}

proof fn lemma_small_digits(s: Seq<char>)
    requires
        all_digits(s),
        s.len() <= 3,
    ensures
        0 <= digits_value(s) <= 999,
    decreases s.len(),
{
    if s.len() > 0 {
        assert(all_digits(s.drop_last()));
        lemma_small_digits(s.drop_last());
        if s.len() == 1 {
            assert(s.drop_last().len() == 0);
        } else if s.len() == 2 {
            lemma_len1(s.drop_last());
        } else {
            lemma_len2(s.drop_last());
        }
        assert(crate::text::is_ascii_digit(s[s.len() - 1]));
    }
}

proof fn lemma_len1(s: Seq<char>)
    requires
        all_digits(s),
        s.len() == 1,
    ensures
        digits_value(s) <= 9,
{
    assert(s.drop_last().len() == 0);
    assert(digits_value(s.drop_last()) == 0);
    assert(crate::text::is_ascii_digit(s[0]));
}

proof fn lemma_len2(s: Seq<char>)
    requires
        all_digits(s),
        s.len() == 2,
    ensures
        digits_value(s) <= 99,
{
    assert(all_digits(s.drop_last()));
    lemma_len1(s.drop_last());
    assert(crate::text::is_ascii_digit(s[1]));
}

// ------------------------------------------------------- one LRC line

/// Index of the first `c` at or after `i` (or `s.len()`).
pub open spec fn index_of_char(s: Seq<char>, c: char, i: int) -> int
    decreases s.len() - i,
{
    if i < 0 || i >= s.len() {
        s.len() as int
    } else if s[i] == c {
        i
    } else {
        index_of_char(s, c, i + 1)
    }
}

proof fn lemma_index_of_char(s: Seq<char>, c: char, i: int)
    requires
        0 <= i <= s.len(),
    ensures
        i <= index_of_char(s, c, i) <= s.len(),
        index_of_char(s, c, i) < s.len() ==> s[index_of_char(s, c, i)] == c,
        forall|k: int| i <= k < index_of_char(s, c, i) ==> s[k] != c,
    decreases s.len() - i,
{
    if i < s.len() && s[i] != c {
        lemma_index_of_char(s, c, i + 1);
    }
}

/// Leading `[timestamp]` tags of a (trimmed) line: the stamps and the text
/// after them. A bracket tag that is not a timestamp (metadata such as
/// `[ar:...]`) voids the whole line.
#[verifier::opaque]
pub open spec fn scan_stamps(rest: Seq<char>) -> (Seq<i64>, Seq<char>)
    decreases rest.len(),
{
    let end = index_of_char(rest, ']', 0);
    if rest.len() > 0 && rest[0] == '[' && 0 < end < rest.len() {
        match parse_timestamp_spec(rest.subrange(1, end)) {
            Some(ms) => {
                let tail = rest.subrange(end + 1, rest.len() as int);
                proof {
                    lemma_skip_from_bounds(tail, 0, None);
                }
                let (st, v) = scan_stamps(trim_start_by(tail, None));
                (seq![ms] + st, v)
            },
            None => (Seq::<i64>::empty(), Seq::<char>::empty()),
        }
    } else {
        (Seq::<i64>::empty(), rest)
    }
}

/// The synced lines one LRC line contributes: one per timestamp, unless
/// the remaining text is blank.
pub open spec fn line_entries(line: Seq<char>) -> Seq<(int, Seq<char>)> {
    let (stamps, rest) = scan_stamps(trim(line));
    let value = trim(rest);
    if value.len() == 0 {
        Seq::empty()
    } else {
        stamps.map_values(|ms: i64| (ms as int, value))
    }
}

pub open spec fn entries_of(ls: Seq<Seq<char>>) -> Seq<(int, Seq<char>)>
    decreases ls.len(),
{
    if ls.len() == 0 {
        Seq::empty()
    } else {
        entries_of(ls.drop_last()) + line_entries(ls.last())
    }
}

proof fn lemma_scan_stop(rest: Seq<char>)
    requires
        rest.len() == 0 || rest[0] != '[' || index_of_char(rest, ']', 0) >= rest.len(),
    ensures
        scan_stamps(rest) == (Seq::<i64>::empty(), rest),
{
    reveal(scan_stamps);
}

proof fn lemma_scan_step(rest: Seq<char>, end: int, ms: i64, next: Seq<char>)
    requires
        rest.len() > 0,
        rest[0] == '[',
        end == index_of_char(rest, ']', 0),
        0 < end < rest.len(),
        parse_timestamp_spec(rest.subrange(1, end)) == Some(ms),
        next == trim_start_by(rest.subrange(end + 1, rest.len() as int), None),
    ensures
        scan_stamps(rest) == (seq![ms] + scan_stamps(next).0, scan_stamps(next).1),
        next.len() < rest.len(),
{
    reveal(scan_stamps);
    lemma_skip_from_bounds(rest.subrange(end + 1, rest.len() as int), 0, None);
}

proof fn lemma_scan_void(rest: Seq<char>, end: int)
    requires
        rest.len() > 0,
        rest[0] == '[',
        end == index_of_char(rest, ']', 0),
        0 < end < rest.len(),
        parse_timestamp_spec(rest.subrange(1, end)) is None,
    ensures
        scan_stamps(rest) == (Seq::<i64>::empty(), Seq::<char>::empty()),
{
    reveal(scan_stamps);
}

fn scan_stamps_exec(rest0: Vec<char>) -> (r: (Vec<i64>, Vec<char>))
    ensures
        r.0@ == scan_stamps(rest0@).0,
        r.1@ == scan_stamps(rest0@).1,
{
    let mut rest = rest0;
    let mut stamps: Vec<i64> = Vec::new();
    loop
        invariant
            stamps@ + scan_stamps(rest@).0 == scan_stamps(rest0@).0,
            scan_stamps(rest@).1 == scan_stamps(rest0@).1,
        decreases rest.len(),
    {
        proof {
            lemma_index_of_char(rest@, ']', 0);
        }
        if rest.len() == 0 || rest[0] != '[' {
            proof {
                lemma_scan_stop(rest@);
            }
            assert(stamps@ + Seq::<i64>::empty() =~= stamps@);
            return (stamps, rest);
        }
        let end = match crate::text::find_char(rest.as_slice(), ']') {
            Some(e) => e,
            None => {
                proof {
                    lemma_scan_stop(rest@);
                }
                assert(stamps@ + Seq::<i64>::empty() =~= stamps@);
                return (stamps, rest);
            },
        };
        assert(end == index_of_char(rest@, ']', 0));
        if end == 0 {
            proof {
                lemma_scan_stop(rest@);
            }
            assert(false);
        }
        let inner = slice_chars(rest.as_slice(), 1, end);
        match parse_timestamp(inner.as_slice()) {
            Some(ms) => {
                let tail = slice_chars(rest.as_slice(), end + 1, rest.len());
                let next = trim_start_chars(tail.as_slice(), None);
                proof {
                    lemma_scan_step(rest@, end as int, ms, next@);
                }
                let ghost before = stamps@;
                stamps.push(ms);
                assert(stamps@ + scan_stamps(next@).0 =~= before + (seq![ms] + scan_stamps(
                    next@,
                ).0));
                rest = next;
            },
            None => {
                proof {
                    lemma_scan_void(rest@, end as int);
                }
                let empty: Vec<char> = Vec::new();
                assert(stamps@ + Seq::<i64>::empty() =~= stamps@);
                return (stamps, empty);
            },
        }
    }
}

fn line_entries_exec(line: &[char], out: &mut Vec<SyncedLine>)
    ensures
        lines_view(final(out)@) == lines_view(old(out)@) + line_entries(line@),
{
    let t = trim_chars(line);
    let (stamps, rest) = scan_stamps_exec(t);
    let value = trim_chars(rest.as_slice());
    if value.len() == 0 {
        assert(lines_view(out@) =~= lines_view(out@) + Seq::<(int, Seq<char>)>::empty());
        return;
    }
    let ghost v = value@;
    let mut k: usize = 0;
    while k < stamps.len()
        invariant
            k <= stamps.len(),
            v == value@,
            lines_view(out@) == lines_view(old(out)@) + stamps@.take(k as int).map_values(
                |ms: i64| (ms as int, v),
            ),
        decreases stamps.len() - k,
    {
        let ghost before = out@;
        out.push(SyncedLine { start_ms: stamps[k], value: string_of(value.as_slice()) });
        assert(stamps@.take(k + 1).map_values(|ms: i64| (ms as int, v)) =~= stamps@.take(
            k as int,
        ).map_values(|ms: i64| (ms as int, v)).push((stamps@[k as int] as int, v)));
        assert(lines_view(out@) =~= lines_view(before).push((stamps@[k as int] as int, v)));
        assert(lines_view(out@) =~= lines_view(old(out)@) + stamps@.take(k + 1).map_values(
            |ms: i64| (ms as int, v),
        ));
        k += 1;
    }
    assert(stamps@.take(stamps.len() as int) =~= stamps@);
}

// ------------------------------------------------------ stable sorting

/// Insert after every element whose start is not later (keeps equal
/// starts in input order).
pub open spec fn insert_by_start(s: Seq<(int, Seq<char>)>, x: (int, Seq<char>)) -> Seq<
    (int, Seq<char>),
>
    decreases s.len(),
{
    if s.len() == 0 || s.last().0 <= x.0 {
        s.push(x)
    } else {
        insert_by_start(s.drop_last(), x).push(s.last())
    }
}

/// Stable sort by start time (`sort_by_key`).
pub open spec fn sort_by_start(s: Seq<(int, Seq<char>)>) -> Seq<(int, Seq<char>)>
    decreases s.len(),
{
    if s.len() == 0 {
        s
    } else {
        insert_by_start(sort_by_start(s.drop_last()), s.last())
    }
}

pub open spec fn sorted_by_start(s: Seq<(int, Seq<char>)>) -> bool {
    forall|i: int, j: int| 0 <= i <= j < s.len() ==> s[i].0 <= s[j].0
}

proof fn lemma_insert_at(s: Seq<(int, Seq<char>)>, x: (int, Seq<char>), k: int)
    requires
        0 <= k <= s.len(),
        forall|j: int| k <= j < s.len() ==> s[j].0 > x.0,
        k > 0 ==> s[k - 1].0 <= x.0,
    ensures
        insert_by_start(s, x) == s.insert(k, x),
    decreases s.len(),
{
    if s.len() == 0 {
        assert(s.push(x) =~= s.insert(k, x));
    } else if s.last().0 <= x.0 {
        assert(k == s.len());
        assert(s.push(x) =~= s.insert(k, x));
    } else {
        lemma_insert_at(s.drop_last(), x, k);
        assert(s.drop_last().insert(k, x).push(s.last()) =~= s.insert(k, x));
    }
}

/// The element count is kept, every element keeps its multiplicity, and
/// the order is by start time.
proof fn lemma_insert_sorted(s: Seq<(int, Seq<char>)>, x: (int, Seq<char>))
    requires
        sorted_by_start(s),
    ensures
        sorted_by_start(insert_by_start(s, x)),
        insert_by_start(s, x).len() == s.len() + 1,
        insert_by_start(s, x).to_multiset() == s.to_multiset().insert(x),
    decreases s.len(),
{
    broadcast use vstd::multiset::group_multiset_axioms;
    broadcast use vstd::seq_lib::group_to_multiset_ensures;

    if s.len() == 0 || s.last().0 <= x.0 {
    } else {
        let d = s.drop_last();
        assert(sorted_by_start(d));
        lemma_insert_sorted(d, x);
        let r = insert_by_start(d, x);
        assert forall|i: int, j: int| 0 <= i <= j < r.push(s.last()).len() implies r.push(
            s.last(),
        )[i].0 <= r.push(s.last())[j].0 by {
            if j == r.len() {
                if i < r.len() {
                    assert(r.to_multiset().count(r[i]) > 0);
                    assert(d.to_multiset().insert(x).count(r[i]) > 0);
                    if r[i] != x {
                        assert(d.to_multiset().count(r[i]) > 0);
                        assert(d.contains(r[i]));
                        let m = choose|m: int| 0 <= m < d.len() && d[m] == r[i];
                        assert(s[m] == d[m]);
                    }
                }
            }
        }
        assert(s =~= d.push(s.last()));
    }
}

/// The stable sort orders by start time and is a permutation.
pub proof fn lemma_sort_by_start(s: Seq<(int, Seq<char>)>)
    ensures
        sorted_by_start(sort_by_start(s)),
        sort_by_start(s).len() == s.len(),
        sort_by_start(s).to_multiset() == s.to_multiset(),
    decreases s.len(),
{
    broadcast use vstd::seq_lib::group_to_multiset_ensures;

    if s.len() > 0 {
        lemma_sort_by_start(s.drop_last());
        lemma_insert_sorted(sort_by_start(s.drop_last()), s.last());
        assert(s =~= s.drop_last().push(s.last()));
    }
}

fn sort_lines(v: Vec<SyncedLine>) -> (r: Vec<SyncedLine>)
    ensures
        lines_view(r@) == sort_by_start(lines_view(v@)),
{
    let mut r: Vec<SyncedLine> = Vec::new();
    let mut i: usize = 0;
    let ghost src = lines_view(v@);
    while i < v.len()
        invariant
            i <= v.len(),
            src == lines_view(v@),
            lines_view(r@) == sort_by_start(src.take(i as int)),
            sorted_by_start(lines_view(r@)),
        decreases v.len() - i,
    {
        let x = copy_line(&v[i]);
        let mut k: usize = r.len();
        proof {
            lemma_sort_by_start(src.take(i as int));
        }
        while k > 0 && r[k - 1].start_ms > x.start_ms
            invariant
                k <= r.len(),
                forall|j: int| k <= j < r@.len() ==> r@[j].start_ms > x.start_ms,
            decreases k,
        {
            k -= 1;
        }
        proof {
            let rv = lines_view(r@);
            assert(forall|j: int| k <= j < rv.len() ==> rv[j].0 > x@.0);
            lemma_insert_at(rv, x@, k as int);
            lemma_insert_sorted(rv, x@);
            assert(src.take(i + 1).drop_last() =~= src.take(i as int));
            assert(src.take(i + 1).last() == x@);
        }
        let ghost before = r@;
        r.insert(k, x);
        proof {
            assert(lines_view(r@) =~= lines_view(before).insert(k as int, x@));
        }
        i += 1;
    }
    assert(src.take(v.len() as int) =~= src);
    r
}

fn copy_line(l: &SyncedLine) -> (r: SyncedLine)
    ensures
        r@ == l@,
{
    SyncedLine { start_ms: l.start_ms, value: l.value.clone() }
}

// ----------------------------------------------------------- parse_lrc

pub open spec fn parse_lrc_spec(text: Seq<char>) -> Seq<(int, Seq<char>)> {
    sort_by_start(entries_of(lines_spec(text)))
}

/// Parse LRC text (`[mm:ss.xx] line`, several timestamps per line allowed)
/// into chronologically ordered lines. Metadata tags void their line and
/// blank lines are dropped.
pub fn parse_lrc(text: &str) -> (r: Vec<SyncedLine>)
    ensures
        lines_view(r@) == parse_lrc_spec(text@),
{
    let t = chars_of(text);
    let ls = lines(t.as_slice());
    let ghost lv = lines_spec(t@);
    let mut out: Vec<SyncedLine> = Vec::new();
    let mut i: usize = 0;
    while i < ls.len()
        invariant
            i <= ls.len(),
            ls@.len() == lv.len(),
            lv == lines_spec(t@),
            forall|k: int| 0 <= k < ls@.len() ==> (#[trigger] ls@[k])@ == lv[k],
            lines_view(out@) == entries_of(lv.take(i as int)),
        decreases ls.len() - i,
    {
        line_entries_exec(ls[i].as_slice(), &mut out);
        assert(lv.take(i + 1).drop_last() =~= lv.take(i as int));
        i += 1;
    }
    assert(lv.take(ls.len() as int) =~= lv);
    sort_lines(out)
}

/// Lines come out ordered by start time.
pub proof fn lemma_parse_lrc_sorted(text: Seq<char>)
    ensures
        sorted_by_start(parse_lrc_spec(text)),
        parse_lrc_spec(text).to_multiset() == entries_of(lines_spec(text)).to_multiset(),
{
    lemma_sort_by_start(entries_of(lines_spec(text)));
}

// -------------------------------------------------------- cache answers

/// Whether a cached lyrics answer may be served: a cached "none" older than
/// the negative TTL is re-asked, and so is any answer whose recording length
/// differs from ours by more than the sync tolerance.
pub open spec fn cached_answer_usable_spec(
    provider_none: bool,
    fetched_at: int,
    now: int,
    cached_duration: Option<i64>,
    duration: Option<i64>,
) -> bool {
    let stale_miss = provider_none && now - fetched_at > NEGATIVE_TTL_SECS;
    let mismatch = match (cached_duration, duration) {
        (Some(c), Some(d)) => c - d > SYNC_DURATION_TOLERANCE_SECS || d - c
            > SYNC_DURATION_TOLERANCE_SECS,
        _ => false,
    };
    !stale_miss && !mismatch
}

pub fn cached_answer_usable(
    provider: &str,
    fetched_at: i64,
    now: i64,
    cached_duration: Option<i64>,
    duration: Option<i64>,
) -> (r: bool)
    ensures
        r == cached_answer_usable_spec(
            provider@ == "none"@,
            fetched_at as int,
            now as int,
            cached_duration,
            duration,
        ),
{
    let none = crate::text::str_eq(provider, "none");
    let stale_miss = none && (now as i128) - (fetched_at as i128) > NEGATIVE_TTL_SECS as i128;
    let mismatch = match (cached_duration, duration) {
        (Some(c), Some(d)) => {
            let delta = (c as i128) - (d as i128);
            delta > 3 || -delta > 3
        },
        _ => false,
    };
    !stale_miss && !mismatch
}

/// Text that is not blank.
pub open spec fn non_blank(s: Seq<char>) -> bool {
    trim(s).len() > 0
}

fn is_blank(s: &String) -> (r: bool)
    ensures
        r == !non_blank(s@),
{
    let c = chars_of(s.as_str());
    trim_chars(c.as_slice()).len() == 0
}

/// Lyrics from a cache row: nothing for a cached "none", blank plain text
/// and empty synced lists dropped, nothing when both are gone.
pub fn lyrics_from_cache(
    provider: &str,
    plain: Option<String>,
    synced: Option<Vec<SyncedLine>>,
    artist: &str,
    title: &str,
) -> (r: Option<Lyrics>)
    ensures
        provider@ == "none"@ ==> r is None,
        provider@ != "none"@ ==> match r {
            Some(l) => {
                &&& l.artist@ == artist@
                &&& l.title@ == title@
                &&& l.plain == (match plain {
                    Some(p) => if non_blank(p@) {
                        Some(p)
                    } else {
                        None
                    },
                    None => None,
                })
                &&& l.synced == (match synced {
                    Some(v) => if v@.len() > 0 {
                        Some(v)
                    } else {
                        None
                    },
                    None => None,
                })
                &&& !(l.plain is None && l.synced is None)
            },
            None => (plain is None || !non_blank(plain.unwrap()@)) && (synced is None
                || synced.unwrap()@.len() == 0),
        },
{
    if crate::text::str_eq(provider, "none") {
        return None;
    }
    let synced = match synced {
        Some(v) => if v.len() > 0 {
            Some(v)
        } else {
            None
        },
        None => None,
    };
    let plain = match plain {
        Some(p) => if !is_blank(&p) {
            Some(p)
        } else {
            None
        },
        None => None,
    };
    let lyrics = Lyrics {
        artist: crate::text::copy_str(artist),
        title: crate::text::copy_str(title),
        plain,
        synced,
    };
    if lyrics.is_empty() {
        None
    } else {
        Some(lyrics)
    }
}

// ------------------------------------------------------- LRCLIB records

/// An LRCLIB record; `duration` is the provider's length rounded to whole
/// seconds.
#[derive(Debug)]
pub struct LrclibRecord {
    pub duration: Option<i64>,
    pub instrumental: bool,
    pub plain_lyrics: Option<String>,
    pub synced_lyrics: Option<String>,
}

pub open spec fn has_lyrics(r: LrclibRecord) -> bool {
    !r.instrumental && (r.plain_lyrics is Some || r.synced_lyrics is Some)
}

/// Distance of a record's length from ours; records without a length sort
/// last.
pub open spec fn duration_distance(r: LrclibRecord, ours: i64) -> int {
    match r.duration {
        Some(d) => if ours - d >= 0 {
            ours - d
        } else {
            d - ours
        },
        None => i64::MAX as int,
    }
}

/// `i` is the first record with lyrics whose length is closest to ours
/// (or simply the first record with lyrics when our length is unknown).
pub open spec fn is_closest(records: Seq<LrclibRecord>, ours: Option<i64>, i: int) -> bool {
    &&& 0 <= i < records.len()
    &&& has_lyrics(records[i])
    &&& match ours {
        Some(o) => {
            &&& forall|j: int|
                0 <= j < records.len() && has_lyrics(records[j]) ==> duration_distance(
                    records[i],
                    o,
                ) <= duration_distance(#[trigger] records[j], o)
            &&& forall|j: int|
                0 <= j < i && has_lyrics(records[j]) ==> duration_distance(records[i], o)
                    < duration_distance(#[trigger] records[j], o)
        },
        None => forall|j: int| 0 <= j < i ==> !has_lyrics(#[trigger] records[j]),
    }
}

fn distance_exec(r: &LrclibRecord, ours: i64) -> (d: i128)
    ensures
        d == duration_distance(*r, ours),
{
    match r.duration {
        Some(d) => {
            let x = (ours as i128) - (d as i128);
            if x >= 0 {
                x
            } else {
                -x
            }
        },
        None => i64::MAX as i128,
    }
}

/// Pick the LRCLIB search result to use: among records with lyrics, the
/// first whose length is closest to ours; with no length of ours, the first.
pub fn pick_closest(records: Vec<LrclibRecord>, duration_secs: Option<i64>) -> (r: Option<
    LrclibRecord,
>)
    ensures
        match r {
            Some(rec) => exists|i: int| is_closest(records@, duration_secs, i) && rec == records@[i],
            None => forall|j: int| 0 <= j < records@.len() ==> !has_lyrics(#[trigger] records@[j]),
        },
{
    let mut best: Option<usize> = None;
    let mut best_d: i128 = 0;
    let mut i: usize = 0;
    while i < records.len()
        invariant
            i <= records.len(),
            match best {
                Some(b) => {
                    &&& b < i
                    &&& has_lyrics(records@[b as int])
                    &&& match duration_secs {
                        Some(o) => {
                            &&& best_d == duration_distance(records@[b as int], o)
                            &&& forall|j: int|
                                0 <= j < i && has_lyrics(records@[j]) ==> best_d
                                    <= duration_distance(#[trigger] records@[j], o)
                            &&& forall|j: int|
                                0 <= j < b && has_lyrics(records@[j]) ==> best_d
                                    < duration_distance(#[trigger] records@[j], o)
                        },
                        None => forall|j: int| 0 <= j < b ==> !has_lyrics(#[trigger] records@[j]),
                    }
                },
                None => forall|j: int| 0 <= j < i ==> !has_lyrics(#[trigger] records@[j]),
            },
        decreases records.len() - i,
    {
        let rec = &records[i];
        let ok = !rec.instrumental && (rec.plain_lyrics.is_some() || rec.synced_lyrics.is_some());
        if ok {
            match duration_secs {
                Some(o) => {
                    let d = distance_exec(rec, o);
                    match best {
                        Some(_) => {
                            if d < best_d {
                                best = Some(i);
                                best_d = d;
                            }
                        },
                        None => {
                            best = Some(i);
                            best_d = d;
                        },
                    }
                },
                None => {
                    if best.is_none() {
                        best = Some(i);
                    }
                },
            }
        }
        i += 1;
    }
    match best {
        Some(b) => {
            let mut records = records;
            let ghost all = records@;
            let rec = records.remove(b);
            assert(is_closest(all, duration_secs, b as int));
            Some(rec)
        },
        None => None,
    }
}

/// Lyrics from an LRCLIB record: instrumentals give nothing; synced lines
/// are kept only when the lengths agree within the tolerance (or ours is
/// unknown) and parse to at least one line; blank plain text is dropped and
/// the rest trimmed; nothing when neither remains.
pub fn lyrics_from_record(
    record: LrclibRecord,
    artist: &str,
    title: &str,
    duration_secs: Option<i64>,
) -> (r: Option<Lyrics>)
    ensures
        record.instrumental ==> r is None,
        !record.instrumental ==> {
            let close = match (duration_secs, record.duration) {
                (Some(o), Some(d)) => -SYNC_DURATION_TOLERANCE_SECS <= o - d
                    <= SYNC_DURATION_TOLERANCE_SECS,
                _ => true,
            };
            let synced_ok = close && record.synced_lyrics is Some && parse_lrc_spec(
                record.synced_lyrics.unwrap()@,
            ).len() > 0;
            let plain_ok = record.plain_lyrics is Some && non_blank(record.plain_lyrics.unwrap()@);
            match r {
                Some(l) => {
                    &&& l.artist@ == artist@
                    &&& l.title@ == title@
                    &&& (synced_ok ==> l.synced is Some && lines_view(l.synced.unwrap()@)
                        == parse_lrc_spec(record.synced_lyrics.unwrap()@))
                    &&& (!synced_ok ==> l.synced is None)
                    &&& (plain_ok ==> l.plain is Some && l.plain.unwrap()@ == trim(
                        record.plain_lyrics.unwrap()@,
                    ))
                    &&& (!plain_ok ==> l.plain is None)
                    &&& (synced_ok || plain_ok)
                },
                None => !synced_ok && !plain_ok,
            }
        },
{
    if record.instrumental {
        return None;
    }
    let close = match (duration_secs, record.duration) {
        (Some(o), Some(d)) => {
            let x = (o as i128) - (d as i128);
            -3 <= x && x <= 3
        },
        _ => true,
    };
    let synced = match &record.synced_lyrics {
        Some(text) => if close {
            let lines = parse_lrc(text.as_str());
            if lines.len() > 0 {
                Some(lines)
            } else {
                None
            }
        } else {
            None
        },
        None => None,
    };
    let plain = match &record.plain_lyrics {
        Some(text) => if !is_blank(text) {
            Some(crate::text::trim_str(text.as_str()))
        } else {
            None
        },
        None => None,
    };
    if synced.is_none() && plain.is_none() {
        return None;
    }
    Some(
        Lyrics {
            artist: crate::text::copy_str(artist),
            title: crate::text::copy_str(title),
            plain,
            synced,
        },
    )
}

// -------------------------------------------------- JSON lyrics answers

/// A JSON answer is a Subsonic response: its envelope has a string status.
pub open spec fn is_subsonic_json_spec(v: Json) -> bool {
    as_str(at_key(at_key(v, "subsonic-response"@), "status"@)) is Some
}

pub fn is_subsonic_json(v: &Json) -> (r: bool)
    ensures
        r == is_subsonic_json_spec(*v),
{
    let null = Json::Null;
    let env = key_or_null(v, "subsonic-response", &null);
    str_at(env, "status").is_some()
}

/// A JSON lyrics answer holds lyrics: a non-empty `structuredLyrics` list,
/// or a single `structuredLyrics` object.
pub open spec fn has_lyrics_json_spec(v: Json) -> bool {
    match at_key(at_key(at_key(v, "subsonic-response"@), "lyricsList"@), "structuredLyrics"@) {
        Json::Array(items) => items@.len() > 0,
        Json::Object(_) => true,
        _ => false,
    }
}

pub fn has_lyrics_json(v: &Json) -> (r: bool)
    ensures
        r == has_lyrics_json_spec(*v),
{
    let null = Json::Null;
    let env = key_or_null(v, "subsonic-response", &null);
    let list = key_or_null(env, "lyricsList", &null);
    match at_key_exec(list, "structuredLyrics") {
        Some(Json::Array(items)) => items.len() > 0,
        Some(Json::Object(_)) => true,
        _ => false,
    }
}

pub open spec fn synced_line_view(l: SyncedLine) -> JsonView {
    JsonView::Object(
        seq![("start"@, JsonView::Number(signed_decimal(l.start_ms as int))), ("value"@, JsonView::Str(l.value@))],
    )
}

pub open spec fn plain_line_view(l: Seq<char>) -> JsonView {
    JsonView::Object(seq![("value"@, JsonView::Str(l))])
}

/// The OpenSubsonic `structuredLyrics` answer: one entry with the display
/// artist and title, `und` language, and the synced lines (with start
/// times) when there are any, else the plain lines.
pub open spec fn structured_lyrics_view(
    artist: Seq<char>,
    title: Seq<char>,
    synced: Seq<SyncedLine>,
    plain: Seq<Seq<char>>,
) -> JsonView {
    let lines = if synced.len() > 0 {
        Seq::new(synced.len(), |i: int| synced_line_view(synced[i]))
    } else {
        Seq::new(plain.len(), |i: int| plain_line_view(plain[i]))
    };
    JsonView::Object(
        seq![
            (
                "structuredLyrics"@,
                JsonView::Array(
                    seq![
                        JsonView::Object(
                            seq![
                                ("displayArtist"@, JsonView::Str(artist)),
                                ("displayTitle"@, JsonView::Str(title)),
                                ("lang"@, JsonView::Str("und"@)),
                                ("synced"@, JsonView::Bool(synced.len() > 0)),
                                ("line"@, JsonView::Array(lines)),
                            ],
                        ),
                    ],
                ),
            ),
        ],
    )
}

fn one_member(k: &str, v: Json) -> (r: Json)
    ensures
        jview(r) == JsonView::Object(seq![(k@, jview(v))]),
{
    let mut m: Vec<(String, Json)> = Vec::new();
    assert(members_view(m@) =~= Seq::<(Seq<char>, JsonView)>::empty());
    push_member(&mut m, k, v);
    proof {
        lemma_jview_object(m);
        assert(members_view(m@) =~= seq![(k@, jview(v))]);
    }
    Json::Object(m)
}

pub fn structured_lyrics_json(lyrics: &Lyrics, synced_lines: &Vec<SyncedLine>, plain_lines: &Vec<String>) -> (r:
    Json)
    ensures
        jview(r) == structured_lyrics_view(
            lyrics.artist@,
            lyrics.title@,
            synced_lines@,
            strings_view(plain_lines@),
        ),
{
    let synced = synced_lines.len() > 0;
    let mut lines: Vec<Json> = Vec::new();
    let ghost want = if synced {
        Seq::new(synced_lines@.len(), |i: int| synced_line_view(synced_lines@[i]))
    } else {
        Seq::new(plain_lines@.len(), |i: int| plain_line_view(plain_lines@[i]@))
    };
    if synced {
        let mut i: usize = 0;
        while i < synced_lines.len()
            invariant
                i <= synced_lines@.len(),
                lines@.len() == i,
                items_view(lines@) == want.take(i as int),
                want == Seq::new(synced_lines@.len(), |i: int| synced_line_view(synced_lines@[i])),
            decreases synced_lines@.len() - i,
        {
            let mut m: Vec<(String, Json)> = Vec::new();
            assert(members_view(m@) =~= Seq::<(Seq<char>, JsonView)>::empty());
            push_member(&mut m, "start", Json::Number(string_of(i64_decimal(synced_lines[i].start_ms).as_slice())));
            push_member(&mut m, "value", Json::Str(synced_lines[i].value.clone()));
            proof {
                lemma_jview_object(m);
                assert(members_view(m@) =~= synced_line_view(synced_lines@[i as int])->Object_0);
            }
            let line = Json::Object(m);
            let ghost before = lines@;
            lines.push(line);
            proof {
                assert forall|k: int| 0 <= k <= i implies #[trigger] items_view(lines@)[k] == want[k] by {
                    if k < i {
                        assert(lines@[k] == before[k]);
                        assert(items_view(before)[k] == want.take(i as int)[k]);
                    }
                }
                assert(items_view(lines@) =~= want.take(i + 1));
            }
            i += 1;
        }
    } else {
        let mut i: usize = 0;
        while i < plain_lines.len()
            invariant
                i <= plain_lines@.len(),
                lines@.len() == i,
                items_view(lines@) == want.take(i as int),
                want == Seq::new(plain_lines@.len(), |i: int| plain_line_view(plain_lines@[i]@)),
            decreases plain_lines@.len() - i,
        {
            let line = one_member("value", Json::Str(plain_lines[i].clone()));
            let ghost before = lines@;
            lines.push(line);
            proof {
                assert forall|k: int| 0 <= k <= i implies #[trigger] items_view(lines@)[k] == want[k] by {
                    if k < i {
                        assert(lines@[k] == before[k]);
                        assert(items_view(before)[k] == want.take(i as int)[k]);
                    }
                }
                assert(items_view(lines@) =~= want.take(i + 1));
            }
            i += 1;
        }
    }
    proof {
        assert(want.take(want.len() as int) =~= want);
        lemma_jview_array(lines);
    }
    let ghost lines_v = jview(Json::Array(lines));
    let mut entry: Vec<(String, Json)> = Vec::new();
    assert(members_view(entry@) =~= Seq::<(Seq<char>, JsonView)>::empty());
    push_member(&mut entry, "displayArtist", Json::Str(lyrics.artist.clone()));
    push_member(&mut entry, "displayTitle", Json::Str(lyrics.title.clone()));
    push_member(&mut entry, "lang", Json::Str(copy_str("und")));
    push_member(&mut entry, "synced", Json::Bool(synced));
    push_member(&mut entry, "line", Json::Array(lines));
    proof {
        lemma_jview_object(entry);
        let spec_lines = if synced_lines@.len() > 0 {
            Seq::new(synced_lines@.len(), |i: int| synced_line_view(synced_lines@[i]))
        } else {
            Seq::new(
                strings_view(plain_lines@).len(),
                |i: int| plain_line_view(strings_view(plain_lines@)[i]),
            )
        };
        assert(want =~= spec_lines);
        assert(lines_v == JsonView::Array(spec_lines));
        assert(members_view(entry@) =~= seq![
            ("displayArtist"@, JsonView::Str(lyrics.artist@)),
            ("displayTitle"@, JsonView::Str(lyrics.title@)),
            ("lang"@, JsonView::Str("und"@)),
            ("synced"@, JsonView::Bool(synced_lines@.len() > 0)),
            ("line"@, JsonView::Array(spec_lines)),
        ]);
    }
    let ghost entry_v = jview(Json::Object(entry));
    let list: Vec<Json> = vec![Json::Object(entry)];
    proof {
        lemma_jview_array(list);
        assert(items_view(list@) =~= seq![entry_v]);
    }
    one_member("structuredLyrics", Json::Array(list))
}

/// The `lyricsList` answer for lyrics found (or not): an empty
/// `structuredLyrics` list when there are none or they have no lines, else
/// the structured lyrics of their synced lines or non-blank plain lines.
pub open spec fn lyrics_list_view(lyrics: Option<Lyrics>) -> JsonView {
    match lyrics {
        None => JsonView::Object(seq![("structuredLyrics"@, JsonView::Array(Seq::empty()))]),
        Some(l) => {
            let synced = match l.synced {
                Some(v) => v@,
                None => Seq::empty(),
            };
            let plain = trimmed_nonempty(
                lines_spec(
                    match l.plain {
                        Some(p) => p@,
                        None => Seq::empty(),
                    },
                ),
            );
            if synced.len() == 0 && plain.len() == 0 {
                JsonView::Object(seq![("structuredLyrics"@, JsonView::Array(Seq::empty()))])
            } else {
                structured_lyrics_view(l.artist@, l.title@, synced, plain)
            }
        },
    }
}

fn copy_lines(v: &Vec<SyncedLine>) -> (r: Vec<SyncedLine>)
    ensures
        r@ == v@,
{
    let mut out: Vec<SyncedLine> = Vec::new();
    let mut i: usize = 0;
    while i < v.len()
        invariant
            i <= v@.len(),
            out@ == v@.take(i as int),
        decreases v@.len() - i,
    {
        out.push(SyncedLine { start_ms: v[i].start_ms, value: v[i].value.clone() });
        assert(out@ =~= v@.take(i + 1));
        i += 1;
    }
    assert(v@.take(v@.len() as int) =~= v@);
    out
}

pub fn lyrics_list_json(lyrics: Option<&Lyrics>) -> (r: Json)
    ensures
        jview(r) == lyrics_list_view(
            match lyrics {
                Some(l) => Some(*l),
                None => None,
            },
        ),
{
    let empty = || -> (e: Json)
        ensures
            jview(e) == JsonView::Object(seq![("structuredLyrics"@, JsonView::Array(Seq::empty()))]),
        {
            let list: Vec<Json> = Vec::new();
            proof {
                lemma_jview_array(list);
                assert(items_view(list@) =~= Seq::<JsonView>::empty());
            }
            one_member("structuredLyrics", Json::Array(list))
        };
    let l = match lyrics {
        Some(l) => l,
        None => return empty(),
    };
    let synced: Vec<SyncedLine> = match &l.synced {
        Some(v) => copy_lines(v),
        None => Vec::new(),
    };
    let plain = match &l.plain {
        Some(p) => plain_lines(Some(p.as_str())),
        None => plain_lines(None),
    };
    if synced.len() == 0 && plain.len() == 0 {
        return empty();
    }
    structured_lyrics_json(l, &synced, &plain)
}

// ----------------------------------------------------------------- XML

/// An XML body holds a `structuredLyrics` tag before its end or first
/// error.
pub open spec fn has_lyrics_xml_spec(body: Seq<char>) -> bool {
    first_open(xml_read(body).0, "structuredLyrics"@) is Some
}

pub fn has_lyrics_xml(body: &str) -> (r: bool)
    ensures
        r == has_lyrics_xml_spec(body@),
{
    let (events, _failed) = read_events(body);
    find_open(&events, "structuredLyrics").is_some()
}

/// The root element of an XML body, read before its end or first error,
/// has a `status` attribute (whatever its value).
pub open spec fn is_subsonic_xml_spec(body: Seq<char>) -> bool {
    let evs = xml_read(body).0;
    match first_open(evs, "subsonic-response"@) {
        Some(i) => has_status(xml_tag(evs[i].1).1),
        None => false,
    }
}

pub open spec fn has_status(attrs: Seq<(Seq<char>, Option<Seq<char>>)>) -> bool {
    exists|j: int| 0 <= j < attrs.len() && (#[trigger] attrs[j]).0 == "status"@
}

pub fn is_subsonic_xml(body: &str) -> (r: bool)
    ensures
        r == is_subsonic_xml_spec(body@),
{
    let (events, _failed) = read_events(body);
    match find_open(&events, "subsonic-response") {
        Some(i) => {
            let (_name, attrs) = tag_parts(events[i].text.as_str());
            let ghost av = attrs_view(attrs@);
            assert(crate::xml::events_view(events@)[i as int].1 == events@[i as int].text@);
            let mut j: usize = 0;
            while j < attrs.len()
                invariant
                    j <= attrs@.len(),
                    av == attrs_view(attrs@),
                    first_open(xml_read(body@).0, "subsonic-response"@) == Some(i as int),
                    i < xml_read(body@).0.len(),
                    av == xml_tag(xml_read(body@).0[i as int].1).1,
                    forall|k: int| 0 <= k < j ==> (#[trigger] av[k]).0 != "status"@,
                decreases attrs@.len() - j,
            {
                if crate::text::str_eq(attrs[j].0.as_str(), "status") {
                    assert(av[j as int].0 == "status"@);
                    assert(has_status(av));
                    return true;
                }
                j += 1;
            }
            false
        },
        None => false,
    }
}

pub open spec fn synced_line_xml(l: SyncedLine) -> Seq<char> {
    written(
        XmlKind::Empty,
        "line"@ + attr_text("start"@, signed_decimal(l.start_ms as int)) + attr_text("value"@, l.value@),
    )
}

pub open spec fn plain_line_xml(l: Seq<char>) -> Seq<char> {
    written(XmlKind::Empty, "line"@ + attr_text("value"@, l))
}

pub open spec fn synced_lines_xml(v: Seq<SyncedLine>) -> Seq<char>
    decreases v.len(),
{
    if v.len() == 0 {
        Seq::empty()
    } else {
        synced_lines_xml(v.drop_last()) + synced_line_xml(v.last())
    }
}

pub open spec fn plain_lines_xml(v: Seq<Seq<char>>) -> Seq<char>
    decreases v.len(),
{
    if v.len() == 0 {
        Seq::empty()
    } else {
        plain_lines_xml(v.drop_last()) + plain_line_xml(v.last())
    }
}

/// A `structuredLyrics` element: display artist and title, language `und`
/// and whether it is synced, then one `line` per synced line (with its
/// start) when there are synced lines, else one per plain line.
pub open spec fn structured_lyrics_xml_spec(
    artist: Seq<char>,
    title: Seq<char>,
    synced: Seq<SyncedLine>,
    plain: Seq<Seq<char>>,
) -> Seq<char> {
    let is_synced = synced.len() > 0;
    written(
        XmlKind::Start,
        "structuredLyrics"@ + attr_text("displayArtist"@, artist) + attr_text("displayTitle"@, title) + attr_text(
            "lang"@,
            "und"@,
        ) + attr_text("synced"@, if is_synced { "true"@ } else { "false"@ }),
    ) + (if is_synced { synced_lines_xml(synced) } else { plain_lines_xml(plain) }) + written(
        XmlKind::End,
        "structuredLyrics"@,
    )
}

/// Write the `structuredLyrics` element (see `structured_lyrics_xml_spec`).
pub fn structured_lyrics_xml(lyrics: &Lyrics, synced_lines: &Vec<SyncedLine>, plain_lines: &Vec<String>) -> (r:
    Vec<char>)
    ensures
        r@ == structured_lyrics_xml_spec(lyrics.artist@, lyrics.title@, synced_lines@, strings_view(plain_lines@)),
{
    let synced = synced_lines.len() > 0;
    let mut tag = chars_of("structuredLyrics");
    push_attr(&mut tag, "displayArtist", lyrics.artist.as_str());
    push_attr(&mut tag, "displayTitle", lyrics.title.as_str());
    push_attr(&mut tag, "lang", "und");
    push_attr(&mut tag, "synced", if synced { "true" } else { "false" });
    let mut out: Vec<char> = Vec::new();
    write_event(&mut out, XmlKind::Start, tag.as_slice());
    let ghost head = out@;
    let mut body: Vec<char> = Vec::new();
    if synced {
        let mut i: usize = 0;
        while i < synced_lines.len()
            invariant
                i <= synced_lines@.len(),
                body@ == synced_lines_xml(synced_lines@.take(i as int)),
            decreases synced_lines@.len() - i,
        {
            let mut node = chars_of("line");
            push_attr(&mut node, "start", string_of(i64_decimal(synced_lines[i].start_ms).as_slice()).as_str());
            push_attr(&mut node, "value", synced_lines[i].value.as_str());
            write_event(&mut body, XmlKind::Empty, node.as_slice());
            proof {
                assert(synced_lines@.take(i + 1).drop_last() =~= synced_lines@.take(i as int));
                assert(synced_lines@.take(i + 1).last() == synced_lines@[i as int]);
            }
            i += 1;
        }
        assert(synced_lines@.take(synced_lines@.len() as int) =~= synced_lines@);
    } else {
        let ghost pv = strings_view(plain_lines@);
        let mut i: usize = 0;
        while i < plain_lines.len()
            invariant
                i <= plain_lines@.len(),
                pv == strings_view(plain_lines@),
                body@ == plain_lines_xml(pv.take(i as int)),
            decreases plain_lines@.len() - i,
        {
            let mut node = chars_of("line");
            push_attr(&mut node, "value", plain_lines[i].as_str());
            write_event(&mut body, XmlKind::Empty, node.as_slice());
            proof {
                assert(pv.take(i + 1).drop_last() =~= pv.take(i as int));
                assert(pv.take(i + 1).last() == pv[i as int]);
            }
            i += 1;
        }
        assert(pv.take(plain_lines@.len() as int) =~= pv);
    }
    extend_chars(&mut out, body.as_slice());
    let end = chars_of("structuredLyrics");
    write_event(&mut out, XmlKind::End, end.as_slice());
    out
}

/// The XML `lyricsList` element for lyrics found (or not): empty when there
/// are none or they have no lines, else their `structuredLyrics` element
/// (see `lyrics_list_view` for which lines).
pub open spec fn lyrics_list_xml_spec(lyrics: Option<Lyrics>) -> Seq<char> {
    let inner = match lyrics {
        None => Seq::empty(),
        Some(l) => {
            let synced = match l.synced {
                Some(v) => v@,
                None => Seq::empty(),
            };
            let plain = trimmed_nonempty(
                lines_spec(
                    match l.plain {
                        Some(p) => p@,
                        None => Seq::empty(),
                    },
                ),
            );
            if synced.len() == 0 && plain.len() == 0 {
                Seq::empty()
            } else {
                structured_lyrics_xml_spec(l.artist@, l.title@, synced, plain)
            }
        },
    };
    written(XmlKind::Start, "lyricsList"@) + inner + written(XmlKind::End, "lyricsList"@)
}

pub fn lyrics_list_xml(lyrics: Option<&Lyrics>) -> (r: Vec<char>)
    ensures
        r@ == lyrics_list_xml_spec(
            match lyrics {
                Some(l) => Some(*l),
                None => None,
            },
        ),
{
    let name = chars_of("lyricsList");
    let mut out: Vec<char> = Vec::new();
    write_event(&mut out, XmlKind::Start, name.as_slice());
    match lyrics {
        Some(l) => {
            let synced: Vec<SyncedLine> = match &l.synced {
                Some(v) => copy_lines(v),
                None => Vec::new(),
            };
            let plain = match &l.plain {
                Some(p) => plain_lines(Some(p.as_str())),
                None => plain_lines(None),
            };
            if synced.len() > 0 || plain.len() > 0 {
                let inner = structured_lyrics_xml(l, &synced, &plain);
                extend_chars(&mut out, inner.as_slice());
            }
        },
        None => {},
    }
    write_event(&mut out, XmlKind::End, name.as_slice());
    out
}

} // verus!
