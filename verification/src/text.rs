//! Character and string primitives shared by the whole library.
//!
//! Strings are modelled by their view, a `Seq<char>`. Everything here is
//! stated over those sequences; the few std and outside functions whose
//! behaviour is Unicode-table driven (lowercasing, transliteration) are
//! named rather than spelled out.
use vstd::prelude::*;

verus! {

// ---------------------------------------------------------------- chars

pub open spec fn is_ascii_digit(c: char) -> bool {
    '0' <= c && c <= '9'
}

pub open spec fn is_ascii_upper(c: char) -> bool {
    'A' <= c && c <= 'Z'
}

pub open spec fn is_ascii_lower(c: char) -> bool {
    'a' <= c && c <= 'z'
}

pub open spec fn is_ascii_alnum(c: char) -> bool {
    is_ascii_digit(c) || is_ascii_upper(c) || is_ascii_lower(c)
}

pub open spec fn is_ascii(c: char) -> bool {
    (c as u32) < 128
}

/// The Unicode `White_Space` property, which `char::is_whitespace` tests.
pub open spec fn is_ws(c: char) -> bool {
    let v = c as u32;
    (0x09 <= v && v <= 0x0D) || v == 0x20 || v == 0x85 || v == 0xA0 || v == 0x1680 || (0x2000
        <= v && v <= 0x200A) || v == 0x2028 || v == 0x2029 || v == 0x202F || v == 0x205F || v
        == 0x3000
}

/// General category `Cc`, which `char::is_control` tests.
pub open spec fn is_ctrl(c: char) -> bool {
    let v = c as u32;
    v <= 0x1F || (0x7F <= v && v <= 0x9F)
}

/// ASCII lowercasing of one char (`char::to_ascii_lowercase`).
pub open spec fn ascii_lower(c: char) -> char {
    if is_ascii_upper(c) {
        ((c as u32) + 32) as char
    } else {
        c
    }
}

/// ASCII uppercasing of one char (`char::to_ascii_uppercase`).
pub open spec fn ascii_upper(c: char) -> char {
    if is_ascii_lower(c) {
        ((c as u32) - 32) as char
    } else {
        c
    }
}

pub open spec fn all_ascii(s: Seq<char>) -> bool {
    forall|i: int| 0 <= i < s.len() ==> is_ascii(#[trigger] s[i])
}

pub fn is_ascii_digit_exec(c: char) -> (r: bool)
    ensures
        r == is_ascii_digit(c),
{
    '0' <= c && c <= '9'
}

pub fn is_ascii_alnum_exec(c: char) -> (r: bool)
    ensures
        r == is_ascii_alnum(c),
{
    ('0' <= c && c <= '9') || ('A' <= c && c <= 'Z') || ('a' <= c && c <= 'z')
}

pub fn is_ws_exec(c: char) -> (r: bool)
    ensures
        r == is_ws(c),
{
    let v = c as u32;
    (0x09 <= v && v <= 0x0D) || v == 0x20 || v == 0x85 || v == 0xA0 || v == 0x1680 || (0x2000
        <= v && v <= 0x200A) || v == 0x2028 || v == 0x2029 || v == 0x202F || v == 0x205F || v
        == 0x3000
}

pub fn is_ctrl_exec(c: char) -> (r: bool)
    ensures
        r == is_ctrl(c),
{
    let v = c as u32;
    v <= 0x1F || (0x7F <= v && v <= 0x9F)
}

pub fn ascii_lower_exec(c: char) -> (r: char)
    ensures
        r == ascii_lower(c),
{
    if 'A' <= c && c <= 'Z' {
        let v = (c as u32) + 32;
        assert(0x61 <= v <= 0x7A);
        char_from_ascii(v)
    } else {
        c
    }
}

pub fn ascii_upper_exec(c: char) -> (r: char)
    ensures
        r == ascii_upper(c),
{
    if 'a' <= c && c <= 'z' {
        let v = (c as u32) - 32;
        char_from_ascii(v)
    } else {
        c
    }
}

/// The character of an ASCII code point.
pub(crate) fn char_from_ascii(v: u32) -> (c: char)
    requires
        v < 128,
    ensures
        c as u32 == v,
        c == v as char,
{
    (v as u8) as char
}

/// The ASCII digit for a value below ten.
pub fn digit_char(d: u32) -> (c: char)
    requires
        d < 10,
    ensures
        c as u32 == 48 + d,
        is_ascii_digit(c),
{
    char_from_ascii(48 + d)
}

// ---------------------------------------------------------- conversions

/// `String::push`.
#[verifier::external_body]
pub(crate) fn push_char(s: &mut String, c: char)
    ensures
        final(s)@ == old(s)@.push(c),
{
    s.push(c)
}

/// The chars of a string slice.
pub fn chars_of(s: &str) -> (v: Vec<char>)
    ensures
        v@ == s@,
{
    let mut v: Vec<char> = Vec::new();
    for c in it: s.chars()
        invariant
            v@ == it.seq().take(it.index() as int),
            it.seq() == s@,
    {
        v.push(c);
    }
    v
}

/// A string holding exactly the given chars.
pub fn string_of(v: &[char]) -> (s: String)
    ensures
        s@ == v@,
{
    let mut s = String::new();
    let mut i: usize = 0;
    while i < v.len()
        invariant
            i <= v.len(),
            s@ == v@.take(i as int),
        decreases v.len() - i,
    {
        push_char(&mut s, v[i]);
        assert(v@.take(i as int).push(v@[i as int]) == v@.take(i + 1));
        i += 1;
    }
    assert(v@.take(v.len() as int) == v@);
    s
}

/// Append all chars of `t` to `v`.
pub fn extend_chars(v: &mut Vec<char>, t: &[char])
    ensures
        final(v)@ == old(v)@ + t@,
{
    let mut i: usize = 0;
    while i < t.len()
        invariant
            i <= t.len(),
            v@ == old(v)@ + t@.take(i as int),
        decreases t.len() - i,
    {
        v.push(t[i]);
        assert(old(v)@ + t@.take(i as int).push(t@[i as int]) == old(v)@ + t@.take(i + 1));
        i += 1;
    }
    assert(t@.take(t.len() as int) == t@);
}

/// The chars `s[a..b]` as a new vector.
pub fn slice_chars(s: &[char], a: usize, b: usize) -> (r: Vec<char>)
    requires
        a <= b <= s@.len(),
    ensures
        r@ == s@.subrange(a as int, b as int),
{
    let mut r: Vec<char> = Vec::new();
    let mut i: usize = a;
    while i < b
        invariant
            a <= i <= b <= s@.len(),
            r@ == s@.subrange(a as int, i as int),
        decreases b - i,
    {
        r.push(s[i]);
        assert(r@ =~= s@.subrange(a as int, i + 1));
        i += 1;
    }
    r
}

/// An owned copy of a string slice.
pub fn copy_str(s: &str) -> (r: String)
    ensures
        r@ == s@,
{
    s.to_owned()
}

/// Concatenation of two char slices as a string.
pub fn concat2(a: &[char], b: &[char]) -> (r: String)
    ensures
        r@ == a@ + b@,
{
    let mut v = slice_chars(a, 0, a.len());
    extend_chars(&mut v, b);
    string_of(&v)
}

// ------------------------------------------------------------- equality

pub fn seq_eq(a: &[char], b: &[char]) -> (r: bool)
    ensures
        r == (a@ == b@),
{
    if a.len() != b.len() {
        return false;
    }
    let mut i: usize = 0;
    while i < a.len()
        invariant
            a.len() == b.len(),
            i <= a.len(),
            forall|k: int| 0 <= k < i ==> a@[k] == b@[k],
        decreases a.len() - i,
    {
        if a[i] != b[i] {
            return false;
        }
        i += 1;
    }
    assert(a@ =~= b@);
    true
}

pub fn str_eq(a: &str, b: &str) -> (r: bool)
    ensures
        r == (a@ == b@),
{
    let x = chars_of(a);
    let y = chars_of(b);
    seq_eq(x.as_slice(), y.as_slice())
}

// ------------------------------------------------------ prefix / suffix

pub open spec fn starts_with(s: Seq<char>, p: Seq<char>) -> bool {
    p.len() <= s.len() && s.subrange(0, p.len() as int) == p
}

pub open spec fn ends_with(s: Seq<char>, p: Seq<char>) -> bool {
    p.len() <= s.len() && s.subrange(s.len() - p.len(), s.len() as int) == p
}

/// Occurrence of `n` in `h` at position `i`.
pub open spec fn occurs_at(h: Seq<char>, n: Seq<char>, i: int) -> bool {
    0 <= i && i + n.len() <= h.len() && h.subrange(i, i + n.len()) == n
}

pub open spec fn contains(h: Seq<char>, n: Seq<char>) -> bool {
    exists|i: int| occurs_at(h, n, i)
}

pub fn matches_at(h: &[char], n: &[char], i: usize) -> (r: bool)
    ensures
        r == occurs_at(h@, n@, i as int),
{
    if i > h.len() || n.len() > h.len() - i {
        return false;
    }
    let mut k: usize = 0;
    while k < n.len()
        invariant
            i + n.len() <= h.len(),
            k <= n.len(),
            forall|j: int| 0 <= j < k ==> h@[i + j] == n@[j],
        decreases n.len() - k,
    {
        if h[i + k] != n[k] {
            assert(h@.subrange(i as int, i + n.len())[k as int] != n@[k as int]);
            return false;
        }
        k += 1;
    }
    assert(h@.subrange(i as int, i + n.len()) =~= n@);
    true
}

pub fn starts_with_exec(s: &[char], p: &[char]) -> (r: bool)
    ensures
        r == starts_with(s@, p@),
{
    matches_at(s, p, 0)
}

pub fn ends_with_exec(s: &[char], p: &[char]) -> (r: bool)
    ensures
        r == ends_with(s@, p@),
{
    if p.len() > s.len() {
        false
    } else {
        matches_at(s, p, s.len() - p.len())
    }
}

/// Position of the first occurrence of `n` in `h` (`str::find`).
pub open spec fn first_occurrence(h: Seq<char>, n: Seq<char>, i: int) -> bool {
    occurs_at(h, n, i) && forall|j: int| 0 <= j < i ==> !occurs_at(h, n, j)
}

pub fn find(h: &[char], n: &[char]) -> (r: Option<usize>)
    ensures
        match r {
            Some(i) => first_occurrence(h@, n@, i as int) && i + n@.len() <= h@.len(),
            None => !contains(h@, n@),
        },
{
    let mut i: usize = 0;
    while i < h.len()
        invariant
            i <= h.len(),
            forall|j: int| 0 <= j < i ==> !occurs_at(h@, n@, j),
        decreases h.len() - i,
    {
        if matches_at(h, n, i) {
            return Some(i);
        }
        i += 1;
    }
    if matches_at(h, n, i) {
        return Some(i);
    }
    assert forall|j: int| !occurs_at(h@, n@, j) by {
        if 0 <= j <= i {
        }
    }
    None
}

pub fn contains_exec(h: &[char], n: &[char]) -> (r: bool)
    ensures
        r == contains(h@, n@),
{
    match find(h, n) {
        Some(_) => true,
        None => false,
    }
}

/// Index of the first occurrence of a char.
pub fn find_char(h: &[char], c: char) -> (r: Option<usize>)
    ensures
        match r {
            Some(i) => i < h@.len() && h@[i as int] == c && forall|j: int|
                0 <= j < i ==> h@[j] != c,
            None => forall|j: int| 0 <= j < h@.len() ==> h@[j] != c,
        },
{
    let mut i: usize = 0;
    while i < h.len()
        invariant
            i <= h.len(),
            forall|j: int| 0 <= j < i ==> h@[j] != c,
        decreases h.len() - i,
    {
        if h[i] == c {
            return Some(i);
        }
        i += 1;
    }
    None
}

// ------------------------------------------------------------- trimming

/// What a trim removes: whitespace, or one given char.
pub open spec fn trims(c: char, target: Option<char>) -> bool {
    match target {
        None => is_ws(c),
        Some(t) => c == t,
    }
}

fn trims_exec(c: char, target: Option<char>) -> (r: bool)
    ensures
        r == trims(c, target),
{
    match target {
        None => is_ws_exec(c),
        Some(t) => c == t,
    }
}

/// First index at or after `i` that the trim keeps.
pub open spec fn skip_from(s: Seq<char>, i: int, target: Option<char>) -> int
    decreases s.len() - i,
{
    if 0 <= i < s.len() && trims(s[i], target) {
        skip_from(s, i + 1, target)
    } else {
        i
    }
}

/// Length of `s.take(j)` once trailing trimmed chars are dropped.
pub open spec fn keep_to(s: Seq<char>, j: int, target: Option<char>) -> int
    decreases j,
{
    if 0 < j <= s.len() && trims(s[j - 1], target) {
        keep_to(s, j - 1, target)
    } else {
        j
    }
}

pub open spec fn trim_start_by(s: Seq<char>, target: Option<char>) -> Seq<char> {
    s.subrange(skip_from(s, 0, target), s.len() as int)
}

pub open spec fn trim_end_by(s: Seq<char>, target: Option<char>) -> Seq<char> {
    s.subrange(0, keep_to(s, s.len() as int, target))
}

pub open spec fn trim_by(s: Seq<char>, target: Option<char>) -> Seq<char> {
    trim_end_by(trim_start_by(s, target), target)
}

/// `str::trim`.
pub open spec fn trim(s: Seq<char>) -> Seq<char> {
    trim_by(s, None)
}

pub proof fn lemma_skip_from_bounds(s: Seq<char>, i: int, target: Option<char>)
    requires
        0 <= i <= s.len(),
    ensures
        i <= skip_from(s, i, target) <= s.len(),
        forall|k: int| i <= k < skip_from(s, i, target) ==> trims(#[trigger] s[k], target),
        skip_from(s, i, target) < s.len() ==> !trims(s[skip_from(s, i, target)], target),
    decreases s.len() - i,
{
    if i < s.len() && trims(s[i], target) {
        lemma_skip_from_bounds(s, i + 1, target);
    }
}

pub proof fn lemma_keep_to_bounds(s: Seq<char>, j: int, target: Option<char>)
    requires
        0 <= j <= s.len(),
    ensures
        0 <= keep_to(s, j, target) <= j,
        forall|k: int| keep_to(s, j, target) <= k < j ==> trims(#[trigger] s[k], target),
        keep_to(s, j, target) > 0 ==> !trims(s[keep_to(s, j, target) - 1], target),
    decreases j,
{
    if 0 < j && trims(s[j - 1], target) {
        lemma_keep_to_bounds(s, j - 1, target);
    }
}

pub fn trim_start_chars(s: &[char], target: Option<char>) -> (r: Vec<char>)
    ensures
        r@ == trim_start_by(s@, target),
{
    let mut i: usize = 0;
    while i < s.len() && trims_exec(s[i], target)
        invariant
            i <= s.len(),
            skip_from(s@, i as int, target) == skip_from(s@, 0, target),
        decreases s.len() - i,
    {
        i += 1;
    }
    let r = slice_chars(s, i, s.len());
    proof {
        assert(skip_from(s@, i as int, target) == i);
    }
    assert(r@ =~= s@.subrange(i as int, s@.len() as int));
    r
}

pub fn trim_end_chars(s: &[char], target: Option<char>) -> (r: Vec<char>)
    ensures
        r@ == trim_end_by(s@, target),
{
    let mut j: usize = s.len();
    while j > 0 && trims_exec(s[j - 1], target)
        invariant
            j <= s.len(),
            keep_to(s@, j as int, target) == keep_to(s@, s@.len() as int, target),
        decreases j,
    {
        j -= 1;
    }
    let r = slice_chars(s, 0, j);
    assert(r@ =~= s@.subrange(0, j as int));
    r
}

pub fn trim_chars_by(s: &[char], target: Option<char>) -> (r: Vec<char>)
    ensures
        r@ == trim_by(s@, target),
{
    let a = trim_start_chars(s, target);
    trim_end_chars(a.as_slice(), target)
}

/// `str::trim` on chars.
pub fn trim_chars(s: &[char]) -> (r: Vec<char>)
    ensures
        r@ == trim(s@),
{
    trim_chars_by(s, None)
}

/// `str::trim` as an owned string.
pub fn trim_str(s: &str) -> (r: String)
    ensures
        r@ == trim(s@),
{
    let v = chars_of(s);
    let t = trim_chars(v.as_slice());
    string_of(t.as_slice())
}

/// `str::trim_start_matches` with a string pattern: strip whole leading
/// copies of `p` (nothing when `p` is empty).
pub open spec fn strip_prefix_all(s: Seq<char>, p: Seq<char>) -> Seq<char>
    decreases s.len(),
{
    if p.len() > 0 && starts_with(s, p) {
        strip_prefix_all(s.subrange(p.len() as int, s.len() as int), p)
    } else {
        s
    }
}

pub fn strip_prefix_all_exec(s: &[char], p: &[char]) -> (r: Vec<char>)
    ensures
        r@ == strip_prefix_all(s@, p@),
{
    let mut cur = slice_chars(s, 0, s.len());
    assert(cur@ =~= s@);
    while p.len() > 0 && starts_with_exec(cur.as_slice(), p)
        invariant
            strip_prefix_all(cur@, p@) == strip_prefix_all(s@, p@),
        decreases cur.len(),
    {
        let next = slice_chars(cur.as_slice(), p.len(), cur.len());
        assert(next@ =~= cur@.subrange(p@.len() as int, cur@.len() as int));
        cur = next;
    }
    cur
}

// ----------------------------------------------------------- splitting

/// Split at the first occurrence of `sep` (`str::split_once`).
pub open spec fn split_once(s: Seq<char>, sep: Seq<char>) -> Option<(Seq<char>, Seq<char>)> {
    if contains(s, sep) {
        let i = choose|i: int| first_occurrence(s, sep, i);
        Some((s.subrange(0, i), s.subrange(i + sep.len(), s.len() as int)))
    } else {
        None
    }
}

pub proof fn lemma_first_occurrence_unique(s: Seq<char>, sep: Seq<char>, i: int, j: int)
    requires
        first_occurrence(s, sep, i),
        first_occurrence(s, sep, j),
    ensures
        i == j,
{
    if i < j {
        assert(!occurs_at(s, sep, i));
    } else if j < i {
        assert(!occurs_at(s, sep, j));
    }
}

pub fn split_once_exec(s: &[char], sep: &[char]) -> (r: Option<(Vec<char>, Vec<char>)>)
    ensures
        match (r, split_once(s@, sep@)) {
            (Some((a, b)), Some((x, y))) => a@ == x && b@ == y,
            (None, None) => true,
            _ => false,
        },
{
    match find(s, sep) {
        Some(i) => {
            proof {
                let k = choose|k: int| first_occurrence(s@, sep@, k);
                lemma_first_occurrence_unique(s@, sep@, i as int, k);
            }
            let sl = sep.len();
            assert(i + sl <= s@.len());
            assert(s@.len() == s.len());
            let a = slice_chars(s, 0, i);
            let b = slice_chars(s, i + sl, s.len());
            assert(a@ =~= s@.subrange(0, i as int));
            assert(b@ =~= s@.subrange(i + sep@.len(), s@.len() as int));
            Some((a, b))
        },
        None => None,
    }
}

/// The pieces of `s` between occurrences of the char `c` (`str::split`).
pub open spec fn split_char(s: Seq<char>, c: char) -> Seq<Seq<char>>
    decreases s.len(),
{
    if s.len() == 0 {
        seq![Seq::<char>::empty()]
    } else {
        let rest = split_char(s.drop_last(), c);
        if s.last() == c {
            rest.push(Seq::<char>::empty())
        } else {
            rest.update(rest.len() - 1, rest.last().push(s.last()))
        }
    }
}

pub proof fn lemma_split_char_nonempty(s: Seq<char>, c: char)
    ensures
        split_char(s, c).len() >= 1,
    decreases s.len(),
{
    if s.len() > 0 {
        lemma_split_char_nonempty(s.drop_last(), c);
    }
}

pub fn split_char_exec(s: &[char], c: char) -> (r: Vec<Vec<char>>)
    ensures
        r@.len() == split_char(s@, c).len(),
        forall|k: int| 0 <= k < r@.len() ==> (#[trigger] r@[k])@ == split_char(s@, c)[k],
{
    let mut out: Vec<Vec<char>> = Vec::new();
    let mut cur: Vec<char> = Vec::new();
    let mut i: usize = 0;
    while i < s.len()
        invariant
            i <= s.len(),
            out@.len() + 1 == split_char(s@.take(i as int), c).len(),
            forall|k: int|
                0 <= k < out@.len() ==> (#[trigger] out@[k])@ == split_char(s@.take(i as int), c)[k],
            cur@ == split_char(s@.take(i as int), c).last(),
        decreases s.len() - i,
    {
        proof {
            lemma_split_char_nonempty(s@.take(i as int), c);
            assert(s@.take(i + 1).drop_last() =~= s@.take(i as int));
        }
        if s[i] == c {
            let done = cur;
            out.push(done);
            cur = Vec::new();
        } else {
            cur.push(s[i]);
        }
        i += 1;
    }
    out.push(cur);
    assert(s@.take(s.len() as int) =~= s@);
    out
}

// --------------------------------------------------------- named results

/// What `str::to_lowercase` returns (Unicode lowercase mapping).
pub uninterp spec fn lowercased(s: Seq<char>) -> Seq<char>;

/// Lowercase hex MD5 digest of the UTF-8 bytes of a string.
pub uninterp spec fn md5_hex_of(s: Seq<char>) -> Seq<char>;

/// `md5::compute` rendered with `{:x}`: the digest's 16 bytes as 32 hex
/// digits; the digest itself is named, not spelled out.
#[verifier::external_body]
pub(crate) fn md5_hex(s: &str) -> (r: String)
    ensures
        r@ == md5_hex_of(s@),
        r@.len() == 32,
{
    format!("{:x}", md5::compute(s))
}

/// What `str::to_uppercase` returns (Unicode uppercase mapping).
pub uninterp spec fn uppercased(s: Seq<char>) -> Seq<char>;

/// What `deunicode::deunicode` returns (ASCII transliteration).
pub uninterp spec fn transliterated(s: Seq<char>) -> Seq<char>;

/// `str::to_lowercase`; its result is named, not spelled out.
#[verifier::external_body]
pub(crate) fn lowercase(s: &str) -> (r: String)
    ensures
        r@ == lowercased(s@),
{
    s.to_lowercase()
}

/// `str::to_uppercase`; its result is named, not spelled out.
#[verifier::external_body]
pub(crate) fn uppercase(s: &str) -> (r: String)
    ensures
        r@ == uppercased(s@),
{
    s.to_uppercase()
}

/// `deunicode::deunicode`. The crate documents that the result is ASCII.
#[verifier::external_body]
pub(crate) fn transliterate(s: &str) -> (r: String)
    ensures
        r@ == transliterated(s@),
        all_ascii(r@),
{
    deunicode::deunicode(s)
}

/// ASCII lowercasing of every char (`str::to_ascii_lowercase`).
pub open spec fn ascii_lower_seq(s: Seq<char>) -> Seq<char> {
    s.map_values(|c: char| ascii_lower(c))
}

pub fn ascii_lower_chars(s: &[char]) -> (r: Vec<char>)
    ensures
        r@ == ascii_lower_seq(s@),
{
    let mut r: Vec<char> = Vec::new();
    let mut i: usize = 0;
    while i < s.len()
        invariant
            i <= s.len(),
            r@ == ascii_lower_seq(s@.take(i as int)),
        decreases s.len() - i,
    {
        r.push(ascii_lower_exec(s[i]));
        assert(ascii_lower_seq(s@.take(i + 1)) =~= ascii_lower_seq(s@.take(i as int)).push(
            ascii_lower(s@[i as int]),
        ));
        i += 1;
    }
    assert(s@.take(s.len() as int) =~= s@);
    r
}

/// ASCII uppercasing of every char (`str::to_ascii_uppercase`).
pub open spec fn ascii_upper_seq(s: Seq<char>) -> Seq<char> {
    s.map_values(|c: char| ascii_upper(c))
}

pub fn ascii_upper_chars(s: &[char]) -> (r: Vec<char>)
    ensures
        r@ == ascii_upper_seq(s@),
{
    let mut r: Vec<char> = Vec::new();
    let mut i: usize = 0;
    while i < s.len()
        invariant
            i <= s.len(),
            r@ == ascii_upper_seq(s@.take(i as int)),
        decreases s.len() - i,
    {
        r.push(ascii_upper_exec(s[i]));
        assert(ascii_upper_seq(s@.take(i + 1)) =~= ascii_upper_seq(s@.take(i as int)).push(
            ascii_upper(s@[i as int]),
        ));
        i += 1;
    }
    assert(s@.take(s.len() as int) =~= s@);
    r
}

/// Keep only ASCII alphanumerics.
pub open spec fn keep_alnum(s: Seq<char>) -> Seq<char> {
    s.filter(|c: char| is_ascii_alnum(c))
}

pub fn keep_alnum_chars(s: &[char]) -> (r: Vec<char>)
    ensures
        r@ == keep_alnum(s@),
{
    let mut r: Vec<char> = Vec::new();
    let mut i: usize = 0;
    while i < s.len()
        invariant
            i <= s.len(),
            r@ == keep_alnum(s@.take(i as int)),
        decreases s.len() - i,
    {
        assert(s@.take(i + 1).drop_last() =~= s@.take(i as int));
        proof {
            reveal(Seq::filter);
        }
        if is_ascii_alnum_exec(s[i]) {
            r.push(s[i]);
        }
        i += 1;
    }
    assert(s@.take(s.len() as int) =~= s@);
    r
}

pub proof fn lemma_keep_alnum_all_alnum(s: Seq<char>)
    ensures
        forall|i: int| 0 <= i < keep_alnum(s).len() ==> is_ascii_alnum(#[trigger] keep_alnum(s)[i]),
{
    broadcast use vstd::seq_lib::group_filter_ensures;

}

// ------------------------------------------------------ decimal numbers

/// Value of a run of ASCII digits.
pub open spec fn digits_value(s: Seq<char>) -> int
    decreases s.len(),
{
    if s.len() == 0 {
        0
    } else {
        digits_value(s.drop_last()) * 10 + (s.last() as int - 48)
    }
}

pub open spec fn all_digits(s: Seq<char>) -> bool {
    forall|i: int| 0 <= i < s.len() ==> is_ascii_digit(#[trigger] s[i])
}

/// `FromStr` for an unsigned integer type whose largest value is `max`:
/// an optional `+`, then at least one ASCII digit, no overflow.
pub open spec fn parse_unsigned(s: Seq<char>, max: int) -> Option<int> {
    let body = if s.len() > 0 && s[0] == '+' {
        s.drop_first()
    } else {
        s
    };
    if body.len() > 0 && all_digits(body) && digits_value(body) <= max {
        Some(digits_value(body))
    } else {
        None
    }
}

/// `i64::from_str`: an optional sign, then at least one ASCII digit, the
/// value within range.
pub open spec fn parse_i64_spec(s: Seq<char>) -> Option<int> {
    let neg = s.len() > 0 && s[0] == '-';
    let body = if s.len() > 0 && (s[0] == '+' || s[0] == '-') {
        s.drop_first()
    } else {
        s
    };
    let v = if neg {
        -digits_value(body)
    } else {
        digits_value(body)
    };
    if body.len() > 0 && all_digits(body) && i64::MIN <= v <= i64::MAX {
        Some(v)
    } else {
        None
    }
}

pub proof fn lemma_digits_value_nonneg(s: Seq<char>)
    requires
        all_digits(s),
    ensures
        digits_value(s) >= 0,
    decreases s.len(),
{
    if s.len() > 0 {
        assert(is_ascii_digit(s[s.len() - 1]));
        assert(all_digits(s.drop_last()));
        lemma_digits_value_nonneg(s.drop_last());
    }
}

/// Digit values only grow as more digits follow.
pub proof fn lemma_digits_value_mono(s: Seq<char>, k: int)
    requires
        all_digits(s),
        0 <= k <= s.len(),
    ensures
        digits_value(s.take(k)) <= digits_value(s),
    decreases s.len() - k,
{
    if k < s.len() {
        lemma_digits_value_mono(s, k + 1);
        assert(s.take(k + 1).drop_last() =~= s.take(k));
        assert(all_digits(s.take(k)));
        lemma_digits_value_nonneg(s.take(k));
        assert(is_ascii_digit(s[k]));
    } else {
        assert(s.take(k) =~= s);
    }
}

/// Value of the digits in `s` when they are all digits and the value is at
/// most `max`; `None` otherwise.
pub fn digits_upto(s: &[char], max: u128) -> (r: Option<u128>)
    requires
        max <= u64::MAX as u128 + 1,
    ensures
        match r {
            Some(v) => all_digits(s@) && v == digits_value(s@) && v <= max,
            None => !(all_digits(s@) && digits_value(s@) <= max),
        },
{
    let mut acc: u128 = 0;
    let mut i: usize = 0;
    while i < s.len()
        invariant
            max <= u64::MAX as u128 + 1,
            i <= s.len(),
            all_digits(s@.take(i as int)),
            acc == digits_value(s@.take(i as int)),
            acc <= max,
        decreases s.len() - i,
    {
        let c = s[i];
        assert(s@.take(i + 1).drop_last() =~= s@.take(i as int));
        if !is_ascii_digit_exec(c) {
            assert(!is_ascii_digit(s@[i as int]));
            return None;
        }
        let d = (c as u32 - 48) as u128;
        assert(digits_value(s@.take(i + 1)) == acc * 10 + d);
        let next = acc * 10 + d;
        assert(all_digits(s@.take(i + 1)));
        if next > max {
            proof {
                if all_digits(s@) {
                    lemma_digits_value_mono(s@, i + 1);
                }
            }
            return None;
        }
        acc = next;
        i += 1;
    }
    assert(s@.take(s.len() as int) =~= s@);
    Some(acc)
}

/// `FromStr` for an unsigned type with maximum `max` (`u32`, `u64`, `usize`).
pub fn parse_unsigned_exec(s: &[char], max: u128) -> (r: Option<u128>)
    requires
        max <= u64::MAX as u128,
    ensures
        match (r, parse_unsigned(s@, max as int)) {
            (Some(v), Some(w)) => v == w,
            (None, None) => true,
            _ => false,
        },
{
    let body: Vec<char> = if s.len() > 0 && s[0] == '+' {
        slice_chars(s, 1, s.len())
    } else {
        slice_chars(s, 0, s.len())
    };
    assert(s@.len() > 0 && s@[0] == '+' ==> body@ =~= s@.drop_first());
    assert(!(s@.len() > 0 && s@[0] == '+') ==> body@ =~= s@);
    if body.len() == 0 {
        return None;
    }
    digits_upto(body.as_slice(), max)
}

pub fn parse_u32(s: &[char]) -> (r: Option<u32>)
    ensures
        match (r, parse_unsigned(s@, u32::MAX as int)) {
            (Some(v), Some(w)) => v == w,
            (None, None) => true,
            _ => false,
        },
{
    match parse_unsigned_exec(s, u32::MAX as u128) {
        Some(v) => Some(v as u32),
        None => None,
    }
}

pub fn parse_usize(s: &[char]) -> (r: Option<usize>)
    ensures
        match (r, parse_unsigned(s@, usize::MAX as int)) {
            (Some(v), Some(w)) => v == w,
            (None, None) => true,
            _ => false,
        },
{
    match parse_unsigned_exec(s, usize::MAX as u128) {
        Some(v) => Some(v as usize),
        None => None,
    }
}

pub fn parse_u64(s: &[char]) -> (r: Option<u64>)
    ensures
        match (r, parse_unsigned(s@, u64::MAX as int)) {
            (Some(v), Some(w)) => v == w,
            (None, None) => true,
            _ => false,
        },
{
    match parse_unsigned_exec(s, u64::MAX as u128) {
        Some(v) => Some(v as u64),
        None => None,
    }
}

/// `i64::from_str`.
pub fn parse_i64(s: &[char]) -> (r: Option<i64>)
    ensures
        match (r, parse_i64_spec(s@)) {
            (Some(v), Some(w)) => v == w,
            (None, None) => true,
            _ => false,
        },
{
    let neg = s.len() > 0 && s[0] == '-';
    let body: Vec<char> = if s.len() > 0 && (s[0] == '+' || s[0] == '-') {
        slice_chars(s, 1, s.len())
    } else {
        slice_chars(s, 0, s.len())
    };
    assert(s@.len() > 0 && (s@[0] == '+' || s@[0] == '-') ==> body@ =~= s@.drop_first());
    assert(!(s@.len() > 0 && (s@[0] == '+' || s@[0] == '-')) ==> body@ =~= s@);
    if body.len() == 0 {
        return None;
    }
    let max: u128 = if neg {
        9223372036854775808
    } else {
        9223372036854775807
    };
    match digits_upto(body.as_slice(), max) {
        Some(v) => {
            if neg {
                if v == 9223372036854775808 {
                    Some(i64::MIN)
                } else {
                    Some(-(v as i64))
                }
            } else {
                Some(v as i64)
            }
        },
        None => None,
    }
}

/// Decimal digits of `n`, with no leading zeros (`0` gives `"0"`).
pub open spec fn decimal(n: nat) -> Seq<char>
    decreases n,
{
    if n < 10 {
        seq![(48 + n) as char]
    } else {
        decimal(n / 10).push((48 + n % 10) as char)
    }
}

/// `decimal(n)` left-padded with zeros to at least `width` chars.
pub open spec fn zero_pad(s: Seq<char>, width: nat) -> Seq<char> {
    if s.len() >= width {
        s
    } else {
        Seq::new((width - s.len()) as nat, |i: int| '0') + s
    }
}

pub proof fn lemma_decimal_len(n: nat)
    ensures
        1 <= decimal(n).len(),
        n < 10 ==> decimal(n).len() == 1,
        n < 100 ==> decimal(n).len() <= 2,
        n < 1000 ==> decimal(n).len() <= 3,
        n < 10000 ==> decimal(n).len() <= 4,
        n >= 10 ==> decimal(n).len() == decimal(n / 10).len() + 1,
    decreases n,
{
    if n >= 10 {
        lemma_decimal_len(n / 10);
    }
}

/// Decimal text of an unsigned value (`u64::to_string`).
pub fn u64_decimal(n: u64) -> (r: Vec<char>)
    ensures
        r@ == decimal(n as nat),
    decreases n,
{
    if n < 10 {
        let c = digit_char(n as u32);
        let mut v = Vec::new();
        v.push(c);
        assert(v@ =~= seq![(48 + n) as char]);
        v
    } else {
        let mut v = u64_decimal(n / 10);
        let c = digit_char((n % 10) as u32);
        v.push(c);
        v
    }
}

/// Decimal text of a signed value (`i64::to_string`).
pub open spec fn signed_decimal(n: int) -> Seq<char> {
    if n < 0 {
        seq!['-'] + decimal((-n) as nat)
    } else {
        decimal(n as nat)
    }
}

pub fn i64_decimal(n: i64) -> (r: Vec<char>)
    ensures
        r@ == signed_decimal(n as int),
{
    if n < 0 {
        let m: u64 = if n == i64::MIN {
            9223372036854775808
        } else {
            (-n) as u64
        };
        let d = u64_decimal(m);
        let mut v = Vec::new();
        v.push('-');
        extend_chars(&mut v, d.as_slice());
        assert(v@ =~= seq!['-'] + decimal((-n) as nat));
        v
    } else {
        u64_decimal(n as u64)
    }
}

/// Zero-padded decimal text.
pub fn padded_decimal(n: u64, width: usize) -> (r: Vec<char>)
    ensures
        r@ == zero_pad(decimal(n as nat), width as nat),
{
    let d = u64_decimal(n);
    if d.len() >= width {
        d
    } else {
        let mut v: Vec<char> = Vec::new();
        let pad = width - d.len();
        let mut i: usize = 0;
        while i < pad
            invariant
                i <= pad,
                v@ == Seq::new(i as nat, |k: int| '0'),
            decreases pad - i,
        {
            v.push('0');
            assert(v@ =~= Seq::new((i + 1) as nat, |k: int| '0'));
            i += 1;
        }
        extend_chars(&mut v, d.as_slice());
        v
    }
}

} // verus!
