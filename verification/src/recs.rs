//! Recommendation candidates and the song identity every source shares:
//! normalized keys, title cleanup, junk-version detection.
use vstd::prelude::*;

use crate::text::{
    ascii_lower_chars, ascii_lower_seq, chars_of, contains, contains_exec, extend_chars,
    is_ascii_alnum, is_ws, is_ws_exec, keep_alnum, keep_alnum_chars, lemma_keep_alnum_all_alnum,
    lowercase, lowercased, seq_eq, slice_chars, split_once, split_once_exec, str_eq, string_of,
    transliterate, transliterated, trim, trim_chars, trim_str,
};

verus! {

/// One recommended track, as uniform as providers can make it.
#[derive(Debug, Clone)]
pub struct RecCandidate {
    pub artist: String,
    pub title: String,
    pub album: Option<String>,
    pub duration_ms: Option<i64>,
    pub isrc: Option<String>,
    pub artwork_url: Option<String>,
    /// Stable provider identity when a source has one.
    pub provider: Option<String>,
    pub provider_track_id: Option<String>,
    /// The exact YouTube video, when the provider already knows it.
    pub video_id: Option<String>,
}

/// A candidate's fields as text.
pub struct CandidateView {
    pub artist: Seq<char>,
    pub title: Seq<char>,
    pub album: Option<Seq<char>>,
    pub duration_ms: Option<i64>,
    pub isrc: Option<Seq<char>>,
    pub artwork_url: Option<Seq<char>>,
    pub provider: Option<Seq<char>>,
    pub provider_track_id: Option<Seq<char>>,
    pub video_id: Option<Seq<char>>,
}

pub open spec fn opt_view(o: Option<String>) -> Option<Seq<char>> {
    match o {
        Some(s) => Some(s@),
        None => None,
    }
}

impl View for RecCandidate {
    type V = CandidateView;

    open spec fn view(&self) -> CandidateView {
        CandidateView {
            artist: self.artist@,
            title: self.title@,
            album: opt_view(self.album),
            duration_ms: self.duration_ms,
            isrc: opt_view(self.isrc),
            artwork_url: opt_view(self.artwork_url),
            provider: opt_view(self.provider),
            provider_track_id: opt_view(self.provider_track_id),
            video_id: opt_view(self.video_id),
        }
    }
}

pub open spec fn cands_view(v: Seq<RecCandidate>) -> Seq<CandidateView> {
    v.map_values(|c: RecCandidate| c@)
}

/// A recent listen that can seed recommendations.
#[derive(Debug, Clone)]
pub struct ListenSeed {
    pub username: String,
    pub artist: String,
    pub title: String,
    pub subsonic_id: Option<String>,
}

// ------------------------------------------------------------ song keys

/// Transliterated to ASCII, lowercased, ASCII alphanumerics only.
pub open spec fn normalize_spec(s: Seq<char>) -> Seq<char> {
    keep_alnum(lowercased(transliterated(s)))
}

pub fn normalize(value: &str) -> (r: String)
    ensures
        r@ == normalize_spec(value@),
{
    let ascii = transliterate(value);
    let lower = lowercase(ascii.as_str());
    let chars = chars_of(lower.as_str());
    let kept = keep_alnum_chars(chars.as_slice());
    string_of(kept.as_slice())
}

pub open spec fn song_key_spec(artist: Seq<char>, title: Seq<char>) -> Seq<char> {
    normalize_spec(artist) + seq!['|'] + normalize_spec(title)
}

/// `normalize(artist)|normalize(title)`.
pub fn song_key(artist: &str, title: &str) -> (r: String)
    ensures
        r@ == song_key_spec(artist@, title@),
{
    let a = chars_of(normalize(artist).as_str());
    let t = chars_of(normalize(title).as_str());
    let mut v = a;
    v.push('|');
    extend_chars(&mut v, t.as_slice());
    string_of(v.as_slice())
}

impl RecCandidate {
    pub fn song_key(&self) -> (r: String)
        ensures
            r@ == song_key_spec(self.artist@, self.title@),
    {
        song_key(self.artist.as_str(), self.title.as_str())
    }
}

/// Two song keys are equal exactly when both normalized halves are: the
/// separator never occurs inside a normalized half.
pub proof fn lemma_song_key_injective(a1: Seq<char>, t1: Seq<char>, a2: Seq<char>, t2: Seq<char>)
    ensures
        song_key_spec(a1, t1) == song_key_spec(a2, t2) <==> (normalize_spec(a1) == normalize_spec(
            a2) && normalize_spec(t1) == normalize_spec(t2)),
{
    let n1 = normalize_spec(a1);
    let n2 = normalize_spec(a2);
    let m1 = normalize_spec(t1);
    let m2 = normalize_spec(t2);
    lemma_keep_alnum_all_alnum(lowercased(transliterated(a1)));
    lemma_keep_alnum_all_alnum(lowercased(transliterated(a2)));
    let k1 = n1 + seq!['|'] + m1;
    let k2 = n2 + seq!['|'] + m2;
    if k1 == k2 {
        if n1.len() < n2.len() {
            assert(k2[n1.len() as int] == n2[n1.len() as int]);
            assert(k1[n1.len() as int] == '|');
            assert(is_ascii_alnum(n2[n1.len() as int]));
        } else if n2.len() < n1.len() {
            assert(k1[n2.len() as int] == n1[n2.len() as int]);
            assert(k2[n2.len() as int] == '|');
            assert(is_ascii_alnum(n1[n2.len() as int]));
        }
        assert(n1.len() == n2.len());
        assert(n1 =~= k1.subrange(0, n1.len() as int));
        assert(n2 =~= k2.subrange(0, n2.len() as int));
        assert(m1 =~= k1.subrange(n1.len() as int + 1, k1.len() as int));
        assert(m2 =~= k2.subrange(n2.len() as int + 1, k2.len() as int));
    }
}

/// Every char of a normalized value is an ASCII letter or digit.
pub proof fn lemma_normalize_alnum(s: Seq<char>)
    ensures
        forall|i: int|
            0 <= i < normalize_spec(s).len() ==> is_ascii_alnum(#[trigger] normalize_spec(s)[i]),
{
    lemma_keep_alnum_all_alnum(lowercased(transliterated(s)));
}

// ----------------------------------------------------------- junk titles

/// Alternate-version markers that make a candidate a different track.
pub open spec fn junk_markers() -> Seq<Seq<char>> {
    seq![
        "slowed"@,
        "sped up"@,
        "spedup"@,
        "reverb"@,
        "nightcore"@,
        "8d audio"@,
        "8daudio"@,
        "bass boost"@,
        "bassboost"@,
        "karaoke"@,
        "parody"@,
        "parodi"@,
    ]
}

fn junk_marker_list() -> (r: Vec<Vec<char>>)
    ensures
        r@.len() == junk_markers().len(),
        forall|i: int| 0 <= i < r@.len() ==> (#[trigger] r@[i])@ == junk_markers()[i],
{
    let mut r: Vec<Vec<char>> = Vec::new();
    r.push(chars_of("slowed"));
    r.push(chars_of("sped up"));
    r.push(chars_of("spedup"));
    r.push(chars_of("reverb"));
    r.push(chars_of("nightcore"));
    r.push(chars_of("8d audio"));
    r.push(chars_of("8daudio"));
    r.push(chars_of("bass boost"));
    r.push(chars_of("bassboost"));
    r.push(chars_of("karaoke"));
    r.push(chars_of("parody"));
    r.push(chars_of("parodi"));
    r
}

/// Some entry of `words` occurs in `s`.
pub open spec fn contains_any(s: Seq<char>, words: Seq<Seq<char>>) -> bool {
    exists|k: int| 0 <= k < words.len() && contains(s, #[trigger] words[k])
}

fn contains_any_exec(s: &[char], words: &Vec<Vec<char>>) -> (r: bool)
    ensures
        r == contains_any(s@, words@.map_values(|w: Vec<char>| w@)),
{
    let ghost ws = words@.map_values(|w: Vec<char>| w@);
    let mut k: usize = 0;
    while k < words.len()
        invariant
            k <= words.len(),
            ws == words@.map_values(|w: Vec<char>| w@),
            forall|j: int| 0 <= j < k ==> !contains(s@, #[trigger] ws[j]),
        decreases words.len() - k,
    {
        if contains_exec(s, words[k].as_slice()) {
            assert(contains(s@, ws[k as int]));
            return true;
        }
        k += 1;
    }
    false
}

pub open spec fn is_junk_spec(title: Seq<char>) -> bool {
    let lower = lowercased(title);
    let translit = transliterated(lower);
    contains(lower, "пародия"@) || contains_any(lower, junk_markers()) || contains_any(
        translit,
        junk_markers(),
    )
}

/// True if the title is an alternate edit (slowed, sped up, parody, ...).
pub fn is_junk_version(title: &str) -> (r: bool)
    ensures
        r == is_junk_spec(title@),
{
    let lower = lowercase(title);
    let translit = transliterate(lower.as_str());
    let lower_c = chars_of(lower.as_str());
    let translit_c = chars_of(translit.as_str());
    let markers = junk_marker_list();
    assert(markers@.map_values(|w: Vec<char>| w@) =~= junk_markers());
    let parody = chars_of("пародия");
    contains_exec(lower_c.as_slice(), parody.as_slice()) || contains_any_exec(
        lower_c.as_slice(),
        &markers,
    ) || contains_any_exec(translit_c.as_slice(), &markers)
}

/// The words that mark an alternate edit of a song.
pub open spec fn is_junk_word(m: Seq<char>) -> bool {
    m == "slowed"@ || m == "sped up"@ || m == "spedup"@ || m == "reverb"@ || m == "nightcore"@
        || m == "8d audio"@ || m == "8daudio"@ || m == "bass boost"@ || m == "bassboost"@ || m
        == "karaoke"@ || m == "parody"@ || m == "parodi"@
}

proof fn lemma_junk_word_listed(m: Seq<char>)
    requires
        is_junk_word(m),
    ensures
        exists|k: int| 0 <= k < junk_markers().len() && junk_markers()[k] == m,
{
    let w = junk_markers();
    if m == "slowed"@ {
        assert(w[0] == m);
    } else if m == "sped up"@ {
        assert(w[1] == m);
    } else if m == "spedup"@ {
        assert(w[2] == m);
    } else if m == "reverb"@ {
        assert(w[3] == m);
    } else if m == "nightcore"@ {
        assert(w[4] == m);
    } else if m == "8d audio"@ {
        assert(w[5] == m);
    } else if m == "8daudio"@ {
        assert(w[6] == m);
    } else if m == "bass boost"@ {
        assert(w[7] == m);
    } else if m == "bassboost"@ {
        assert(w[8] == m);
    } else if m == "karaoke"@ {
        assert(w[9] == m);
    } else if m == "parody"@ {
        assert(w[10] == m);
    } else {
        assert(w[11] == m);
    }
}

/// A junk marker anywhere gives a junk version, in the title's script or in
/// its transliteration: for any title and any junk word (slowed, sped up,
/// reverb, nightcore, 8d audio, bass boost, karaoke, parody, ...), when the
/// lowercased title or the ASCII transliteration of the lowercased title
/// contains the word, or the lowercased title contains "пародия", the
/// title is a junk version (so "... (караоке)", transliterated "...
/// (karaoke)", is junk).
pub proof fn law_junk_markers_found_in_any_script(title: Seq<char>, m: Seq<char>)
    requires
        is_junk_word(m),
    ensures
        contains(transliterated(lowercased(title)), m) ==> is_junk_spec(title),
        contains(lowercased(title), m) ==> is_junk_spec(title),
        contains(lowercased(title), "пародия"@) ==> is_junk_spec(title),
{
    lemma_junk_word_listed(m);
    let k = choose|k: int| 0 <= k < junk_markers().len() && junk_markers()[k] == m;
    if contains(transliterated(lowercased(title)), m) {
        assert(contains(transliterated(lowercased(title)), junk_markers()[k]));
    }
    if contains(lowercased(title), m) {
        assert(contains(lowercased(title), junk_markers()[k]));
    }
}

// ----------------------------------------------------------- clean title

/// Bracket contents that mark video-upload cruft rather than song name.
pub open spec fn title_cruft() -> Seq<Seq<char>> {
    seq![
        "official"@,
        "lyric"@,
        "lyrics"@,
        "visualizer"@,
        "video"@,
        "audio"@,
        "m/v"@,
        "mv"@,
        "dir. by"@,
        "dir by"@,
        "subtitle"@,
        "eng sub"@,
        "hd"@,
        "hq"@,
        "4k"@,
    ]
}

fn title_cruft_list() -> (r: Vec<Vec<char>>)
    ensures
        r@.map_values(|w: Vec<char>| w@) == title_cruft(),
{
    let mut r: Vec<Vec<char>> = Vec::new();
    r.push(chars_of("official"));
    r.push(chars_of("lyric"));
    r.push(chars_of("lyrics"));
    r.push(chars_of("visualizer"));
    r.push(chars_of("video"));
    r.push(chars_of("audio"));
    r.push(chars_of("m/v"));
    r.push(chars_of("mv"));
    r.push(chars_of("dir. by"));
    r.push(chars_of("dir by"));
    r.push(chars_of("subtitle"));
    r.push(chars_of("eng sub"));
    r.push(chars_of("hd"));
    r.push(chars_of("hq"));
    r.push(chars_of("4k"));
    assert(r@.map_values(|w: Vec<char>| w@) =~= title_cruft());
    r
}

pub open spec fn closer(c: char) -> char {
    if c == '(' {
        ')'
    } else {
        ']'
    }
}

/// Index in `s` of the char that closes a group opened with `open` at
/// nesting `depth` while scanning from `i` (or `s.len()` when none does).
pub open spec fn group_end(s: Seq<char>, i: int, open: char, depth: int) -> int
    decreases s.len() - i,
{
    if i < 0 || i >= s.len() {
        s.len() as int
    } else if s[i] == open {
        group_end(s, i + 1, open, depth + 1)
    } else if s[i] == closer(open) {
        if depth - 1 == 0 {
            i
        } else {
            group_end(s, i + 1, open, depth - 1)
        }
    } else {
        group_end(s, i + 1, open, depth)
    }
}

pub proof fn lemma_group_end_bounds(s: Seq<char>, i: int, open: char, depth: int)
    requires
        0 <= i <= s.len(),
    ensures
        i <= group_end(s, i, open, depth) <= s.len(),
    decreases s.len() - i,
{
    if i < s.len() {
        if s[i] == open {
            lemma_group_end_bounds(s, i + 1, open, depth + 1);
        } else if s[i] == closer(open) {
            if depth - 1 != 0 {
                lemma_group_end_bounds(s, i + 1, open, depth - 1);
            }
        } else {
            lemma_group_end_bounds(s, i + 1, open, depth);
        }
    }
}

/// A bracket group whose lowercased contents name upload cruft.
pub open spec fn is_cruft(inner: Seq<char>) -> bool {
    contains_any(lowercased(inner), title_cruft())
}

/// End of the group opened at `s[0]` (clamped into range).
pub open spec fn open_group_end(s: Seq<char>) -> int {
    let rest = s.drop_first();
    let e = group_end(rest, 0, s[0], 1);
    if 0 <= e <= rest.len() {
        e
    } else {
        rest.len() as int
    }
}

/// Drop every `(...)`/`[...]` group for which `drop` holds; keep the rest
/// of the text. A group runs to its matching close, or to the end of the
/// text when unclosed (it is then written back with its close appended).
pub open spec fn drop_groups(s: Seq<char>, cruft_only: bool) -> Seq<char>
    decreases s.len(),
{
    if s.len() == 0 {
        s
    } else if s[0] != '(' && s[0] != '[' {
        seq![s[0]] + drop_groups(s.drop_first(), cruft_only)
    } else {
        let rest = s.drop_first();
        let e = open_group_end(s);
        let inner = rest.subrange(0, e);
        let next = if e < rest.len() {
            rest.subrange(e + 1, rest.len() as int)
        } else {
            Seq::<char>::empty()
        };
        let kept = if !cruft_only || is_cruft(inner) {
            Seq::<char>::empty()
        } else {
            seq![s[0]] + inner + seq![closer(s[0])]
        };
        kept + drop_groups(next, cruft_only)
    }
}

/// `split_whitespace().join(" ")`, scanning from `i`: `started` says a word
/// has been written, `gap` that whitespace followed it.
pub open spec fn collapse_from(s: Seq<char>, i: int, started: bool, gap: bool) -> Seq<char>
    decreases s.len() - i,
{
    if i < 0 || i >= s.len() {
        Seq::<char>::empty()
    } else if is_ws(s[i]) {
        collapse_from(s, i + 1, started, true)
    } else if started && gap {
        seq![' ', s[i]] + collapse_from(s, i + 1, true, false)
    } else {
        seq![s[i]] + collapse_from(s, i + 1, true, false)
    }
}

pub open spec fn collapse_ws(s: Seq<char>) -> Seq<char> {
    collapse_from(s, 0, false, false)
}

pub open spec fn topic_suffix() -> Seq<char> {
    " - topic"@
}

/// Drop a trailing " - Topic" (any ASCII case).
pub open spec fn strip_topic(s: Seq<char>) -> Seq<char> {
    if s.len() >= 8 && ascii_lower_seq(s.subrange(s.len() - 8, s.len() as int))
        == topic_suffix() {
        s.subrange(0, s.len() - 8)
    } else {
        s
    }
}

pub open spec fn clean_title_spec(raw: Seq<char>) -> Seq<char> {
    collapse_ws(strip_topic(trim(drop_groups(raw, true))))
}

/// Group contents `s[i..e]` and end `e` for the group opened at `s[i-1]`.
fn scan_group(s: &[char], i: usize, open: char) -> (r: usize)
    requires
        1 <= i <= s.len(),
    ensures
        r == i + group_end(s@.subrange(i as int, s@.len() as int), 0, open, 1),
        i <= r <= s.len(),
{
    let ghost t = s@.subrange(i as int, s@.len() as int);
    let mut j: usize = i;
    let mut depth: usize = 1;
    while j < s.len()
        invariant
            1 <= i <= j <= s.len(),
            t == s@.subrange(i as int, s@.len() as int),
            depth >= 1,
            depth <= j - i + 1,
            group_end(t, (j - i) as int, open, depth as int) == group_end(t, 0, open, 1),
        decreases s.len() - j,
    {
        let n = s[j];
        assert(t[(j - i) as int] == n);
        if n == open {
            depth += 1;
        } else if n == closer_exec(open) {
            if depth == 1 {
                return j;
            }
            depth -= 1;
        }
        j += 1;
    }
    j
}

fn closer_exec(c: char) -> (r: char)
    ensures
        r == closer(c),
{
    if c == '(' {
        ')'
    } else {
        ']'
    }
}

/// Drop bracket groups (all of them, or only cruft ones) from `s`.
pub fn drop_groups_exec(s: &[char], cruft_only: bool) -> (r: Vec<char>)
    ensures
        r@ == drop_groups(s@, cruft_only),
{
    let cruft = title_cruft_list();
    let mut out: Vec<char> = Vec::new();
    let mut i: usize = 0;
    assert(s@.subrange(0, s@.len() as int) =~= s@);
    while i < s.len()
        invariant
            i <= s.len(),
            cruft@.map_values(|w: Vec<char>| w@) == title_cruft(),
            out@ + drop_groups(s@.subrange(i as int, s@.len() as int), cruft_only) == drop_groups(
                s@,
                cruft_only,
            ),
        decreases s.len() - i,
    {
        let ghost rem = s@.subrange(i as int, s@.len() as int);
        let c = s[i];
        assert(rem[0] == c);
        if c != '(' && c != '[' {
            out.push(c);
            assert(rem.drop_first() =~= s@.subrange(i + 1, s@.len() as int));
            i += 1;
        } else {
            let close = closer_exec(c);
            let e = scan_group(s, i + 1, c);
            proof {
                let rest = rem.drop_first();
                assert(rest =~= s@.subrange(i + 1, s@.len() as int));
                lemma_group_end_bounds(rest, 0, c, 1);
                assert(open_group_end(rem) == e - i - 1);
            }
            let inner = slice_chars(s, i + 1, e);
            let lowered = lowercase(string_of(inner.as_slice()).as_str());
            let low_c = chars_of(lowered.as_str());
            let drop = !cruft_only || contains_any_exec(low_c.as_slice(), &cruft);
            if !drop {
                out.push(c);
                extend_chars(&mut out, inner.as_slice());
                out.push(close);
            }
            proof {
                let rest = rem.drop_first();
                assert(inner@ =~= rest.subrange(0, (e - i - 1) as int));
                if e < s.len() {
                    assert(rest.subrange(e - i, rest.len() as int) =~= s@.subrange(
                        e + 1,
                        s@.len() as int,
                    ));
                } else {
                    assert(s@.subrange(e as int, s@.len() as int) =~= Seq::<char>::empty());
                }
            }
            if e < s.len() {
                i = e + 1;
            } else {
                i = e;
            }
        }
    }
    assert(s@.subrange(i as int, s@.len() as int) =~= Seq::<char>::empty());
    out
}

pub(crate) fn collapse_ws_exec(s: &[char]) -> (r: Vec<char>)
    ensures
        r@ == collapse_ws(s@),
{
    let mut out: Vec<char> = Vec::new();
    let mut started = false;
    let mut gap = false;
    let mut i: usize = 0;
    while i < s.len()
        invariant
            i <= s.len(),
            out@ + collapse_from(s@, i as int, started, gap) == collapse_ws(s@),
        decreases s.len() - i,
    {
        let c = s[i];
        if is_ws_exec(c) {
            gap = true;
        } else {
            if started && gap {
                out.push(' ');
                out.push(c);
            } else {
                out.push(c);
            }
            started = true;
            gap = false;
        }
        i += 1;
    }
    assert(out@ + Seq::<char>::empty() =~= out@);
    out
}

fn strip_topic_exec(s: Vec<char>) -> (r: Vec<char>)
    ensures
        r@ == strip_topic(s@),
{
    if s.len() >= 8 {
        let tail = slice_chars(s.as_slice(), s.len() - 8, s.len());
        let low = ascii_lower_chars(tail.as_slice());
        let suffix = chars_of(" - topic");
        if seq_eq(low.as_slice(), suffix.as_slice()) {
            return slice_chars(s.as_slice(), 0, s.len() - 8);
        }
    }
    s
}

/// Strip video-upload noise from a title: cruft bracket groups
/// ("(Official Video)", "[Audio]"), a trailing " - Topic", surplus
/// whitespace. Legitimate parentheticals (feat., Remix, Live) stay.
pub fn clean_title(raw: &str) -> (r: String)
    ensures
        r@ == clean_title_spec(raw@),
{
    let chars = chars_of(raw);
    let out = drop_groups_exec(chars.as_slice(), true);
    let trimmed = trim_chars(out.as_slice());
    let stripped = strip_topic_exec(trimmed);
    let collapsed = collapse_ws_exec(stripped.as_slice());
    string_of(collapsed.as_slice())
}

/// Title identity for dedup: bracket groups dropped, then normalized.
pub open spec fn title_key_spec(title: Seq<char>) -> Seq<char> {
    normalize_spec(drop_groups(title, false))
}

pub fn title_key(title: &str) -> (r: String)
    ensures
        r@ == title_key_spec(title@),
{
    let chars = chars_of(title);
    let kept = drop_groups_exec(chars.as_slice(), false);
    normalize(string_of(kept.as_slice()).as_str())
}

/// Artist identity for dedup (the catalog's alias-aware key).
pub fn artist_key(artist: &str) -> (r: String)
    ensures
        r@ == crate::catalog::artist_key_spec(artist@),
{
    crate::catalog::artist_key(artist)
}

// ------------------------------------------------------ artist prefixes

pub open spec fn dash_separators() -> Seq<Seq<char>> {
    seq![" — "@, " – "@, " - "@]
}

/// The first separator (in order) that splits `title` into a prefix equal
/// to the artist and a non-blank rest.
pub open spec fn prefix_split_ok(title: Seq<char>, artist: Seq<char>, sep: Seq<char>) -> bool {
    match split_once(title, sep) {
        Some((prefix, rest)) => trim(rest).len() > 0 && normalize_spec(prefix) == normalize_spec(
            artist,
        ),
        None => false,
    }
}

pub open spec fn strip_artist_prefix_spec(title: Seq<char>, artist: Seq<char>) -> Seq<char> {
    let seps = dash_separators();
    if prefix_split_ok(title, artist, seps[0]) {
        trim(split_once(title, seps[0]).unwrap().1)
    } else if prefix_split_ok(title, artist, seps[1]) {
        trim(split_once(title, seps[1]).unwrap().1)
    } else if prefix_split_ok(title, artist, seps[2]) {
        trim(split_once(title, seps[2]).unwrap().1)
    } else {
        trim(title)
    }
}

fn try_prefix(title: &[char], artist: &str, sep: &str) -> (r: Option<Vec<char>>)
    ensures
        match r {
            Some(v) => prefix_split_ok(title@, artist@, sep@) && v@ == trim(
                split_once(title@, sep@).unwrap().1,
            ),
            None => !prefix_split_ok(title@, artist@, sep@),
        },
{
    let sep_c = chars_of(sep);
    match split_once_exec(title, sep_c.as_slice()) {
        Some((prefix, rest)) => {
            let rest_t = trim_chars(rest.as_slice());
            if rest_t.len() == 0 {
                return None;
            }
            let p = normalize(string_of(prefix.as_slice()).as_str());
            let a = normalize(artist);
            if str_eq(p.as_str(), a.as_str()) {
                Some(rest_t)
            } else {
                None
            }
        },
        None => None,
    }
}

/// Drop a leading "Artist - " when it repeats the known artist; otherwise
/// only trim the title.
pub fn strip_artist_prefix(title: &str, artist: &str) -> (r: String)
    ensures
        r@ == strip_artist_prefix_spec(title@, artist@),
{
    let t = chars_of(title);
    if let Some(v) = try_prefix(t.as_slice(), artist, " — ") {
        return string_of(v.as_slice());
    }
    if let Some(v) = try_prefix(t.as_slice(), artist, " – ") {
        return string_of(v.as_slice());
    }
    if let Some(v) = try_prefix(t.as_slice(), artist, " - ") {
        return string_of(v.as_slice());
    }
    trim_str(title)
}

// ------------------------------------------------------ Deezer voter

/// A Deezer catalog track as a candidate.
pub open spec fn catalog_candidate(t: crate::vtrack::CatalogTrack) -> CandidateView {
    CandidateView {
        artist: t.artist@,
        title: t.title@,
        album: opt_view(t.album),
        duration_ms: t.duration_ms,
        isrc: opt_view(t.isrc),
        artwork_url: opt_view(t.artwork_url),
        provider: Some(t.provider@),
        provider_track_id: Some(t.provider_track_id@),
        video_id: None,
    }
}

pub fn from_catalog(track: crate::vtrack::CatalogTrack) -> (r: RecCandidate)
    ensures
        r@ == catalog_candidate(track),
{
    RecCandidate {
        provider: Some(crate::text::copy_str(track.provider)),
        provider_track_id: Some(track.provider_track_id),
        artist: track.artist,
        title: track.title,
        album: track.album,
        duration_ms: track.duration_ms,
        isrc: track.isrc,
        artwork_url: track.artwork_url,
        video_id: None,
    }
}

/// Two titles name the same song once normalized.
pub fn same_title(a: &str, b: &str) -> (r: bool)
    ensures
        r == (normalize_spec(a@) == normalize_spec(b@)),
{
    let na = normalize(a);
    let nb = normalize(b);
    str_eq(na.as_str(), nb.as_str())
}

/// The artist's top tracks other than the seed title, at most `limit`.
pub open spec fn similar_from_top_spec(
    tracks: Seq<crate::vtrack::CatalogTrack>,
    title: Seq<char>,
    limit: nat,
) -> Seq<CandidateView>
    decreases tracks.len(),
{
    if tracks.len() == 0 || limit == 0 {
        Seq::empty()
    } else if normalize_spec(tracks[0].title@) == normalize_spec(title) {
        similar_from_top_spec(tracks.drop_first(), title, limit)
    } else {
        seq![catalog_candidate(tracks[0])] + similar_from_top_spec(
            tracks.drop_first(),
            title,
            (limit - 1) as nat,
        )
    }
}

/// Candidates similar to a seed from its artist's top tracks: those with
/// another title, in order, at most `limit`.
pub fn similar_from_top_tracks(
    tracks: Vec<crate::vtrack::CatalogTrack>,
    title: &str,
    limit: usize,
) -> (r: Vec<RecCandidate>)
    ensures
        cands_view(r@) == similar_from_top_spec(tracks@, title@, limit as nat),
{
    let ghost all = tracks@;
    assert(all.len() == tracks.len());
    let mut rest = tracks;
    let mut out: Vec<RecCandidate> = Vec::new();
    let ghost goal = similar_from_top_spec(all, title@, limit as nat);
    let mut k: usize = 0;
    proof {
        assert(all.subrange(0, all.len() as int) =~= all);
        assert(cands_view(out@) + goal =~= goal);
    }
    while rest.len() > 0 && out.len() < limit
        invariant
            all.len() <= usize::MAX,
            k + rest@.len() == all.len(),
            rest@ == all.subrange(k as int, all.len() as int),
            out@.len() <= limit,
            goal == cands_view(out@) + similar_from_top_spec(rest@, title@, (limit - out@.len()) as nat),
        decreases rest@.len(),
    {
        let ghost r0 = rest@;
        let ghost before = cands_view(out@);
        let t = rest.remove(0);
        proof {
            assert(t == r0[0]);
            assert(rest@ =~= r0.drop_first());
            assert(rest@ =~= all.subrange(k + 1, all.len() as int));
        }
        if !same_title(t.title.as_str(), title) {
            let c = from_catalog(t);
            out.push(c);
            proof {
                assert(cands_view(out@) =~= before.push(catalog_candidate(r0[0])));
                assert(before + (seq![catalog_candidate(r0[0])] + similar_from_top_spec(
                    rest@,
                    title@,
                    (limit - out@.len()) as nat,
                )) =~= cands_view(out@) + similar_from_top_spec(rest@, title@, (limit - out@.len()) as nat));
            }
        }
        k += 1;
    }
    proof {
        assert(cands_view(out@) + Seq::<CandidateView>::empty() =~= cands_view(out@));
    }
    out
}

/// The first catalog track with the candidate's song key.
pub open spec fn canonical_spec(
    tracks: Seq<crate::vtrack::CatalogTrack>,
    artist: Seq<char>,
    title: Seq<char>,
) -> Option<CandidateView>
    decreases tracks.len(),
{
    if tracks.len() == 0 {
        None
    } else if song_key_spec(tracks[0].artist@, tracks[0].title@) == song_key_spec(artist, title) {
        Some(catalog_candidate(tracks[0]))
    } else {
        canonical_spec(tracks.drop_first(), artist, title)
    }
}

/// Deezer's record of a candidate among search hits: the first hit with
/// the same song key.
pub fn canonical_match(tracks: Vec<crate::vtrack::CatalogTrack>, candidate: &RecCandidate) -> (r:
    Option<RecCandidate>)
    ensures
        match r {
            Some(c) => canonical_spec(tracks@, candidate.artist@, candidate.title@) == Some(c@),
            None => canonical_spec(tracks@, candidate.artist@, candidate.title@) is None,
        },
{
    let wanted = song_key(candidate.artist.as_str(), candidate.title.as_str());
    let ghost all = tracks@;
    assert(all.len() == tracks.len());
    let mut rest = tracks;
    let mut k: usize = 0;
    proof {
        assert(all.subrange(0, all.len() as int) =~= all);
    }
    while rest.len() > 0
        invariant
            all == tracks@,
            all.len() <= usize::MAX,
            k + rest@.len() == all.len(),
            rest@ == all.subrange(k as int, all.len() as int),
            wanted@ == song_key_spec(candidate.artist@, candidate.title@),
            canonical_spec(all, candidate.artist@, candidate.title@) == canonical_spec(
                rest@,
                candidate.artist@,
                candidate.title@,
            ),
        decreases rest@.len(),
    {
        let ghost r0 = rest@;
        let t = rest.remove(0);
        proof {
            assert(t == r0[0]);
            assert(rest@ =~= r0.drop_first());
            assert(rest@ =~= all.subrange(k + 1, all.len() as int));
        }
        let key = song_key(t.artist.as_str(), t.title.as_str());
        if str_eq(key.as_str(), wanted.as_str()) {
            let c = from_catalog(t);
            proof {
                assert(canonical_spec(r0, candidate.artist@, candidate.title@) == Some(
                    catalog_candidate(r0[0]),
                ));
                assert(c@ == catalog_candidate(r0[0]));
                assert(canonical_spec(all, candidate.artist@, candidate.title@) == Some(c@));
            }
            return Some(c);
        }
        k += 1;
    }
    None
}

} // verus!
