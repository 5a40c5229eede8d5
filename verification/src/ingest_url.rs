//! Pasted music links (YouTube, Yandex Music, VK): which provider they name
//! and the id or canonical URL to ingest. Fetching metadata and storing the
//! virtual track happen at the program's edge.
use vstd::prelude::*;

use crate::text::{chars_of, copy_str, ends_with, ends_with_exec, extend_chars, find, first_occurrence, is_ascii_alnum, is_ascii_alnum_exec, is_ascii_digit, is_ascii_digit_exec, lowercase, lowercased, slice_chars, split_char, split_char_exec, starts_with, starts_with_exec, str_eq, strip_prefix_all, strip_prefix_all_exec, string_of, trim, contains, lemma_split_char_nonempty};
use crate::vtrack::CatalogTrack;

verus! {

/// A link that was turned into a streamable virtual track.
#[derive(Debug, Clone)]
pub struct Ingested {
    pub id: String,
    pub artist: String,
    pub title: String,
    pub provider: &'static str,
}

/// What a pasted link names.
#[derive(Debug, Clone, PartialEq, Eq)]
pub enum ParsedLink {
    /// Pin this canonical watch URL; yt-dlp fetches it directly.
    YouTube { watch_url: String },
    /// VK audio id `<owner>_<id>`, resolved through the VK helper.
    Vk { track_id: String },
    /// Yandex track id, resolved through the Yandex helper.
    Yandex { track_id: String },
}

/// Why a link was refused; every message starts with `unsupported link`.
#[derive(Debug, Clone, PartialEq, Eq)]
pub enum LinkError {
    NotAUrl,
    MissingYouTubeId,
    EmptyYouTubeId,
    NoYouTubeId,
    MissingYandexId,
    YandexNotATrack,
    VkNotAudio,
    UnsupportedHost { host: String },
}

/// The text of each refusal.
pub open spec fn link_error_text(e: LinkError) -> Seq<char> {
    match e {
        LinkError::NotAUrl => "unsupported link: not a valid URL"@,
        LinkError::MissingYouTubeId => "unsupported link: missing YouTube id"@,
        LinkError::EmptyYouTubeId => "unsupported link: empty YouTube id"@,
        LinkError::NoYouTubeId => "unsupported link: could not find a YouTube video id"@,
        LinkError::MissingYandexId => "unsupported link: missing Yandex track id"@,
        LinkError::YandexNotATrack => "unsupported link: Yandex URL must point to a track"@,
        LinkError::VkNotAudio => "unsupported link: VK URL must point to an audio track (vk.com/audio…)"@,
        LinkError::UnsupportedHost { host } => "unsupported link: "@ + host@
            + " is not YouTube, Yandex Music, or VK"@,
    }
}

impl LinkError {
    /// The refusal's text (see `link_error_text`); it starts with
    /// `unsupported link`.
    pub fn message(&self) -> (r: String)
        ensures
            r@ == link_error_text(*self),
            starts_with(r@, "unsupported link"@),
    {
        let text: &str = match self {
            LinkError::NotAUrl => "unsupported link: not a valid URL",
            LinkError::MissingYouTubeId => "unsupported link: missing YouTube id",
            LinkError::EmptyYouTubeId => "unsupported link: empty YouTube id",
            LinkError::NoYouTubeId => "unsupported link: could not find a YouTube video id",
            LinkError::MissingYandexId => "unsupported link: missing Yandex track id",
            LinkError::YandexNotATrack => "unsupported link: Yandex URL must point to a track",
            LinkError::VkNotAudio => {
                "unsupported link: VK URL must point to an audio track (vk.com/audio…)"
            },
            LinkError::UnsupportedHost { .. } => "unsupported link: ",
        };
        let mut v = chars_of(text);
        if let LinkError::UnsupportedHost { host } = self {
            extend_chars(&mut v, chars_of(host.as_str()).as_slice());
            extend_chars(&mut v, chars_of(" is not YouTube, Yandex Music, or VK").as_slice());
        }
        proof {
            reveal_strlit("unsupported link");
            reveal_strlit("unsupported link: not a valid URL");
            reveal_strlit("unsupported link: missing YouTube id");
            reveal_strlit("unsupported link: empty YouTube id");
            reveal_strlit("unsupported link: could not find a YouTube video id");
            reveal_strlit("unsupported link: missing Yandex track id");
            reveal_strlit("unsupported link: Yandex URL must point to a track");
            reveal_strlit("unsupported link: VK URL must point to an audio track (vk.com/audio…)");
            reveal_strlit("unsupported link: ");
            assert(v@.subrange(0, 16) =~= "unsupported link"@);
            assert(v@ =~= link_error_text(*self));
        }
        string_of(v.as_slice())
    }
}

// ---------------------------------------------------------- URL parts

/// The pieces of a parsed URL the link rules read: the host, the path, the
/// path segments (absent for a URL that cannot be a base), and the decoded
/// query pairs.
#[derive(Debug, Clone)]
pub struct LinkParts {
    pub host: Option<String>,
    pub path: String,
    pub segments: Option<Vec<String>>,
    pub query: Vec<(String, String)>,
}

pub open spec fn strings_view(v: Seq<String>) -> Seq<Seq<char>> {
    v.map_values(|s: String| s@)
}

pub open spec fn pairs_view(v: Seq<(String, String)>) -> Seq<(Seq<char>, Seq<char>)> {
    v.map_values(|p: (String, String)| (p.0@, p.1@))
}

impl View for LinkParts {
    type V = (
        Option<Seq<char>>,
        Seq<char>,
        Option<Seq<Seq<char>>>,
        Seq<(Seq<char>, Seq<char>)>,
    );

    open spec fn view(&self) -> Self::V {
        (
            match self.host {
                Some(h) => Some(h@),
                None => None,
            },
            self.path@,
            match self.segments {
                Some(s) => Some(strings_view(s@)),
                None => None,
            },
            pairs_view(self.query@),
        )
    }
}

/// What `url::Url::parse` makes of a string, read through `host_str`,
/// `path`, `path_segments` and `query_pairs`; `None` when it does not parse.
pub uninterp spec fn url_parts(raw: Seq<char>) -> Option<
    (Option<Seq<char>>, Seq<char>, Option<Seq<Seq<char>>>, Seq<(Seq<char>, Seq<char>)>),
>;

/// `url::Url::parse`, read into plain parts; the URL grammar is named, not
/// spelled out.
#[verifier::external_body]
pub(crate) fn parse_url_parts(raw: &str) -> (r: Option<LinkParts>)
    ensures
        match url_parts(raw@) {
            Some(p) => r is Some && r.unwrap()@ == p,
            None => r is None,
        },
{
    match url::Url::parse(raw) {
        Ok(url) => Some(
            LinkParts {
                host: url.host_str().map(|h| h.to_string()),
                path: url.path().to_string(),
                segments: url.path_segments().map(|s| s.map(|x| x.to_string()).collect()),
                query: url.query_pairs().into_owned().collect(),
            },
        ),
        Err(_) => None,
    }
}

// -------------------------------------------------------------- rules

/// What a link resolves to, as the rules below decide.
pub enum LinkOutcome {
    YouTube(Seq<char>),
    Vk(Seq<char>),
    Yandex(Seq<char>),
    Refused(LinkRefusal),
}

pub enum LinkRefusal {
    NotAUrl,
    MissingYouTubeId,
    EmptyYouTubeId,
    NoYouTubeId,
    MissingYandexId,
    YandexNotATrack,
    VkNotAudio,
    UnsupportedHost(Seq<char>),
}

pub open spec fn outcome_of(r: Result<ParsedLink, LinkError>) -> LinkOutcome {
    match r {
        Ok(ParsedLink::YouTube { watch_url }) => LinkOutcome::YouTube(watch_url@),
        Ok(ParsedLink::Vk { track_id }) => LinkOutcome::Vk(track_id@),
        Ok(ParsedLink::Yandex { track_id }) => LinkOutcome::Yandex(track_id@),
        Err(LinkError::NotAUrl) => LinkOutcome::Refused(LinkRefusal::NotAUrl),
        Err(LinkError::MissingYouTubeId) => LinkOutcome::Refused(LinkRefusal::MissingYouTubeId),
        Err(LinkError::EmptyYouTubeId) => LinkOutcome::Refused(LinkRefusal::EmptyYouTubeId),
        Err(LinkError::NoYouTubeId) => LinkOutcome::Refused(LinkRefusal::NoYouTubeId),
        Err(LinkError::MissingYandexId) => LinkOutcome::Refused(LinkRefusal::MissingYandexId),
        Err(LinkError::YandexNotATrack) => LinkOutcome::Refused(LinkRefusal::YandexNotATrack),
        Err(LinkError::VkNotAudio) => LinkOutcome::Refused(LinkRefusal::VkNotAudio),
        Err(LinkError::UnsupportedHost { host }) => LinkOutcome::Refused(
            LinkRefusal::UnsupportedHost(host@),
        ),
    }
}

pub open spec fn watch_url_spec(id: Seq<char>) -> Seq<char> {
    "https://www.youtube.com/watch?v="@ + id
}

/// The host as the rules compare it: leading `www.` prefixes removed, then
/// lowercased.
pub open spec fn host_key(host: Option<Seq<char>>) -> Seq<char> {
    lowercased(
        strip_prefix_all(
            match host {
                Some(h) => h,
                None => Seq::empty(),
            },
            "www."@,
        ),
    )
}

/// Index of the first query pair named `v`.
pub open spec fn first_v_pair(q: Seq<(Seq<char>, Seq<char>)>) -> Option<int> {
    if exists|i: int| 0 <= i < q.len() && q[i].0 == "v"@ {
        Some(choose|i: int| 0 <= i < q.len() && q[i].0 == "v"@ && forall|j: int| 0 <= j < i ==> q[j].0 != "v"@)
    } else {
        None
    }
}

/// Index of the first path segment equal to `track`.
pub open spec fn first_track_segment(s: Seq<Seq<char>>) -> Option<int> {
    if exists|i: int| 0 <= i < s.len() && s[i] == "track"@ {
        Some(choose|i: int| 0 <= i < s.len() && s[i] == "track"@ && forall|j: int| 0 <= j < i ==> s[j] != "track"@)
    } else {
        None
    }
}

pub open spec fn is_vk_host(h: Seq<char>) -> bool {
    h == "vk.com"@ || h == "vk.ru"@ || h == "m.vk.com"@ || ends_with(h, ".vk.com"@)
}

pub open spec fn all_digits(s: Seq<char>) -> bool {
    forall|i: int| 0 <= i < s.len() ==> is_ascii_digit(#[trigger] s[i])
}

/// `<owner>_<id>`: the owner an optionally negative integer, the id an
/// integer (a further `_<hash>` is allowed).
pub open spec fn is_vk_audio_id(s: Seq<char>) -> bool {
    let pieces = split_char(s, '_');
    let owner = pieces[0];
    let aid = if pieces.len() >= 2 {
        pieces[1]
    } else {
        Seq::empty()
    };
    let owner_digits = if owner.len() > 0 && owner[0] == '-' {
        owner.drop_first()
    } else {
        owner
    };
    owner_digits.len() > 0 && all_digits(owner_digits) && aid.len() > 0 && all_digits(aid)
}

pub open spec fn vk_id_char(c: char) -> bool {
    is_ascii_alnum(c) || c == '-' || c == '_'
}

/// The length of the longest prefix of `s` from `k` on made of id chars.
pub open spec fn id_run_end(s: Seq<char>, k: nat) -> nat
    decreases s.len() - k,
{
    if k >= s.len() || !vk_id_char(s[k as int]) {
        k
    } else {
        id_run_end(s, k + 1)
    }
}

/// The id candidate after the first `audio` in a string, if it has one.
pub open spec fn vk_candidate(hay: Seq<char>) -> Option<Seq<char>> {
    if contains(hay, "audio"@) {
        let i = choose|i: int| first_occurrence(hay, "audio"@, i);
        let rest = hay.subrange(i + 5, hay.len() as int);
        Some(rest.take(id_run_end(rest, 0) as int))
    } else {
        None
    }
}

/// The first valid VK audio id found after `audio` in the given strings.
pub open spec fn vk_audio_in(hays: Seq<Seq<char>>) -> Option<Seq<char>>
    decreases hays.len(),
{
    if hays.len() == 0 {
        None
    } else {
        match vk_candidate(hays[0]) {
            Some(id) => if is_vk_audio_id(id) {
                Some(id)
            } else {
                vk_audio_in(hays.drop_first())
            },
            None => vk_audio_in(hays.drop_first()),
        }
    }
}

/// The strings searched for a VK audio id: the path, then each query value.
pub open spec fn vk_haystacks(path: Seq<char>, query: Seq<(Seq<char>, Seq<char>)>) -> Seq<Seq<char>> {
    seq![path] + query.map_values(|p: (Seq<char>, Seq<char>)| p.1)
}

/// The link rules on a parsed URL.
pub open spec fn link_rules(
    host: Option<Seq<char>>,
    path: Seq<char>,
    segments: Option<Seq<Seq<char>>>,
    query: Seq<(Seq<char>, Seq<char>)>,
) -> LinkOutcome {
    let h = host_key(host);
    let segs = match segments {
        Some(s) => s,
        None => Seq::empty(),
    };
    if h == "youtu.be"@ {
        let id = if segs.len() > 0 {
            segs[0]
        } else {
            Seq::empty()
        };
        if id.len() == 0 {
            LinkOutcome::Refused(LinkRefusal::MissingYouTubeId)
        } else {
            LinkOutcome::YouTube(watch_url_spec(id))
        }
    } else if ends_with(h, "youtube.com"@) {
        match first_v_pair(query) {
            Some(i) => if query[i].1.len() == 0 {
                LinkOutcome::Refused(LinkRefusal::EmptyYouTubeId)
            } else {
                LinkOutcome::YouTube(watch_url_spec(query[i].1))
            },
            None => if segs.len() >= 2 && (segs[0] == "shorts"@ || segs[0] == "embed"@ || segs[0]
                == "live"@) && segs[1].len() > 0 {
                LinkOutcome::YouTube(watch_url_spec(segs[1]))
            } else {
                LinkOutcome::Refused(LinkRefusal::NoYouTubeId)
            },
        }
    } else if starts_with(h, "music.yandex."@) {
        match first_track_segment(segs) {
            Some(p) => if p + 1 < segs.len() {
                if segs[p + 1].len() == 0 {
                    LinkOutcome::Refused(LinkRefusal::MissingYandexId)
                } else {
                    LinkOutcome::Yandex(segs[p + 1])
                }
            } else {
                LinkOutcome::Refused(LinkRefusal::YandexNotATrack)
            },
            None => LinkOutcome::Refused(LinkRefusal::YandexNotATrack),
        }
    } else if is_vk_host(h) {
        match vk_audio_in(vk_haystacks(path, query)) {
            Some(id) => LinkOutcome::Vk(id),
            None => LinkOutcome::Refused(LinkRefusal::VkNotAudio),
        }
    } else {
        LinkOutcome::Refused(LinkRefusal::UnsupportedHost(h))
    }
}

/// Every YouTube host takes a `v=` link: for any parsed link whose host,
/// once `www.` is stripped and it is lowercased, ends in `youtube.com`
/// (`youtube.com`, `music.youtube.com`, `m.youtube.com`, ...), and whose
/// first `v` query value is not empty, the link is the YouTube watch URL of
/// that value.
pub proof fn law_youtube_hosts_take_v_links(
    host: Option<Seq<char>>,
    path: Seq<char>,
    segments: Option<Seq<Seq<char>>>,
    query: Seq<(Seq<char>, Seq<char>)>,
    sub: Seq<char>,
    i: int,
)
    requires
        host_key(host) == sub + "youtube.com"@,
        0 <= i < query.len(),
        query[i].0 == "v"@,
        forall|j: int| 0 <= j < i ==> query[j].0 != "v"@,
        query[i].1.len() > 0,
    ensures
        link_rules(host, path, segments, query) == LinkOutcome::YouTube(
            "https://www.youtube.com/watch?v="@ + query[i].1,
        ),
{
    let h = host_key(host);
    reveal_strlit("youtube.com");
    reveal_strlit("youtu.be");
    assert(h.subrange(h.len() - 11, h.len() as int) =~= "youtube.com"@);
    assert(ends_with(h, "youtube.com"@));
    if h == "youtu.be"@ {
        assert(h.len() == 8);
    }
    let k = choose|k: int| 0 <= k < query.len() && query[k].0 == "v"@ && forall|j: int| 0 <= j < k ==> query[j].0 != "v"@;
    assert(k == i) by {
        if k < i {
            assert(query[k].0 != "v"@);
        } else if k > i {
            assert(query[i].0 != "v"@);
        }
    }
    assert(first_v_pair(query) == Some(i));
}

/// What a pasted link resolves to: refused when the trimmed text is not a
/// URL, else the link rules on its parts.
pub open spec fn parse_spec(raw: Seq<char>) -> LinkOutcome {
    match url_parts(trim(raw)) {
        None => LinkOutcome::Refused(LinkRefusal::NotAUrl),
        Some(p) => link_rules(p.0, p.1, p.2, p.3),
    }
}

// ------------------------------------------------------------ exec

pub fn yt_watch(id: &str) -> (r: String)
    ensures
        r@ == watch_url_spec(id@),
{
    let mut v = chars_of("https://www.youtube.com/watch?v=");
    extend_chars(&mut v, chars_of(id).as_slice());
    string_of(v.as_slice())
}

fn all_digits_exec(s: &[char]) -> (r: bool)
    ensures
        r == all_digits(s@),
{
    let mut i: usize = 0;
    while i < s.len()
        invariant
            i <= s.len(),
            forall|k: int| 0 <= k < i ==> is_ascii_digit(#[trigger] s@[k]),
        decreases s.len() - i,
    {
        if !is_ascii_digit_exec(s[i]) {
            return false;
        }
        i += 1;
    }
    true
}

/// Whether `s` has the shape of a VK audio id.
pub fn is_vk_audio_id_exec(s: &str) -> (r: bool)
    ensures
        r == is_vk_audio_id(s@),
{
    let c = chars_of(s);
    let pieces = split_char_exec(c.as_slice(), '_');
    proof {
        lemma_split_char_nonempty(c@, '_');
    }
    let owner = &pieces[0];
    let empty: Vec<char> = Vec::new();
    let aid: &Vec<char> = if pieces.len() >= 2 {
        &pieces[1]
    } else {
        &empty
    };
    assert(aid@ == (if split_char(s@, '_').len() >= 2 {
        split_char(s@, '_')[1]
    } else {
        Seq::<char>::empty()
    }));
    let owner_digits: Vec<char> = if owner.len() > 0 && owner[0] == '-' {
        slice_chars(owner.as_slice(), 1, owner.len())
    } else {
        slice_chars(owner.as_slice(), 0, owner.len())
    };
    proof {
        if owner@.len() > 0 && owner@[0] == '-' {
            assert(owner_digits@ =~= owner@.drop_first());
        } else {
            assert(owner_digits@ =~= owner@);
        }
    }
    owner_digits.len() > 0 && all_digits_exec(owner_digits.as_slice()) && aid.len() > 0
        && all_digits_exec(aid.as_slice())
}

fn vk_candidate_exec(hay: &str) -> (r: Option<Vec<char>>)
    ensures
        match vk_candidate(hay@) {
            Some(id) => r is Some && r.unwrap()@ == id,
            None => r is None,
        },
{
    let h = chars_of(hay);
    let needle = chars_of("audio");
    proof {
        reveal_strlit("audio");
        assert("audio"@.len() == 5);
    }
    assert(needle@.len() == 5);
    let found = find(h.as_slice(), needle.as_slice());
    match found {
        None => None,
        Some(i) => {
            let hl = h.len();
            assert(i + needle@.len() <= hl);
            proof {
                let j = choose|j: int| first_occurrence(hay@, "audio"@, j);
                crate::text::lemma_first_occurrence_unique(hay@, "audio"@, i as int, j);
            }
            let rest = slice_chars(h.as_slice(), i + 5, h.len());
            let mut k: usize = 0;
            while k < rest.len() && (is_ascii_alnum_exec(rest[k]) || rest[k] == '-' || rest[k] == '_')
                invariant
                    k <= rest@.len(),
                    id_run_end(rest@, 0) == id_run_end(rest@, k as nat),
                decreases rest@.len() - k,
            {
                k += 1;
            }
            let id = slice_chars(rest.as_slice(), 0, k);
            proof {
                assert(id@ =~= rest@.take(k as int));
            }
            Some(id)
        },
    }
}

/// Find a VK audio id (`<owner>_<id>`, optional `_<hash>`) after `audio` in
/// the path or in a query value (the `?z=audio…` share form).
pub fn parse_vk_audio_id(path: &str, query: &Vec<(String, String)>) -> (r: Option<String>)
    ensures
        match vk_audio_in(vk_haystacks(path@, pairs_view(query@))) {
            Some(id) => r is Some && r.unwrap()@ == id,
            None => r is None,
        },
{
    let ghost hays = vk_haystacks(path@, pairs_view(query@));
    if let Some(id) = vk_candidate_exec(path) {
        let s = string_of(id.as_slice());
        if is_vk_audio_id_exec(s.as_str()) {
            proof {
                assert(hays[0] == path@);
            }
            return Some(s);
        }
    }
    proof {
        let mapped = pairs_view(query@).map_values(|p: (Seq<char>, Seq<char>)| p.1);
        assert(hays[0] == path@);
        assert(hays.drop_first() =~= mapped);
        assert(vk_audio_in(hays) == vk_audio_in(hays.drop_first()));
        assert(mapped.subrange(0, query@.len() as int) =~= mapped);
    }
    let mut i: usize = 0;
    while i < query.len()
        invariant
            i <= query@.len(),
            hays == vk_haystacks(path@, pairs_view(query@)),
            vk_audio_in(hays) == vk_audio_in(
                pairs_view(query@).map_values(|p: (Seq<char>, Seq<char>)| p.1).subrange(
                    i as int,
                    query@.len() as int,
                ),
            ),
        decreases query@.len() - i,
    {
        let ghost rest = pairs_view(query@).map_values(|p: (Seq<char>, Seq<char>)| p.1).subrange(
            i as int,
            query@.len() as int,
        );
        proof {
            assert(rest[0] == query@[i as int].1@);
            assert(rest.drop_first() =~= pairs_view(query@).map_values(
                |p: (Seq<char>, Seq<char>)| p.1,
            ).subrange(i + 1, query@.len() as int));
        }
        if let Some(id) = vk_candidate_exec(query[i].1.as_str()) {
            let s = string_of(id.as_slice());
            if is_vk_audio_id_exec(s.as_str()) {
                return Some(s);
            }
        }
        i += 1;
    }
    None
}


fn first_v_pair_exec(q: &Vec<(String, String)>) -> (r: Option<usize>)
    ensures
        match first_v_pair(pairs_view(q@)) {
            Some(i) => r is Some && r.unwrap() as int == i,
            None => r is None,
        },
        r is Some ==> r.unwrap() < q@.len(),
{
    let ghost pv = pairs_view(q@);
    let mut i: usize = 0;
    while i < q.len()
        invariant
            i <= q@.len(),
            pv == pairs_view(q@),
            forall|j: int| 0 <= j < i ==> pv[j].0 != "v"@,
        decreases q@.len() - i,
    {
        if str_eq(q[i].0.as_str(), "v") {
            proof {
                let c = choose|c: int| 0 <= c < pv.len() && pv[c].0 == "v"@ && forall|j: int| 0 <= j < c ==> pv[j].0 != "v"@;
                assert(pv[i as int].0 == "v"@);
                if c < i {
                } else if c > i {
                }
                assert(c == i);
            }
            return Some(i);
        }
        i += 1;
    }
    None
}

fn first_track_segment_exec(segs: &Vec<String>) -> (r: Option<usize>)
    ensures
        match first_track_segment(strings_view(segs@)) {
            Some(i) => r is Some && r.unwrap() as int == i,
            None => r is None,
        },
        r is Some ==> r.unwrap() < segs@.len(),
{
    let ghost sv = strings_view(segs@);
    let mut i: usize = 0;
    while i < segs.len()
        invariant
            i <= segs@.len(),
            sv == strings_view(segs@),
            forall|j: int| 0 <= j < i ==> sv[j] != "track"@,
        decreases segs@.len() - i,
    {
        if str_eq(segs[i].as_str(), "track") {
            proof {
                let c = choose|c: int| 0 <= c < sv.len() && sv[c] == "track"@ && forall|j: int| 0 <= j < c ==> sv[j] != "track"@;
                assert(sv[i as int] == "track"@);
                if c < i {
                } else if c > i {
                }
                assert(c == i);
            }
            return Some(i);
        }
        i += 1;
    }
    None
}

/// Apply the link rules to the parts of a parsed URL.
pub fn parse_parts(parts: &LinkParts) -> (r: Result<ParsedLink, LinkError>)
    ensures
        outcome_of(r) == link_rules(parts@.0, parts@.1, parts@.2, parts@.3),
{
    let raw_host: String = match &parts.host {
        Some(h) => h.clone(),
        None => String::new(),
    };
    let stripped = strip_prefix_all_exec(chars_of(raw_host.as_str()).as_slice(), chars_of("www.").as_slice());
    let host = lowercase(string_of(stripped.as_slice()).as_str());
    proof {
        assert(host@ == host_key(parts@.0));
    }
    let no_segments: Vec<String> = Vec::new();
    let segs: &Vec<String> = match &parts.segments {
        Some(s) => s,
        None => &no_segments,
    };
    assert(strings_view(segs@) == (match parts@.2 {
        Some(s) => s,
        None => Seq::<Seq<char>>::empty(),
    })) by {
        if parts.segments is None {
            assert(strings_view(segs@) =~= Seq::<Seq<char>>::empty());
        }
    }
    let hc = chars_of(host.as_str());
    if str_eq(host.as_str(), "youtu.be") {
        if segs.len() > 0 && chars_of(segs[0].as_str()).len() > 0 {
            return Ok(ParsedLink::YouTube { watch_url: yt_watch(segs[0].as_str()) });
        }
        return Err(LinkError::MissingYouTubeId);
    }
    if ends_with_exec(hc.as_slice(), chars_of("youtube.com").as_slice()) {
        match first_v_pair_exec(&parts.query) {
            Some(i) => {
                assert(parts@.3[i as int].1 == parts.query@[i as int].1@);
                if chars_of(parts.query[i].1.as_str()).len() == 0 {
                    return Err(LinkError::EmptyYouTubeId);
                }
                return Ok(ParsedLink::YouTube { watch_url: yt_watch(parts.query[i].1.as_str()) });
            },
            None => {
                if segs.len() >= 2 {
                    let kind = segs[0].as_str();
                    let known = str_eq(kind, "shorts") || str_eq(kind, "embed") || str_eq(kind, "live");
                    if known && chars_of(segs[1].as_str()).len() > 0 {
                        return Ok(ParsedLink::YouTube { watch_url: yt_watch(segs[1].as_str()) });
                    }
                }
                return Err(LinkError::NoYouTubeId);
            },
        }
    }
    if starts_with_exec(hc.as_slice(), chars_of("music.yandex.").as_slice()) {
        match first_track_segment_exec(segs) {
            Some(p) => {
                if p < segs.len() - 1 {
                    if chars_of(segs[p + 1].as_str()).len() == 0 {
                        return Err(LinkError::MissingYandexId);
                    }
                    return Ok(ParsedLink::Yandex { track_id: segs[p + 1].clone() });
                }
                return Err(LinkError::YandexNotATrack);
            },
            None => return Err(LinkError::YandexNotATrack),
        }
    }
    let vk_host = str_eq(host.as_str(), "vk.com") || str_eq(host.as_str(), "vk.ru") || str_eq(
        host.as_str(),
        "m.vk.com",
    ) || ends_with_exec(hc.as_slice(), chars_of(".vk.com").as_slice());
    if vk_host {
        match parse_vk_audio_id(parts.path.as_str(), &parts.query) {
            Some(id) => return Ok(ParsedLink::Vk { track_id: id }),
            None => return Err(LinkError::VkNotAudio),
        }
    }
    Err(LinkError::UnsupportedHost { host })
}

/// Detect the provider of a pasted link and extract its id or canonical
/// URL; refusals carry a message starting with `unsupported link`.
pub fn parse(raw: &str) -> (r: Result<ParsedLink, LinkError>)
    ensures
        outcome_of(r) == parse_spec(raw@),
{
    let t = crate::text::trim_str(raw);
    match parse_url_parts(t.as_str()) {
        None => Err(LinkError::NotAUrl),
        Some(parts) => parse_parts(&parts),
    }
}

// -------------------------------------------------- virtual tracks

/// The catalog record for a Yandex link: the helper's metadata when it
/// answered, else a placeholder (`Unknown artist`, `Yandex track <id>`) that
/// tagging corrects on import.
pub fn yandex_link_track(track_id: &str, meta: Option<crate::yandex::YandexTrack>) -> (r:
    CatalogTrack)
    ensures
        r.provider@ == "yandex"@,
        r.provider_track_id@ == track_id@,
        match meta {
            Some(m) => r.artist == m.artist && r.title == m.title && r.album == m.album
                && r.duration_ms == m.duration_ms && r.isrc == m.isrc && r.artwork_url
                == m.artwork_url,
            None => r.artist@ == "Unknown artist"@ && r.title@ == "Yandex track "@ + track_id@
                && r.album is None && r.duration_ms is None && r.isrc is None && r.artwork_url is None,
        },
{
    match meta {
        Some(m) => CatalogTrack {
            provider: crate::yandex::PROVIDER,
            provider_track_id: copy_str(track_id),
            artist: m.artist,
            title: m.title,
            album: m.album,
            duration_ms: m.duration_ms,
            isrc: m.isrc,
            artwork_url: m.artwork_url,
        },
        None => {
            let mut title = chars_of("Yandex track ");
            extend_chars(&mut title, chars_of(track_id).as_slice());
            CatalogTrack {
                provider: crate::yandex::PROVIDER,
                provider_track_id: copy_str(track_id),
                artist: copy_str("Unknown artist"),
                title: string_of(title.as_slice()),
                album: None,
                duration_ms: None,
                isrc: None,
                artwork_url: None,
            }
        },
    }
}

/// The catalog record for a VK link from the helper's metadata.
pub fn vk_link_track(track_id: &str, meta: crate::vk::VkTrack) -> (r: CatalogTrack)
    ensures
        r.provider@ == "vk"@,
        r.provider_track_id@ == track_id@,
        r.artist == meta.artist,
        r.title == meta.title,
        r.album == meta.album,
        r.duration_ms == meta.duration_ms,
        r.isrc is None,
        r.artwork_url == meta.artwork_url,
{
    CatalogTrack {
        provider: crate::vk::PROVIDER,
        provider_track_id: copy_str(track_id),
        artist: meta.artist,
        title: meta.title,
        album: meta.album,
        duration_ms: meta.duration_ms,
        isrc: None,
        artwork_url: meta.artwork_url,
    }
}

} // verus!
