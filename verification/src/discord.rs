//! The Discord bot's view of the proxy: linked accounts, tracks, and the
//! small text rules around them.
use rand::Rng;
use vstd::prelude::*;

use crate::text::{chars_of, contains, contains_exec, extend_chars, parse_u32, parse_unsigned, starts_with, string_of, trim, trim_chars, trim_end_by, trim_end_chars};

verus! {

#[derive(Clone, Debug)]
pub struct Track {
    pub id: String,
    pub title: String,
    pub artist: String,
}

impl Track {
    /// `Artist — Title`.
    pub fn label(&self) -> (r: String)
        ensures
            r@ == self.artist@ + " — "@ + self.title@,
    {
        let mut v = chars_of(self.artist.as_str());
        extend_chars(&mut v, chars_of(" — ").as_slice());
        extend_chars(&mut v, chars_of(self.title.as_str()).as_slice());
        string_of(v.as_slice())
    }

    /// A track from a song object's fields: the id is required, a missing
    /// title or artist reads "Unknown" / "Unknown artist".
    pub fn from_fields(id: Option<String>, title: Option<String>, artist: Option<String>) -> (r:
        Option<Track>)
        ensures
            id is None ==> r is None,
            id is Some ==> r is Some && r.unwrap().id == id.unwrap() && r.unwrap().title@ == (
            match title {
                Some(t) => t@,
                None => "Unknown"@,
            }) && r.unwrap().artist@ == (match artist {
                Some(a) => a@,
                None => "Unknown artist"@,
            }),
    {
        let id = match id {
            Some(id) => id,
            None => return None,
        };
        Some(
            Track {
                id,
                title: match title {
                    Some(t) => t,
                    None => crate::text::copy_str("Unknown"),
                },
                artist: match artist {
                    Some(a) => a,
                    None => crate::text::copy_str("Unknown artist"),
                },
            },
        )
    }
}

/// A user's stored credentials: the per-link salt and derived token, never
/// the raw password.
#[derive(Clone)]
pub struct Link {
    pub server_url: String,
    pub username: String,
    pub salt: String,
    pub token: String,
}

/// Trimmed, without trailing slashes, and with `http://` added when no
/// scheme is present.
pub open spec fn normalize_server_spec(value: Seq<char>) -> Seq<char> {
    let trimmed = trim_end_by(trim(value), Some('/'));
    if contains(trimmed, "://"@) {
        trimmed
    } else {
        "http://"@ + trimmed
    }
}

pub fn normalize_server(value: &str) -> (r: String)
    ensures
        r@ == normalize_server_spec(value@),
{
    let c = chars_of(value);
    let t = trim_chars(c.as_slice());
    let trimmed = trim_end_chars(t.as_slice(), Some('/'));
    if contains_exec(trimmed.as_slice(), chars_of("://").as_slice()) {
        string_of(trimmed.as_slice())
    } else {
        let mut v = chars_of("http://");
        extend_chars(&mut v, trimmed.as_slice());
        string_of(v.as_slice())
    }
}

/// `base` without trailing slashes, then `path` with exactly one leading
/// slash added when missing.
pub open spec fn join_path_spec(base: Seq<char>, path: Seq<char>) -> Seq<char> {
    let prefix = trim_end_by(base, Some('/'));
    if starts_with(path, "/"@) {
        prefix + path
    } else {
        prefix + "/"@ + path
    }
}

pub fn join_path(base: &str, path: &str) -> (r: String)
    ensures
        r@ == join_path_spec(base@, path@),
{
    let b = chars_of(base);
    let mut v = trim_end_chars(b.as_slice(), Some('/'));
    let p = chars_of(path);
    if !(p.len() > 0 && p[0] == '/') {
        v.push('/');
    }
    extend_chars(&mut v, p.as_slice());
    proof {
        reveal_strlit("/");
        assert("/"@ =~= seq!['/']);
        assert(starts_with(path@, "/"@) == (p@.len() > 0 && p@[0] == '/')) by {
            if p@.len() > 0 {
                if p@[0] == '/' {
                    assert(p@.subrange(0, 1) =~= "/"@);
                } else {
                    assert(p@.subrange(0, 1)[0] != "/"@[0]);
                }
            }
        }
    }
    string_of(v.as_slice())
}

/// No server URL was given and none is configured.
#[derive(Debug, Clone, Copy, PartialEq, Eq)]
pub enum ServerError {
    NoServer,
}

/// The URL the user gave, else the configured default.
pub fn require_server<'a>(provided: Option<&'a str>, default: Option<&'a str>) -> (r: Result<
    &'a str,
    ServerError,
>)
    ensures
        match provided {
            Some(p) => r == Ok::<&'a str, ServerError>(p),
            None => match default {
                Some(d) => r == Ok::<&'a str, ServerError>(d),
                None => r == Err::<&'a str, ServerError>(ServerError::NoServer),
            },
        },
{
    match provided {
        Some(p) => Ok(p),
        None => match default {
            Some(d) => Ok(d),
            None => Err(ServerError::NoServer),
        },
    }
}

/// An environment value, trimmed, or nothing when blank.
pub fn non_empty(value: Option<String>) -> (r: Option<String>)
    ensures
        match value {
            Some(v) => if trim(v@).len() > 0 {
                r is Some && r.unwrap()@ == trim(v@)
            } else {
                r is None
            },
            None => r is None,
        },
{
    match value {
        Some(v) => {
            let t = crate::text::trim_str(v.as_str());
            let tc = chars_of(t.as_str());
            if tc.len() > 0 {
                Some(t)
            } else {
                None
            }
        },
        None => None,
    }
}

/// Voice bitrate from the environment: a trimmed `u32`, 256 when absent or
/// unparsable, clamped to 16..=512.
pub fn voice_bitrate_kbps(raw: Option<String>) -> (r: u32)
    ensures
        16 <= r <= 512,
        ({
            let v: int = match raw {
                Some(s) => match parse_unsigned(trim(s@), u32::MAX as int) {
                    Some(n) => n,
                    None => 256,
                },
                None => 256,
            };
            r == if v < 16 {
                16
            } else if v > 512 {
                512
            } else {
                v
            }
        }),
{
    let v: u32 = match raw {
        Some(s) => {
            let t = trim_chars(chars_of(s.as_str()).as_slice());
            match parse_u32(t.as_slice()) {
                Some(n) => n,
                None => 256,
            }
        },
        None => 256,
    };
    if v < 16 {
        16
    } else if v > 512 {
        512
    } else {
        v
    }
}

/// Playback metadata the remote keeps per queued track.
#[derive(Clone, Debug)]
pub struct TrackMeta {
    pub id: String,
    pub title: String,
    pub artist: String,
    pub album: Option<String>,
    pub cover_art: Option<String>,
    pub duration_ms: Option<i64>,
}

impl TrackMeta {
    pub fn from_track(track: Track) -> (r: TrackMeta)
        ensures
            r.id == track.id,
            r.title == track.title,
            r.artist == track.artist,
            r.album is None,
            r.cover_art is None,
            r.duration_ms is None,
    {
        TrackMeta {
            id: track.id,
            title: track.title,
            artist: track.artist,
            album: None,
            cover_art: None,
            duration_ms: None,
        }
    }

    pub fn track(&self) -> (r: Track)
        ensures
            r.id == self.id,
            r.title == self.title,
            r.artist == self.artist,
    {
        Track { id: self.id.clone(), title: self.title.clone(), artist: self.artist.clone() }
    }
}

// ------------------------------------------------------------- linking

/// A random value in `0..16` (`rand::Rng::gen_range`).
#[verifier::external_body]
fn random_nibble() -> (r: u32)
    ensures
        r < 16,
{
    rand::thread_rng().gen_range(0..16u32)
}

pub open spec fn hex_digit(d: nat) -> char {
    if d < 10 {
        (48 + d) as char
    } else {
        (97 + d - 10) as char
    }
}

pub open spec fn is_lower_hex(c: char) -> bool {
    ('0' <= c && c <= '9') || ('a' <= c && c <= 'f')
}

pub open spec fn is_hex_salt(s: Seq<char>) -> bool {
    s.len() == 16 && forall|i: int| 0 <= i < 16 ==> #[trigger] is_lower_hex(s[i])
}

fn hex_digit_exec(d: u32) -> (c: char)
    requires
        d < 16,
    ensures
        c == hex_digit(d as nat),
        is_lower_hex(c),
{
    if d < 10 {
        crate::text::digit_char(d)
    } else {
        let lower = ['a', 'b', 'c', 'd', 'e', 'f'];
        let c = lower[(d - 10) as usize];
        assert(c == hex_digit(d as nat)) by {
            if d == 10 {
                assert(c == 'a');
            } else if d == 11 {
                assert(c == 'b');
            } else if d == 12 {
                assert(c == 'c');
            } else if d == 13 {
                assert(c == 'd');
            } else if d == 14 {
                assert(c == 'e');
            } else {
                assert(c == 'f');
            }
        }
        c
    }
}

/// A link from a fresh login: a random 16-hex-digit salt and the token
/// `md5(password + salt)`; the server URL normalized and the username
/// trimmed.
pub fn make_link(server_url: &str, username: &str, password: &str) -> (r: Link)
    ensures
        r.server_url@ == normalize_server_spec(server_url@),
        r.username@ == trim(username@),
        is_hex_salt(r.salt@),
        r.token@ == crate::text::md5_hex_of(password@ + r.salt@),
{
    let mut salt: Vec<char> = Vec::new();
    let mut i: usize = 0;
    while i < 16
        invariant
            i <= 16,
            salt@.len() == i,
            forall|k: int| 0 <= k < i ==> #[trigger] is_lower_hex(salt@[k]),
        decreases 16 - i,
    {
        let d = random_nibble();
        let c = hex_digit_exec(d);
        salt.push(c);
        i += 1;
    }
    assert(is_hex_salt(salt@));
    let mut joined = chars_of(password);
    extend_chars(&mut joined, salt.as_slice());
    let token = crate::text::md5_hex(string_of(joined.as_slice()).as_str());
    Link {
        server_url: normalize_server(server_url),
        username: crate::text::trim_str(username),
        salt: string_of(salt.as_slice()),
        token,
    }
}

} // verus!
