//! Subsonic protocol pieces: response format, envelope attributes, the
//! synthesized `song` entry for a virtual track, query parameters and the
//! admin account's auth query.
use vstd::prelude::*;

use crate::config::{StreamFormat, Streaming};
use crate::json::{
    as_str, at_key, key_or_null, str_at, jview, lemma_jview_object, members_view, opt_num_view, opt_str_view, push_member, push_opt,
    push_opt_num, push_opt_str, set_member, with_member, Json, JsonView,
};
use crate::text::{
    chars_of, copy_str, decimal, extend_chars, i64_decimal, md5_hex, md5_hex_of, signed_decimal,
    str_eq, string_of, u64_decimal,
};
use crate::xml::{attr_text, opt_attr_text, opt_seq, push_attr, push_opt_attr, write_event, written, XmlKind};
use crate::vtrack::{format_timestamp, timestamp_text, unix_now_secs, VirtualTrack};

verus! {

/// Response format requested by the client via `f=`.
#[derive(Debug, Clone, Copy, PartialEq, Eq)]
pub enum Format {
    Json,
    Xml,
}

impl Format {
    /// `f` absent or `xml` is XML, `json` is JSON; `jsonp` and anything else
    /// are left to plain passthrough.
    pub fn from_query_value(value: Option<&str>) -> (r: Option<Format>)
        ensures
            match value {
                None => r == Some(Format::Xml),
                Some(v) => if v@ == "xml"@ {
                    r == Some(Format::Xml)
                } else if v@ == "json"@ {
                    r == Some(Format::Json)
                } else {
                    r is None
                },
            },
    {
        match value {
            None => Some(Format::Xml),
            Some(v) => {
                if str_eq(v, "xml") {
                    Some(Format::Xml)
                } else if str_eq(v, "json") {
                    Some(Format::Json)
                } else {
                    None
                }
            },
        }
    }

    pub fn content_type(self) -> (r: &'static str)
        ensures
            self == Format::Json ==> r@ == "application/json"@,
            self == Format::Xml ==> r@ == "application/xml"@,
    {
        match self {
            Format::Json => "application/json",
            Format::Xml => "application/xml",
        }
    }
}

/// Envelope attributes mirrored from Navidrome so synthesized responses are
/// indistinguishable from proxied ones.
#[derive(Debug, Clone)]
pub struct Envelope {
    pub version: String,
    pub server_type: String,
    pub server_version: String,
    pub open_subsonic: bool,
}

impl Default for Envelope {
    fn default() -> (r: Envelope)
        ensures
            r.version@ == "1.16.1"@,
            r.server_type@ == "navidrome"@,
            r.server_version@ == Seq::<char>::empty(),
            r.open_subsonic,
    {
        Envelope {
            version: copy_str("1.16.1"),
            server_type: copy_str("navidrome"),
            server_version: String::new(),
            open_subsonic: true,
        }
    }
}

/// The JSON envelope of a synthesized response: status, the mirrored
/// attributes, the error when there is one, then the payload under its key.
pub open spec fn envelope_view(
    e: Envelope,
    status: Seq<char>,
    error: Option<(u32, Seq<char>)>,
    payload: Option<(Seq<char>, JsonView)>,
) -> JsonView {
    let base = seq![
        ("status"@, JsonView::Str(status)),
        ("version"@, JsonView::Str(e.version@)),
        ("type"@, JsonView::Str(e.server_type@)),
        ("serverVersion"@, JsonView::Str(e.server_version@)),
        ("openSubsonic"@, JsonView::Bool(e.open_subsonic)),
    ];
    let with_error = match error {
        Some((code, message)) => base.push(
            (
                "error"@,
                JsonView::Object(
                    seq![("code"@, JsonView::Number(decimal(code as nat))), ("message"@, JsonView::Str(message))],
                ),
            ),
        ),
        None => base,
    };
    let full = match payload {
        Some((key, v)) => with_member(with_error, key, v),
        None => with_error,
    };
    JsonView::Object(seq![("subsonic-response"@, JsonView::Object(full))])
}

impl Envelope {
    /// The JSON body of a synthesized response (see `envelope_view`).
    pub fn json_body(&self, status: &str, error: Option<(u32, &str)>, payload: Option<(&str, Json)>) -> (r:
        Json)
        ensures
            jview(r) == envelope_view(
                *self,
                status@,
                match error {
                    Some((c, m)) => Some((c, m@)),
                    None => None,
                },
                match payload {
                    Some((k, v)) => Some((k@, jview(v))),
                    None => None,
                },
            ),
    {
        let mut m: Vec<(String, Json)> = Vec::new();
        assert(members_view(m@) =~= Seq::<(Seq<char>, JsonView)>::empty());
        push_member(&mut m, "status", Json::Str(copy_str(status)));
        push_member(&mut m, "version", Json::Str(self.version.clone()));
        push_member(&mut m, "type", Json::Str(self.server_type.clone()));
        push_member(&mut m, "serverVersion", Json::Str(self.server_version.clone()));
        push_member(&mut m, "openSubsonic", Json::Bool(self.open_subsonic));
        assert(members_view(m@) =~= seq![
            ("status"@, JsonView::Str(status@)),
            ("version"@, JsonView::Str(self.version@)),
            ("type"@, JsonView::Str(self.server_type@)),
            ("serverVersion"@, JsonView::Str(self.server_version@)),
            ("openSubsonic"@, JsonView::Bool(self.open_subsonic)),
        ]);
        match error {
            Some((code, message)) => {
                let mut em: Vec<(String, Json)> = Vec::new();
                assert(members_view(em@) =~= Seq::<(Seq<char>, JsonView)>::empty());
                push_member(&mut em, "code", Json::Number(string_of(u64_decimal(code as u64).as_slice())));
                push_member(&mut em, "message", Json::Str(copy_str(message)));
                proof {
                    lemma_jview_object(em);
                    assert(members_view(em@) =~= seq![
                        ("code"@, JsonView::Number(decimal(code as nat))),
                        ("message"@, JsonView::Str(message@)),
                    ]);
                }
                push_member(&mut m, "error", Json::Object(em));
            },
            None => {},
        }
        match payload {
            Some((key, v)) => set_member(&mut m, key, v),
            None => {},
        }
        proof {
            lemma_jview_object(m);
        }
        let mut top: Vec<(String, Json)> = Vec::new();
        assert(members_view(top@) =~= Seq::<(Seq<char>, JsonView)>::empty());
        let ghost inner = jview(Json::Object(m));
        push_member(&mut top, "subsonic-response", Json::Object(m));
        proof {
            lemma_jview_object(top);
            assert(members_view(top@) =~= seq![("subsonic-response"@, inner)]);
        }
        Json::Object(top)
    }
}

/// A synthesized `song` (Subsonic `Child`) for a virtual track.
#[derive(Debug, Clone)]
pub struct SongEntry {
    pub id: String,
    pub title: String,
    pub artist: String,
    pub album: Option<String>,
    pub cover_art: Option<String>,
    pub duration_secs: Option<i64>,
    pub suffix: &'static str,
    pub content_type: &'static str,
    pub bit_rate: u32,
    pub size: Option<i64>,
    pub created: String,
}

/// Milliseconds to whole seconds, rounding toward zero as Rust's `/` does.
pub open spec fn whole_seconds(ms: i64) -> i64 {
    if ms >= 0 {
        (ms / 1000) as i64
    } else {
        -((-ms) / 1000) as i64
    }
}

/// The estimated size of a stream of `secs` seconds at `kbps`
/// (kbps to bytes per second is 125), wrapping as `i64` arithmetic does.
pub open spec fn estimated_size(secs: i64, kbps: u32) -> i64 {
    secs.wrapping_mul(kbps as i64).wrapping_mul(125)
}

impl SongEntry {
    /// The entry for `track` as streamed with `streaming`, created at
    /// `created`: whole seconds of its duration, a cover id when it has
    /// artwork, and a size estimated from the bitrate.
    pub fn from_virtual_at(track: &VirtualTrack, streaming: &Streaming, created: String) -> (r:
        SongEntry)
        ensures
            r.id == track.id,
            r.title == track.title,
            r.artist == track.artist,
            r.album == track.album,
            r.cover_art == (if track.artwork_url is Some {
                Some(track.id)
            } else {
                None
            }),
            r.duration_secs == (match track.duration_ms {
                Some(ms) => Some(whole_seconds(ms)),
                None => None,
            }),
            streaming.format == StreamFormat::Opus ==> r.suffix@ == "opus"@ && r.content_type@
                == "audio/ogg"@,
            streaming.format == StreamFormat::Mp3 ==> r.suffix@ == "mp3"@ && r.content_type@
                == "audio/mpeg"@,
            r.bit_rate == streaming.bitrate_kbps,
            r.size == (match r.duration_secs {
                Some(d) => Some(estimated_size(d, streaming.bitrate_kbps)),
                None => None,
            }),
            r.created == created,
    {
        let (suffix, content_type): (&'static str, &'static str) = match streaming.format {
            StreamFormat::Opus => ("opus", "audio/ogg"),
            StreamFormat::Mp3 => ("mp3", "audio/mpeg"),
        };
        let duration_secs: Option<i64> = match track.duration_ms {
            Some(ms) => Some(ms / 1000),
            None => None,
        };
        let kbps = streaming.bitrate_kbps as i64;
        let size: Option<i64> = match duration_secs {
            Some(d) => Some(d.wrapping_mul(kbps).wrapping_mul(125)),
            None => None,
        };
        SongEntry {
            id: track.id.clone(),
            title: track.title.clone(),
            artist: track.artist.clone(),
            album: match &track.album {
                Some(a) => Some(a.clone()),
                None => None,
            },
            cover_art: match &track.artwork_url {
                Some(_) => Some(track.id.clone()),
                None => None,
            },
            duration_secs,
            suffix,
            content_type,
            bit_rate: streaming.bitrate_kbps,
            size,
            created,
        }
    }

    /// The entry for `track`, created now.
    pub fn from_virtual(track: &VirtualTrack, streaming: &Streaming) -> (r: SongEntry)
        ensures
            r.id == track.id,
            r.title == track.title,
            r.artist == track.artist,
            r.album == track.album,
            r.bit_rate == streaming.bitrate_kbps,
            r.duration_secs == (match track.duration_ms {
                Some(ms) => Some(whole_seconds(ms)),
                None => None,
            }),
            r.cover_art == (if track.artwork_url is Some {
                Some(track.id)
            } else {
                None
            }),
            streaming.format == StreamFormat::Opus ==> r.suffix@ == "opus"@ && r.content_type@
                == "audio/ogg"@,
            streaming.format == StreamFormat::Mp3 ==> r.suffix@ == "mp3"@ && r.content_type@
                == "audio/mpeg"@,
            r.size == (match r.duration_secs {
                Some(d) => Some(estimated_size(d, streaming.bitrate_kbps)),
                None => None,
            }),
            exists|secs: nat| r.created@ == timestamp_text(secs),
    {
        let created = format_timestamp(unix_now_secs());
        SongEntry::from_virtual_at(track, streaming, created)
    }
}


/// A song entry as a JSON `song` object: the fields every client needs,
/// then album, cover art, duration and size when known.
pub open spec fn song_entry_view(e: SongEntry) -> JsonView {
    let base = Seq::<(Seq<char>, JsonView)>::empty().push(("id"@, JsonView::Str(e.id@))).push(
        ("isDir"@, JsonView::Bool(false)),
    ).push(("isVideo"@, JsonView::Bool(false))).push(("type"@, JsonView::Str("music"@))).push(
        ("title"@, JsonView::Str(e.title@)),
    ).push(("artist"@, JsonView::Str(e.artist@))).push(("suffix"@, JsonView::Str(e.suffix@))).push(
        ("contentType"@, JsonView::Str(e.content_type@)),
    ).push(("bitRate"@, JsonView::Number(decimal(e.bit_rate as nat)))).push(
        ("created"@, JsonView::Str(e.created@)),
    );
    JsonView::Object(
        push_opt(
            push_opt(
                push_opt(push_opt(base, "album"@, opt_str_view(e.album)), "coverArt"@, opt_str_view(e.cover_art)),
                "duration"@,
                opt_num_view(e.duration_secs),
            ),
            "size"@,
            opt_num_view(e.size),
        ),
    )
}

impl SongEntry {
    /// The entry as a JSON `song` object (see `song_entry_view`).
    pub fn to_json(&self) -> (r: Json)
        ensures
            jview(r) == song_entry_view(*self),
    {
        let mut m: Vec<(String, Json)> = Vec::new();
        assert(members_view(m@) =~= Seq::<(Seq<char>, JsonView)>::empty());
        push_member(&mut m, "id", Json::Str(self.id.clone()));
        push_member(&mut m, "isDir", Json::Bool(false));
        push_member(&mut m, "isVideo", Json::Bool(false));
        push_member(&mut m, "type", Json::Str(copy_str("music")));
        push_member(&mut m, "title", Json::Str(self.title.clone()));
        push_member(&mut m, "artist", Json::Str(self.artist.clone()));
        push_member(&mut m, "suffix", Json::Str(copy_str(self.suffix)));
        push_member(&mut m, "contentType", Json::Str(copy_str(self.content_type)));
        push_member(
            &mut m,
            "bitRate",
            Json::Number(string_of(u64_decimal(self.bit_rate as u64).as_slice())),
        );
        push_member(&mut m, "created", Json::Str(self.created.clone()));
        push_opt_str(&mut m, "album", &self.album);
        push_opt_str(&mut m, "coverArt", &self.cover_art);
        push_opt_num(&mut m, "duration", self.duration_secs);
        push_opt_num(&mut m, "size", self.size);
        proof {
            lemma_jview_object(m);
        }
        Json::Object(m)
    }
}

// ------------------------------------------------------- query params

pub open spec fn pairs_view(v: Seq<(String, String)>) -> Seq<(Seq<char>, Seq<char>)> {
    v.map_values(|p: (String, String)| (p.0@, p.1@))
}

/// The name/value pairs that `url::form_urlencoded::parse` decodes from a
/// query string, in order.
pub uninterp spec fn form_pairs(query: Seq<char>) -> Seq<(Seq<char>, Seq<char>)>;

/// Decode query params with `url::form_urlencoded::parse` (percent escapes
/// and `+` decoded), in the order they appear; the decoding is named, not
/// spelled out.
#[verifier::external_body]
pub fn query_params(query: &str) -> (r: Vec<(String, String)>)
    ensures
        pairs_view(r@) == form_pairs(query@),
{
    url::form_urlencoded::parse(query.as_bytes()).into_owned().collect()
}

/// The value of the last pair named `key`, as a map collected from the
/// pairs keeps it.
pub open spec fn last_value(pairs: Seq<(Seq<char>, Seq<char>)>, key: Seq<char>) -> Option<
    Seq<char>,
>
    decreases pairs.len(),
{
    if pairs.len() == 0 {
        None
    } else if pairs.last().0 == key {
        Some(pairs.last().1)
    } else {
        last_value(pairs.drop_last(), key)
    }
}

/// Look up a decoded parameter; when a name repeats, the last one wins.
pub fn param<'a>(params: &'a Vec<(String, String)>, key: &str) -> (r: Option<&'a String>)
    ensures
        match last_value(pairs_view(params@), key@) {
            Some(v) => r is Some && r.unwrap()@ == v,
            None => r is None,
        },
{
    let mut i: usize = params.len();
    proof {
        assert(params@.take(i as int) =~= params@);
    }
    while i > 0
        invariant
            i <= params@.len(),
            last_value(pairs_view(params@), key@) == last_value(
                pairs_view(params@.take(i as int)),
                key@,
            ),
        decreases i,
    {
        proof {
            assert(pairs_view(params@.take(i as int)).drop_last() =~= pairs_view(
                params@.take(i - 1),
            ));
        }
        if str_eq(params[i - 1].0.as_str(), key) {
            return Some(&params[i - 1].1);
        }
        i -= 1;
    }
    proof {
        assert(pairs_view(params@.take(0)) =~= Seq::<(Seq<char>, Seq<char>)>::empty());
    }
    None
}

// ------------------------------------------------------ admin auth

/// What `url::form_urlencoded::byte_serialize` yields for a string, joined.
pub uninterp spec fn form_encoded_of(s: Seq<char>) -> Seq<char>;

/// Characters `byte_serialize` passes through unchanged.
pub open spec fn form_unreserved(c: char) -> bool {
    c == '*' || c == '-' || c == '.' || c == '_' || ('0' <= c && c <= '9') || ('A' <= c && c
        <= 'Z') || ('a' <= c && c <= 'z')
}

/// `url::form_urlencoded::byte_serialize`, collected. Its source keeps
/// `*-._`, digits and ASCII letters as they are, so a string made only of
/// them comes back unchanged; the rest of the encoding is named.
#[verifier::external_body]
pub(crate) fn form_encode(s: &str) -> (r: String)
    ensures
        r@ == form_encoded_of(s@),
        (forall|i: int| 0 <= i < s@.len() ==> form_unreserved(#[trigger] s@[i])) ==> r@ == s@,
{
    url::form_urlencoded::byte_serialize(s.as_bytes()).collect()
}

pub open spec fn lower_hex_digit(d: nat) -> char {
    if d < 10 {
        (48 + d) as char
    } else {
        (87 + d) as char
    }
}

/// `n` as `width` lowercase hex digits, most significant first.
pub open spec fn lower_hex(n: nat, width: nat) -> Seq<char>
    decreases width,
{
    if width == 0 {
        Seq::empty()
    } else {
        lower_hex(n / 16, (width - 1) as nat).push(lower_hex_digit(n % 16))
    }
}

fn lower_hex_exec(n: u128, width: usize) -> (r: Vec<char>)
    ensures
        r@ == lower_hex(n as nat, width as nat),
    decreases width,
{
    if width == 0 {
        Vec::new()
    } else {
        let mut v = lower_hex_exec(n / 16, width - 1);
        let d = n % 16;
        let c = if d < 10 {
            crate::text::digit_char(d as u32)
        } else {
            crate::text::char_from_ascii((87 + d) as u32)
        };
        v.push(c);
        v
    }
}

/// The admin auth query for a given salt:
/// `u=<user>&t=md5(password + salt)&s=<salt>&v=1.16.1&c=songarr`.
pub open spec fn admin_query_spec(user: Seq<char>, password: Seq<char>, salt: Seq<char>) -> Seq<
    char,
> {
    "u="@ + form_encoded_of(user) + "&t="@ + md5_hex_of(password + salt) + "&s="@ + salt
        + "&v=1.16.1&c=songarr"@
}

pub fn admin_auth_query_with_salt(admin_user: &str, admin_password: &str, salt: &str) -> (r:
    String)
    ensures
        r@ == admin_query_spec(admin_user@, admin_password@, salt@),
{
    let mut v = chars_of("u=");
    extend_chars(&mut v, chars_of(form_encode(admin_user).as_str()).as_slice());
    extend_chars(&mut v, chars_of("&t=").as_slice());
    let mut secret = chars_of(admin_password);
    extend_chars(&mut secret, chars_of(salt).as_slice());
    let token = md5_hex(string_of(secret.as_slice()).as_str());
    extend_chars(&mut v, chars_of(token.as_str()).as_slice());
    extend_chars(&mut v, chars_of("&s=").as_slice());
    extend_chars(&mut v, chars_of(salt).as_slice());
    extend_chars(&mut v, chars_of("&v=1.16.1&c=songarr").as_slice());
    string_of(v.as_slice())
}

/// Auth query for proxy-originated requests with the configured admin
/// account: a fresh salt (a random v4 UUID as 32 lowercase hex digits) and
/// `t = md5(password + salt)`.
pub fn admin_auth_query(navidrome: &crate::config::Navidrome) -> (r: String)
    ensures
        exists|n: nat|
            r@ == admin_query_spec(
                navidrome.admin_user@,
                navidrome.admin_password@,
                lower_hex(n, 32),
            ),
{
    let n = crate::vtrack::random_u128();
    let salt = string_of(lower_hex_exec(n, 32).as_slice());
    admin_auth_query_with_salt(
        navidrome.admin_user.as_str(),
        navidrome.admin_password.as_str(),
        salt.as_str(),
    )
}

// ----------------------------------------------------------------- XML

/// The content of a song entry's tag named `element`: the fields every
/// client needs, with album, cover art, duration and size when known, in
/// the order the response lists them.
pub open spec fn song_tag(e: SongEntry, element: Seq<char>) -> Seq<char> {
    element + attr_text("id"@, e.id@) + attr_text("isDir"@, "false"@) + attr_text("isVideo"@, "false"@)
        + attr_text("type"@, "music"@) + attr_text("title"@, e.title@) + attr_text("artist"@, e.artist@)
        + opt_attr_text("album"@, opt_seq(e.album)) + opt_attr_text("coverArt"@, opt_seq(e.cover_art))
        + opt_attr_text("duration"@, opt_number(e.duration_secs)) + attr_text("suffix"@, e.suffix@)
        + attr_text("contentType"@, e.content_type@) + attr_text("bitRate"@, decimal(e.bit_rate as nat))
        + opt_attr_text("size"@, opt_number(e.size)) + attr_text("created"@, e.created@)
}

pub open spec fn opt_number(o: Option<i64>) -> Option<Seq<char>> {
    match o {
        Some(n) => Some(signed_decimal(n as int)),
        None => None,
    }
}

pub fn push_opt_number_attr(tag: &mut Vec<char>, key: &str, value: Option<i64>)
    ensures
        final(tag)@ == old(tag)@ + opt_attr_text(key@, opt_number(value)),
{
    match value {
        Some(n) => push_attr(tag, key, string_of(i64_decimal(n).as_slice()).as_str()),
        None => {
            assert(final(tag)@ =~= old(tag)@ + Seq::<char>::empty());
        },
    }
}

impl SongEntry {
    /// The entry as an empty XML element named `element` (`song`, or
    /// `entry` inside a playlist).
    pub fn write_xml(&self, element: &str) -> (r: Vec<char>)
        ensures
            r@ == written(XmlKind::Empty, song_tag(*self, element@)),
    {
        let mut tag = chars_of(element);
        push_attr(&mut tag, "id", self.id.as_str());
        push_attr(&mut tag, "isDir", "false");
        push_attr(&mut tag, "isVideo", "false");
        push_attr(&mut tag, "type", "music");
        push_attr(&mut tag, "title", self.title.as_str());
        push_attr(&mut tag, "artist", self.artist.as_str());
        push_opt_attr(&mut tag, "album", &self.album);
        push_opt_attr(&mut tag, "coverArt", &self.cover_art);
        push_opt_number_attr(&mut tag, "duration", self.duration_secs);
        push_attr(&mut tag, "suffix", self.suffix);
        push_attr(&mut tag, "contentType", self.content_type);
        push_attr(&mut tag, "bitRate", string_of(u64_decimal(self.bit_rate as u64).as_slice()).as_str());
        push_opt_number_attr(&mut tag, "size", self.size);
        push_attr(&mut tag, "created", self.created.as_str());
        assert(tag@ =~= song_tag(*self, element@));
        let mut out: Vec<char> = Vec::new();
        write_event(&mut out, XmlKind::Empty, tag.as_slice());
        assert(out@ =~= written(XmlKind::Empty, song_tag(*self, element@)));
        out
    }
}

/// The entries written one after another as elements named `element`.
pub open spec fn songs_xml(entries: Seq<SongEntry>, element: Seq<char>) -> Seq<char>
    decreases entries.len(),
{
    if entries.len() == 0 {
        Seq::empty()
    } else {
        songs_xml(entries.drop_last(), element) + written(XmlKind::Empty, song_tag(entries.last(), element))
    }
}

/// Write the entries as elements named `element` (see `songs_xml`).
pub fn write_songs_xml(entries: &[SongEntry], element: &str) -> (r: Vec<char>)
    ensures
        r@ == songs_xml(entries@, element@),
{
    let mut out: Vec<char> = Vec::new();
    let mut i: usize = 0;
    while i < entries.len()
        invariant
            i <= entries@.len(),
            out@ == songs_xml(entries@.take(i as int), element@),
        decreases entries@.len() - i,
    {
        let piece = entries[i].write_xml(element);
        extend_chars(&mut out, piece.as_slice());
        proof {
            assert(entries@.take(i + 1).drop_last() =~= entries@.take(i as int));
            assert(entries@.take(i + 1).last() == entries@[i as int]);
        }
        i += 1;
    }
    assert(entries@.take(entries@.len() as int) =~= entries@);
    out
}

/// The XML root tag of a synthesized response: the namespace, the status
/// and the mirrored attributes.
pub open spec fn root_tag(e: Envelope, status: Seq<char>) -> Seq<char> {
    "subsonic-response"@ + attr_text("xmlns"@, "http://subsonic.org/restapi"@) + attr_text("status"@, status)
        + attr_text("version"@, e.version@) + attr_text("type"@, e.server_type@) + attr_text(
        "serverVersion"@,
        e.server_version@,
    ) + attr_text("openSubsonic"@, if e.open_subsonic { "true"@ } else { "false"@ })
}

/// The XML body of a synthesized response: the declaration, the root
/// element, an `error` element when there is an error, then the payload.
pub open spec fn envelope_xml(e: Envelope, status: Seq<char>, error: Option<(u32, Seq<char>)>, payload: Seq<char>) -> Seq<char> {
    written(XmlKind::Other, "<?xml version=\"1.0\" encoding=\"UTF-8\"?>"@) + written(XmlKind::Start, root_tag(e, status))
        + match error {
        Some((code, message)) => written(
            XmlKind::Empty,
            "error"@ + attr_text("code"@, decimal(code as nat)) + attr_text("message"@, message),
        ),
        None => Seq::empty(),
    } + payload + written(XmlKind::End, "subsonic-response"@)
}

impl Envelope {
    /// The XML body of a synthesized response (see `envelope_xml`); the
    /// payload is the payload's elements as written.
    pub fn xml_body(&self, status: &str, error: Option<(u32, &str)>, payload: &[char]) -> (r: String)
        ensures
            r@ == envelope_xml(
                *self,
                status@,
                match error {
                    Some((c, m)) => Some((c, m@)),
                    None => None,
                },
                payload@,
            ),
    {
        let mut out = chars_of("<?xml version=\"1.0\" encoding=\"UTF-8\"?>");
        let mut root = chars_of("subsonic-response");
        push_attr(&mut root, "xmlns", "http://subsonic.org/restapi");
        push_attr(&mut root, "status", status);
        push_attr(&mut root, "version", self.version.as_str());
        push_attr(&mut root, "type", self.server_type.as_str());
        push_attr(&mut root, "serverVersion", self.server_version.as_str());
        push_attr(&mut root, "openSubsonic", if self.open_subsonic { "true" } else { "false" });
        assert(root@ =~= root_tag(*self, status@));
        write_event(&mut out, XmlKind::Start, root.as_slice());
        let ghost head = out@;
        match error {
            Some((code, message)) => {
                let mut tag = chars_of("error");
                push_attr(&mut tag, "code", string_of(u64_decimal(code as u64).as_slice()).as_str());
                push_attr(&mut tag, "message", message);
                write_event(&mut out, XmlKind::Empty, tag.as_slice());
            },
            None => {},
        }
        extend_chars(&mut out, payload);
        let end = chars_of("subsonic-response");
        write_event(&mut out, XmlKind::End, end.as_slice());
        let ghost err = match error {
            Some((c, m)) => Some((c, m@)),
            None => None,
        };
        assert(out@ =~= envelope_xml(*self, status@, err, payload@));
        string_of(out.as_slice())
    }
}

/// `text` when it is `Some`, else `default`.
pub open spec fn or_text(text: Option<Seq<char>>, default: Seq<char>) -> Seq<char> {
    match text {
        Some(t) => t,
        None => default,
    }
}

/// The envelope attributes mirrored from a `ping` answer of the library
/// server: its version, type and server version, and whether it speaks
/// OpenSubsonic, with Navidrome's defaults for those missing; none when the
/// answer has no `subsonic-response` object.
pub open spec fn envelope_from_ping_spec(v: Json) -> Option<(Seq<char>, Seq<char>, Seq<char>, bool)> {
    let r = at_key(v, "subsonic-response"@);
    match r {
        Json::Object(_) => Some(
            (
                or_text(as_str(at_key(r, "version"@)), "1.16.1"@),
                or_text(as_str(at_key(r, "type"@)), "navidrome"@),
                or_text(as_str(at_key(r, "serverVersion"@)), Seq::empty()),
                match at_key(r, "openSubsonic"@) {
                    Json::Bool(b) => b,
                    _ => true,
                },
            ),
        ),
        _ => None,
    }
}

fn text_or(text: Option<&String>, default: &str) -> (r: String)
    ensures
        r@ == or_text(
            match text {
                Some(t) => Some(t@),
                None => None,
            },
            default@,
        ),
{
    match text {
        Some(t) => t.clone(),
        None => copy_str(default),
    }
}

impl Envelope {
    /// The envelope mirrored from a `ping` answer (see
    /// `envelope_from_ping_spec`).
    pub fn from_ping(value: &Json) -> (r: Option<Envelope>)
        ensures
            match r {
                Some(e) => envelope_from_ping_spec(*value) == Some(
                    (e.version@, e.server_type@, e.server_version@, e.open_subsonic),
                ),
                None => envelope_from_ping_spec(*value) is None,
            },
    {
        let null = Json::Null;
        let r = key_or_null(value, "subsonic-response", &null);
        match r {
            Json::Object(_) => {},
            _ => return None,
        }
        let open_subsonic = match key_or_null(r, "openSubsonic", &null) {
            Json::Bool(b) => *b,
            _ => true,
        };
        Some(
            Envelope {
                version: text_or(str_at(r, "version"), "1.16.1"),
                server_type: text_or(str_at(r, "type"), "navidrome"),
                server_version: match str_at(r, "serverVersion") {
                    Some(t) => t.clone(),
                    None => String::new(),
                },
                open_subsonic,
            },
        )
    }
}

} // verus!
