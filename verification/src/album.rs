//! Virtual albums answered as `getAlbum`: the album object and its songs,
//! numbered as the catalog numbers them.
use vstd::prelude::*;

use crate::artist::{release_year, year_spec};
use crate::json::{items_view, jview, lemma_jview_array, lemma_jview_object, members_view, push_member, push_opt, set_member, with_member, Json, JsonView};
use crate::subsonic::{song_entry_view, SongEntry};
use crate::ingest::{utf8_bytes, utf8_len_exec};
use crate::subsonic::{opt_number, push_opt_number_attr};
use crate::text::{chars_of, copy_str, decimal, extend_chars, i64_decimal, signed_decimal, slice_chars, string_of, u64_decimal};
use crate::xml::{attr_text, opt_attr_text, opt_seq, push_attr, push_opt_attr, write_event, written, XmlKind};
use crate::valbum::{album_artwork_url, first_track_artwork, AlbumPayload, AlbumTrackPayload, VirtualAlbum};

verus! {

/// A song of a virtual album: its entry, with the album id and, when the
/// catalog numbers it, its track and disc numbers.
pub open spec fn song_json_view(song: SongEntry, track: AlbumTrackPayload, album_id: Seq<char>) -> JsonView {
    let m1 = with_member(song_entry_view(song)->Object_0, "albumId"@, JsonView::Str(album_id));
    let m2 = match track.track_number {
        Some(n) => with_member(m1, "track"@, JsonView::Number(signed_decimal(n as int))),
        None => m1,
    };
    let m3 = match track.disc_number {
        Some(n) => with_member(m2, "discNumber"@, JsonView::Number(signed_decimal(n as int))),
        None => m2,
    };
    JsonView::Object(m3)
}

pub fn song_json(song: &SongEntry, track: &AlbumTrackPayload, album_id: &str) -> (r: Json)
    ensures
        jview(r) == song_json_view(*song, *track, album_id@),
{
    let j = song.to_json();
    match j {
        Json::Object(mut m) => {
            proof {
                lemma_jview_object(m);
            }
            set_member(&mut m, "albumId", Json::Str(copy_str(album_id)));
            match track.track_number {
                Some(n) => set_member(&mut m, "track", Json::Number(string_of(i64_decimal(n).as_slice()))),
                None => {},
            }
            match track.disc_number {
                Some(n) => set_member(
                    &mut m,
                    "discNumber",
                    Json::Number(string_of(i64_decimal(n).as_slice())),
                ),
                None => {},
            }
            proof {
                lemma_jview_object(m);
            }
            Json::Object(m)
        },
        _ => {
            proof {
                assert(song_entry_view(*song) is Object);
                assert(false);
            }
            j
        },
    }
}

/// The total of the songs' known durations.
pub open spec fn songs_total(songs: Seq<(SongEntry, AlbumTrackPayload)>) -> int
    decreases songs.len(),
{
    if songs.len() == 0 {
        0
    } else {
        songs_total(songs.drop_last()) + match songs.last().0.duration_secs {
            Some(d) => d as int,
            None => 0,
        }
    }
}

/// Every running total of the durations fits in `i64`.
pub open spec fn songs_totals_fit(songs: Seq<(SongEntry, AlbumTrackPayload)>) -> bool {
    forall|k: int| 0 <= k <= songs.len() ==> i64::MIN <= #[trigger] songs_total(songs.take(k)) <= i64::MAX
}

pub open spec fn songs_view(songs: Seq<(SongEntry, AlbumTrackPayload)>, album_id: Seq<char>) -> Seq<JsonView> {
    Seq::new(songs.len(), |i: int| song_json_view(songs[i].0, songs[i].1, album_id))
}

/// The `album` answer of a virtual album created at `created`: id, name,
/// artist, song count, total duration, the songs; the album id as cover
/// when the album has artwork; the year of its release date when it has
/// one.
pub open spec fn album_json_view(
    album: VirtualAlbum,
    has_artwork: bool,
    songs: Seq<(SongEntry, AlbumTrackPayload)>,
    created: Seq<char>,
) -> JsonView {
    let base = seq![
        ("id"@, JsonView::Str(album.id@)),
        ("name"@, JsonView::Str(album.title@)),
        ("artist"@, JsonView::Str(album.artist@)),
        ("songCount"@, JsonView::Number(decimal(songs.len()))),
        ("duration"@, JsonView::Number(signed_decimal(songs_total(songs)))),
        ("created"@, JsonView::Str(created)),
        ("song"@, JsonView::Array(songs_view(songs, album.id@))),
    ];
    JsonView::Object(
        push_opt(
            push_opt(
                base,
                "coverArt"@,
                if has_artwork {
                    Some(JsonView::Str(album.id@))
                } else {
                    None
                },
            ),
            "year"@,
            match year_spec(album.release_date) {
                Some(y) => Some(JsonView::Number(signed_decimal(y as int))),
                None => None,
            },
        ),
    )
}

/// The `album` answer of a virtual album (see `album_json_view`); it has
/// artwork of its own or in its parsed payload's tracks.
pub fn album_json(
    album: &VirtualAlbum,
    payload: Option<&AlbumPayload>,
    songs: &Vec<(SongEntry, AlbumTrackPayload)>,
    created: String,
) -> (r: Json)
    requires
        songs_totals_fit(songs@),
    ensures
        jview(r) == album_json_view(
            *album,
            album.artwork_url is Some || match payload {
                Some(p) => first_track_artwork(p.tracks@) is Some,
                None => false,
            },
            songs@,
            created@,
        ),
{
    let mut total: i64 = 0;
    let mut list: Vec<Json> = Vec::new();
    let mut i: usize = 0;
    while i < songs.len()
        invariant
            i <= songs@.len(),
            songs_totals_fit(songs@),
            total == songs_total(songs@.take(i as int)),
            list@.len() == i,
            items_view(list@) == songs_view(songs@, album.id@).take(i as int),
        decreases songs@.len() - i,
    {
        proof {
            assert(songs@.take(i + 1).drop_last() =~= songs@.take(i as int));
            assert(songs@.take(i + 1).last() == songs@[i as int]);
            assert(i64::MIN <= songs_total(songs@.take(i + 1)) <= i64::MAX);
        }
        match songs[i].0.duration_secs {
            Some(d) => {
                total = total + d;
            },
            None => {},
        }
        let j = song_json(&songs[i].0, &songs[i].1, album.id.as_str());
        let ghost before = list@;
        list.push(j);
        proof {
            assert forall|k: int| 0 <= k <= i implies #[trigger] items_view(list@)[k] == songs_view(
                songs@,
                album.id@,
            )[k] by {
                if k < i {
                    assert(list@[k] == before[k]);
                    assert(items_view(before)[k] == songs_view(songs@, album.id@).take(i as int)[k]);
                }
            }
            assert(items_view(list@) =~= songs_view(songs@, album.id@).take(i + 1));
        }
        i += 1;
    }
    proof {
        assert(songs@.take(songs@.len() as int) =~= songs@);
        assert(songs_view(songs@, album.id@).take(songs@.len() as int) =~= songs_view(songs@, album.id@));
        lemma_jview_array(list);
    }
    let count = list.len();
    let ghost created_v = created@;
    let mut m: Vec<(String, Json)> = Vec::new();
    assert(members_view(m@) =~= Seq::<(Seq<char>, JsonView)>::empty());
    push_member(&mut m, "id", Json::Str(album.id.clone()));
    push_member(&mut m, "name", Json::Str(album.title.clone()));
    push_member(&mut m, "artist", Json::Str(album.artist.clone()));
    push_member(&mut m, "songCount", Json::Number(string_of(u64_decimal(count as u64).as_slice())));
    push_member(&mut m, "duration", Json::Number(string_of(i64_decimal(total).as_slice())));
    push_member(&mut m, "created", Json::Str(created));
    push_member(&mut m, "song", Json::Array(list));
    proof {
        assert(members_view(m@) =~= seq![
            ("id"@, JsonView::Str(album.id@)),
            ("name"@, JsonView::Str(album.title@)),
            ("artist"@, JsonView::Str(album.artist@)),
            ("songCount"@, JsonView::Number(decimal(songs@.len()))),
            ("duration"@, JsonView::Number(signed_decimal(songs_total(songs@)))),
            ("created"@, JsonView::Str(created_v)),
            ("song"@, JsonView::Array(songs_view(songs@, album.id@))),
        ]);
    }
    if album_artwork_url(album, payload).is_some() {
        push_member(&mut m, "coverArt", Json::Str(album.id.clone()));
    }
    match release_year(&album.release_date) {
        Some(y) => push_member(&mut m, "year", Json::Number(string_of(i64_decimal(y).as_slice()))),
        None => {},
    }
    proof {
        lemma_jview_object(m);
    }
    Json::Object(m)
}

// ----------------------------------------------------------------- XML

/// A song of a virtual album as an empty `song` element: the entry's
/// attributes with the album id after the album name, and the track and
/// disc numbers after the duration when the catalog numbers it.
pub open spec fn album_song_tag(song: SongEntry, track: AlbumTrackPayload, album_id: Seq<char>) -> Seq<char> {
    "song"@ + attr_text("id"@, song.id@) + attr_text("isDir"@, "false"@) + attr_text("isVideo"@, "false"@)
        + attr_text("type"@, "music"@) + attr_text("title"@, song.title@) + attr_text("artist"@, song.artist@)
        + opt_attr_text("album"@, opt_seq(song.album)) + attr_text("albumId"@, album_id) + opt_attr_text(
        "coverArt"@,
        opt_seq(song.cover_art),
    ) + opt_attr_text("duration"@, opt_number(song.duration_secs)) + opt_attr_text(
        "track"@,
        opt_number(track.track_number),
    ) + opt_attr_text("discNumber"@, opt_number(track.disc_number)) + attr_text("suffix"@, song.suffix@)
        + attr_text("contentType"@, song.content_type@) + attr_text("bitRate"@, decimal(song.bit_rate as nat))
        + opt_attr_text("size"@, opt_number(song.size)) + attr_text("created"@, song.created@)
}

pub fn song_xml(song: &SongEntry, track: &AlbumTrackPayload, album_id: &str) -> (r: Vec<char>)
    ensures
        r@ == written(XmlKind::Empty, album_song_tag(*song, *track, album_id@)),
{
    let mut tag = chars_of("song");
    push_attr(&mut tag, "id", song.id.as_str());
    push_attr(&mut tag, "isDir", "false");
    push_attr(&mut tag, "isVideo", "false");
    push_attr(&mut tag, "type", "music");
    push_attr(&mut tag, "title", song.title.as_str());
    push_attr(&mut tag, "artist", song.artist.as_str());
    push_opt_attr(&mut tag, "album", &song.album);
    push_attr(&mut tag, "albumId", album_id);
    push_opt_attr(&mut tag, "coverArt", &song.cover_art);
    push_opt_number_attr(&mut tag, "duration", song.duration_secs);
    push_opt_number_attr(&mut tag, "track", track.track_number);
    push_opt_number_attr(&mut tag, "discNumber", track.disc_number);
    push_attr(&mut tag, "suffix", song.suffix);
    push_attr(&mut tag, "contentType", song.content_type);
    push_attr(&mut tag, "bitRate", string_of(u64_decimal(song.bit_rate as u64).as_slice()).as_str());
    push_opt_number_attr(&mut tag, "size", song.size);
    push_attr(&mut tag, "created", song.created.as_str());
    assert(tag@ =~= album_song_tag(*song, *track, album_id@));
    let mut out: Vec<char> = Vec::new();
    write_event(&mut out, XmlKind::Empty, tag.as_slice());
    out
}

pub open spec fn album_songs_xml(songs: Seq<(SongEntry, AlbumTrackPayload)>, album_id: Seq<char>) -> Seq<char>
    decreases songs.len(),
{
    if songs.len() == 0 {
        Seq::empty()
    } else {
        album_songs_xml(songs.drop_last(), album_id) + written(
            XmlKind::Empty,
            album_song_tag(songs.last().0, songs.last().1, album_id),
        )
    }
}

proof fn lemma_utf8_bytes_grow(s: Seq<char>, j: int, k: int)
    requires
        0 <= j < k <= s.len(),
    ensures
        utf8_bytes(s.take(j)) < utf8_bytes(s.take(k)),
    decreases k - j,
{
    assert(s.take(k).drop_last() =~= s.take(k - 1));
    if j < k - 1 {
        lemma_utf8_bytes_grow(s, j, k - 1);
    }
}

/// The first characters of `s` that make up exactly `n` bytes of UTF-8,
/// when a character ends there (what `str::get(0..n)` gives).
pub open spec fn byte_prefix(s: Seq<char>, n: nat) -> Option<Seq<char>> {
    if exists|k: int| 0 <= k <= s.len() && #[trigger] utf8_bytes(s.take(k)) == n {
        Some(s.take(choose|k: int| 0 <= k <= s.len() && #[trigger] utf8_bytes(s.take(k)) == n))
    } else {
        None
    }
}

/// The year as written in an XML album: the first four bytes of its release
/// date, when they end on a character.
pub open spec fn year_text(date: Option<String>) -> Option<Seq<char>> {
    match date {
        Some(d) => byte_prefix(d@, 4),
        None => None,
    }
}

fn first_four_bytes(s: &str) -> (r: Option<String>)
    ensures
        opt_seq(r) == byte_prefix(s@, 4),
{
    let c = chars_of(s);
    let mut k: usize = 0;
    let mut bytes: usize = 0;
    while k < c.len() && bytes < 4
        invariant
            k <= c@.len(),
            c@ == s@,
            bytes == utf8_bytes(c@.take(k as int)),
            bytes <= 4,
        decreases c@.len() - k,
    {
        proof {
            assert(c@.take(k + 1).drop_last() =~= c@.take(k as int));
            assert(c@.take(k + 1).last() == c@[k as int]);
        }
        let w = utf8_len_exec(c[k]);
        if bytes + w > 4 {
            proof {
                assert(utf8_bytes(c@.take(k + 1)) > 4);
                assert forall|j: int| 0 <= j <= c@.len() implies #[trigger] utf8_bytes(c@.take(j)) != 4 by {
                    if j <= k {
                        if j < k {
                            lemma_utf8_bytes_grow(c@, j, k as int);
                        }
                    } else {
                        if j > k + 1 {
                            lemma_utf8_bytes_grow(c@, k + 1, j);
                        }
                    }
                }
            }
            return None;
        }
        bytes = bytes + w;
        k += 1;
    }
    if bytes == 4 {
        proof {
            assert(utf8_bytes(c@.take(k as int)) == 4);
            let kk = choose|j: int| 0 <= j <= s@.len() && #[trigger] utf8_bytes(s@.take(j)) == 4;
            if kk < k {
                lemma_utf8_bytes_grow(c@, kk, k as int);
            } else if kk > k {
                lemma_utf8_bytes_grow(c@, k as int, kk);
            }
        }
        Some(string_of(slice_chars(c.as_slice(), 0, k).as_slice()))
    } else {
        proof {
            assert(k == c@.len());
            assert(c@.take(k as int) =~= c@);
            assert forall|j: int| 0 <= j <= c@.len() implies #[trigger] utf8_bytes(c@.take(j)) != 4 by {
                if j < k {
                    lemma_utf8_bytes_grow(c@, j, k as int);
                }
            }
        }
        None
    }
}

/// The XML `album` element of a virtual album created at `created`: the
/// album's attributes (the album id as cover when it has artwork, the year
/// when its release date has one), then its songs.
pub open spec fn album_xml_spec(
    album: VirtualAlbum,
    has_artwork: bool,
    songs: Seq<(SongEntry, AlbumTrackPayload)>,
    created: Seq<char>,
) -> Seq<char> {
    written(
        XmlKind::Start,
        "album"@ + attr_text("id"@, album.id@) + attr_text("name"@, album.title@) + attr_text(
            "artist"@,
            album.artist@,
        ) + (if has_artwork { attr_text("coverArt"@, album.id@) } else { Seq::empty() }) + attr_text(
            "songCount"@,
            decimal(songs.len()),
        ) + attr_text("duration"@, signed_decimal(songs_total(songs))) + attr_text("created"@, created)
            + opt_attr_text("year"@, year_text(album.release_date)),
    ) + album_songs_xml(songs, album.id@) + written(XmlKind::End, "album"@)
}

/// The XML `album` element of a virtual album (see `album_xml_spec`); it has
/// artwork of its own or in its parsed payload's tracks.
pub fn album_xml(
    album: &VirtualAlbum,
    payload: Option<&AlbumPayload>,
    songs: &Vec<(SongEntry, AlbumTrackPayload)>,
    created: &str,
) -> (r: Vec<char>)
    requires
        songs_totals_fit(songs@),
    ensures
        r@ == album_xml_spec(
            *album,
            album.artwork_url is Some || match payload {
                Some(p) => first_track_artwork(p.tracks@) is Some,
                None => false,
            },
            songs@,
            created@,
        ),
{
    let mut total: i64 = 0;
    let mut body: Vec<char> = Vec::new();
    let mut i: usize = 0;
    while i < songs.len()
        invariant
            i <= songs@.len(),
            songs_totals_fit(songs@),
            total == songs_total(songs@.take(i as int)),
            body@ == album_songs_xml(songs@.take(i as int), album.id@),
        decreases songs@.len() - i,
    {
        proof {
            assert(songs@.take(i + 1).drop_last() =~= songs@.take(i as int));
            assert(songs@.take(i + 1).last() == songs@[i as int]);
            assert(i64::MIN <= songs_total(songs@.take(i + 1)) <= i64::MAX);
        }
        match songs[i].0.duration_secs {
            Some(d) => {
                total = total + d;
            },
            None => {},
        }
        let piece = song_xml(&songs[i].0, &songs[i].1, album.id.as_str());
        extend_chars(&mut body, piece.as_slice());
        i += 1;
    }
    assert(songs@.take(songs@.len() as int) =~= songs@);
    let mut tag = chars_of("album");
    push_attr(&mut tag, "id", album.id.as_str());
    push_attr(&mut tag, "name", album.title.as_str());
    push_attr(&mut tag, "artist", album.artist.as_str());
    let ghost before_cover = tag@;
    if album_artwork_url(album, payload).is_some() {
        push_attr(&mut tag, "coverArt", album.id.as_str());
    } else {
        assert(tag@ =~= before_cover + Seq::<char>::empty());
    }
    push_attr(&mut tag, "songCount", string_of(u64_decimal(songs.len() as u64).as_slice()).as_str());
    push_attr(&mut tag, "duration", string_of(i64_decimal(total).as_slice()).as_str());
    push_attr(&mut tag, "created", created);
    let year = match &album.release_date {
        Some(d) => first_four_bytes(d.as_str()),
        None => None,
    };
    push_opt_attr(&mut tag, "year", &year);
    let mut out: Vec<char> = Vec::new();
    write_event(&mut out, XmlKind::Start, tag.as_slice());
    extend_chars(&mut out, body.as_slice());
    let end = chars_of("album");
    write_event(&mut out, XmlKind::End, end.as_slice());
    let ghost has = album.artwork_url is Some || match payload {
        Some(p) => first_track_artwork(p.tracks@) is Some,
        None => false,
    };
    assert(out@ =~= album_xml_spec(*album, has, songs@, created@));
    out
}

} // verus!
