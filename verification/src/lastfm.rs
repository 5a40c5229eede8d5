//! Last.fm recommendation voter: similar and top tracks become candidates
//! when they name an artist and a title.
use vstd::prelude::*;

use crate::recs::{cands_view, CandidateView, RecCandidate};
use crate::text::{chars_of, parse_i64, parse_i64_spec, trim, trim_chars};

verus! {

/// A track's artist, which Last.fm sends either as an object or as a name.
#[derive(Debug)]
pub enum ArtistField {
    Object { name: String },
    Name(String),
}

/// One track of a Last.fm track list; `duration` is in seconds, as text.
#[derive(Debug)]
pub struct Track {
    pub name: String,
    pub artist: ArtistField,
    pub duration: Option<String>,
}

pub open spec fn field_name(a: ArtistField) -> Seq<char> {
    match a {
        ArtistField::Object { name } => name@,
        ArtistField::Name(name) => name@,
    }
}

impl ArtistField {
    pub fn name(self) -> (r: String)
        ensures
            r@ == field_name(self),
    {
        match self {
            ArtistField::Object { name } => name,
            ArtistField::Name(name) => name,
        }
    }
}

/// A positive whole number of seconds as milliseconds; anything else (and
/// a count too large for `i64` milliseconds) is no duration.
pub open spec fn duration_ms_of(d: Option<String>) -> Option<i64> {
    match d {
        Some(text) => match parse_i64_spec(text@) {
            Some(secs) => if 0 < secs && secs * 1000 <= i64::MAX {
                Some((secs * 1000) as i64)
            } else {
                None
            },
            None => None,
        },
        None => None,
    }
}

/// The candidate of a track: none without an artist name or a non-blank
/// title.
pub open spec fn track_candidate(t: Track) -> Option<CandidateView> {
    if field_name(t.artist).len() == 0 || trim(t.name@).len() == 0 {
        None
    } else {
        Some(
            CandidateView {
                artist: field_name(t.artist),
                title: t.name@,
                album: None,
                duration_ms: duration_ms_of(t.duration),
                isrc: None,
                artwork_url: None,
                provider: None,
                provider_track_id: None,
                video_id: None,
            },
        )
    }
}

impl Track {
    pub fn into_candidate(self) -> (r: Option<RecCandidate>)
        ensures
            match r {
                Some(c) => track_candidate(self) == Some(c@),
                None => track_candidate(self) is None,
            },
    {
        let ghost t = self;
        let artist = self.artist.name();
        let name = self.name;
        let duration = self.duration;
        if chars_of(artist.as_str()).len() == 0 || trim_chars(chars_of(name.as_str()).as_slice()).len()
            == 0 {
            return None;
        }
        let duration_ms: Option<i64> = match &duration {
            Some(text) => match parse_i64(chars_of(text.as_str()).as_slice()) {
                Some(secs) => if 0 < secs && secs <= i64::MAX / 1000 {
                    Some(secs * 1000)
                } else {
                    None
                },
                None => None,
            },
            None => None,
        };
        assert(duration_ms == duration_ms_of(t.duration));
        Some(
            RecCandidate {
                artist,
                title: name,
                album: None,
                duration_ms,
                isrc: None,
                artwork_url: None,
                provider: None,
                provider_track_id: None,
                video_id: None,
            },
        )
    }
}

/// The candidates of a track list, in order, skipping unusable tracks.
pub open spec fn tracks_candidates(tracks: Seq<Track>) -> Seq<CandidateView>
    decreases tracks.len(),
{
    if tracks.len() == 0 {
        Seq::empty()
    } else {
        (match track_candidate(tracks[0]) {
            Some(c) => seq![c],
            None => Seq::empty(),
        }) + tracks_candidates(tracks.drop_first())
    }
}

pub fn candidates_from_tracks(tracks: Vec<Track>) -> (r: Vec<RecCandidate>)
    ensures
        cands_view(r@) == tracks_candidates(tracks@),
{
    let ghost all = tracks@;
    let mut rest = tracks;
    let mut out: Vec<RecCandidate> = Vec::new();
    proof {
        assert(cands_view(out@) + tracks_candidates(all) =~= tracks_candidates(all));
    }
    while rest.len() > 0
        invariant
            tracks_candidates(all) == cands_view(out@) + tracks_candidates(rest@),
        decreases rest@.len(),
    {
        let ghost r0 = rest@;
        let ghost before = cands_view(out@);
        let t = rest.remove(0);
        proof {
            assert(rest@ =~= r0.drop_first());
        }
        match t.into_candidate() {
            Some(c) => {
                out.push(c);
                proof {
                    assert(cands_view(out@) =~= before.push(c@));
                    assert(before + (seq![c@] + tracks_candidates(rest@)) =~= cands_view(out@)
                        + tracks_candidates(rest@));
                }
            },
            None => {
                proof {
                    assert(before + (Seq::<CandidateView>::empty() + tracks_candidates(rest@))
                        =~= before + tracks_candidates(rest@));
                }
            },
        }
    }
    proof {
        assert(rest@ =~= Seq::<Track>::empty());
        assert(cands_view(out@) + Seq::<CandidateView>::empty() =~= cands_view(out@));
    }
    out
}

} // verus!
