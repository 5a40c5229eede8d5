//! Streaming a virtual track: the processes a stream runs and how its
//! outcome is recorded. Spawning yt-dlp and ffmpeg, piping bytes and
//! answering the client happen at the program's edge.
use vstd::prelude::*;

use crate::config::{StreamFormat, Streaming};
use crate::text::{chars_of, copy_str, decimal, extend_chars, string_of, u64_decimal};
use crate::vtrack::VirtualTrack;

verus! {

/// When the client leaves, the download continues only if at least this
/// much source audio was already fetched.
pub const KEEP_DOWNLOAD_MIN_BYTES: u64 = 262144;

/// Safety net against zombie pipelines.
pub const PIPELINE_MAX_SECS: u64 = 1800;

/// How a stream request for an id is served.
#[derive(Debug, Clone, PartialEq, Eq)]
pub enum StreamRoute {
    /// Not a virtual id: forwarded to the library server.
    Passthrough,
    /// No such virtual track.
    NotFound,
    /// Already imported: forwarded with the real id (seeking works).
    Real { real_id: String },
    /// Resolved and piped live.
    Pipeline,
}

pub fn stream_route(is_virtual: bool, track: Option<&VirtualTrack>) -> (r: StreamRoute)
    ensures
        !is_virtual ==> r == StreamRoute::Passthrough,
        is_virtual && track is None ==> r == StreamRoute::NotFound,
        is_virtual && track is Some && track.unwrap().real_subsonic_id is Some ==> r
            == (StreamRoute::Real { real_id: track.unwrap().real_subsonic_id.unwrap() }),
        is_virtual && track is Some && track.unwrap().real_subsonic_id is None ==> r
            == StreamRoute::Pipeline,
{
    if !is_virtual {
        return StreamRoute::Passthrough;
    }
    match track {
        None => StreamRoute::NotFound,
        Some(t) => match &t.real_subsonic_id {
            Some(rid) => StreamRoute::Real { real_id: rid.clone() },
            None => StreamRoute::Pipeline,
        },
    }
}

pub open spec fn strs_view(v: Seq<String>) -> Seq<Seq<char>> {
    v.map_values(|s: String| s@)
}

fn push_str(v: &mut Vec<String>, s: &str)
    ensures
        strs_view(final(v)@) == strs_view(old(v)@).push(s@),
{
    let ghost before = v@;
    v.push(copy_str(s));
    proof {
        assert(strs_view(v@) =~= strs_view(before).push(s@));
    }
}

/// ffmpeg's arguments for the live transcode and the response's content
/// type: Opus in Ogg or MP3, at the configured bitrate, flushing each packet.
pub open spec fn transcode_spec(format: StreamFormat, kbps: u32) -> (Seq<Seq<char>>, Seq<char>) {
    let codec = if format == StreamFormat::Opus {
        seq!["-c:a"@, "libopus"@, "-f"@, "ogg"@]
    } else {
        seq!["-c:a"@, "libmp3lame"@, "-f"@, "mp3"@]
    };
    (
        seq!["-hide_banner"@, "-loglevel"@, "error"@, "-i"@, "pipe:0"@, "-vn"@, "-map"@, "a"@] + codec
            + seq!["-flush_packets"@, "1"@, "-b:a"@, decimal(kbps as nat) + "k"@, "pipe:1"@],
        if format == StreamFormat::Opus {
            "audio/ogg"@
        } else {
            "audio/mpeg"@
        },
    )
}

pub fn transcode_plan(streaming: &Streaming) -> (r: (Vec<String>, &'static str))
    ensures
        (strs_view(r.0@), r.1@) == transcode_spec(streaming.format, streaming.bitrate_kbps),
{
    let mut args: Vec<String> = Vec::new();
    push_str(&mut args, "-hide_banner");
    push_str(&mut args, "-loglevel");
    push_str(&mut args, "error");
    push_str(&mut args, "-i");
    push_str(&mut args, "pipe:0");
    push_str(&mut args, "-vn");
    push_str(&mut args, "-map");
    push_str(&mut args, "a");
    let content_type: &'static str = match streaming.format {
        StreamFormat::Opus => {
            push_str(&mut args, "-c:a");
            push_str(&mut args, "libopus");
            push_str(&mut args, "-f");
            push_str(&mut args, "ogg");
            "audio/ogg"
        },
        StreamFormat::Mp3 => {
            push_str(&mut args, "-c:a");
            push_str(&mut args, "libmp3lame");
            push_str(&mut args, "-f");
            push_str(&mut args, "mp3");
            "audio/mpeg"
        },
    };
    push_str(&mut args, "-flush_packets");
    push_str(&mut args, "1");
    push_str(&mut args, "-b:a");
    let mut rate = u64_decimal(streaming.bitrate_kbps as u64);
    rate.push('k');
    let rate_s = string_of(rate.as_slice());
    proof {
        reveal_strlit("k");
        assert(rate_s@ =~= decimal(streaming.bitrate_kbps as nat) + "k"@);
    }
    push_str(&mut args, rate_s.as_str());
    push_str(&mut args, "pipe:1");
    proof {
        let (want, ct) = transcode_spec(streaming.format, streaming.bitrate_kbps);
        reveal_strlit("k");
        assert(strs_view(args@) =~= want);
    }
    (args, content_type)
}

/// yt-dlp's arguments for piping the best audio of a URL to stdout, with
/// the manifest fetches skipped and the egress proxy when configured.
pub open spec fn ytdlp_source_spec(proxy: Seq<char>, url: Seq<char>) -> Seq<Seq<char>> {
    let base = seq![
        "-f"@,
        "bestaudio"@,
        "--no-warnings"@,
        "--no-playlist"@,
        "--extractor-args"@,
        "youtube:skip=hls,dash,translated_subs"@,
        "-o"@,
        "-"@,
        url,
    ];
    if proxy.len() > 0 {
        base + seq!["--proxy"@, proxy]
    } else {
        base
    }
}

pub fn ytdlp_source_args(streaming: &Streaming, url: &str) -> (r: Vec<String>)
    ensures
        strs_view(r@) == ytdlp_source_spec(streaming.ytdlp_proxy@, url@),
{
    let mut args: Vec<String> = Vec::new();
    push_str(&mut args, "-f");
    push_str(&mut args, "bestaudio");
    push_str(&mut args, "--no-warnings");
    push_str(&mut args, "--no-playlist");
    push_str(&mut args, "--extractor-args");
    push_str(&mut args, "youtube:skip=hls,dash,translated_subs");
    push_str(&mut args, "-o");
    push_str(&mut args, "-");
    push_str(&mut args, url);
    if chars_of(streaming.ytdlp_proxy.as_str()).len() > 0 {
        push_str(&mut args, "--proxy");
        push_str(&mut args, streaming.ytdlp_proxy.as_str());
    }
    proof {
        assert(strs_view(args@) =~= ytdlp_source_spec(streaming.ytdlp_proxy@, url@));
    }
    args
}

/// yt-dlp's arguments for the five-hit search that resolves a track.
pub open spec fn ytdlp_search_spec(proxy: Seq<char>, artist: Seq<char>, title: Seq<char>) -> Seq<Seq<char>> {
    let base = seq![
        "--dump-json"@,
        "--flat-playlist"@,
        "--no-warnings"@,
        "ytsearch5:"@ + artist + seq![' '] + title,
    ];
    if proxy.len() > 0 {
        base + seq!["--proxy"@, proxy]
    } else {
        base
    }
}

pub fn ytdlp_search_args(streaming: &Streaming, track: &VirtualTrack) -> (r: Vec<String>)
    ensures
        strs_view(r@) == ytdlp_search_spec(streaming.ytdlp_proxy@, track.artist@, track.title@),
{
    let mut args: Vec<String> = Vec::new();
    push_str(&mut args, "--dump-json");
    push_str(&mut args, "--flat-playlist");
    push_str(&mut args, "--no-warnings");
    let mut q = chars_of("ytsearch5:");
    extend_chars(&mut q, chars_of(track.artist.as_str()).as_slice());
    q.push(' ');
    extend_chars(&mut q, chars_of(track.title.as_str()).as_slice());
    let qs = string_of(q.as_slice());
    assert(qs@ =~= "ytsearch5:"@ + track.artist@ + seq![' '] + track.title@);
    push_str(&mut args, qs.as_str());
    if chars_of(streaming.ytdlp_proxy.as_str()).len() > 0 {
        push_str(&mut args, "--proxy");
        push_str(&mut args, streaming.ytdlp_proxy.as_str());
    }
    proof {
        assert(strs_view(args@) =~= ytdlp_search_spec(streaming.ytdlp_proxy@, track.artist@, track.title@));
    }
    args
}

/// How long the first source read may take: the first-byte timeout plus
/// thirty seconds.
pub fn first_read_grace_secs(streaming: &Streaming) -> (r: u64)
    requires
        streaming.timeout_first_byte_secs + 30 <= u64::MAX,
    ensures
        r == streaming.timeout_first_byte_secs + 30,
{
    streaming.timeout_first_byte_secs + 30
}

/// When the client stops reading, the download goes on to staging only
/// once enough was fetched to be worth keeping.
pub fn keep_downloading(staged: u64) -> (r: bool)
    ensures
        r == (staged >= KEEP_DOWNLOAD_MIN_BYTES),
{
    staged >= KEEP_DOWNLOAD_MIN_BYTES
}

/// How a finished pipeline is recorded: staged bytes make the job
/// `finalizing` and the track `staged`; no bytes or an error fail both with
/// a reason.
#[derive(Debug, Clone)]
pub struct PipelineRecord {
    pub job_status: &'static str,
    pub track_status: &'static str,
    pub reason: Option<String>,
}

pub fn pipeline_record(outcome: Result<u64, String>) -> (r: PipelineRecord)
    ensures
        match outcome {
            Ok(n) => if n > 0 {
                r.job_status@ == "finalizing"@ && r.track_status@ == "staged"@ && r.reason is None
            } else {
                r.job_status@ == "failed"@ && r.track_status@ == "failed"@ && r.reason is Some
                    && r.reason.unwrap()@ == "source produced no data"@
            },
            Err(e) => r.job_status@ == "failed"@ && r.track_status@ == "failed"@ && r.reason
                == Some(e),
        },
{
    match outcome {
        Ok(n) => {
            if n > 0 {
                PipelineRecord { job_status: "finalizing", track_status: "staged", reason: None }
            } else {
                PipelineRecord {
                    job_status: "failed",
                    track_status: "failed",
                    reason: Some(copy_str("source produced no data")),
                }
            }
        },
        Err(e) => PipelineRecord { job_status: "failed", track_status: "failed", reason: Some(e) },
    }
}

} // verus!
