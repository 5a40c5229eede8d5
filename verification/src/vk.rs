//! The VK Music helper bridge: which tracks and media it describes, when it
//! may be asked, and how it is started. Running it is the program's edge.
use vstd::prelude::*;

use crate::config::Vk;
use crate::text::{chars_of, copy_str, trim, trim_chars};

verus! {

pub const PROVIDER: &'static str = "vk";

/// Metadata the helper returns for a VK audio id.
#[derive(Debug, Clone)]
pub struct VkTrack {
    pub track_id: String,
    pub artist: String,
    pub title: String,
    pub album: Option<String>,
    pub duration_ms: Option<i64>,
    pub artwork_url: Option<String>,
}

/// The playable media for a VK audio id.
#[derive(Debug, Clone)]
pub struct VkMedia {
    /// Direct media URL (usually an HLS `.m3u8`); consumed by ffmpeg.
    pub url: String,
    pub codec: Option<String>,
}

/// VK is enabled and has a non-blank access token.
pub fn available(config: &Vk) -> (r: bool)
    ensures
        r == (config.enabled && trim(config.access_token@).len() > 0),
{
    if !config.enabled {
        return false;
    }
    let t = trim_chars(chars_of(config.access_token.as_str()).as_slice());
    t.len() > 0
}

/// What `std::path::Path::ends_with` answers for two paths (a
/// whole-component suffix test).
pub uninterp spec fn path_ends_with(path: Seq<char>, suffix: Seq<char>) -> bool;

/// `Path::new(path).ends_with(suffix)`; the component rules are named, not
/// spelled out.
#[verifier::external_body]
pub(crate) fn path_has_suffix(path: &str, suffix: &str) -> (r: bool)
    ensures
        r == path_ends_with(path@, suffix@),
{
    std::path::Path::new(path).ends_with(suffix)
}

/// The helper checked out in the source tree is a Python script.
pub open spec fn is_source_helper(helper_path: Seq<char>) -> bool {
    path_ends_with(helper_path, "scripts/songarr-vk"@)
}

/// Program and arguments that start the helper: an installed helper runs
/// directly; the source-tree script runs through `python` (the virtualenv's
/// interpreter when the caller found one, else `python3`).
pub fn helper_invocation(helper_path: &str, venv_python: Option<String>) -> (r: (String, Vec<String>))
    ensures
        !is_source_helper(helper_path@) ==> r.0@ == helper_path@ && r.1@.len() == 0,
        is_source_helper(helper_path@) ==> r.1@.len() == 1 && r.1@[0]@ == helper_path@ && r.0@
            == (match venv_python {
            Some(p) => p@,
            None => "python3"@,
        }),
{
    if !path_has_suffix(helper_path, "scripts/songarr-vk") {
        return (copy_str(helper_path), Vec::new());
    }
    let program = match venv_python {
        Some(p) => p,
        None => copy_str("python3"),
    };
    let mut args: Vec<String> = Vec::new();
    args.push(copy_str(helper_path));
    (program, args)
}

/// How long to wait for the helper: the configured seconds, at least one.
pub fn helper_timeout_secs(config: &Vk) -> (r: u64)
    ensures
        r == (if config.api_timeout_secs < 1 {
            1
        } else {
            config.api_timeout_secs
        }),
{
    if config.api_timeout_secs < 1 {
        1
    } else {
        config.api_timeout_secs
    }
}

} // verus!
