//! The Yandex Music helper bridge: the records it returns and when each of
//! its commands may be used. Running it is the program's edge.
use vstd::prelude::*;

use crate::config::Yandex;
use crate::text::{chars_of, copy_str, trim, trim_chars};
use crate::vk::{path_ends_with, path_has_suffix};

verus! {

pub const PROVIDER: &'static str = "yandex";

/// A track as the helper describes it.
#[derive(Debug, Clone)]
pub struct YandexTrack {
    pub track_id: String,
    pub artist: String,
    pub title: String,
    pub album: Option<String>,
    pub duration_ms: Option<i64>,
    pub isrc: Option<String>,
    pub artwork_url: Option<String>,
}

/// A download the helper resolved for a track.
#[derive(Debug, Clone)]
pub struct YandexDownload {
    pub url: String,
    pub codec: Option<String>,
    pub bitrate_kbps: Option<i64>,
}

/// Yandex is enabled and has a non-blank access token.
pub fn available(config: &Yandex) -> (r: bool)
    ensures
        r == (config.enabled && trim(config.access_token@).len() > 0),
{
    if !config.enabled {
        return false;
    }
    let t = trim_chars(chars_of(config.access_token.as_str()).as_slice());
    t.len() > 0
}

/// Search asks the helper only when Yandex is available and enabled for
/// search; otherwise it answers with no tracks.
pub fn search_enabled(config: &Yandex) -> (r: bool)
    ensures
        r == (config.enabled && trim(config.access_token@).len() > 0 && config.use_for_search),
{
    available(config) && config.use_for_search
}

/// The wave asks the helper only when Yandex is available and enabled for
/// the wave; otherwise it answers with no tracks.
pub fn wave_enabled(config: &Yandex) -> (r: bool)
    ensures
        r == (config.enabled && trim(config.access_token@).len() > 0 && config.use_for_wave),
{
    available(config) && config.use_for_wave
}

/// Downloads for import need Yandex available and enabled for import;
/// otherwise they fail.
pub fn import_enabled(config: &Yandex) -> (r: bool)
    ensures
        r == (config.enabled && trim(config.access_token@).len() > 0 && config.use_for_import),
{
    available(config) && config.use_for_import
}

/// How long to wait for the helper: the configured seconds, at least one.
pub fn helper_timeout_secs(config: &Yandex) -> (r: u64)
    ensures
        r == (if config.api_timeout_secs < 1 {
            1
        } else {
            config.api_timeout_secs
        }),
{
    if config.api_timeout_secs < 1 {
        1
    } else {
        config.api_timeout_secs
    }
}

// ------------------------------------------------------------- login

/// The helper `yandex login` runs: a non-blank configured path, else the
/// source-tree script when it exists, else the installed helper.
pub fn login_helper_path(configured: Option<String>, local_script_exists: bool) -> (r: String)
    ensures
        match configured {
            Some(p) if trim(p@).len() > 0 => r@ == p@,
            _ => r@ == (if local_script_exists {
                "scripts/songarr-yandex"@
            } else {
                "/usr/local/bin/songarr-yandex"@
            }),
        },
{
    match configured {
        Some(p) => {
            if trim_chars(chars_of(p.as_str()).as_slice()).len() > 0 {
                return p;
            }
        },
        None => {},
    }
    if local_script_exists {
        copy_str("scripts/songarr-yandex")
    } else {
        copy_str("/usr/local/bin/songarr-yandex")
    }
}

/// The source-tree login helper is a Python script.
pub open spec fn is_source_login_helper(helper_path: Seq<char>) -> bool {
    path_ends_with(helper_path, "scripts/songarr-yandex"@)
}

/// Program and arguments that start the login helper: an installed helper
/// runs directly; the source-tree script runs through `python` (the
/// virtualenv's interpreter when the caller found one, else `python3`).
pub fn login_invocation(helper_path: &str, venv_python: Option<String>) -> (r: (String, Vec<String>))
    ensures
        !is_source_login_helper(helper_path@) ==> r.0@ == helper_path@ && r.1@.len() == 0,
        is_source_login_helper(helper_path@) ==> r.1@.len() == 1 && r.1@[0]@ == helper_path@ && r.0@
            == (match venv_python {
            Some(p) => p@,
            None => "python3"@,
        }),
{
    if !path_has_suffix(helper_path, "scripts/songarr-yandex") {
        return (copy_str(helper_path), Vec::new());
    }
    let program = match venv_python {
        Some(p) => p,
        None => copy_str("python3"),
    };
    let args = vec![copy_str(helper_path)];
    (program, args)
}

} // verus!
