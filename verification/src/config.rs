//! Configuration sections and their defaults. Reading and parsing the file
//! happens at the edge of the program; these are the values it fills.
use vstd::prelude::*;

use crate::text::{ascii_lower_seq, chars_of, copy_str, seq_eq, trim};

verus! {

#[derive(Debug, Clone)]
pub struct Yandex {
    pub enabled: bool,
    /// Path to the JSON helper.
    pub helper_path: String,
    /// Server-side account tokens; empty keeps the provider inactive.
    pub access_token: String,
    pub refresh_token: String,
    pub use_for_wave: bool,
    pub use_for_search: bool,
    pub use_for_import: bool,
    pub api_timeout_secs: u64,
}

impl Default for Yandex {
    fn default() -> (r: Self)
        ensures
            !r.enabled,
            r.helper_path@ == "/usr/local/bin/songarr-yandex"@,
            r.access_token@.len() == 0,
            r.refresh_token@.len() == 0,
            r.use_for_wave,
            r.use_for_search,
            r.use_for_import,
            r.api_timeout_secs == 10,
    {
        Yandex {
            enabled: false,
            helper_path: copy_str("/usr/local/bin/songarr-yandex"),
            access_token: String::new(),
            refresh_token: String::new(),
            use_for_wave: true,
            use_for_search: true,
            use_for_import: true,
            api_timeout_secs: 10,
        }
    }
}

/// VK Music helper settings.
#[derive(Debug, Clone)]
pub struct Vk {
    pub enabled: bool,
    pub helper_path: String,
    pub access_token: String,
    pub api_timeout_secs: u64,
}

impl Default for Vk {
    fn default() -> (r: Self)
        ensures
            !r.enabled,
            r.helper_path@ == "/usr/local/bin/songarr-vk"@,
            r.access_token@.len() == 0,
            r.api_timeout_secs == 10,
    {
        Vk {
            enabled: false,
            helper_path: copy_str("/usr/local/bin/songarr-vk"),
            access_token: String::new(),
            api_timeout_secs: 10,
        }
    }
}

#[derive(Debug, Clone)]
pub struct Lyrics {
    /// getLyricsBySongId fallback lookup for tracks without library lyrics.
    pub enabled: bool,
    pub lrclib_api_base: String,
}

impl Default for Lyrics {
    fn default() -> (r: Self)
        ensures
            r.enabled,
            r.lrclib_api_base@ == "https://lrclib.net"@,
    {
        Lyrics { enabled: true, lrclib_api_base: copy_str("https://lrclib.net") }
    }
}

#[derive(Debug, Clone)]
pub struct ArtistExpansion {
    pub enabled: bool,
    pub max_albums: u32,
    pub max_tracks_per_album: u32,
    pub cache_ttl_hours: u32,
    pub include_singles: bool,
    pub include_top_tracks_album: bool,
    /// 0-100 resolver confidence required before using an artist catalog.
    pub min_artist_match_score: u32,
}

impl Default for ArtistExpansion {
    fn default() -> (r: Self)
        ensures
            r.enabled,
            r.max_albums == 12,
            r.max_tracks_per_album == 30,
            r.cache_ttl_hours == 168,
            r.include_singles,
            r.include_top_tracks_album,
            r.min_artist_match_score == 70,
    {
        ArtistExpansion {
            enabled: true,
            max_albums: 12,
            max_tracks_per_album: 30,
            cache_ttl_hours: 168,
            include_singles: true,
            include_top_tracks_album: true,
            min_artist_match_score: 70,
        }
    }
}

#[derive(Debug, Clone)]
pub struct Server {
    pub bind: String,
    pub db_path: String,
}

impl Default for Server {
    fn default() -> (r: Self)
        ensures
            r.bind@ == "0.0.0.0:4534"@,
            r.db_path@ == "/config/songarr.db"@,
    {
        Server { bind: copy_str("0.0.0.0:4534"), db_path: copy_str("/config/songarr.db") }
    }
}

#[derive(Debug, Clone)]
pub struct Navidrome {
    pub base_url: String,
    /// Admin credentials, used only for proxy-originated calls.
    pub admin_user: String,
    pub admin_password: String,
}

impl Default for Navidrome {
    fn default() -> (r: Self)
        ensures
            r.base_url@ == "http://navidrome:4533"@,
            r.admin_user@ == "admin"@,
            r.admin_password@.len() == 0,
    {
        Navidrome {
            base_url: copy_str("http://navidrome:4533"),
            admin_user: copy_str("admin"),
            admin_password: String::new(),
        }
    }
}

#[derive(Debug, Clone)]
pub struct Library {
    pub music_dir: String,
    pub ingest_subdir: String,
    pub staging_dir: String,
}

impl Default for Library {
    fn default() -> (r: Self)
        ensures
            r.music_dir@ == "/music"@,
            r.ingest_subdir@ == "_songarr"@,
            r.staging_dir@ == "/staging"@,
    {
        Library {
            music_dir: copy_str("/music"),
            ingest_subdir: copy_str("_songarr"),
            staging_dir: copy_str("/staging"),
        }
    }
}

#[derive(Debug, Clone, Copy, PartialEq, Eq)]
pub enum Provider {
    Deezer,
    Ytmusic,
    Yandex,
    Both,
}

#[derive(Debug, Clone)]
pub struct ExternalSearch {
    pub enabled: bool,
    pub provider: Provider,
    pub max_results: u32,
    pub min_query_len: u32,
    pub api_base_deezer: String,
}

impl Default for ExternalSearch {
    fn default() -> (r: Self)
        ensures
            r.enabled,
            r.provider == Provider::Deezer,
            r.max_results == 8,
            r.min_query_len == 3,
            r.api_base_deezer@ == "https://api.deezer.com"@,
    {
        ExternalSearch {
            enabled: true,
            provider: Provider::Deezer,
            max_results: 8,
            min_query_len: 3,
            api_base_deezer: copy_str("https://api.deezer.com"),
        }
    }
}

#[derive(Debug, Clone, Copy, PartialEq, Eq)]
pub enum StreamFormat {
    Opus,
    Mp3,
}

#[derive(Debug, Clone)]
pub struct Streaming {
    pub ytdlp_path: String,
    /// Egress proxy shared by yt-dlp and direct media fetches.
    pub ytdlp_proxy: String,
    /// Native innertube fast path, off by default.
    pub innertube: bool,
    pub innertube_api_base: String,
    pub format: StreamFormat,
    pub bitrate_kbps: u32,
    pub max_concurrent: u32,
    pub timeout_first_byte_secs: u64,
}

impl Default for Streaming {
    fn default() -> (r: Self)
        ensures
            r.ytdlp_path@ == "yt-dlp"@,
            r.ytdlp_proxy@.len() == 0,
            !r.innertube,
            r.innertube_api_base@ == "https://www.youtube.com"@,
            r.format == StreamFormat::Opus,
            r.bitrate_kbps == 160,
            r.max_concurrent == 3,
            r.timeout_first_byte_secs == 12,
    {
        Streaming {
            ytdlp_path: copy_str("yt-dlp"),
            ytdlp_proxy: String::new(),
            innertube: false,
            innertube_api_base: copy_str("https://www.youtube.com"),
            format: StreamFormat::Opus,
            bitrate_kbps: 160,
            max_concurrent: 3,
            timeout_first_byte_secs: 12,
        }
    }
}

#[derive(Debug, Clone)]
pub struct Ingest {
    pub auto_import: bool,
    pub min_score_for_import: u32,
    /// Rolling playlist of imports; empty disables.
    pub write_playlist: String,
    pub poll_secs: u64,
}

impl Default for Ingest {
    fn default() -> (r: Self)
        ensures
            r.auto_import,
            r.min_score_for_import == 80,
            r.write_playlist@ == "Songarr Played.m3u"@,
            r.poll_secs == 5,
    {
        Ingest {
            auto_import: true,
            min_score_for_import: 80,
            write_playlist: copy_str("Songarr Played.m3u"),
            poll_secs: 5,
        }
    }
}

#[derive(Debug, Clone, Copy, PartialEq, Eq)]
pub enum UpgradeMode {
    Off,
    SoulsyncWishlist,
}

#[derive(Debug, Clone)]
pub struct Upgrade {
    pub mode: UpgradeMode,
    pub soulsync_url: String,
}

impl Default for Upgrade {
    fn default() -> (r: Self)
        ensures
            r.mode == UpgradeMode::Off,
            r.soulsync_url@ == "http://soulsync:8888"@,
    {
        Upgrade { mode: UpgradeMode::Off, soulsync_url: copy_str("http://soulsync:8888") }
    }
}

#[derive(Debug, Clone)]
pub struct Users {
    pub default_can_trigger_downloads: bool,
    /// Usernames who get passthrough-only behavior.
    pub deny: Vec<String>,
}

impl Default for Users {
    fn default() -> (r: Self)
        ensures
            r.default_can_trigger_downloads,
            r.deny@.len() == 0,
    {
        Users { default_can_trigger_downloads: true, deny: Vec::new() }
    }
}

/// Whether `name` is one of the denied users.
pub fn is_denied(users: &Users, name: &str) -> (r: bool)
    ensures
        r == exists|i: int| 0 <= i < users.deny@.len() && (#[trigger] users.deny@[i])@ == name@,
{
    let mut i: usize = 0;
    while i < users.deny.len()
        invariant
            i <= users.deny@.len(),
            forall|j: int| 0 <= j < i ==> (#[trigger] users.deny@[j])@ != name@,
        decreases users.deny.len() - i,
    {
        if crate::text::str_eq(users.deny[i].as_str(), name) {
            return true;
        }
        i += 1;
    }
    false
}

/// An environment switch value that turns a feature on: `1`, `true`,
/// `yes` or `on`, ignoring surrounding whitespace and ASCII case.
pub open spec fn flag_on_spec(value: Seq<char>) -> bool {
    let v = ascii_lower_seq(trim(value));
    v == "1"@ || v == "true"@ || v == "yes"@ || v == "on"@
}

pub fn flag_on(value: &str) -> (r: bool)
    ensures
        r == flag_on_spec(value@),
{
    let c = chars_of(value);
    let t = crate::text::trim_chars(c.as_slice());
    let v = crate::text::ascii_lower_chars(t.as_slice());
    let is = |lit: &str| -> (b: bool)
        ensures
            b == (v@ == lit@),
        {
            let l = chars_of(lit);
            seq_eq(v.as_slice(), l.as_slice())
        };
    is("1") || is("true") || is("yes") || is("on")
}

/// Overrides read from the environment, applied to the Yandex section:
/// the switch, a non-blank helper path, and both tokens.
pub fn apply_yandex_overrides(
    yandex: &mut Yandex,
    enabled: Option<String>,
    helper_path: Option<String>,
    access_token: Option<String>,
    refresh_token: Option<String>,
)
    ensures
        final(yandex).enabled == match enabled {
            Some(v) => flag_on_spec(v@),
            None => old(yandex).enabled,
        },
        final(yandex).helper_path == match helper_path {
            Some(p) => if trim(p@).len() > 0 {
                p
            } else {
                old(yandex).helper_path
            },
            None => old(yandex).helper_path,
        },
        final(yandex).access_token == match access_token {
            Some(t) => t,
            None => old(yandex).access_token,
        },
        final(yandex).refresh_token == match refresh_token {
            Some(t) => t,
            None => old(yandex).refresh_token,
        },
        final(yandex).use_for_wave == old(yandex).use_for_wave,
        final(yandex).use_for_search == old(yandex).use_for_search,
        final(yandex).use_for_import == old(yandex).use_for_import,
        final(yandex).api_timeout_secs == old(yandex).api_timeout_secs,
{
    if let Some(v) = enabled {
        yandex.enabled = flag_on(v.as_str());
    }
    if let Some(p) = helper_path {
        let c = chars_of(p.as_str());
        if crate::text::trim_chars(c.as_slice()).len() > 0 {
            yandex.helper_path = p;
        }
    }
    if let Some(t) = access_token {
        yandex.access_token = t;
    }
    if let Some(t) = refresh_token {
        yandex.refresh_token = t;
    }
}

} // verus!
