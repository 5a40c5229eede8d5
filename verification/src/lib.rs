//! Verified core of a Subsonic proxy that enriches a music library with
//! virtual tracks from external catalogs.
pub mod album;
pub mod artist;
pub mod catalog;
pub mod config;
pub mod discord;
pub mod ingest;
pub mod ingest_url;
pub mod json;
pub mod lastfm;
pub mod listen;
pub mod lyrics;
pub mod merge;
pub mod playlists;
pub mod proxy;
pub mod recs;
pub mod remote;
pub mod resolve;
pub mod search;
pub mod similar;
pub mod stream;
pub mod subsonic;
pub mod text;
pub mod valbum;
pub mod vk;
pub mod vtrack;
pub mod wave;
pub mod yandex;
pub mod xml;
pub mod ytm;
