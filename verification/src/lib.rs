//! Podcast-style RSS feeds over accounts that yt-dlp can read: the decisions
//! of the server, with their contracts.
pub mod auth;
pub mod cache;
pub mod cleanup;
pub mod config;
pub mod digest;
pub mod download;
pub mod exchange;
pub mod html;
pub mod identity;
pub mod markup;
pub mod media;
pub mod metadata;
pub mod paths;
pub mod pip_tool_update;
pub mod progress;
pub mod routes;
pub mod rss_feed;
pub mod stream;
pub mod text;
pub mod timestamp;
pub mod transfer;
pub mod urls;
