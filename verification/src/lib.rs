//! Companion library for keeping a game's community localization files in
//! sync: it locates installed game channels from the launcher's log, decides
//! when a local localization file is stale against a remote source, rewrites
//! branding markers, maintains an offline cache index, and drives a cancellable
//! background polling loop.
pub mod backup;
pub mod branding;
pub mod cache;
pub mod cfgfile;
pub mod commits;
pub mod discord;
pub mod discovery;
pub mod poller;
pub mod prefs;
pub mod records;
pub mod stats;
pub mod text;
pub mod translation;
pub mod web;
