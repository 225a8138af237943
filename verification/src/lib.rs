//! Core of a live-broadcast chess watcher: it recognizes when a new,
//! distinct game involving a watched engine has started and decides who to
//! notify.
//!
//! - [`pgn`] parses a game-notation document into players, date, event and
//!   an ordered list of moves flagged as book or played, and derives the
//!   fingerprint that identifies a logical game across re-fetches.
//! - [`live`] normalizes engine names (case, bitness marker, version token)
//!   so that differently spelled names of one engine compare equal, and
//!   addresses broadcast rooms.
//! - [`config`] holds per-user ordered pattern rules and the mapping from
//!   engine names to subscribers, with first-match-wins rule evaluation.
//! - [`state`] is the in-memory set of fingerprints already processed.
//! - [`notify`] takes the per-fetch decision: gate on out-of-book, dedup by
//!   fingerprint, match engines, apply rules, and collect the recipients.
//!
//! Fetching documents, delivering notifications and logging are left to the
//! surrounding program; this crate exposes pure, in-memory operations only.
pub mod config;
pub mod live;
pub mod notify;
pub mod pgn;
pub mod state;
pub mod text;
