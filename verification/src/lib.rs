//! Client-side state synchronization for a manga-reading catalog browser.
//!
//! The crate verifies the logic that coordinates catalog data on the client:
//! a fetch coordinator that caches results, deduplicates in-flight requests
//! and fans results out to subscribers; a numeric ordering on chapter-number
//! strings; a reader navigation state machine that crosses chapter boundaries;
//! an image-preload queue; scroll reconciliation for the continuous view; and
//! a view-preference store with a persisted encoding.

pub mod catalog;
pub mod chapter_order;
pub mod coordinator;
pub mod model;
pub mod nav;
pub mod prefs;
pub mod reader;
pub mod route;
pub mod scroll;
