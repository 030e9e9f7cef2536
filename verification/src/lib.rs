//! Playback coordination core for a terminal music player.
//!
//! The crate holds the decision logic of the player: the playback
//! controller's cached state (volume, speed, gapless flag) and the
//! clamping rules of every operation, the end-of-stream arbiter that
//! synthesizes missed EOS signals for gapless playback, the event
//! bridge's message classification, the library sync planner that
//! decides which track records to insert and delete, and the
//! transliteration-based ordering used for library listings.
//!
//! The media engine itself, the SQLite store, the directory walker and
//! the terminal are driven by a thin unverified shell; this crate only
//! decides, and states in contracts exactly what it decides.

pub mod bridge;
pub mod controller;
pub mod library;
pub mod sort;
pub mod strings;
pub mod utils;
