//! Core state of a small music player: the playlist, the active track and its
//! playback transitions, play counts, favourites, timestamped bookmarks, and
//! the handful of decisions the player window makes each frame.
//!
//! Everything the player decides is modelled over plain values: a track's
//! location is a path string, positions and durations are milliseconds, and
//! the live engine handles of the audio backend are represented only by the
//! state they carry (loaded or not, playing / paused / stopped). The window
//! and the audio engine themselves live outside this crate and merely carry
//! out what these functions decide.

pub mod app;
pub mod collections;
pub mod paths;
pub mod sound;
pub mod theme;
pub mod ui_components;
