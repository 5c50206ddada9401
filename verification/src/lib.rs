//! Cantus: a music and status bar with a launcher.  This library holds the bar's logic with
//! its proofs: the shader word codecs, the launcher's search field and rows, the timer's
//! readouts, and the parsers and encoders behind the music and status panels.

pub mod chars;
pub mod clocks;
pub mod config;
pub mod contract;
pub mod data;
pub mod enrichment;
pub mod field;
pub mod geometry;
pub mod launcher;
pub mod lyrics;
pub mod music;
pub mod noise;
pub mod platform;
pub mod players;
pub mod playlists;
pub mod program;
pub mod refresh;
pub mod renderer;
pub mod resources;
pub mod search;
pub mod spotify;
pub mod spotify_ids;
pub mod status;
pub mod timer;
pub mod ttml;
pub mod uploads;
pub mod weather;
