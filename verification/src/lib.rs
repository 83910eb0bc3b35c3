//! ChordSense: chord-label formatting, chord-diagram lookup, `.lab`
//! chord-timeline parsing and the playback decisions of the ChordSense player.

pub mod text;
pub mod chords;
pub mod timeline;
pub mod lab;
pub mod assets;
pub mod session;
pub mod display;
pub mod gallery;
