//! Core of a desktop audio player: a playback transport state machine,
//! a playlist sequencer with loop and shuffle policies, and the text
//! format in which playlists are persisted.
//!
//! The audio backend itself (decoding, the output device) is an external
//! collaborator: the controller here keeps the logical transport state,
//! and the surrounding application forwards its decisions to the device.

pub mod codec;
pub mod controller;
pub mod player;
pub mod sequencer;
pub mod timefmt;
pub mod track;
