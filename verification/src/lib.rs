//! Automatic and random audio player: the playback coordination engine.
pub mod controls;
pub mod generic_error;
pub mod links;
pub mod obfuscation;
pub mod player;
pub mod queue;
pub mod scroll_position;
pub mod secrets;
pub mod separation;
pub mod song;
pub mod span;
pub mod text;
