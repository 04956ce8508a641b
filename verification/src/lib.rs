//! Finding a game in the libraries of a game platform, reading the
//! platform's text format, and writing a library override into the registry
//! of the compatibility layer that runs the game.
//!
//! The library decides and computes; it neither reads nor writes a file nor
//! talks to a network. What it needs to know of the disk it asks of its
//! caller, one observation at a time (see [`disk`]).

pub mod disk;
pub mod errors;
pub mod grammar;
pub mod menu;
pub mod paths;
pub mod registry;
pub mod text;
pub mod utils;
pub mod vdf;
