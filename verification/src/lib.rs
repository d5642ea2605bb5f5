//! Sound-pack pipeline library.
//!
//! Discovers sound packs from a remote catalog listing, parses each pack's
//! JSON configuration, and plans the slice/convert operations that cut the
//! pack's shared audio asset into per-key mono clips.  Everything here is
//! pure computation over bytes and integers; the surrounding binary performs
//! the HTTP requests, file writes and tool invocations that these functions
//! decide on.

pub mod text;
pub mod json;
pub mod config;
pub mod ser;
pub mod lister;
pub mod driver;
