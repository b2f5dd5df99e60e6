//! Verified core of the Stormworks video capture plugin: PE image parsing and
//! signature byte checks, pixel buffer statistics and resizing, BMP preview
//! encoding, plugin manifest validation, and the small text formatters that
//! their messages are built from.

pub mod digest;
pub mod hook;
pub mod laws;
pub mod memory;
pub mod paths;
pub mod config;
pub mod pe;
pub mod pixels;
pub mod preview;
pub mod proxy;
pub mod runtime_debug;
pub mod shared;
pub mod text;
pub mod time_utils;
