//! A live-codable audio synthesis engine.
//!
//! A small patch language describing signal chains is compiled into a directed
//! dataflow graph of audio-rate computation units; the graph is then advanced
//! buffer by buffer to produce an audio stream, with safe mid-stream patch
//! replacement at bar boundaries.
//!
//! Sample values are fixed-point integers (see [`fx::UNIT`]): the engine's
//! arithmetic is exact and saturating, never wrapping.

pub mod compile;
pub mod engine;
pub mod fx;
pub mod graph;
pub mod parse;
pub mod unit;

pub use engine::Engine;
pub use fx::UNIT;
pub use parse::QParser;
