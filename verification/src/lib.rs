//! A falling-block puzzle engine: a fixed 10x20 grid of colored cells, the
//! seven tetromino kinds with their rotation geometry, collision and placement
//! rules, full-line detection and compaction, and a shuffled-bag piece supply.

pub mod geometry;
pub mod engine;
pub mod matrix;
pub mod piece;
pub mod rng;
