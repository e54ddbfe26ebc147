//! The sample platformer's level format and its file outcomes.
pub mod level;
pub mod persistence;
