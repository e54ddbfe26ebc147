//! Titan is a Rust-first game engine designed for agent-assisted development.
//!
//! Its foundation is a small custom ECS with explicit, deterministic behavior.
pub mod app;
pub mod cli;
pub mod factory;
pub mod ecs;
pub mod input;
pub mod inspection;
pub mod platformer;
pub mod render;
pub mod replay;
pub mod text;
pub mod time;
pub mod ui;
