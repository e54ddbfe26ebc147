//! Entity-component-system primitives.
pub mod access;
pub mod allocator;
pub mod builtin;
pub mod command;
pub mod entity;
pub mod storage;
pub mod world;
