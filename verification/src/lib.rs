//! Atrus: the verified core of a keyboard-driven file manager.

pub mod text;
pub mod paths;
pub mod models;
pub mod config;
pub mod order;
pub mod engine;
pub mod pattern;
pub mod digest;
pub mod app;
pub mod events;
pub mod apply;
pub mod laws;
pub mod plan_laws;
