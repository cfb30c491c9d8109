//! Verified core of the boop quest hub: the config rules, the lenient TOML
//! repair, path resolution, release comparison and the hub's display logic.

pub mod text;
pub mod lenient;
pub mod paths;
pub mod config;
pub mod update;
pub mod hub;
pub mod platform;
pub mod assets;
pub mod launcher;
