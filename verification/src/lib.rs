//! Turi Craft launcher core: the verified part of the launcher logic.

pub mod paths;
pub mod auth;
pub mod config;
pub mod diag;
pub mod display;
pub mod java;
pub mod json;
pub mod toml_file;
pub mod launch;
pub mod minecraft;
pub mod neoforge;
pub mod net;
pub mod packwiz;
pub mod ping;
pub mod presets;
pub mod progress;
pub mod settings;
pub mod skin;
pub mod snake;
pub mod text;
pub mod updates;
