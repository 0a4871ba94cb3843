//! ClipForge's decision logic: replay-buffer supervision, clip library
//! housekeeping, OBS configuration planning and the text formats the app
//! reads and writes, each with a machine-checked contract.

pub mod autoclip;
pub mod backup;
pub mod clips;
pub mod fullscreen;
pub mod health;
pub mod hotkeys;
pub mod obs;
pub mod paths;
pub mod render;
pub mod setup;
pub mod sorting;
pub mod supervisor;
pub mod text;
pub mod watcher;
