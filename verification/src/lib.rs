//! Device matching and rotation for switching the default audio output.

pub mod audio_server_utils;
pub mod command_line;
pub mod common;
pub mod config;
pub mod exit_status;
pub mod reconcile;
pub mod rotation;
pub mod switcher;
pub mod text;
