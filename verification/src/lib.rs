//! Verified core of the VellumFE client: bounty compaction, alert-pack
//! gating, on-screen alert discipline, custom status timers, the window
//! registry, client timers, layered settings with sparse saves that keep
//! what the user wrote, layouts, dot commands and mouse handling, and the
//! rest of the configuration logic.

mod text;
pub mod seqs;
pub mod config;
pub mod named;
pub mod regex_match;
pub mod bounty_parser;
pub mod alert_timers;
pub mod alerts;
pub mod custom_status;
pub mod clipboard;
pub mod app_core;
pub mod display;
pub mod webui;
pub mod dot_command;
pub mod mouse;

pub use text::chars_of;
