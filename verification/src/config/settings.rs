//! The connection and UI sections of the settings file.

use vstd::prelude::*;
use crate::config::{ColorMode, TimestampPosition};
use crate::named::dup_opt;
use crate::text::owned;

verus! {

/// How to reach the game proxy, and who to log in as.
#[derive(Debug, Clone, PartialEq)]
pub struct ConnectionConfig {
    pub host: String,
    pub port: u16,
    pub character: Option<String>,
    pub account: Option<String>,
    pub password: Option<String>,
    /// Game instance code, e.g. "prime" or "dr".
    pub game: Option<String>,
}

impl Default for ConnectionConfig {
    fn default() -> (r: Self)
        ensures
            r.host@ == "127.0.0.1"@,
            r.port == 8000,
            r.character is None && r.account is None && r.password is None && r.game is None,
    {
        ConnectionConfig {
            host: owned("127.0.0.1"),
            port: 8000,
            character: None,
            account: None,
            password: None,
            game: None,
        }
    }
}

impl ConnectionConfig {
    /// An exact copy.
    pub fn duplicate(&self) -> (r: Self)
        ensures
            r == *self,
    {
        ConnectionConfig {
            host: self.host.clone(),
            port: self.port,
            character: dup_opt(&self.character),
            account: dup_opt(&self.account),
            password: dup_opt(&self.password),
            game: dup_opt(&self.game),
        }
    }
}

/// General UI behaviour.
#[derive(Debug, Clone, PartialEq)]
pub struct UiConfig {
    /// Lines kept per text window.
    pub buffer_size: usize,
    pub border_style: String,
    pub countdown_icon: String,
    pub selection_enabled: bool,
    pub selection_respect_window_boundaries: bool,
    pub selection_auto_copy: bool,
    pub drag_modifier_key: String,
    /// Shortest command kept in the history.
    pub min_command_length: usize,
    pub color_mode: ColorMode,
    pub timestamp_position: TimestampPosition,
    pub command_echo: bool,
    pub terminal_title: String,
}

impl Default for UiConfig {
    fn default() -> (r: Self)
        ensures
            r.buffer_size == 1000,
            r.border_style@ == "single"@,
            r.countdown_icon@ == "\u{f0c8}"@,
            r.selection_enabled && r.selection_respect_window_boundaries && r.selection_auto_copy,
            r.drag_modifier_key@ == "ctrl"@,
            r.min_command_length == 3,
            r.color_mode == ColorMode::Direct,
            r.timestamp_position == TimestampPosition::End,
            r.command_echo,
            r.terminal_title@ == Seq::<char>::empty(),
    {
        UiConfig {
            buffer_size: 1000,
            border_style: owned("single"),
            countdown_icon: owned("\u{f0c8}"),
            selection_enabled: true,
            selection_respect_window_boundaries: true,
            selection_auto_copy: true,
            drag_modifier_key: owned("ctrl"),
            min_command_length: 3,
            color_mode: ColorMode::default(),
            timestamp_position: TimestampPosition::default(),
            command_echo: true,
            terminal_title: String::new(),
        }
    }
}

impl UiConfig {
    /// An exact copy.
    pub fn duplicate(&self) -> (r: Self)
        ensures
            r == *self,
    {
        UiConfig {
            buffer_size: self.buffer_size,
            border_style: self.border_style.clone(),
            countdown_icon: self.countdown_icon.clone(),
            selection_enabled: self.selection_enabled,
            selection_respect_window_boundaries: self.selection_respect_window_boundaries,
            selection_auto_copy: self.selection_auto_copy,
            drag_modifier_key: self.drag_modifier_key.clone(),
            min_command_length: self.min_command_length,
            color_mode: self.color_mode,
            timestamp_position: self.timestamp_position,
            command_echo: self.command_echo,
            terminal_title: self.terminal_title.clone(),
        }
    }
}

} // verus!
