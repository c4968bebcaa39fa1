//! A foreground-process watcher: it samples which process owns the focused
//! window, ignores repeated samples of the same process, matches the
//! executable path against an ordered table of pattern rules and yields the
//! commands to launch.

pub mod config;
pub mod detector;
pub mod pattern;
pub mod rules;
pub mod text;

pub use config::default_interval;
