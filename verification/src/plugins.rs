//! The rules that come with the library.

pub mod warning_plugin;
