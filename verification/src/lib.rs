//! A Redis-compatible key-value server: its store, command handlers,
//! configuration and wire protocol, verified with Verus.
pub mod text;
pub mod keymap;
pub mod store;
pub mod resp;
pub mod config;
pub mod commands;
pub mod clock;
pub mod background;
pub mod server;
pub mod rewrite;
