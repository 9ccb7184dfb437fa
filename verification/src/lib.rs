//! A verified core for a small command-line todo-list manager.
//!
//! The library holds the logic of the tool: the ordered list of todo items,
//! the mutations addressed by 1-based display positions, the line-delimited
//! JSON record format, the settings record, and the plain-text rendering of
//! the list. File and terminal I/O stay outside, in the thin binary built
//! around this crate.

pub mod actions;
pub mod item;
pub mod json;
pub mod ops;
pub mod render;
pub mod settings;
pub mod text;
