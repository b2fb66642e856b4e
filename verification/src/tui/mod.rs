//! The terminal UI's state: focus, filter, sort order and selection.
pub mod state;
pub mod view;
pub mod input;
