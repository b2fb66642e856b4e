//! AegisDisk: disk usage analysis and safe cleanup planning.
pub mod analysis;
pub mod cli;
pub mod cleaner;
pub mod config;
pub mod error;
pub mod export;
pub mod fs;
pub mod order;
pub mod paths;
pub mod text;
pub mod tui;
pub mod utils;
