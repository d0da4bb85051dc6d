//! Core logic of a small journaling desktop application: calendar math for
//! the weekly board, the persisted daily-note format, the card-row lifecycle,
//! debounced saving, file-browser navigation, and view configuration.
pub mod codec;
pub mod column;
pub mod date;
pub mod bucket;
pub mod config;
pub mod debounce;
pub mod decimal;
pub mod filer;
pub mod paths;
pub mod text;
pub mod tree;
