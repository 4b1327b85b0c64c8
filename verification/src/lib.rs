//! Verified building blocks for editor extensions: archive and binary
//! inspection, plugin registration and activation, text decoration, layout
//! snapshots, linked scrolling and terminal graphics.

pub mod archive;
pub mod binary;
pub mod char_index;
pub mod custom_text;
pub mod diagnostics;
pub mod editor;
pub mod file_laws;
pub mod file_snapshot;
pub mod graphics;
pub mod json;
pub mod kitty_graphics;
pub mod lazy_plugins;
pub mod line_map;
pub mod protocol_laws;
pub mod regex_engine;
pub mod render;
pub mod syntax_highlight;
pub mod text;
pub mod text_laws;
pub mod theme;
pub mod tree;
pub mod value;
