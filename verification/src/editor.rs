//! The editor: its views, its documents and what links them.

pub mod commands;
pub mod document;
pub mod layout_laws;
pub mod laws;
pub mod linked_scroll;
pub mod plugin_layout;
pub mod state;
