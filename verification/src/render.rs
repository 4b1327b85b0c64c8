//! Drawing of text into a viewport.

pub mod bounds;
pub mod decorations;
pub mod draw_laws;
pub mod drawing;
pub mod graphemes;
pub mod highlights;
pub mod laws;
pub mod plan;
pub mod plan_laws;
pub mod renderer;
pub mod walk;
