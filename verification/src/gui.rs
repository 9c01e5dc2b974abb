//! The state behind the graphical views: what is scrolled to, selected and marked.
//!
//! Drawing happens elsewhere; the views here decide what to draw.

pub mod hex;
pub mod marking;
pub mod signature_display;
