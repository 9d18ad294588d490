//! The framebuffer and the text terminal drawn on it.

pub mod framebuffer;
pub mod terminal;
