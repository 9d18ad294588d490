//! Drawing, text output and frame bookkeeping for a small x86_64 kernel:
//! colours, pixel buffers, a glyph-based text terminal, a log-line writer
//! and a cursor over the physical frames that the boot loader reports free.

pub mod cpu;
pub mod font;
pub mod framebuffer;
pub mod graphics;
pub mod mem;
pub mod memory;
pub mod types;
