//! A text console over a VGA-style frame buffer of 80 by 25 character cells.
//!
//! The [`vga_buffer::Writer`] keeps its cells in memory and is verified
//! against the model in [`vga_buffer::ConsoleState`]; whoever owns the real
//! display memory mirrors the cells there.
pub mod vga_buffer;

pub use vga_buffer::{
    Color, ColorCode, ConsoleState, ScreenChar, Writer, BUFFER_HEIGHT, BUFFER_WIDTH,
    UNPRINTABLE_GLYPH,
};
