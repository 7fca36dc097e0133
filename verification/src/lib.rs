//! Terminal image rendering: encoders that turn RGB pixel buffers into the
//! byte streams understood by terminals (sixel, kitty graphics, half blocks,
//! braille and ASCII art), together with the terminal geometry rules that
//! decide how large a picture is drawn and where.

pub mod ansi;
pub mod ascii;
pub mod braille;
pub mod config;
pub mod decimal;
pub mod encoder;
pub mod error;
pub mod halfblock;
pub mod image;
pub mod kitty;
pub mod protocol;
pub mod ratatui;
pub mod terminal;
pub mod text;
pub mod video;
pub mod sixel;
pub mod strings;
