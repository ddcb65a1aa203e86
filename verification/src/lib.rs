//! Verified core of a Dwarf Fortress translation framework: CP437 text,
//! markup parsing and layout, glyph metrics, translation lookup and the
//! bookkeeping of game memory regions and search patterns.

pub mod assoc;
pub mod chars;
pub mod color;
pub mod cjk;
pub mod cp437;
pub mod diagnostics;
pub mod elf;
pub mod game;
pub mod glyph;
pub mod handles;
pub mod markup;
pub mod memory;
pub mod strings;
pub mod text;
pub mod tool;
pub mod translator;
pub mod registry;
pub mod types;
