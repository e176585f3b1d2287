//! Conversion of PlayStation CUE/BIN disc images into the fixed-layout VCD
//! image format: CUE sheet model and parser, sector arithmetic, BIN
//! recombination planning, and the binary table-of-contents header.

pub mod error;
pub mod msf;
pub mod text;
pub mod cue;
pub mod pregap;
pub mod parse;
pub mod vcd;
pub mod combiner;
pub mod game_id;
pub mod render;
