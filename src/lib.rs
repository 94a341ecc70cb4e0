//! Text-art rendering: glyph darkness signatures, cell sampling, tone mapping
//! and nearest-signature matching, all on a fixed-point brightness scale.

pub mod colour_parse;
pub mod intensity;
pub mod text_write;
pub mod ascii_generation;
