//! Tag assignment for jump navigation: whitespace sub-lexing, tag generators,
//! and the tagging pass that maps short labels to buffer positions.

pub mod buffer;
pub mod movement_lexer;
pub mod tag_generator;
pub mod single_character_tag_generator;
pub mod text;
pub mod jump;
pub mod laws;
