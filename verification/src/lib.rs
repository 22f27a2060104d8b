//! Fuda: comment toggling for text buffers.
//!
//! `text` holds the character-level model of strings (whitespace, trimming,
//! prefixes) with verified scanners over `&str`; `comment` parses a
//! `commentstring` and toggles line and block comments; `behaviour` states what
//! each operation does directly over its inputs and results; `laws` relates
//! successive toggles.
pub mod text;
pub mod comment;
pub mod laws;
pub mod behaviour;
