//! A composite record identifier of the form `table:id`, with a verified
//! textual grammar, canonical rendering, and dual-mode structured encoding.

pub mod encode;
pub mod escape;
pub mod id;
pub mod laws;
pub mod parse;
pub mod text;
pub mod thing;
