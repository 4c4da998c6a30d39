//! Line-oriented text utilities: line numbering, collapsing of repeated
//! lines, and counting of lines, words, bytes and characters.
pub mod text;
pub mod wc;
pub mod uniq;
pub mod cat;
