//! Lexical front end for a small hardware-description language: the word
//! scanner, with its keyword table, and the decimal number scanner.
pub mod cursor;
pub mod item;
pub mod laws;
pub mod scan;

pub use cursor::{CharSource, Cursor};
pub use item::{lookup_keyword, LexItem};
pub use scan::{get_number, get_word};
