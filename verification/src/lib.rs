//! Extracts the documentation of annotated C structs and enums from header
//! text and lays it out as captioned tables of a word-processor document.

pub mod chars;
pub mod regex;
pub mod parser;
pub mod exporter;
pub mod main_window;
