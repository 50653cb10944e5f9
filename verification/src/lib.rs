//! A parser and exporter for the Fountain screenplay markup.
//!
//! [`parser::parse_fountain`] reads the text of a script into a
//! [`types::Script`]: a title page and lines, each line with its kind and
//! its spans of styled text. [`exporter::export_fountain`] writes a script
//! back to text. [`types::Script::update_title_element`] and
//! [`types::Script::update_line`] give the script after an edit.
//!
//! Every function has a contract over sequences of characters and is
//! proved to meet it. The modules [`laws`] and [`stability`] hold what is
//! proved of the functions together: that the raw text of the spans is the
//! text that was read, that gathering lines in blocks loses nothing, and
//! which scripts are written the same a second time.

pub mod classifier;
pub mod collapser;
pub mod display;
pub mod exporter;
pub mod formatting;
pub mod laws;
pub mod metadata;
pub mod parser;
pub mod script_update;
pub mod stability;
pub mod text;
pub mod types;
