//! Core engine of an interactive text-chunking tool.
//!
//! The library models a viewable, selectable, editable document (`viewer`),
//! the set of line ranges of a file that have already been carved into
//! chunks (`ranges`), and a durable store of chunk records with an exact
//! round-trip serialization contract (`record`, `storage`).  Token counting
//! against a size budget (`tokenizer`) is advisory reporting only.

pub mod config;
pub mod events;
pub mod ranges;
pub mod record;
pub mod storage;
pub mod state;
pub mod text;
pub mod tokenizer;
pub mod utils;
pub mod viewer;
