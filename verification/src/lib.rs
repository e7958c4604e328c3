//! Reading a primitive Parquet column through its dictionary.
//!
//! A column of primitive values often refers to a dictionary page that holds each value once. There
//! are two ways here to read it that make use of this. The predicate reader asks a predicate once
//! for each dictionary and gives the rows as a boolean filter. The dictionary reader keeps the keys
//! and gives the rows as dictionary arrays. Both fall back on plain values where a page holds them.
pub mod errors;
pub mod arrow;
pub mod nested;
pub mod shared;
pub mod bits;
pub mod rle;
pub mod types;
pub mod column;
pub mod plain;
pub mod asked;
pub mod predicate;
pub mod dictionary;
pub mod filter;
pub mod pack;
pub mod record_reader;
pub mod rows;
pub mod reader;
pub mod laws;
pub mod batch_laws;
pub mod question_laws;
pub mod format_laws;
pub mod page_laws;
pub mod level_laws;
pub mod key_laws;
pub mod message_laws;
pub mod array_reader;
pub mod reader_laws;
