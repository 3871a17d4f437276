//! Metadata aggregation and value decoding for Parquet files.
//!
//! The crate works on an in-memory description of a file footer and on raw
//! page buffers. It builds the schema tree, folds per-column statistics across
//! row groups, summarises codecs and encodings, and decodes PLAIN-encoded
//! dictionary pages into display strings. Beside that engine it holds the
//! state of a viewer for such files: offsets, tabs, key bindings, and the
//! contents of its tables and panels.
//!
//! Every function is verified against its contract. Three items are taken on
//! trust: that `String::push` appends a character, that `std::str::from_utf8`
//! accepts exactly well-formed UTF-8, and that chrono renders an instant the
//! same way every time.

pub mod text;
pub mod fixed;
pub mod double;
pub mod decode;
pub mod dictionary;
pub mod footer;
pub mod stats;
pub mod summary;
pub mod schema;
pub mod metadata;
pub mod table;
pub mod layout;
pub mod panels;
pub mod config;
pub mod app;
pub mod tab;
pub mod utils;
pub mod tabs;
pub mod row_groups;
pub mod components;
