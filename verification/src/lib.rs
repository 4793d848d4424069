//! Core logic of the Diaryx journal: link parsing, frontmatter splitting,
//! filename rules and the plain-value models used by sync and import.

pub mod text;
pub mod link_parser;
pub mod frontmatter;
pub mod seq_edit;
pub mod workspace;
pub mod entry;
pub mod crdt;
pub mod yaml;
pub mod fs;
pub mod diaryx;
pub mod metadata_writer;
pub mod import;
