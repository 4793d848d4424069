//! Import of external formats (Day One, email) into entries: the records an
//! import produces and the text rules the parsers apply.

use vstd::prelude::*;
use crate::text::owned;

pub mod dayone;
pub mod dayone_zip;
pub mod directory;
pub mod orchestrate;
pub mod email;
pub mod hierarchy;

verus! {

/// A single imported entry ready to be written to the workspace.
#[derive(Debug)]
pub struct ImportedEntry {
    /// Entry title (e.g. email subject).
    pub title: String,
    /// When the original item was made, in milliseconds since the Unix
    /// epoch (UTC), if known.
    pub date: Option<i64>,
    /// Markdown body content.
    pub body: String,
    /// Extra frontmatter fields (from, to, cc, tags, …), in order.
    pub metadata: Vec<(String, crate::yaml::Value)>,
    /// Binary attachments extracted from the source.
    pub attachments: Vec<ImportedAttachment>,
}

/// A binary attachment extracted during import.
#[derive(Debug, Clone)]
pub struct ImportedAttachment {
    /// Suggested filename (from Content-Disposition or generated).
    pub filename: String,
    /// MIME content type.
    pub content_type: String,
    /// Raw file bytes.
    pub data: Vec<u8>,
}

/// Options controlling import behavior.
#[derive(Debug, Clone)]
pub struct ImportOptions {
    /// Base folder name for imported entries (default: `emails`).
    pub base_folder: String,
}

impl Default for ImportOptions {
    /// Entries go under `emails`.
    fn default() -> (r: Self)
        ensures
            r.base_folder@ == "emails"@,
    {
        ImportOptions { base_folder: owned("emails") }
    }
}

/// Summary of an import operation.
#[derive(Debug, Clone)]
pub struct ImportResult {
    /// Number of entries successfully imported.
    pub imported: usize,
    /// Number of entries skipped (e.g. unparseable).
    pub skipped: usize,
    /// Human-readable error messages for skipped entries.
    pub errors: Vec<String>,
    /// Total number of attachments extracted.
    pub attachment_count: usize,
}

} // verus!
