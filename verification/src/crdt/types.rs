//! Records of the sync layer: file metadata, attachment references, update
//! records and where an update came from.

use vstd::prelude::*;
use crate::entry::helpers::md_ext;
use crate::text::{
    chars_eq, chars_of, contains_char, ends_with, extend_chars, has_suffix, is_alphanumeric, join,
    join_chars, keep_nonempty, nonempty, owned, split, split_chars, string_of, to_lowercase,
    unicode_alphanumeric, unicode_lowercase, v1, v3, Sep,
};
use crate::yaml::Value;

verus! {

/// The time now, in milliseconds since the Unix epoch
/// (`chrono::Utc::now().timestamp_millis()`). It depends on the clock, so
/// nothing is promised of it.
#[verifier::external_body]
pub(crate) fn now_millis() -> i64 {
    chrono::Utc::now().timestamp_millis()
}

/// Reference to a binary attachment file. Binary files are stored apart
/// from the CRDT; only this record of them is synchronized.
#[derive(Debug, Clone, PartialEq)]
pub struct BinaryRef {
    /// Relative path within the workspace (e.g. `_attachments/image.png`).
    pub path: String,
    /// Source of the binary: `local`, `pending`, or an external URL.
    pub source: String,
    /// SHA-256 hash for deduplication and integrity.
    pub hash: String,
    /// MIME type (e.g. `image/png`).
    pub mime_type: String,
    /// File size in bytes.
    pub size: u64,
    /// When it was uploaded (milliseconds since the Unix epoch).
    pub uploaded_at: Option<i64>,
    /// Soft deletion tombstone.
    pub deleted: bool,
}

impl BinaryRef {
    /// A reference to a local binary, stamped with the time now.
    pub fn new_local(path: String, hash: String, mime_type: String, size: u64) -> (r: Self)
        ensures
            r.path == path,
            r.source@ == "local"@,
            r.hash == hash,
            r.mime_type == mime_type,
            r.size == size,
            r.uploaded_at is Some,
            !r.deleted,
    {
        BinaryRef {
            path,
            source: owned("local"),
            hash,
            mime_type,
            size,
            uploaded_at: Some(now_millis()),
            deleted: false,
        }
    }

    /// A reference to a binary not yet uploaded: source `pending`, no hash,
    /// no upload time.
    pub fn new_pending(path: String, mime_type: String, size: u64) -> (r: Self)
        ensures
            r.path == path,
            r.source@ == "pending"@,
            r.hash@ == Seq::<char>::empty(),
            r.mime_type == mime_type,
            r.size == size,
            r.uploaded_at is None,
            !r.deleted,
    {
        BinaryRef {
            path,
            source: owned("pending"),
            hash: String::new(),
            mime_type,
            size,
            uploaded_at: None,
            deleted: false,
        }
    }
}

/// Metadata of a file in the workspace CRDT: its frontmatter properties.
///
/// Files are keyed by stable document IDs; the path of a file follows from
/// `filename` and the chain of `part_of` parents.
#[derive(Debug, Clone)]
pub struct FileMetadata {
    /// Filename on disk (e.g. `my-note.md`).
    pub filename: String,
    /// Display title from frontmatter.
    pub title: Option<String>,
    /// Document ID of the parent file, or `None` for root files.
    pub part_of: Option<String>,
    /// Document IDs of child files.
    pub contents: Option<Vec<String>>,
    /// Binary attachment references.
    pub attachments: Vec<BinaryRef>,
    /// Soft deletion tombstone.
    pub deleted: bool,
    /// Visibility/access control tags.
    pub audience: Option<Vec<String>>,
    /// File description from frontmatter.
    pub description: Option<String>,
    /// Frontmatter properties not covered by the fields above, each key
    /// once.
    pub extra: Vec<(String, Value)>,
    /// When the file was last modified (milliseconds since the Unix epoch).
    pub modified_at: i64,
}

/// Whether a `part_of` value is a path (it holds `/` or ends with `.md`)
/// rather than a document ID.
pub open spec fn is_path_ref(p: Seq<char>) -> bool {
    p.contains('/') || ends_with(p, md_ext())
}

/// The characters of a title that a filename keeps: letters and digits
/// stay, spaces, `_` and `-` become `-`, every other character is removed.
pub open spec fn filename_chars(s: Seq<char>) -> Seq<char>
    decreases s.len(),
{
    if s.len() == 0 {
        Seq::empty()
    } else {
        let prev = filename_chars(s.drop_last());
        let c = s.last();
        if unicode_alphanumeric(c) {
            prev.push(c)
        } else if c == ' ' || c == '_' || c == '-' {
            prev.push('-')
        } else {
            prev
        }
    }
}

/// The stem a title normalizes to: its kept characters in lower case, runs
/// of `-` collapsed to one, none at either end.
pub open spec fn filename_stem(title: Seq<char>) -> Seq<char> {
    join(nonempty(split(filename_chars(unicode_lowercase(title)), Sep::Ch('-'))), seq!['-'])
}

/// The filename a title normalizes to: its stem with `.md`, or
/// `untitled.md` when the stem is empty.
pub open spec fn normalized_filename(title: Seq<char>) -> Seq<char> {
    if filename_stem(title).len() == 0 {
        "untitled"@ + md_ext()
    } else {
        filename_stem(title) + md_ext()
    }
}

impl Default for FileMetadata {
    /// Empty metadata: no filename, nothing set, time 0.
    fn default() -> (r: Self)
        ensures
            r.filename@ == Seq::<char>::empty(),
            r.is_blank_except_time(),
            r.modified_at == 0,
    {
        FileMetadata {
            filename: String::new(),
            title: None,
            part_of: None,
            contents: None,
            attachments: Vec::new(),
            deleted: false,
            audience: None,
            description: None,
            extra: Vec::new(),
            modified_at: 0,
        }
    }
}

impl FileMetadata {
    /// Everything empty: no title, no parent, no children, no attachments,
    /// not deleted, no extra properties, time 0.
    pub open spec fn is_blank_except_time(&self) -> bool {
        &&& self.title is None
        &&& self.part_of is None
        &&& self.contents is None
        &&& self.attachments@.len() == 0
        &&& !self.deleted
        &&& self.audience is None
        &&& self.description is None
        &&& self.extra@.len() == 0
    }

    /// New metadata with the given title, stamped with the time now.
    pub fn new(title: Option<String>) -> (r: Self)
        ensures
            r.title == title,
            r.filename@ == Seq::<char>::empty(),
            r.part_of is None,
            r.contents is None,
            r.attachments@.len() == 0,
            !r.deleted,
            r.audience is None,
            r.description is None,
            r.extra@.len() == 0,
    {
        FileMetadata {
            filename: String::new(),
            title,
            part_of: None,
            contents: None,
            attachments: Vec::new(),
            deleted: false,
            audience: None,
            description: None,
            extra: Vec::new(),
            modified_at: now_millis(),
        }
    }

    /// New metadata with a filename and title, stamped with the time now.
    pub fn with_filename(filename: String, title: Option<String>) -> (r: Self)
        ensures
            r.filename == filename,
            r.title == title,
            r.part_of is None,
            r.contents is None,
            r.attachments@.len() == 0,
            !r.deleted,
            r.audience is None,
            r.description is None,
            r.extra@.len() == 0,
    {
        FileMetadata {
            filename,
            title,
            part_of: None,
            contents: None,
            attachments: Vec::new(),
            deleted: false,
            audience: None,
            description: None,
            extra: Vec::new(),
            modified_at: now_millis(),
        }
    }

    /// Mark this file as deleted (soft delete), stamping the time now.
    pub fn mark_deleted(&mut self)
        ensures
            final(self).deleted,
            (FileMetadata { deleted: old(self).deleted, modified_at: old(self).modified_at, ..*final(self) }) == *old(self),
    {
        self.deleted = true;
        self.modified_at = now_millis();
    }

    /// Whether this file is an index: it lists at least one child.
    pub fn is_index(&self) -> (r: bool)
        ensures
            r == (self.contents matches Some(c) && c@.len() > 0),
    {
        match &self.contents {
            Some(c) => c.len() > 0,
            None => false,
        }
    }

    /// Convert a title to a normalized filename: lower case, spaces and
    /// underscores become `-`, other characters than letters, digits and
    /// `-` are removed, runs of `-` collapse to one with none at either
    /// end, `.md` appended; `untitled.md` when nothing is left.
    pub fn normalize_title_to_filename(title: &str) -> (r: String)
        ensures
            r@ == normalized_filename(title@),
    {
        let lower = to_lowercase(title);
        let lc = chars_of(lower.as_str());
        let mut kept: Vec<char> = Vec::new();
        let mut i: usize = 0;
        while i < lc.len()
            invariant
                i <= lc.len(),
                kept@ == filename_chars(lc@.subrange(0, i as int)),
            decreases lc.len() - i,
        {
            let c = lc[i];
            assert(lc@.subrange(0, i + 1).drop_last() =~= lc@.subrange(0, i as int));
            if is_alphanumeric(c) {
                kept.push(c);
            } else if c == ' ' || c == '_' || c == '-' {
                kept.push('-');
            }
            i += 1;
        }
        assert(lc@.subrange(0, lc.len() as int) =~= lc@);
        let parts = keep_nonempty(split_chars(&kept, Sep::Ch('-')));
        let mut out = join_chars(&parts, &v1('-'));
        if out.len() == 0 {
            out = chars_of("untitled");
        }
        extend_chars(&mut out, &v3('.', 'm', 'd'));
        string_of(&out)
    }

    /// Whether `part_of` holds a path (the format before document IDs)
    /// rather than a document ID.
    pub fn is_legacy_format(&self) -> (r: bool)
        ensures
            r == (self.part_of matches Some(p) && is_path_ref(p@)),
    {
        match &self.part_of {
            Some(p) => {
                let c = chars_of(p.as_str());
                contains_char(&c, '/') || has_suffix(&c, &v3('.', 'm', 'd'))
            },
            None => false,
        }
    }
}

/// A CRDT update record, kept for history and sync.
#[derive(Debug, Clone)]
pub struct CrdtUpdate {
    /// Unique identifier of this update.
    pub update_id: i64,
    /// Name of the document this update belongs to.
    pub doc_name: String,
    /// Binary update data.
    pub data: Vec<u8>,
    /// When this update was created (milliseconds since the Unix epoch).
    pub timestamp: i64,
    /// Where this update came from.
    pub origin: UpdateOrigin,
    /// Device ID that created this update.
    pub device_id: Option<String>,
    /// Human-readable device name (e.g. "MacBook Pro").
    pub device_name: Option<String>,
}

/// Origin of a CRDT update: local or remote.
#[derive(Debug, Clone, Copy, PartialEq, Eq, Structural)]
pub enum UpdateOrigin {
    /// Update from a local user action.
    Local,
    /// Update received from a remote peer.
    Remote,
    /// Update from the initial sync handshake.
    Sync,
}

/// The lower-case name of an origin.
pub open spec fn origin_name(o: UpdateOrigin) -> Seq<char> {
    match o {
        UpdateOrigin::Local => "local"@,
        UpdateOrigin::Remote => "remote"@,
        UpdateOrigin::Sync => "sync"@,
    }
}

/// The origin a name stands for, if any.
pub open spec fn origin_of_name(s: Seq<char>) -> Option<UpdateOrigin> {
    if s == "local"@ {
        Some(UpdateOrigin::Local)
    } else if s == "remote"@ {
        Some(UpdateOrigin::Remote)
    } else if s == "sync"@ {
        Some(UpdateOrigin::Sync)
    } else {
        None
    }
}

impl UpdateOrigin {
    /// The lower-case name: `local`, `remote` or `sync`.
    pub fn to_string(&self) -> (r: String)
        ensures
            r@ == origin_name(*self),
    {
        match self {
            UpdateOrigin::Local => owned("local"),
            UpdateOrigin::Remote => owned("remote"),
            UpdateOrigin::Sync => owned("sync"),
        }
    }

    /// The origin named `s`, or `Unknown update origin: <s>`.
    pub fn parse(s: &str) -> (r: Result<UpdateOrigin, String>)
        ensures
            match origin_of_name(s@) {
                Some(o) => r == Ok::<UpdateOrigin, String>(o),
                None => r matches Err(m) && m@ == "Unknown update origin: "@ + s@,
            },
    {
        let c = chars_of(s);
        if chars_eq(&c, &chars_of("local")) {
            Ok(UpdateOrigin::Local)
        } else if chars_eq(&c, &chars_of("remote")) {
            Ok(UpdateOrigin::Remote)
        } else if chars_eq(&c, &chars_of("sync")) {
            Ok(UpdateOrigin::Sync)
        } else {
            let mut m = chars_of("Unknown update origin: ");
            extend_chars(&mut m, &c);
            Err(string_of(&m))
        }
    }
}

impl std::str::FromStr for UpdateOrigin {
    type Err = String;

    fn from_str(s: &str) -> (r: Result<UpdateOrigin, String>)
        ensures
            match origin_of_name(s@) {
                Some(o) => r == Ok::<UpdateOrigin, String>(o),
                None => r matches Err(m) && m@ == "Unknown update origin: "@ + s@,
            },
    {
        UpdateOrigin::parse(s)
    }
}

} // verus!

verus! {

/// Writing an origin's name and parsing it back gives the origin.
pub proof fn law_origin_name_round_trip(o: UpdateOrigin)
    ensures
        origin_of_name(origin_name(o)) == Some(o),
{
    reveal_strlit("local");
    reveal_strlit("remote");
    reveal_strlit("sync");
    assert("local"@.len() == 5);
    assert("remote"@.len() == 6);
    assert("sync"@.len() == 4);
}

} // verus!
