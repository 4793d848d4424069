//! The main Diaryx handle: a filesystem with the workspace settings that
//! decide how paths resolve and how links are written, and the accessors
//! grouping its operations.

use vstd::prelude::*;
use crate::link_parser::LinkFormat;
use crate::entry::helpers::{title_words, title_words_exec};
use crate::yaml::{clone_value, same_value, Value};
use crate::text::{chars_of, extend_chars, has_prefix, has_suffix, starts_with, ends_with, string_of, v1};

verus! {

/// A path joined onto a directory as `Path::join` does: an absolute path
/// replaces the directory; otherwise the two are joined with one `/`.
pub open spec fn join_spec(root: Seq<char>, path: Seq<char>) -> Seq<char> {
    if starts_with(path, seq!['/']) || root.len() == 0 {
        path
    } else if ends_with(root, seq!['/']) {
        root + path
    } else {
        root + seq!['/'] + path
    }
}

/// Join `path` onto the directory `root` (see [`join_spec`]).
pub fn join_onto(root: &str, path: &str) -> (r: String)
    ensures
        r@ == join_spec(root@, path@),
{
    let p = chars_of(path);
    let mut out = chars_of(root);
    if has_prefix(&p, &v1('/')) || out.len() == 0 {
        return string_of(&p);
    }
    if !has_suffix(&out, &v1('/')) {
        out.push('/');
    }
    extend_chars(&mut out, &p);
    string_of(&out)
}

/// The main Diaryx instance: a filesystem, the workspace root (once set)
/// and the link format for `part_of`, `contents` and `attachments`.
pub struct Diaryx<FS> {
    fs: FS,
    workspace_root: Option<String>,
    link_format: LinkFormat,
}

impl<FS> Diaryx<FS> {
    /// The filesystem.
    pub closed spec fn fs_spec(&self) -> FS {
        self.fs
    }

    /// The workspace root, if set.
    pub closed spec fn root_spec(&self) -> Option<String> {
        self.workspace_root
    }

    /// The link format.
    pub closed spec fn format_spec(&self) -> LinkFormat {
        self.link_format
    }

    /// A new instance over `fs`: no workspace root, the default link
    /// format.
    pub fn new(fs: FS) -> (r: Self)
        ensures
            r.fs_spec() == fs,
            r.root_spec() is None,
            r.format_spec() == LinkFormat::MarkdownRoot,
    {
        Diaryx { fs, workspace_root: None, link_format: LinkFormat::MarkdownRoot }
    }

    /// Set the link format for `part_of`, `contents` and `attachments`.
    pub fn set_link_format(&mut self, format: LinkFormat)
        ensures
            final(self).format_spec() == format,
            final(self).fs_spec() == old(self).fs_spec(),
            final(self).root_spec() == old(self).root_spec(),
    {
        self.link_format = format;
    }

    /// The workspace root directory, if set.
    pub fn workspace_root(&self) -> (r: Option<String>)
        ensures
            r == self.root_spec(),
    {
        self.workspace_root.clone()
    }

    /// The link format.
    pub fn link_format(&self) -> (r: LinkFormat)
        ensures
            r == self.format_spec(),
    {
        self.link_format
    }

    /// The underlying filesystem.
    pub fn fs(&self) -> (r: &FS)
        ensures
            *r == self.fs_spec(),
    {
        &self.fs
    }

    /// Entry operations: reading and writing file content and frontmatter.
    pub fn entry(&self) -> (r: EntryOps<'_, FS>)
        ensures
            *r.diaryx == *self,
    {
        EntryOps { diaryx: self }
    }

    /// Workspace operations: the tree of files and indexes.
    pub fn workspace(&self) -> (r: WorkspaceOps<'_, FS>)
        ensures
            *r.diaryx == *self,
    {
        WorkspaceOps { diaryx: self }
    }

    /// Set the workspace root directory: canonical paths then resolve
    /// under it.
    pub fn set_workspace_root(&mut self, root: String)
        ensures
            final(self).root_spec() == Some(root),
            final(self).fs_spec() == old(self).fs_spec(),
            final(self).format_spec() == old(self).format_spec(),
    {
        self.workspace_root = Some(root);
    }
}

impl<FS: Clone> Diaryx<FS> {
    /// Search operations: finding workspace files by content or frontmatter.
    pub fn search(&self) -> (r: SearchOps<'_, FS>)
        ensures
            *r.diaryx == *self,
    {
        SearchOps { diaryx: self }
    }

    /// Export operations: copying workspace files filtered by audience.
    pub fn export(&self) -> (r: ExportOps<'_, FS>)
        ensures
            *r.diaryx == *self,
    {
        ExportOps { diaryx: self }
    }

    /// Validation operations: checking workspace link integrity.
    pub fn validate(&self) -> (r: ValidateOps<'_, FS>)
        ensures
            *r.diaryx == *self,
    {
        ValidateOps { diaryx: self }
    }
}

/// Entry operations accessor.
pub struct EntryOps<'a, FS> {
    pub diaryx: &'a Diaryx<FS>,
}

impl<'a, FS> EntryOps<'a, FS> {
    /// Resolve a path against the workspace root, if one is set; otherwise
    /// the path as given.
    pub fn resolve_path(&self, path: &str) -> (r: String)
        ensures
            r@ == match self.diaryx.root_spec() {
                Some(root) => join_spec(root@, path@),
                None => path@,
            },
    {
        match &self.diaryx.workspace_root {
            Some(root) => join_onto(root.as_str(), path),
            None => path.to_string(),
        }
    }
}

/// Workspace operations accessor.
pub struct WorkspaceOps<'a, FS> {
    pub diaryx: &'a Diaryx<FS>,
}

/// Search operations accessor.
pub struct SearchOps<'a, FS> {
    pub diaryx: &'a Diaryx<FS>,
}

/// Export operations accessor.
pub struct ExportOps<'a, FS> {
    pub diaryx: &'a Diaryx<FS>,
}

/// Validation operations accessor.
pub struct ValidateOps<'a, FS> {
    pub diaryx: &'a Diaryx<FS>,
}

// ---------------------------------------------------------------------------
// Moving a frontmatter section to its own file
// ---------------------------------------------------------------------------

/// `_` read as a space.
pub open spec fn underscore_space(c: char) -> char {
    if c == '_' {
        ' '
    } else {
        c
    }
}

/// The title of a link to a moved section: its key with `_` read as a
/// space, each whitespace-separated word capitalized, joined by single
/// spaces.
pub open spec fn section_title(key: Seq<char>) -> Seq<char> {
    title_words(key.map_values(|c: char| underscore_space(c)))
}

/// The link that replaces a moved section in its source file:
/// `[<title>](<target>)`.
pub open spec fn section_link_spec(key: Seq<char>, target: Seq<char>) -> Seq<char> {
    seq!['['] + section_title(key) + seq![']', '('] + target + seq![')']
}

/// The link that replaces a moved section (see [`section_link_spec`]).
pub fn section_link(section_key: &str, target_path: &str) -> (r: String)
    ensures
        r@ == section_link_spec(section_key@, target_path@),
{
    let k = chars_of(section_key);
    let mut spaced: Vec<char> = Vec::new();
    let mut i: usize = 0;
    while i < k.len()
        invariant
            i <= k.len(),
            spaced@ == k@.subrange(0, i as int).map_values(|c: char| underscore_space(c)),
        decreases k.len() - i,
    {
        spaced.push(if k[i] == '_' {
            ' '
        } else {
            k[i]
        });
        i += 1;
        assert(spaced@ =~= k@.subrange(0, i as int).map_values(|c: char| underscore_space(c)));
    }
    assert(k@.subrange(0, k.len() as int) =~= k@);
    let title = title_words_exec(&spaced);
    let mut out = v1('[');
    extend_chars(&mut out, &chars_of(title.as_str()));
    out.push(']');
    out.push('(');
    extend_chars(&mut out, &chars_of(target_path));
    out.push(')');
    assert(out@ =~= section_link_spec(section_key@, target_path@));
    string_of(&out)
}

/// The properties a moved section writes into its target file: the
/// entries of a mapping, in order, or else the section itself under its
/// key.
pub fn section_entries(section_key: &str, value: &Value) -> (r: Vec<(String, Value)>)
    ensures
        match *value {
            Value::Mapping(ps) => r@.len() == ps@.len() && forall|i: int|
                0 <= i < ps@.len() ==> (#[trigger] r@[i]).0@ == ps@[i].0@ && same_value(r@[i].1, ps@[i].1),
            _ => r@.len() == 1 && r@[0].0@ == section_key@ && same_value(r@[0].1, *value),
        },
{
    match value {
        Value::Mapping(ps) => {
            let mut r: Vec<(String, Value)> = Vec::new();
            let mut i: usize = 0;
            while i < ps.len()
                invariant
                    i <= ps.len(),
                    r@.len() == i,
                    forall|j: int|
                        0 <= j < i ==> (#[trigger] r@[j]).0@ == ps@[j].0@ && same_value(r@[j].1, ps@[j].1),
                decreases ps.len() - i,
            {
                r.push((ps[i].0.clone(), clone_value(&ps[i].1)));
                i += 1;
            }
            r
        },
        _ => {
            let mut r: Vec<(String, Value)> = Vec::new();
            r.push((section_key.to_string(), clone_value(value)));
            r
        },
    }
}

} // verus!
