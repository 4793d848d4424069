//! The state the CRDT-updating filesystem decorator keeps: whether CRDT
//! updates are on (shared between clones), and which paths are being
//! written locally or from sync, so that those writes do not loop back.

use vstd::prelude::*;
use std::sync::Arc;
use std::sync::atomic::AtomicBool;
use crate::link_parser::{comps, comps_exec, file_name, file_name_spec, LinkFormat};
use crate::crdt::types::is_path_ref;
use crate::entry::helpers::md_ext;
use crate::fs::{is_temp_file, is_temp_spec};
use crate::text::{contains_char, has_suffix, v3, views};
use crate::text::{chars_eq, chars_of, to_ascii_lowercase, trim, trim_chars, ascii_lower};

verus! {

/// Another handle on the same shared flag (`Arc::clone`): the result points
/// to the same `AtomicBool`.
#[verifier::external_body]
fn share_flag(flag: &Arc<AtomicBool>) -> (r: Arc<AtomicBool>)
    ensures
        r == *flag,
{
    Arc::clone(flag)
}

/// A filesystem decorator that updates the workspace CRDT on file
/// operations. Updates can be switched off at run time; the switch is
/// shared by all clones of one decorator.
pub struct CrdtFs<FS> {
    /// The underlying filesystem.
    inner: FS,
    /// Whether CRDT updates are enabled (shared between clones).
    enabled: Arc<AtomicBool>,
    /// Paths currently being written locally, each once.
    local_writes_in_progress: Vec<String>,
    /// Paths currently being written from sync, each once.
    sync_writes_in_progress: Vec<String>,
}

/// Whether `p` is among the marked paths.
pub open spec fn marked(paths: Seq<String>, p: Seq<char>) -> bool {
    exists|i: int| 0 <= i < paths.len() && #[trigger] paths[i]@ == p
}

/// No path is marked twice.
pub open spec fn marks_unique(paths: Seq<String>) -> bool {
    forall|i: int, j: int| 0 <= i < j < paths.len() ==> #[trigger] paths[i]@ != #[trigger] paths[j]@
}

/// Where `p` is marked, if it is.
fn find_mark(paths: &Vec<String>, p: &Vec<char>) -> (r: Option<usize>)
    ensures
        match r {
            Some(i) => i < paths@.len() && paths@[i as int]@ == p@,
            None => !marked(paths@, p@),
        },
{
    let mut i: usize = 0;
    while i < paths.len()
        invariant
            i <= paths.len(),
            forall|j: int| 0 <= j < i ==> paths@[j]@ != p@,
        decreases paths.len() - i,
    {
        if chars_eq(&chars_of(paths[i].as_str()), p) {
            return Some(i);
        }
        i += 1;
    }
    None
}

/// Mark `path` (once).
fn add_mark(paths: &mut Vec<String>, path: &str)
    requires
        marks_unique(old(paths)@),
    ensures
        marks_unique(final(paths)@),
        forall|q: Seq<char>| marked(final(paths)@, q) <==> (marked(old(paths)@, q) || q == path@),
{
    let p = chars_of(path);
    match find_mark(paths, &p) {
        Some(_) => {},
        None => {
            let ghost pre = paths@;
            paths.push(path.to_string());
            assert forall|q: Seq<char>| marked(paths@, q) <==> (marked(pre, q) || q == path@) by {
                if q == path@ {
                    assert(paths@[pre.len() as int]@ == q);
                }
                if marked(paths@, q) && q != path@ {
                    let i = choose|i: int| 0 <= i < paths@.len() && #[trigger] paths@[i]@ == q;
                    assert(pre[i]@ == q);
                }
                if marked(pre, q) {
                    let i = choose|i: int| 0 <= i < pre.len() && #[trigger] pre[i]@ == q;
                    assert(paths@[i]@ == q);
                }
            }
        },
    }
}

/// Unmark `path`.
fn remove_mark(paths: &mut Vec<String>, path: &str)
    requires
        marks_unique(old(paths)@),
    ensures
        marks_unique(final(paths)@),
        forall|q: Seq<char>| marked(final(paths)@, q) <==> (marked(old(paths)@, q) && q != path@),
{
    let p = chars_of(path);
    match find_mark(paths, &p) {
        Some(k) => {
            let ghost pre = paths@;
            paths.remove(k);
            assert(paths@ =~= pre.remove(k as int));
            assert forall|q: Seq<char>| marked(paths@, q) <==> (marked(pre, q) && q != path@) by {
                if marked(paths@, q) {
                    let i = choose|i: int| 0 <= i < paths@.len() && #[trigger] paths@[i]@ == q;
                    if i < k {
                        assert(pre[i]@ == q);
                        assert(pre[i]@ != pre[k as int]@);
                    } else {
                        assert(pre[i + 1]@ == q);
                        assert(pre[i + 1]@ != pre[k as int]@);
                    }
                }
                if marked(pre, q) && q != path@ {
                    let i = choose|i: int| 0 <= i < pre.len() && #[trigger] pre[i]@ == q;
                    if i < k {
                        assert(paths@[i]@ == q);
                    } else {
                        assert(i != k);
                        assert(paths@[i - 1]@ == q);
                    }
                }
            }
        },
        None => {},
    }
}

impl<FS> CrdtFs<FS> {
    /// The decorator's bookkeeping holds each marked path once.
    pub closed spec fn wf(&self) -> bool {
        marks_unique(self.local_writes_in_progress@) && marks_unique(self.sync_writes_in_progress@)
    }

    /// The wrapped filesystem.
    pub closed spec fn wrapped(&self) -> FS {
        self.inner
    }

    /// Whether `p` is being written locally.
    pub closed spec fn local_marked(&self, p: Seq<char>) -> bool {
        marked(self.local_writes_in_progress@, p)
    }

    /// Whether `p` is being written from sync.
    pub closed spec fn sync_marked(&self, p: Seq<char>) -> bool {
        marked(self.sync_writes_in_progress@, p)
    }

    /// Create a new decorator over `inner`, with CRDT updates disabled and
    /// no writes in progress.
    pub fn new(inner: FS) -> (r: Self)
        ensures
            r.wf(),
            r.wrapped() == inner,
            forall|p: Seq<char>| !r.local_marked(p) && !r.sync_marked(p),
    {
        CrdtFs {
            inner,
            enabled: Arc::new(AtomicBool::new(false)),
            local_writes_in_progress: Vec::new(),
            sync_writes_in_progress: Vec::new(),
        }
    }

    /// Whether CRDT updates are enabled. The switch is shared with every
    /// clone and may be flipped through any of them, so the answer is read
    /// at the moment of the call.
    pub fn is_enabled(&self) -> bool {
        self.enabled.load(std::sync::atomic::Ordering::SeqCst)
    }

    /// Enable or disable CRDT updates, for this decorator and all its
    /// clones.
    pub fn set_enabled(&self, enabled: bool) {
        self.enabled.store(enabled, std::sync::atomic::Ordering::SeqCst);
    }

    /// A reference to the inner filesystem.
    pub fn inner(&self) -> (r: &FS)
        ensures
            *r == self.wrapped(),
    {
        &self.inner
    }

    /// Whether `path` is being written locally (used to stop observers
    /// from writing it back).
    pub fn is_local_write_in_progress(&self, path: &str) -> (r: bool)
        ensures
            r == self.local_marked(path@),
    {
        find_mark(&self.local_writes_in_progress, &chars_of(path)).is_some()
    }

    /// Mark `path` as being written locally.
    pub fn mark_local_write_start(&mut self, path: &str)
        requires
            old(self).wf(),
        ensures
            final(self).wf(),
            forall|q: Seq<char>| final(self).local_marked(q) <==> (old(self).local_marked(q) || q == path@),
            forall|q: Seq<char>| final(self).sync_marked(q) == old(self).sync_marked(q),
    {
        add_mark(&mut self.local_writes_in_progress, path);
    }

    /// Clear the local write marker for `path`.
    pub fn mark_local_write_end(&mut self, path: &str)
        requires
            old(self).wf(),
        ensures
            final(self).wf(),
            forall|q: Seq<char>| final(self).local_marked(q) <==> (old(self).local_marked(q) && q != path@),
            forall|q: Seq<char>| final(self).sync_marked(q) == old(self).sync_marked(q),
    {
        remove_mark(&mut self.local_writes_in_progress, path);
    }

    /// Whether `path` is being written from sync; such writes skip CRDT
    /// updates to avoid feedback loops.
    pub fn is_sync_write_in_progress(&self, path: &str) -> (r: bool)
        ensures
            r == self.sync_marked(path@),
    {
        find_mark(&self.sync_writes_in_progress, &chars_of(path)).is_some()
    }

    /// Mark `path` as being written from sync.
    pub fn mark_sync_write_start(&mut self, path: &str)
        requires
            old(self).wf(),
        ensures
            final(self).wf(),
            forall|q: Seq<char>| final(self).sync_marked(q) <==> (old(self).sync_marked(q) || q == path@),
            forall|q: Seq<char>| final(self).local_marked(q) == old(self).local_marked(q),
    {
        add_mark(&mut self.sync_writes_in_progress, path);
    }

    /// Clear the sync write marker for `path`.
    pub fn mark_sync_write_end(&mut self, path: &str)
        requires
            old(self).wf(),
        ensures
            final(self).wf(),
            forall|q: Seq<char>| final(self).sync_marked(q) <==> (old(self).sync_marked(q) && q != path@),
            forall|q: Seq<char>| final(self).local_marked(q) == old(self).local_marked(q),
    {
        remove_mark(&mut self.sync_writes_in_progress, path);
    }

    /// Another decorator over a copy of the inner filesystem that shares
    /// this one's enable switch, with no writes in progress.
    pub fn clone(&self) -> (r: Self)
        where FS: Clone,
        ensures
            r.wf(),
            forall|p: Seq<char>| !r.local_marked(p) && !r.sync_marked(p),
    {
        CrdtFs {
            inner: self.inner.clone(),
            enabled: share_flag(&self.enabled),
            local_writes_in_progress: Vec::new(),
            sync_writes_in_progress: Vec::new(),
        }
    }
}

/// The link format a frontmatter `link_format` value names, after trimming
/// and lower-casing (ASCII).
pub open spec fn link_format_named(raw: Seq<char>) -> Option<LinkFormat> {
    let s = trim(raw).map_values(|c: char| ascii_lower(c));
    if s == "markdown_root"@ {
        Some(LinkFormat::MarkdownRoot)
    } else if s == "markdown_relative"@ {
        Some(LinkFormat::MarkdownRelative)
    } else if s == "plain_relative"@ {
        Some(LinkFormat::PlainRelative)
    } else if s == "plain_canonical"@ {
        Some(LinkFormat::PlainCanonical)
    } else {
        None
    }
}

/// Parse a link format name from frontmatter (`markdown_root`,
/// `markdown_relative`, `plain_relative`, `plain_canonical`), ignoring
/// surrounding whitespace and ASCII case.
pub fn parse_link_format(raw: &str) -> (r: Option<LinkFormat>)
    ensures
        r == link_format_named(raw@),
{
    let t = trim_chars(&chars_of(raw));
    let mut s: Vec<char> = Vec::new();
    let mut i: usize = 0;
    while i < t.len()
        invariant
            i <= t.len(),
            s@ == t@.subrange(0, i as int).map_values(|c: char| ascii_lower(c)),
        decreases t.len() - i,
    {
        s.push(to_ascii_lowercase(t[i]));
        i += 1;
        assert(s@ =~= t@.subrange(0, i as int).map_values(|c: char| ascii_lower(c)));
    }
    assert(t@.subrange(0, t@.len() as int) =~= t@);
    if chars_eq(&s, &chars_of("markdown_root")) {
        Some(LinkFormat::MarkdownRoot)
    } else if chars_eq(&s, &chars_of("markdown_relative")) {
        Some(LinkFormat::MarkdownRelative)
    } else if chars_eq(&s, &chars_of("plain_relative")) {
        Some(LinkFormat::PlainRelative)
    } else if chars_eq(&s, &chars_of("plain_canonical")) {
        Some(LinkFormat::PlainCanonical)
    } else {
        None
    }
}

// ---------------------------------------------------------------------------
// Moving a file
// ---------------------------------------------------------------------------

/// What the workspace CRDT records after a file was moved on disk.
#[derive(Debug, Clone, PartialEq, Eq)]
pub enum MovePlan {
    /// Nothing: the move failed, CRDT updates are off, a sync write is in
    /// progress on either path, or either path is a temporary file.
    Untracked,
    /// Delete and create: the parent's contents list has the old path
    /// replaced by the new one, the source is marked deleted (the legacy
    /// path key when there is one, else the source path itself), and the
    /// destination is recorded as a new file.
    Recreate {
        /// The legacy path key the file was stored under, if any.
        legacy_key: Option<String>,
    },
    /// A rename within one directory: only the filename changes.
    Rename {
        /// The file's stable doc-ID.
        doc_id: String,
        /// The new filename.
        filename: String,
    },
    /// A move to another directory: the parent reference changes, then the
    /// filename when it differs.
    Move {
        /// The file's stable doc-ID.
        doc_id: String,
        /// The new filename.
        filename: String,
    },
}

/// The parent of a path, by its components (`Path::parent`): none for the
/// empty path and the root.
pub open spec fn parent_of(p: Seq<char>) -> Option<Seq<Seq<char>>> {
    let c = comps(p);
    if c.len() > 0 && c.last() != seq!['/'] {
        Some(c.drop_last())
    } else {
        None
    }
}

/// The file name a moved file gets: the destination's file name, or the
/// empty name when it has none.
pub open spec fn new_filename(to: Seq<char>) -> Seq<char> {
    match file_name_spec(to) {
        Some(n) => n,
        None => Seq::empty(),
    }
}

/// Whether a plan is the one for a move from `from` to `to`: `skip` says
/// that the move failed, CRDT updates are off or a sync write is in
/// progress on either path; `doc_id` is the doc-ID found for `from`.
pub open spec fn move_plan_spec(
    p: MovePlan,
    from: Seq<char>,
    to: Seq<char>,
    skip: bool,
    doc_id: Option<Seq<char>>,
) -> bool {
    if skip || is_temp_spec(from) || is_temp_spec(to) {
        p is Untracked
    } else {
        match doc_id {
            None => p matches MovePlan::Recreate { legacy_key: None },
            Some(d) => if is_path_ref(d) {
                p matches MovePlan::Recreate { legacy_key: Some(k) } && k@ == d
            } else if parent_of(from) == parent_of(to) {
                p matches MovePlan::Rename { doc_id: x, filename: f } && x@ == d && f@ == new_filename(to)
            } else {
                p matches MovePlan::Move { doc_id: x, filename: f } && x@ == d && f@ == new_filename(to)
            },
        }
    }
}

/// Whether two paths have the same parent (see [`parent_of`]).
fn same_parent(from: &str, to: &str) -> (r: bool)
    ensures
        r == (parent_of(from@) == parent_of(to@)),
{
    let a = comps_exec(&chars_of(from));
    let b = comps_exec(&chars_of(to));
    let ha = a.len() > 0 && !chars_eq(&a[a.len() - 1], &v1c('/'));
    let hb = b.len() > 0 && !chars_eq(&b[b.len() - 1], &v1c('/'));
    proof {
        if a.len() > 0 {
            assert(views(a@).last() == a@[a.len() - 1]@);
        }
        if b.len() > 0 {
            assert(views(b@).last() == b@[b.len() - 1]@);
        }
    }
    if ha != hb {
        return false;
    }
    if !ha {
        return true;
    }
    let n = a.len() - 1;
    if n != b.len() - 1 {
        proof {
            assert(views(a@).drop_last().len() != views(b@).drop_last().len());
        }
        return false;
    }
    let mut i: usize = 0;
    while i < n
        invariant
            n == a.len() - 1,
            n == b.len() - 1,
            i <= n,
            views(a@) == comps(from@),
            views(b@) == comps(to@),
            parent_of(from@) == Some(views(a@).drop_last()),
            parent_of(to@) == Some(views(b@).drop_last()),
            forall|j: int| 0 <= j < i ==> a@[j]@ == b@[j]@,
        decreases n - i,
    {
        if !chars_eq(&a[i], &b[i]) {
            proof {
                assert(views(a@).drop_last()[i as int] != views(b@).drop_last()[i as int]);
            }
            return false;
        }
        i += 1;
    }
    assert(views(a@).drop_last() =~= views(b@).drop_last());
    true
}

/// A one-character vector.
fn v1c(c: char) -> (r: Vec<char>)
    ensures
        r@ == seq![c],
{
    let mut r = Vec::new();
    r.push(c);
    r
}

/// What the CRDT records for a move from `from` to `to` (see
/// [`move_plan_spec`]). The doc-ID is the one found for `from`; a key that
/// is itself a path (legacy path-key storage) is recreated rather than
/// renamed, so that the key and the file's path do not part.
pub fn move_plan(from: &str, to: &str, skip: bool, doc_id: Option<&str>) -> (p: MovePlan)
    ensures
        move_plan_spec(p, from@, to@, skip, match doc_id {
            Some(d) => Some(d@),
            None => None,
        }),
{
    if skip || is_temp_file(from) || is_temp_file(to) {
        return MovePlan::Untracked;
    }
    match doc_id {
        None => MovePlan::Recreate { legacy_key: None },
        Some(d) => {
            let dc = chars_of(d);
            proof {
                assert(md_ext() == seq!['.', 'm', 'd']);
            }
            if contains_char(&dc, '/') || has_suffix(&dc, &v3('.', 'm', 'd')) {
                return MovePlan::Recreate { legacy_key: Some(d.to_string()) };
            }
            let filename = match file_name(to) {
                Some(n) => n,
                None => String::new(),
            };
            if same_parent(from, to) {
                MovePlan::Rename { doc_id: d.to_string(), filename }
            } else {
                MovePlan::Move { doc_id: d.to_string(), filename }
            }
        },
    }
}

} // verus!
