//! Workspace sanity validation: find inconsistencies in the synced
//! workspace state, such as empty bodies, broken parent chains and missing
//! children.

use vstd::prelude::*;
use crate::crdt::types::{FileMetadata, is_path_ref};
use crate::text::{chars_eq, chars_of, contains_char, extend_chars, has_suffix, string_of, v3};

verus! {

/// A single issue found during validation.
#[derive(Debug, Clone, PartialEq, Eq)]
pub struct SanityIssue {
    /// The doc-ID or path key of the affected file (if applicable).
    pub key: Option<String>,
    /// What kind of issue was found.
    pub kind: IssueKind,
    /// Human-readable description.
    pub message: String,
}

/// Categories of validation issues.
#[derive(Debug, Clone, Copy, PartialEq, Eq, Structural)]
pub enum IssueKind {
    /// A non-deleted file has an empty body document.
    EmptyBody,
    /// A file references a parent (`part_of`) that doesn't exist.
    BrokenParentChain,
    /// A body document exists but has no corresponding workspace file entry.
    OrphanBodyDoc,
    /// A workspace file entry exists but its body doc key doesn't match the
    /// expected naming.
    MissingBodyDoc,
    /// A file listed in `contents` doesn't exist in the workspace.
    MissingChild,
}

/// The plain-value content of a [`SanityIssue`].
pub struct IssueView {
    pub key: Option<Seq<char>>,
    pub kind: IssueKind,
    pub message: Seq<char>,
}

impl View for SanityIssue {
    type V = IssueView;

    open spec fn view(&self) -> IssueView {
        IssueView {
            key: match self.key {
                Some(k) => Some(k@),
                None => None,
            },
            kind: self.kind,
            message: self.message@,
        }
    }
}

/// Result of a sanity validation run.
#[derive(Debug)]
pub struct SanityReport {
    /// Issues found during validation.
    pub issues: Vec<SanityIssue>,
    /// Number of non-deleted files in the workspace.
    pub file_count: usize,
    /// Number of body documents checked.
    pub body_doc_count: usize,
}

impl SanityReport {
    /// Whether no issues were found.
    pub fn is_ok(&self) -> (r: bool)
        ensures
            r == (self.issues@.len() == 0),
    {
        self.issues.len() == 0
    }

    /// The number of issues.
    pub fn issue_count(&self) -> (r: usize)
        ensures
            r == self.issues@.len(),
    {
        self.issues.len()
    }

    /// The issues of one kind, in the order found.
    pub fn issues_of_kind(&self, kind: &IssueKind) -> (r: Vec<&SanityIssue>)
        ensures
            r@.map_values(|i: &SanityIssue| *i) == of_kind(self.issues@, *kind),
    {
        let mut r: Vec<&SanityIssue> = Vec::new();
        let mut n: usize = 0;
        while n < self.issues.len()
            invariant
                n <= self.issues.len(),
                r@.map_values(|i: &SanityIssue| *i) == self.issues@.subrange(0, n as int).filter(
                    |i: SanityIssue| i.kind == *kind,
                ),
            decreases self.issues.len() - n,
        {
            let issue = &self.issues[n];
            proof {
                reveal(Seq::filter);
                assert(self.issues@.subrange(0, n + 1).drop_last() =~= self.issues@.subrange(
                    0,
                    n as int,
                ));
            }
            if issue.kind == *kind {
                r.push(issue);
            }
            n += 1;
            assert(r@.map_values(|i: &SanityIssue| *i) =~= self.issues@.subrange(0, n as int).filter(
                |i: SanityIssue| i.kind == *kind,
            ));
        }
        assert(self.issues@.subrange(0, self.issues@.len() as int) =~= self.issues@);
        r
    }
}

/// The issues of kind `k`, in order.
pub open spec fn of_kind(s: Seq<SanityIssue>, k: IssueKind) -> Seq<SanityIssue> {
    s.filter(|i: SanityIssue| i.kind == k)
}

/// Each issue is of exactly one kind, so the issues of the five kinds
/// together are all the issues.
proof fn lemma_kinds_add_up(s: Seq<SanityIssue>)
    ensures
        s.len() == of_kind(s, IssueKind::EmptyBody).len() + of_kind(s, IssueKind::BrokenParentChain).len()
            + of_kind(s, IssueKind::OrphanBodyDoc).len() + of_kind(s, IssueKind::MissingBodyDoc).len()
            + of_kind(s, IssueKind::MissingChild).len(),
    decreases s.len(),
{
    reveal(Seq::filter);
    if s.len() > 0 {
        lemma_kinds_add_up(s.drop_last());
    }
}

/// A report's issue count is the sum of the counts of the five issue
/// kinds ([`SanityReport::issue_count`] and
/// [`SanityReport::issues_of_kind`]).
pub proof fn law_issue_kinds_add_up(r: SanityReport)
    ensures
        r.issues@.len() == of_kind(r.issues@, IssueKind::EmptyBody).len() + of_kind(
            r.issues@,
            IssueKind::BrokenParentChain,
        ).len() + of_kind(r.issues@, IssueKind::OrphanBodyDoc).len() + of_kind(
            r.issues@,
            IssueKind::MissingBodyDoc,
        ).len() + of_kind(r.issues@, IssueKind::MissingChild).len(),
{
    lemma_kinds_add_up(r.issues@);
}

/// What validation reads of the workspace: its file entries (doc-ID or path
/// key with metadata, deleted ones included) and the path each doc-ID
/// resolves to, where it resolves.
#[derive(Debug, Clone)]
pub struct WorkspaceListing {
    /// File entries in listing order.
    pub files: Vec<(String, FileMetadata)>,
    /// Resolved paths by doc-ID, each doc-ID once.
    pub paths: Vec<(String, String)>,
}

/// The loaded body documents: body text by body key, each key once.
#[derive(Debug, Clone)]
pub struct BodyDocs {
    /// Body text by body doc key (`body:<workspace>/<path>`).
    pub docs: Vec<(String, String)>,
}

/// The value stored under the first entry for `k`, if any.
pub open spec fn lookup(kvs: Seq<(String, String)>, k: Seq<char>) -> Option<Seq<char>>
    decreases kvs.len(),
{
    if kvs.len() == 0 {
        None
    } else if kvs[0].0@ == k {
        Some(kvs[0].1@)
    } else {
        lookup(kvs.drop_first(), k)
    }
}

/// Whether some file entry has key `k`.
pub open spec fn has_key(files: Seq<(String, FileMetadata)>, k: Seq<char>) -> bool {
    exists|i: int| 0 <= i < files.len() && #[trigger] files[i].0@ == k
}

/// The path a file key stands for: a path key is its own path, a doc-ID
/// its resolved path, else the key itself.
pub open spec fn key_path(key: Seq<char>, paths: Seq<(String, String)>) -> Seq<char> {
    if is_path_ref(key) {
        key
    } else {
        match lookup(paths, key) {
            Some(p) => p,
            None => key,
        }
    }
}

/// The key of a file's body document.
pub open spec fn body_key(workspace_id: Seq<char>, path: Seq<char>) -> Seq<char> {
    "body:"@ + workspace_id + "/"@ + path
}

/// An issue about the file with key `key`.
pub open spec fn issue(key: Seq<char>, kind: IssueKind, message: Seq<char>) -> IssueView {
    IssueView { key: Some(key), kind, message }
}

/// Whether a reference is a doc-ID that names no file.
pub open spec fn dangling(r: Seq<char>, files: Seq<(String, FileMetadata)>) -> bool {
    !is_path_ref(r) && !has_key(files, r)
}

/// Issues for the children a file lists that are doc-IDs of no file.
pub open spec fn child_issues(
    key: Seq<char>,
    children: Seq<String>,
    files: Seq<(String, FileMetadata)>,
) -> Seq<IssueView>
    decreases children.len(),
{
    if children.len() == 0 {
        Seq::empty()
    } else {
        let c = children.last()@;
        let rest = child_issues(key, children.drop_last(), files);
        if dangling(c, files) {
            rest.push(
                issue(
                    key,
                    IssueKind::MissingChild,
                    "File '"@ + key + "' lists non-existent child '"@ + c + "'"@,
                ),
            )
        } else {
            rest
        }
    }
}

/// Issues for one non-deleted file: an empty body (unless it is an index,
/// whose `contents` is set), a parent doc-ID that names no file, and
/// listed children that name no file.
pub open spec fn file_issues(
    key: Seq<char>,
    meta: FileMetadata,
    ws: WorkspaceListing,
    bodies: BodyDocs,
    workspace_id: Seq<char>,
) -> Seq<IssueView> {
    let path = key_path(key, ws.paths@);
    let empty_body = match lookup(bodies.docs@, body_key(workspace_id, path)) {
        Some(b) => b.len() == 0 && meta.contents is None,
        None => false,
    };
    let a: Seq<IssueView> = if empty_body {
        seq![
            issue(
                key,
                IssueKind::EmptyBody,
                "Non-index file '"@ + path + "' has an empty body"@,
            ),
        ]
    } else {
        Seq::empty()
    };
    let b: Seq<IssueView> = match meta.part_of {
        Some(p) => if p@.len() > 0 && dangling(p@, ws.files@) {
            seq![
                issue(
                    key,
                    IssueKind::BrokenParentChain,
                    "File '"@ + key + "' references non-existent parent '"@ + p@ + "'"@,
                ),
            ]
        } else {
            Seq::empty()
        },
        None => Seq::empty(),
    };
    let c: Seq<IssueView> = match meta.contents {
        Some(cs) => child_issues(key, cs@, ws.files@),
        None => Seq::empty(),
    };
    a + b + c
}

/// The issues found in the first `n` file entries, in order.
pub open spec fn issues_upto(
    ws: WorkspaceListing,
    bodies: BodyDocs,
    workspace_id: Seq<char>,
    n: nat,
) -> Seq<IssueView>
    decreases n,
{
    if n == 0 {
        Seq::empty()
    } else {
        let prev = issues_upto(ws, bodies, workspace_id, (n - 1) as nat);
        let entry = ws.files@[n - 1];
        if entry.1.deleted {
            prev
        } else {
            prev + file_issues(entry.0@, entry.1, ws, bodies, workspace_id)
        }
    }
}

/// The number of non-deleted entries among the first `n`.
pub open spec fn active_upto(files: Seq<(String, FileMetadata)>, n: nat) -> nat
    decreases n,
{
    if n == 0 {
        0
    } else {
        active_upto(files, (n - 1) as nat) + if files[n - 1].1.deleted {
            0nat
        } else {
            1nat
        }
    }
}

/// The number of non-deleted entries among the first `n` whose body
/// document is loaded.
pub open spec fn bodies_upto(
    ws: WorkspaceListing,
    bodies: BodyDocs,
    workspace_id: Seq<char>,
    n: nat,
) -> nat
    decreases n,
{
    if n == 0 {
        0
    } else {
        let e = ws.files@[n - 1];
        bodies_upto(ws, bodies, workspace_id, (n - 1) as nat) + if !e.1.deleted && lookup(
            bodies.docs@,
            body_key(workspace_id, key_path(e.0@, ws.paths@)),
        ) is Some {
            1nat
        } else {
            0nat
        }
    }
}

/// Where the first entry for `k` stands, with its value.
pub(crate) fn lookup_exec<'a>(kvs: &'a Vec<(String, String)>, k: &Vec<char>) -> (r: Option<&'a String>)
    ensures
        match r {
            Some(v) => lookup(kvs@, k@) == Some(v@),
            None => lookup(kvs@, k@) is None,
        },
{
    let mut i: usize = 0;
    assert(kvs@.subrange(0, kvs@.len() as int) =~= kvs@);
    while i < kvs.len()
        invariant
            i <= kvs.len(),
            lookup(kvs@, k@) == lookup(kvs@.subrange(i as int, kvs@.len() as int), k@),
        decreases kvs.len() - i,
    {
        let ghost rest = kvs@.subrange(i as int, kvs@.len() as int);
        assert(rest.drop_first() =~= kvs@.subrange(i + 1, kvs@.len() as int));
        if chars_eq(&chars_of(kvs[i].0.as_str()), k) {
            return Some(&kvs[i].1);
        }
        i += 1;
    }
    None
}

/// Whether some file entry has key `k`.
pub(crate) fn has_key_exec(files: &Vec<(String, FileMetadata)>, k: &Vec<char>) -> (r: bool)
    ensures
        r == has_key(files@, k@),
{
    let mut i: usize = 0;
    while i < files.len()
        invariant
            i <= files.len(),
            forall|j: int| 0 <= j < i ==> files@[j].0@ != k@,
        decreases files.len() - i,
    {
        if chars_eq(&chars_of(files[i].0.as_str()), k) {
            return true;
        }
        i += 1;
    }
    false
}

/// Whether `r` holds `/` or ends with `.md`.
fn is_path_ref_exec(r: &Vec<char>) -> (b: bool)
    ensures
        b == is_path_ref(r@),
{
    contains_char(r, '/') || has_suffix(r, &v3('.', 'm', 'd'))
}

/// `'a' + x + 'b'` style message assembly: `p1 + x + p2`.
fn message2(p1: &str, x: &Vec<char>, p2: &str) -> (r: String)
    ensures
        r@ == p1@ + x@ + p2@,
{
    let mut m = chars_of(p1);
    extend_chars(&mut m, x);
    extend_chars(&mut m, &chars_of(p2));
    string_of(&m)
}

/// `p1 + x + p2 + y + p3`.
fn message3(p1: &str, x: &Vec<char>, p2: &str, y: &Vec<char>, p3: &str) -> (r: String)
    ensures
        r@ == p1@ + x@ + p2@ + y@ + p3@,
{
    let mut m = chars_of(p1);
    extend_chars(&mut m, x);
    extend_chars(&mut m, &chars_of(p2));
    extend_chars(&mut m, y);
    extend_chars(&mut m, &chars_of(p3));
    string_of(&m)
}

/// The issues of one non-deleted file, appended to `issues`; returns
/// whether its body document is loaded.
fn check_file(
    key: &String,
    meta: &FileMetadata,
    workspace: &WorkspaceListing,
    body_docs: &BodyDocs,
    workspace_id: &str,
    issues: &mut Vec<SanityIssue>,
) -> (has_body: bool)
    ensures
        final(issues)@.map_values(|i: SanityIssue| i@) == old(issues)@.map_values(
            |i: SanityIssue| i@,
        ) + file_issues(key@, *meta, *workspace, *body_docs, workspace_id@),
        has_body == lookup(
            body_docs.docs@,
            body_key(workspace_id@, key_path(key@, workspace.paths@)),
        ) is Some,
{
    let ghost start = issues@.map_values(|i: SanityIssue| i@);
    let k = chars_of(key.as_str());
    let path = if is_path_ref_exec(&k) {
        k.clone()
    } else {
        match lookup_exec(&workspace.paths, &k) {
            Some(p) => chars_of(p.as_str()),
            None => k.clone(),
        }
    };
    assert(path@ == key_path(key@, workspace.paths@));
    let mut bk = chars_of("body:");
    extend_chars(&mut bk, &chars_of(workspace_id));
    extend_chars(&mut bk, &chars_of("/"));
    extend_chars(&mut bk, &path);
    assert(bk@ == body_key(workspace_id@, path@));
    let found = lookup_exec(&body_docs.docs, &bk);
    let has_body = found.is_some();
    match found {
        Some(body) => {
            if chars_of(body.as_str()).len() == 0 && meta.contents.is_none() {
                let ghost pre = issues@;
                issues.push(
                    SanityIssue {
                        key: Some(key.clone()),
                        kind: IssueKind::EmptyBody,
                        message: message2("Non-index file '", &path, "' has an empty body"),
                    },
                );
                assert(issues@.map_values(|i: SanityIssue| i@) =~= pre.map_values(
                    |i: SanityIssue| i@,
                ).push(issues@.last()@));
            }
        },
        None => {},
    }
    let ghost after_a = issues@.map_values(|i: SanityIssue| i@);
    match &meta.part_of {
        Some(p) => {
            let pc = chars_of(p.as_str());
            if pc.len() > 0 && !is_path_ref_exec(&pc) && !has_key_exec(&workspace.files, &pc) {
                let ghost pre = issues@;
                issues.push(
                    SanityIssue {
                        key: Some(key.clone()),
                        kind: IssueKind::BrokenParentChain,
                        message: message3(
                            "File '",
                            &k,
                            "' references non-existent parent '",
                            &pc,
                            "'",
                        ),
                    },
                );
                assert(issues@.map_values(|i: SanityIssue| i@) =~= pre.map_values(
                    |i: SanityIssue| i@,
                ).push(issues@.last()@));
            }
        },
        None => {},
    }
    let ghost after_b = issues@.map_values(|i: SanityIssue| i@);
    match &meta.contents {
        Some(children) => {
            let mut n: usize = 0;
            while n < children.len()
                invariant
                    n <= children.len(),
                    k@ == key@,
                    issues@.map_values(|i: SanityIssue| i@) == after_b + child_issues(
                        key@,
                        children@.subrange(0, n as int),
                        workspace.files@,
                    ),
                decreases children.len() - n,
            {
                let c = chars_of(children[n].as_str());
                assert(children@.subrange(0, n + 1).drop_last() =~= children@.subrange(
                    0,
                    n as int,
                ));
                if !is_path_ref_exec(&c) && !has_key_exec(&workspace.files, &c) {
                    let ghost pre = issues@;
                    issues.push(
                        SanityIssue {
                            key: Some(key.clone()),
                            kind: IssueKind::MissingChild,
                            message: message3(
                                "File '",
                                &k,
                                "' lists non-existent child '",
                                &c,
                                "'",
                            ),
                        },
                    );
                    assert(issues@.map_values(|i: SanityIssue| i@) =~= pre.map_values(
                        |i: SanityIssue| i@,
                    ).push(issues@.last()@));
                }
                n += 1;
            }
            assert(children@.subrange(0, children@.len() as int) =~= children@);
        },
        None => {},
    }
    assert(issues@.map_values(|i: SanityIssue| i@) =~= start + file_issues(
        key@,
        *meta,
        *workspace,
        *body_docs,
        workspace_id@,
    ));
    has_body
}

/// Validate the workspace state for inconsistencies: for each non-deleted
/// file, an empty body document (index files excepted), a parent doc-ID
/// that names no file, and listed child doc-IDs that name no file.
/// Path references are not checked. Also counts the non-deleted files and
/// the body documents found for them.
pub fn validate_workspace(
    workspace: &WorkspaceListing,
    body_docs: &BodyDocs,
    workspace_id: &str,
) -> (r: SanityReport)
    ensures
        r.issues@.map_values(|i: SanityIssue| i@) == issues_upto(
            *workspace,
            *body_docs,
            workspace_id@,
            workspace.files@.len(),
        ),
        r.file_count == active_upto(workspace.files@, workspace.files@.len()),
        r.body_doc_count == bodies_upto(
            *workspace,
            *body_docs,
            workspace_id@,
            workspace.files@.len(),
        ),
{
    let mut issues: Vec<SanityIssue> = Vec::new();
    let mut file_count: usize = 0;
    let mut body_doc_count: usize = 0;
    let mut n: usize = 0;
    assert(issues@.map_values(|i: SanityIssue| i@) =~= Seq::<IssueView>::empty());
    while n < workspace.files.len()
        invariant
            n <= workspace.files.len(),
            issues@.map_values(|i: SanityIssue| i@) == issues_upto(
                *workspace,
                *body_docs,
                workspace_id@,
                n as nat,
            ),
            file_count == active_upto(workspace.files@, n as nat),
            body_doc_count == bodies_upto(*workspace, *body_docs, workspace_id@, n as nat),
            file_count <= n,
            body_doc_count <= n,
        decreases workspace.files.len() - n,
    {
        let entry = &workspace.files[n];
        if !entry.1.deleted {
            file_count += 1;
            let has_body = check_file(
                &entry.0,
                &entry.1,
                workspace,
                body_docs,
                workspace_id,
                &mut issues,
            );
            if has_body {
                body_doc_count += 1;
            }
        }
        n += 1;
    }
    SanityReport { issues, file_count, body_doc_count }
}

/// The issue naming a listed child that names no file.
pub open spec fn missing_child_issue(key: Seq<char>, c: Seq<char>) -> IssueView {
    IssueView {
        key: Some(key),
        kind: IssueKind::MissingChild,
        message: "File '"@ + key + "' lists non-existent child '"@ + c + "'"@,
    }
}

/// The issues of kind `MissingChild` among `s`.
pub open spec fn missing_child_issues(s: Seq<IssueView>) -> Seq<IssueView> {
    s.filter(|i: IssueView| i.kind == IssueKind::MissingChild)
}

/// The children of a file that are doc-IDs naming no file of `files`.
pub open spec fn dangling_children(cs: Seq<String>, files: Seq<(String, FileMetadata)>) -> Seq<String> {
    cs.filter(|c: String| !is_path_ref(c@) && !has_key(files, c@))
}

proof fn lemma_child_issues_are_dangling(key: Seq<char>, cs: Seq<String>, files: Seq<(String, FileMetadata)>)
    ensures
        child_issues(key, cs, files) == dangling_children(cs, files).map_values(
            |c: String| missing_child_issue(key, c@),
        ),
        missing_child_issues(child_issues(key, cs, files)) == child_issues(key, cs, files),
    decreases cs.len(),
{
    reveal(Seq::filter);
    if cs.len() > 0 {
        lemma_child_issues_are_dangling(key, cs.drop_last(), files);
        let d0 = dangling_children(cs.drop_last(), files);
        let r0 = child_issues(key, cs.drop_last(), files);
        if !is_path_ref(cs.last()@) && !has_key(files, cs.last()@) {
            assert(dangling_children(cs, files) == d0.push(cs.last()));
            assert(d0.push(cs.last()).map_values(|c: String| missing_child_issue(key, c@)) =~= d0.map_values(
                |c: String| missing_child_issue(key, c@),
            ).push(missing_child_issue(key, cs.last()@)));
            let r = r0.push(missing_child_issue(key, cs.last()@));
            assert(r.drop_last() =~= r0);
            assert(missing_child_issues(r) == missing_child_issues(r0).push(r.last()));
        } else {
            assert(dangling_children(cs, files) == d0);
        }
    }
}

/// A live file's listed children that are doc-IDs of no file are each
/// reported, in order, by exactly one `MissingChild` issue naming the file
/// and the child; it has no other `MissingChild` issue.
pub proof fn law_missing_child_per_dangling_child(
    key: Seq<char>,
    meta: FileMetadata,
    ws: WorkspaceListing,
    bodies: BodyDocs,
    workspace_id: Seq<char>,
)
    ensures
        missing_child_issues(file_issues(key, meta, ws, bodies, workspace_id)) == match meta.contents {
            Some(cs) => dangling_children(cs@, ws.files@).map_values(|c: String| missing_child_issue(key, c@)),
            None => Seq::empty(),
        },
{
    reveal(Seq::filter);
    let path = key_path(key, ws.paths@);
    let empty_body = match lookup(bodies.docs@, body_key(workspace_id, path)) {
        Some(b) => b.len() == 0 && meta.contents is None,
        None => false,
    };
    let a: Seq<IssueView> = if empty_body {
        seq![issue(key, IssueKind::EmptyBody, "Non-index file '"@ + path + "' has an empty body"@)]
    } else {
        Seq::empty()
    };
    let b: Seq<IssueView> = match meta.part_of {
        Some(p) => if p@.len() > 0 && dangling(p@, ws.files@) {
            seq![
                issue(
                    key,
                    IssueKind::BrokenParentChain,
                    "File '"@ + key + "' references non-existent parent '"@ + p@ + "'"@,
                ),
            ]
        } else {
            Seq::empty()
        },
        None => Seq::empty(),
    };
    let c: Seq<IssueView> = match meta.contents {
        Some(cs) => child_issues(key, cs@, ws.files@),
        None => Seq::empty(),
    };
    assert(file_issues(key, meta, ws, bodies, workspace_id) == a + b + c);
    let p = |i: IssueView| i.kind == IssueKind::MissingChild;
    Seq::filter_distributes_over_add(a + b, c, p);
    Seq::filter_distributes_over_add(a, b, p);
    assert(a.filter(p) =~= Seq::<IssueView>::empty()) by {
        if a.len() > 0 {
            assert(a.drop_last() =~= Seq::<IssueView>::empty());
        }
    }
    assert(b.filter(p) =~= Seq::<IssueView>::empty()) by {
        if b.len() > 0 {
            assert(b.drop_last() =~= Seq::<IssueView>::empty());
        }
    }
    match meta.contents {
        Some(cs) => {
            lemma_child_issues_are_dangling(key, cs@, ws.files@);
        },
        None => {},
    }
    assert(Seq::<IssueView>::empty() + Seq::<IssueView>::empty() =~= Seq::<IssueView>::empty());
    assert(Seq::<IssueView>::empty() + c.filter(p) =~= c.filter(p));
}

/// The issues of kind `k` among `s`.
pub open spec fn issues_of(s: Seq<IssueView>, k: IssueKind) -> Seq<IssueView> {
    s.filter(|i: IssueView| i.kind == k)
}

proof fn lemma_none_of_kind(s: Seq<IssueView>, k: IssueKind)
    requires
        forall|j: int| 0 <= j < s.len() ==> (#[trigger] s[j]).kind != k,
    ensures
        issues_of(s, k) == Seq::<IssueView>::empty(),
    decreases s.len(),
{
    reveal(Seq::filter);
    if s.len() > 0 {
        lemma_none_of_kind(s.drop_last(), k);
    }
}

proof fn lemma_one_of_kind(i: IssueView, k: IssueKind)
    ensures
        issues_of(seq![i], k) == (if i.kind == k {
            seq![i]
        } else {
            Seq::<IssueView>::empty()
        }),
{
    reveal(Seq::filter);
    let s = seq![i];
    let p = |x: IssueView| x.kind == k;
    assert(s.drop_last() =~= Seq::<IssueView>::empty());
    assert(s.last() == i);
    assert(Seq::<IssueView>::empty().filter(p) == Seq::<IssueView>::empty());
    assert(s.filter(p) == if p(i) {
        Seq::<IssueView>::empty().push(i)
    } else {
        Seq::<IssueView>::empty()
    });
    if i.kind == k {
        assert(Seq::<IssueView>::empty().push(i) =~= s);
    }
}

/// A live file gets a `BrokenParentChain` issue exactly when its parent
/// reference is a non-empty doc-ID that names no file of the workspace,
/// and an `EmptyBody` issue exactly when it is no index (it lists no
/// contents) and its body document exists and is empty; it gets at most
/// one of each.
pub proof fn law_parent_and_body_issues(
    key: Seq<char>,
    meta: FileMetadata,
    ws: WorkspaceListing,
    bodies: BodyDocs,
    workspace_id: Seq<char>,
)
    ensures
        issues_of(file_issues(key, meta, ws, bodies, workspace_id), IssueKind::BrokenParentChain).len() == if (
        meta.part_of matches Some(p) && p@.len() > 0 && !is_path_ref(p@) && !has_key(ws.files@, p@)) {
            1int
        } else {
            0int
        },
        issues_of(file_issues(key, meta, ws, bodies, workspace_id), IssueKind::EmptyBody).len() == if (lookup(
            bodies.docs@,
            body_key(workspace_id, key_path(key, ws.paths@)),
        ) matches Some(b) && b.len() == 0 && meta.contents is None) {
            1int
        } else {
            0int
        },
{
    let path = key_path(key, ws.paths@);
    let empty_body = match lookup(bodies.docs@, body_key(workspace_id, path)) {
        Some(b) => b.len() == 0 && meta.contents is None,
        None => false,
    };
    let ia = issue(key, IssueKind::EmptyBody, "Non-index file '"@ + path + "' has an empty body"@);
    let a: Seq<IssueView> = if empty_body {
        seq![ia]
    } else {
        Seq::empty()
    };
    let b: Seq<IssueView> = match meta.part_of {
        Some(p) => if p@.len() > 0 && dangling(p@, ws.files@) {
            seq![
                issue(
                    key,
                    IssueKind::BrokenParentChain,
                    "File '"@ + key + "' references non-existent parent '"@ + p@ + "'"@,
                ),
            ]
        } else {
            Seq::empty()
        },
        None => Seq::empty(),
    };
    let c: Seq<IssueView> = match meta.contents {
        Some(cs) => child_issues(key, cs@, ws.files@),
        None => Seq::empty(),
    };
    assert(file_issues(key, meta, ws, bodies, workspace_id) == a + b + c);
    match meta.contents {
        Some(cs) => {
            lemma_child_issues_are_dangling(key, cs@, ws.files@);
            let d = dangling_children(cs@, ws.files@);
            assert forall|j: int| 0 <= j < c.len() implies (#[trigger] c[j]).kind == IssueKind::MissingChild by {
                assert(c[j] == missing_child_issue(key, d[j]@));
            }
        },
        None => {},
    }
    lemma_none_of_kind(c, IssueKind::BrokenParentChain);
    lemma_none_of_kind(c, IssueKind::EmptyBody);
    lemma_none_of_kind(Seq::<IssueView>::empty(), IssueKind::BrokenParentChain);
    lemma_none_of_kind(Seq::<IssueView>::empty(), IssueKind::EmptyBody);
    lemma_one_of_kind(ia, IssueKind::BrokenParentChain);
    lemma_one_of_kind(ia, IssueKind::EmptyBody);
    match meta.part_of {
        Some(p) => {
            let ib = issue(
                key,
                IssueKind::BrokenParentChain,
                "File '"@ + key + "' references non-existent parent '"@ + p@ + "'"@,
            );
            lemma_one_of_kind(ib, IssueKind::BrokenParentChain);
            lemma_one_of_kind(ib, IssueKind::EmptyBody);
        },
        None => {},
    }
    let pb = |i: IssueView| i.kind == IssueKind::BrokenParentChain;
    let pe = |i: IssueView| i.kind == IssueKind::EmptyBody;
    Seq::filter_distributes_over_add(a + b, c, pb);
    Seq::filter_distributes_over_add(a, b, pb);
    Seq::filter_distributes_over_add(a + b, c, pe);
    Seq::filter_distributes_over_add(a, b, pe);
}

} // verus!
