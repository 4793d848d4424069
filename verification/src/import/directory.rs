//! In-place directory import: the plan that turns a walked directory of
//! markdown files into a Diaryx hierarchy by adding `part_of`, `contents` and
//! `attachments` links, and creating the index files that are missing.
//!
//! The walk and the file reads happen before planning; the plan is a list of
//! steps, each a file to link, an index to create, or an index to complete.

use vstd::prelude::*;
use crate::entry::helpers::{prettify_filename, prettify_spec};
use crate::text::{
    chars_eq, chars_of, ends_with, extend_chars, has_suffix, lemma_rfind_char, rfind_char,
    rfind_char_exec, slice_chars, string_of, views,
};

verus! {

// ---------------------------------------------------------------------------
// Relative paths
// ---------------------------------------------------------------------------

/// The characters of each string.
pub open spec fn names(v: Seq<String>) -> Seq<Seq<char>> {
    v.map_values(|s: String| s@)
}

/// The directory part of a relative path: what stands before the last `/`,
/// or the empty path for a file at the root.
pub open spec fn parent_rel(p: Seq<char>) -> Seq<char> {
    match rfind_char(p, '/') {
        Some(i) => p.take(i as int),
        None => Seq::empty(),
    }
}

/// The last component of a relative path: what follows the last `/`.
pub open spec fn last_segment(p: Seq<char>) -> Seq<char> {
    match rfind_char(p, '/') {
        Some(i) => p.skip(i + 1int),
        None => p,
    }
}

/// `index.md`.
pub open spec fn index_md() -> Seq<char> {
    seq!['i', 'n', 'd', 'e', 'x', '.', 'm', 'd']
}

/// Whether a file name marks an index: `index.md`, or a name ending in
/// `_index.md`.
pub open spec fn is_index_name(name: Seq<char>) -> bool {
    name == index_md() || ends_with(name, seq!['_'] + index_md())
}

/// The index file made for a directory that has none: `index.md` at the
/// root, else `<dir>/<name>_index.md` where `<name>` is the directory's own
/// name.
pub open spec fn index_path_for(dir: Seq<char>) -> Seq<char> {
    if dir.len() == 0 {
        index_md()
    } else {
        dir + seq!['/'] + last_segment(dir) + seq!['_'] + index_md()
    }
}

/// How many `c` occur in `s`.
pub open spec fn count_char(s: Seq<char>, c: char) -> nat
    decreases s.len(),
{
    if s.len() == 0 {
        0
    } else {
        count_char(s.drop_last(), c) + if s.last() == c {
            1nat
        } else {
            0nat
        }
    }
}

/// How deep a directory lies: 0 for the root, else one more than the number
/// of `/` in its relative path.
pub open spec fn depth(dir: Seq<char>) -> nat {
    if dir.len() == 0 {
        0
    } else {
        count_char(dir, '/') + 1
    }
}

/// The parent directory of a relative path.
pub fn parent_rel_path(rel_path: &str) -> (r: String)
    ensures
        r@ == parent_rel(rel_path@),
{
    let p = chars_of(rel_path);
    match rfind_char_exec(&p, '/') {
        Some(i) => {
            proof {
                lemma_rfind_char(p@, '/');
            }
            let head = slice_chars(&p, 0, i);
            assert(head@ =~= p@.take(i as int));
            string_of(&head)
        },
        None => String::new(),
    }
}

/// The last component of a relative path.
pub fn file_name(path: &str) -> (r: String)
    ensures
        r@ == last_segment(path@),
{
    let p = chars_of(path);
    match rfind_char_exec(&p, '/') {
        Some(i) => {
            proof {
                lemma_rfind_char(p@, '/');
            }
            let tail = slice_chars(&p, i + 1, p.len());
            assert(tail@ =~= p@.skip(i + 1));
            string_of(&tail)
        },
        None => string_of(&p),
    }
}

/// `index.md` as characters.
fn index_md_chars() -> (r: Vec<char>)
    ensures
        r@ == index_md(),
{
    let r = vec!['i', 'n', 'd', 'e', 'x', '.', 'm', 'd'];
    assert(r@ =~= index_md());
    r
}

/// Whether a file name marks an index.
pub fn is_index_file_name(name: &str) -> (r: bool)
    ensures
        r == is_index_name(name@),
{
    let n = chars_of(name);
    let ix = index_md_chars();
    let mut suffix = vec!['_'];
    extend_chars(&mut suffix, &ix);
    assert(suffix@ =~= seq!['_'] + index_md());
    chars_eq(&n, &ix) || has_suffix(&n, &suffix)
}

/// The index file made for directory `dir` when it has none.
pub fn index_path_for_dir(dir: &str) -> (r: String)
    ensures
        r@ == index_path_for(dir@),
{
    let d = chars_of(dir);
    let ix = index_md_chars();
    if d.len() == 0 {
        return string_of(&ix);
    }
    let name = chars_of(file_name(dir).as_str());
    let mut out = d;
    out.push('/');
    extend_chars(&mut out, &name);
    out.push('_');
    extend_chars(&mut out, &ix);
    assert(out@ =~= dir@ + seq!['/'] + last_segment(dir@) + seq!['_'] + index_md());
    string_of(&out)
}

/// How deep directory `dir` lies.
pub fn dir_depth(dir: &str) -> (r: usize)
    requires
        dir@.len() < usize::MAX,
    ensures
        r == depth(dir@),
{
    let d = chars_of(dir);
    if d.len() == 0 {
        return 0;
    }
    let mut n: usize = 0;
    let mut i: usize = 0;
    while i < d.len()
        invariant
            i <= d.len(),
            d@ == dir@,
            d@.len() < usize::MAX,
            n == count_char(d@.take(i as int), '/'),
            n <= i,
        decreases d.len() - i,
    {
        assert(d@.take(i + 1).drop_last() =~= d@.take(i as int));
        if d[i] == '/' {
            n += 1;
        }
        i += 1;
    }
    assert(d@.take(d@.len() as int) =~= d@);
    n + 1
}

// ---------------------------------------------------------------------------
// What the walk and the reads found
// ---------------------------------------------------------------------------

/// What was read of one markdown file before planning.
#[derive(Clone, Copy, Debug)]
pub struct FileFacts {
    /// The file could be read.
    pub readable: bool,
    /// Its frontmatter parsed (a file without frontmatter parses as empty).
    pub parsed: bool,
    /// Its frontmatter has a `contents` key.
    pub has_contents: bool,
    /// Its frontmatter has a `part_of` key.
    pub has_part_of: bool,
    /// Its frontmatter has an `attachments` key.
    pub has_attachments: bool,
}

/// Whether the file's frontmatter was read, so that its keys are known.
pub open spec fn knows(f: FileFacts) -> bool {
    f.readable && f.parsed
}

/// The directory tree as walked, with what was read of each markdown file.
pub struct DirScan {
    /// Markdown files (`.md` / `.MD`), relative to the root, in walk order.
    pub md_files: Vec<String>,
    /// What was read of each markdown file, position for position.
    pub md_facts: Vec<FileFacts>,
    /// Every other file, relative to the root, in walk order.
    pub other_files: Vec<String>,
    /// The directories, relative to the root (the root itself as the empty
    /// path), deepest first (see [`deepest_first`]).
    pub dirs: Vec<String>,
    /// The root directory's own name, when it has one.
    pub root_name: Option<String>,
}

// ---------------------------------------------------------------------------
// The directory → index map
// ---------------------------------------------------------------------------

/// A map of relative paths as (key, value) texts, in insertion order.
pub open spec fn path_pairs(m: Seq<(String, String)>) -> Seq<(Seq<char>, Seq<char>)> {
    m.map_values(|e: (String, String)| (e.0@, e.1@))
}

/// Where key `k` first stands in `m`.
pub open spec fn first_pos(m: Seq<(Seq<char>, Seq<char>)>, k: Seq<char>) -> Option<int>
    decreases m.len(),
{
    if m.len() == 0 {
        None
    } else if m[0].0 == k {
        Some(0)
    } else {
        match first_pos(m.drop_first(), k) {
            Some(i) => Some(i + 1),
            None => None,
        }
    }
}

/// The value under key `k`.
pub open spec fn get(m: Seq<(Seq<char>, Seq<char>)>, k: Seq<char>) -> Option<Seq<char>> {
    match first_pos(m, k) {
        Some(i) => Some(m[i].1),
        None => None,
    }
}

/// `m` with `k` set to `v`: in place when `k` is there, else appended
/// (`IndexMap::insert`).
pub open spec fn put(m: Seq<(Seq<char>, Seq<char>)>, k: Seq<char>, v: Seq<char>) -> Seq<
    (Seq<char>, Seq<char>),
> {
    match first_pos(m, k) {
        Some(i) => m.update(i, (k, v)),
        None => m.push((k, v)),
    }
}

/// Whether `p` is the index of some directory in `m`.
pub open spec fn is_index_of_some(m: Seq<(Seq<char>, Seq<char>)>, p: Seq<char>) -> bool {
    exists|i: int| 0 <= i < m.len() && #[trigger] m[i].1 == p
}

/// The first position found is in range and holds the key.
proof fn lemma_first_pos(m: Seq<(Seq<char>, Seq<char>)>, k: Seq<char>)
    ensures
        first_pos(m, k) matches Some(i) ==> 0 <= i < m.len() && m[i].0 == k,
    decreases m.len(),
{
    if m.len() > 0 && m[0].0 != k {
        lemma_first_pos(m.drop_first(), k);
    }
}

/// Where key `k` first stands in `m`.
fn first_pos_exec(m: &Vec<(String, String)>, k: &str) -> (r: Option<usize>)
    ensures
        first_pos(path_pairs(m@), k@) == (match r {
            Some(i) => Some(i as int),
            None => None::<int>,
        }),
        r matches Some(i) ==> i < m@.len() && m@[i as int].0@ == k@,
{
    let kc = chars_of(k);
    let ghost e = path_pairs(m@);
    let mut i: usize = 0;
    assert(e.skip(0) =~= e);
    while i < m.len()
        invariant
            i <= m.len(),
            e == path_pairs(m@),
            kc@ == k@,
            first_pos(e, k@) == (match first_pos(e.skip(i as int), k@) {
                Some(j) => Some(j + i),
                None => None::<int>,
            }),
        decreases m.len() - i,
    {
        assert(e.skip(i as int).drop_first() =~= e.skip(i + 1));
        assert(e.skip(i as int)[0] == e[i as int]);
        if chars_eq(&chars_of(m[i].0.as_str()), &kc) {
            assert(e[i as int].0 == k@);
            return Some(i);
        }
        i += 1;
    }
    None
}

/// The value under key `k`.
pub(crate) fn get_exec<'a>(m: &'a Vec<(String, String)>, k: &str) -> (r: Option<&'a String>)
    ensures
        match r {
            Some(v) => get(path_pairs(m@), k@) == Some(v@),
            None => get(path_pairs(m@), k@) is None,
        },
{
    match first_pos_exec(m, k) {
        Some(i) => Some(&m[i].1),
        None => None,
    }
}

/// Sets `k` to `v`.
pub(crate) fn put_exec(m: &mut Vec<(String, String)>, k: String, v: String)
    ensures
        path_pairs(final(m)@) == put(path_pairs(old(m)@), k@, v@),
{
    let ghost before = path_pairs(m@);
    match first_pos_exec(m, k.as_str()) {
        Some(i) => {
            m.set(i, (k, v));
            assert(path_pairs(m@) =~= before.update(i as int, (k@, v@)));
        },
        None => {
            m.push((k, v));
            assert(path_pairs(m@) =~= before.push((k@, v@)));
        },
    }
}

/// Whether `p` is the index of some directory.
fn is_index_of_some_exec(m: &Vec<(String, String)>, p: &str) -> (r: bool)
    ensures
        r == is_index_of_some(path_pairs(m@), p@),
{
    let pc = chars_of(p);
    let mut i: usize = 0;
    while i < m.len()
        invariant
            i <= m.len(),
            pc@ == p@,
            forall|j: int| 0 <= j < i ==> path_pairs(m@)[j].1 != p@,
        decreases m.len() - i,
    {
        if chars_eq(&chars_of(m[i].1.as_str()), &pc) {
            assert(path_pairs(m@)[i as int].1 == p@);
            return true;
        }
        i += 1;
    }
    false
}

/// Whether a markdown file is an index: by its name, or by a `contents` key
/// in its frontmatter.
pub open spec fn index_candidate(p: Seq<char>, f: FileFacts) -> bool {
    is_index_name(last_segment(p)) || (knows(f) && f.has_contents)
}

/// The indexes found among the first `n` markdown files: each maps its
/// directory to itself, a later one for the same directory replacing an
/// earlier one in its place.
pub open spec fn found_indexes(md: Seq<Seq<char>>, facts: Seq<FileFacts>, n: nat) -> Seq<
    (Seq<char>, Seq<char>),
>
    decreases n,
{
    if n == 0 {
        Seq::empty()
    } else {
        let m = found_indexes(md, facts, (n - 1) as nat);
        let p = md[n - 1];
        if index_candidate(p, facts[n - 1]) {
            put(m, parent_rel(p), p)
        } else {
            m
        }
    }
}

/// `m` with an index registered, in the order of `dirs`, for each of the
/// first `n` directories that has none.
pub open spec fn with_missing_indexes(
    m: Seq<(Seq<char>, Seq<char>)>,
    dirs: Seq<Seq<char>>,
    n: nat,
) -> Seq<(Seq<char>, Seq<char>)>
    decreases n,
{
    if n == 0 {
        m
    } else {
        let r = with_missing_indexes(m, dirs, (n - 1) as nat);
        let d = dirs[n - 1];
        if first_pos(r, d) is Some {
            r
        } else {
            r.push((d, index_path_for(d)))
        }
    }
}

/// The index of every directory: those found among the markdown files, then
/// one made up for each directory without.
pub open spec fn index_map_of(md: Seq<Seq<char>>, facts: Seq<FileFacts>, dirs: Seq<Seq<char>>) -> Seq<
    (Seq<char>, Seq<char>),
> {
    with_missing_indexes(found_indexes(md, facts, md.len()), dirs, dirs.len())
}

/// Maps each directory of the scan to its index file (see [`index_map_of`]).
pub fn dir_index_map(scan: &DirScan) -> (r: Vec<(String, String)>)
    requires
        scan.md_facts@.len() == scan.md_files@.len(),
    ensures
        path_pairs(r@) == index_map_of(names(scan.md_files@), scan.md_facts@, names(scan.dirs@)),
{
    let ghost md = names(scan.md_files@);
    let ghost dirs = names(scan.dirs@);
    let mut m: Vec<(String, String)> = Vec::new();
    let mut i: usize = 0;
    assert(path_pairs(m@) =~= Seq::<(Seq<char>, Seq<char>)>::empty());
    while i < scan.md_files.len()
        invariant
            i <= scan.md_files@.len(),
            scan.md_facts@.len() == scan.md_files@.len(),
            md == names(scan.md_files@),
            path_pairs(m@) == found_indexes(md, scan.md_facts@, i as nat),
        decreases scan.md_files.len() - i,
    {
        let p = &scan.md_files[i];
        let f = scan.md_facts[i];
        let by_name = is_index_file_name(file_name(p.as_str()).as_str());
        if by_name || (f.readable && f.parsed && f.has_contents) {
            put_exec(&mut m, parent_rel_path(p.as_str()), p.clone());
        }
        i += 1;
    }
    let mut j: usize = 0;
    while j < scan.dirs.len()
        invariant
            j <= scan.dirs@.len(),
            dirs == names(scan.dirs@),
            md == names(scan.md_files@),
            path_pairs(m@) == with_missing_indexes(
                found_indexes(md, scan.md_facts@, md.len()),
                dirs,
                j as nat,
            ),
        decreases scan.dirs.len() - j,
    {
        let d = &scan.dirs[j];
        if first_pos_exec(&m, d.as_str()).is_none() {
            let ghost before = path_pairs(m@);
            m.push((d.clone(), index_path_for_dir(d.as_str())));
            assert(path_pairs(m@) =~= before.push((d@, index_path_for(d@))));
        }
        j += 1;
    }
    m
}

// ---------------------------------------------------------------------------
// What an index lists
// ---------------------------------------------------------------------------

/// The paths among `ps` that lie directly in directory `d`, in order.
pub open spec fn in_dir(ps: Seq<Seq<char>>, d: Seq<char>) -> Seq<Seq<char>>
    decreases ps.len(),
{
    if ps.len() == 0 {
        Seq::empty()
    } else {
        let r = in_dir(ps.drop_last(), d);
        if parent_rel(ps.last()) == d {
            r.push(ps.last())
        } else {
            r
        }
    }
}

/// The markdown files directly in `d` that are not indexes, in order.
pub open spec fn child_files(md: Seq<Seq<char>>, m: Seq<(Seq<char>, Seq<char>)>, d: Seq<char>) -> Seq<
    Seq<char>,
>
    decreases md.len(),
{
    if md.len() == 0 {
        Seq::empty()
    } else {
        let r = child_files(md.drop_last(), m, d);
        let p = md.last();
        if parent_rel(p) == d && !is_index_of_some(m, p) {
            r.push(p)
        } else {
            r
        }
    }
}

/// The indexes of the subdirectories of `d`, in the order of `dirs`.
pub open spec fn child_indexes(dirs: Seq<Seq<char>>, m: Seq<(Seq<char>, Seq<char>)>, d: Seq<char>) -> Seq<
    Seq<char>,
>
    decreases dirs.len(),
{
    if dirs.len() == 0 {
        Seq::empty()
    } else {
        let r = child_indexes(dirs.drop_last(), m, d);
        let c = dirs.last();
        if c != d && parent_rel(c) == d && get(m, c) is Some {
            r.push(get(m, c)->0)
        } else {
            r
        }
    }
}

/// What the index of `d` lists under `contents`: its own non-index
/// markdown files, then the indexes of its subdirectories.
pub open spec fn contents_of(
    md: Seq<Seq<char>>,
    dirs: Seq<Seq<char>>,
    m: Seq<(Seq<char>, Seq<char>)>,
    d: Seq<char>,
) -> Seq<Seq<char>> {
    child_files(md, m, d) + child_indexes(dirs, m, d)
}

/// The paths among `ps` that lie directly in `d`.
pub fn paths_in_dir(ps: &Vec<String>, d: &str) -> (r: Vec<String>)
    ensures
        names(r@) == in_dir(names(ps@), d@),
{
    let dc = chars_of(d);
    let ghost all = names(ps@);
    let mut r: Vec<String> = Vec::new();
    let mut i: usize = 0;
    assert(names(r@) =~= in_dir(all.take(0), d@));
    while i < ps.len()
        invariant
            i <= ps@.len(),
            all == names(ps@),
            dc@ == d@,
            names(r@) == in_dir(all.take(i as int), d@),
        decreases ps.len() - i,
    {
        let ghost before = names(r@);
        assert(all.take(i + 1).drop_last() =~= all.take(i as int));
        let p = &ps[i];
        if chars_eq(&chars_of(parent_rel_path(p.as_str()).as_str()), &dc) {
            r.push(p.clone());
            assert(names(r@) =~= before.push(p@));
        }
        i += 1;
    }
    assert(all.take(ps@.len() as int) =~= all);
    r
}

/// What the index of `d` lists under `contents` (see [`contents_of`]).
pub fn collect_contents(
    d: &str,
    index_map: &Vec<(String, String)>,
    md_files: &Vec<String>,
    dirs: &Vec<String>,
) -> (r: Vec<String>)
    ensures
        names(r@) == contents_of(names(md_files@), names(dirs@), path_pairs(index_map@), d@),
{
    let dc = chars_of(d);
    let ghost m = path_pairs(index_map@);
    let ghost md = names(md_files@);
    let ghost ds = names(dirs@);
    let mut r: Vec<String> = Vec::new();
    let mut i: usize = 0;
    assert(names(r@) =~= child_files(md.take(0), m, d@));
    while i < md_files.len()
        invariant
            i <= md_files@.len(),
            md == names(md_files@),
            m == path_pairs(index_map@),
            dc@ == d@,
            names(r@) == child_files(md.take(i as int), m, d@),
        decreases md_files.len() - i,
    {
        let ghost before = names(r@);
        assert(md.take(i + 1).drop_last() =~= md.take(i as int));
        let p = &md_files[i];
        if chars_eq(&chars_of(parent_rel_path(p.as_str()).as_str()), &dc)
            && !is_index_of_some_exec(index_map, p.as_str()) {
            r.push(p.clone());
            assert(names(r@) =~= before.push(p@));
        }
        i += 1;
    }
    assert(md.take(md_files@.len() as int) =~= md);
    let ghost files = names(r@);
    let mut j: usize = 0;
    assert(names(r@) =~= files + child_indexes(ds.take(0), m, d@));
    while j < dirs.len()
        invariant
            j <= dirs@.len(),
            ds == names(dirs@),
            m == path_pairs(index_map@),
            dc@ == d@,
            names(r@) == files + child_indexes(ds.take(j as int), m, d@),
        decreases dirs.len() - j,
    {
        let ghost before = names(r@);
        assert(ds.take(j + 1).drop_last() =~= ds.take(j as int));
        let c = &dirs[j];
        let cc = chars_of(c.as_str());
        if !chars_eq(&cc, &dc) && chars_eq(&chars_of(parent_rel_path(c.as_str()).as_str()), &dc) {
            match get_exec(index_map, c.as_str()) {
                Some(ix) => {
                    r.push(ix.clone());
                    assert(names(r@) =~= before.push(ix@));
                },
                None => {},
            }
        }
        j += 1;
    }
    assert(ds.take(dirs@.len() as int) =~= ds);
    r
}

// ---------------------------------------------------------------------------
// The plan
// ---------------------------------------------------------------------------

/// The links to write into an index file; an empty list is not written.
pub struct IndexLinks {
    /// `title`, for an index that is created.
    pub title: Option<String>,
    /// `part_of`: the parent directory's index.
    pub part_of: Option<String>,
    /// `contents`.
    pub contents: Vec<String>,
    /// `attachments`.
    pub attachments: Vec<String>,
}

/// The text of an optional string.
pub open spec fn opt_text(o: Option<String>) -> Option<Seq<char>> {
    match o {
        Some(s) => Some(s@),
        None => None,
    }
}

/// Index links as texts: (title, part_of, contents, attachments).
pub open spec fn links_view(l: IndexLinks) -> (
    Option<Seq<char>>,
    Option<Seq<char>>,
    Seq<Seq<char>>,
    Seq<Seq<char>>,
) {
    (opt_text(l.title), opt_text(l.part_of), names(l.contents@), names(l.attachments@))
}

/// No links.
pub open spec fn no_links() -> (Option<Seq<char>>, Option<Seq<char>>, Seq<Seq<char>>, Seq<Seq<char>>) {
    (None, None, Seq::empty(), Seq::empty())
}

/// What a step of the plan does.
#[derive(Clone, Copy, Debug, PartialEq, Eq, Structural)]
pub enum StepKind {
    /// Nothing is written; the file counts as skipped.
    Skip,
    /// The markdown file at `path` gets `part_of: index`.
    LinkToIndex,
    /// The index file at `path` is created with `links` (and an empty body),
    /// unless a file is there already, which then counts as skipped.
    CreateIndex,
    /// The existing index file at `path` gets `links` added.
    CompleteIndex,
}

/// One step of an import plan.
pub struct ImportStep {
    /// What the step does.
    pub kind: StepKind,
    /// The file it is about, relative to the root.
    pub path: String,
    /// For [`StepKind::LinkToIndex`], the index linked to (else empty).
    pub index: String,
    /// For creating or completing an index, the links written.
    pub links: IndexLinks,
}

/// A step as texts.
pub open spec fn step_view(s: ImportStep) -> (
    StepKind,
    Seq<char>,
    Seq<char>,
    (Option<Seq<char>>, Option<Seq<char>>, Seq<Seq<char>>, Seq<Seq<char>>),
) {
    (s.kind, s.path@, s.index@, links_view(s.links))
}

/// The steps as texts.
pub open spec fn steps_view(v: Seq<ImportStep>) -> Seq<
    (
        StepKind,
        Seq<char>,
        Seq<char>,
        (Option<Seq<char>>, Option<Seq<char>>, Seq<Seq<char>>, Seq<Seq<char>>),
    ),
> {
    v.map_values(|s: ImportStep| step_view(s))
}

/// `Index`, the title word of a root without a name.
pub open spec fn index_word() -> Seq<char> {
    seq!['I', 'n', 'd', 'e', 'x']
}

/// The links of a newly created index for `d`: a title from the
/// directory's name (the root's own name, else `Index`), `part_of` its
/// parent's index (not for the root), its contents and the other files in
/// it.
pub open spec fn new_index_links(
    md: Seq<Seq<char>>,
    other: Seq<Seq<char>>,
    dirs: Seq<Seq<char>>,
    root_name: Option<Seq<char>>,
    m: Seq<(Seq<char>, Seq<char>)>,
    d: Seq<char>,
) -> (Option<Seq<char>>, Option<Seq<char>>, Seq<Seq<char>>, Seq<Seq<char>>) {
    let name = if d.len() == 0 {
        match root_name {
            Some(n) => n,
            None => index_word(),
        }
    } else {
        last_segment(d)
    };
    (
        Some(prettify_spec(name)),
        if d.len() == 0 {
            None
        } else {
            get(m, parent_rel(d))
        },
        contents_of(md, dirs, m, d),
        in_dir(other, d),
    )
}

/// Index links as texts: (title, part_of, contents, attachments).
pub type LinkText = (Option<Seq<char>>, Option<Seq<char>>, Seq<Seq<char>>, Seq<Seq<char>>);

/// A step as texts: (kind, path, index, links).
pub type StepText = (StepKind, Seq<char>, Seq<char>, LinkText);

/// Skipping the file at `p`.
pub open spec fn skip_step(p: Seq<char>) -> StepText {
    (StepKind::Skip, p, Seq::empty(), no_links())
}

/// Linking the file at `p` to index `ix`.
pub open spec fn link_step(p: Seq<char>, ix: Seq<char>) -> StepText {
    (StepKind::LinkToIndex, p, ix, no_links())
}

/// The steps for the first `n` markdown files: each file that is not an
/// index and whose directory has one is linked to it, or skipped when its
/// frontmatter already has `part_of`.
pub open spec fn link_steps(
    md: Seq<Seq<char>>,
    facts: Seq<FileFacts>,
    m: Seq<(Seq<char>, Seq<char>)>,
    n: nat,
) -> Seq<StepText>
    decreases n,
{
    if n == 0 {
        Seq::empty()
    } else {
        let r = link_steps(md, facts, m, (n - 1) as nat);
        let p = md[n - 1];
        let f = facts[n - 1];
        if is_index_of_some(m, p) {
            r
        } else {
            match get(m, parent_rel(p)) {
                None => r,
                Some(ix) => if knows(f) && f.has_part_of {
                    r.push(skip_step(p))
                } else {
                    r.push(link_step(p, ix))
                },
            }
        }
    }
}

/// The steps for the first `n` directories: each index that is not one of
/// the markdown files is created.
pub open spec fn create_steps(
    md: Seq<Seq<char>>,
    other: Seq<Seq<char>>,
    dirs: Seq<Seq<char>>,
    root_name: Option<Seq<char>>,
    m: Seq<(Seq<char>, Seq<char>)>,
    n: nat,
) -> Seq<StepText>
    decreases n,
{
    if n == 0 {
        Seq::empty()
    } else {
        let r = create_steps(md, other, dirs, root_name, m, (n - 1) as nat);
        let d = dirs[n - 1];
        match get(m, d) {
            None => r,
            Some(ix) => if md.contains(ix) {
                r
            } else {
                r.push(
                    (StepKind::CreateIndex, ix, Seq::empty(), new_index_links(md, other, dirs, root_name, m, d)),
                )
            },
        }
    }
}

/// What was read of the first markdown file at `p`, if `p` is one.
pub open spec fn facts_for(md: Seq<Seq<char>>, facts: Seq<FileFacts>, p: Seq<char>) -> Option<FileFacts>
    decreases md.len(),
{
    if md.len() == 0 || facts.len() == 0 {
        None
    } else if md[0] == p {
        Some(facts[0])
    } else {
        facts_for(md.drop_first(), facts.drop_first(), p)
    }
}

/// The step for an existing index `ix` of directory `d` whose frontmatter
/// reads as `f`: it gets `part_of` (unless it is the root's), `contents` and
/// `attachments`, each only where missing and not empty; with nothing to add
/// it is skipped.
pub open spec fn completion(
    md: Seq<Seq<char>>,
    other: Seq<Seq<char>>,
    dirs: Seq<Seq<char>>,
    m: Seq<(Seq<char>, Seq<char>)>,
    d: Seq<char>,
    ix: Seq<char>,
    f: FileFacts,
) -> StepText {
    let need_part_of = !(f.parsed && f.has_part_of) && d.len() != 0;
    let need_contents = !(f.parsed && f.has_contents);
    let need_attachments = !(f.parsed && f.has_attachments) && in_dir(other, d).len() > 0;
    let links = (
        None,
        if need_part_of {
            get(m, parent_rel(d))
        } else {
            None
        },
        if need_contents {
            contents_of(md, dirs, m, d)
        } else {
            Seq::empty()
        },
        if need_attachments {
            in_dir(other, d)
        } else {
            Seq::empty()
        },
    );
    if links.1 is None && links.2.len() == 0 && links.3.len() == 0 {
        skip_step(ix)
    } else {
        (StepKind::CompleteIndex, ix, Seq::empty(), links)
    }
}

/// The steps for the first `n` entries of the index map: each index that is
/// one of the readable markdown files is completed.
pub open spec fn complete_steps(
    md: Seq<Seq<char>>,
    facts: Seq<FileFacts>,
    other: Seq<Seq<char>>,
    dirs: Seq<Seq<char>>,
    m: Seq<(Seq<char>, Seq<char>)>,
    n: nat,
) -> Seq<StepText>
    decreases n,
{
    if n == 0 {
        Seq::empty()
    } else {
        let r = complete_steps(md, facts, other, dirs, m, (n - 1) as nat);
        let (d, ix) = m[n - 1];
        match facts_for(md, facts, ix) {
            Some(f) => if f.readable {
                r.push(completion(md, other, dirs, m, d, ix, f))
            } else {
                r
            },
            None => r,
        }
    }
}

/// The whole plan: nothing for an empty tree; else the links of the
/// markdown files, the indexes to create, then the indexes to complete.
pub open spec fn plan_of(
    md: Seq<Seq<char>>,
    facts: Seq<FileFacts>,
    other: Seq<Seq<char>>,
    dirs: Seq<Seq<char>>,
    root_name: Option<Seq<char>>,
) -> Seq<StepText> {
    if md.len() == 0 && other.len() == 0 {
        Seq::empty()
    } else {
        let m = index_map_of(md, facts, dirs);
        link_steps(md, facts, m, md.len()) + create_steps(md, other, dirs, root_name, m, dirs.len())
            + complete_steps(md, facts, other, dirs, m, m.len())
    }
}

/// Whether a tree already carries what an import adds, by the index map
/// `m` of its directories: every index exists as a markdown file; every
/// markdown file that is not an index, in a directory with an index, has
/// readable frontmatter with `part_of`; and every readable index of a
/// directory `d` has parsed frontmatter with each key an import would add:
/// `part_of` unless it is the root's or its parent has no index,
/// `contents` unless `d` lists nothing, and `attachments` unless `d` holds
/// no other files.
pub open spec fn already_imported(
    md: Seq<Seq<char>>,
    facts: Seq<FileFacts>,
    other: Seq<Seq<char>>,
    dirs: Seq<Seq<char>>,
    m: Seq<(Seq<char>, Seq<char>)>,
) -> bool {
    &&& forall|d: Seq<char>| #[trigger] get(m, d) matches Some(ix) ==> md.contains(ix)
    &&& forall|i: int|
        0 <= i < md.len() && !is_index_of_some(m, md[i]) && get(m, parent_rel(md[i])) is Some
            ==> knows(#[trigger] facts[i]) && facts[i].has_part_of
    &&& forall|k: int|
        0 <= k < m.len() ==> (#[trigger] facts_for(md, facts, m[k].1) matches Some(f) ==> (f.readable
            ==> has_index_keys(md, other, dirs, m, m[k].0, f)))
}

/// Whether an index of directory `d` whose frontmatter reads as `f` has
/// each key an import would add to it (see [`completion`]).
pub open spec fn has_index_keys(
    md: Seq<Seq<char>>,
    other: Seq<Seq<char>>,
    dirs: Seq<Seq<char>>,
    m: Seq<(Seq<char>, Seq<char>)>,
    d: Seq<char>,
    f: FileFacts,
) -> bool {
    &&& (f.parsed && f.has_part_of) || d.len() == 0 || get(m, parent_rel(d)) is None
    &&& (f.parsed && f.has_contents) || contents_of(md, dirs, m, d).len() == 0
    &&& (f.parsed && f.has_attachments) || in_dir(other, d).len() == 0
}

/// Whether every step of a plan is a skip.
pub open spec fn only_skips(steps: Seq<StepText>) -> bool {
    forall|i: int| 0 <= i < steps.len() ==> (#[trigger] steps[i]).0 == StepKind::Skip
}

proof fn lemma_link_steps_skip(
    md: Seq<Seq<char>>,
    facts: Seq<FileFacts>,
    other: Seq<Seq<char>>,
    dirs: Seq<Seq<char>>,
    m: Seq<(Seq<char>, Seq<char>)>,
    n: nat,
)
    requires
        n <= md.len(),
        already_imported(md, facts, other, dirs, m),
    ensures
        only_skips(link_steps(md, facts, m, n)),
    decreases n,
{
    if n > 0 {
        lemma_link_steps_skip(md, facts, other, dirs, m, (n - 1) as nat);
        let r = link_steps(md, facts, m, (n - 1) as nat);
        let p = md[n - 1];
        if !is_index_of_some(m, p) && get(m, parent_rel(p)) is Some {
            assert(knows(facts[n - 1]) && facts[n - 1].has_part_of);
            let t = link_steps(md, facts, m, n);
            assert(t == r.push(skip_step(p)));
            assert forall|i: int| 0 <= i < t.len() implies (#[trigger] t[i]).0 == StepKind::Skip by {
                if i < r.len() {
                    assert(t[i] == r[i]);
                }
            }
        }
    }
}

proof fn lemma_create_steps_empty(
    md: Seq<Seq<char>>,
    facts: Seq<FileFacts>,
    other: Seq<Seq<char>>,
    dirs: Seq<Seq<char>>,
    root_name: Option<Seq<char>>,
    m: Seq<(Seq<char>, Seq<char>)>,
    n: nat,
)
    requires
        n <= dirs.len(),
        already_imported(md, facts, other, dirs, m),
    ensures
        create_steps(md, other, dirs, root_name, m, n).len() == 0,
    decreases n,
{
    if n > 0 {
        lemma_create_steps_empty(md, facts, other, dirs, root_name, m, (n - 1) as nat);
        let d = dirs[n - 1];
        if let Some(ix) = get(m, d) {
            assert(md.contains(ix));
        }
    }
}

proof fn lemma_complete_steps_skip(
    md: Seq<Seq<char>>,
    facts: Seq<FileFacts>,
    other: Seq<Seq<char>>,
    dirs: Seq<Seq<char>>,
    m: Seq<(Seq<char>, Seq<char>)>,
    n: nat,
)
    requires
        n <= m.len(),
        already_imported(md, facts, other, dirs, m),
    ensures
        only_skips(complete_steps(md, facts, other, dirs, m, n)),
    decreases n,
{
    if n > 0 {
        lemma_complete_steps_skip(md, facts, other, dirs, m, (n - 1) as nat);
        let r = complete_steps(md, facts, other, dirs, m, (n - 1) as nat);
        let (d, ix) = m[n - 1];
        if let Some(f) = facts_for(md, facts, ix) {
            if f.readable {
                assert(facts_for(md, facts, m[n - 1].1) == Some(f));
                let c = completion(md, other, dirs, m, d, ix, f);
                assert(c == skip_step(ix));
                let t = complete_steps(md, facts, other, dirs, m, n);
                assert(t == r.push(c));
                assert forall|i: int| 0 <= i < t.len() implies (#[trigger] t[i]).0 == StepKind::Skip by {
                    if i < r.len() {
                        assert(t[i] == r[i]);
                    }
                }
            }
        }
    }
}

/// An import of a tree that already carries what an import adds (see
/// [`already_imported`]) plans nothing but skips: files that already have
/// their metadata are left alone, so nothing is written.
pub proof fn law_imported_tree_plans_only_skips(
    md: Seq<Seq<char>>,
    facts: Seq<FileFacts>,
    other: Seq<Seq<char>>,
    dirs: Seq<Seq<char>>,
    root_name: Option<Seq<char>>,
)
    requires
        facts.len() == md.len(),
        already_imported(md, facts, other, dirs, index_map_of(md, facts, dirs)),
    ensures
        only_skips(plan_of(md, facts, other, dirs, root_name)),
{
    if !(md.len() == 0 && other.len() == 0) {
        let m = index_map_of(md, facts, dirs);
        lemma_link_steps_skip(md, facts, other, dirs, m, md.len());
        lemma_create_steps_empty(md, facts, other, dirs, root_name, m, dirs.len());
        lemma_complete_steps_skip(md, facts, other, dirs, m, m.len());
        let a = link_steps(md, facts, m, md.len());
        let b = create_steps(md, other, dirs, root_name, m, dirs.len());
        let c = complete_steps(md, facts, other, dirs, m, m.len());
        let t = plan_of(md, facts, other, dirs, root_name);
        assert(t == a + b + c);
        assert forall|i: int| 0 <= i < t.len() implies (#[trigger] t[i]).0 == StepKind::Skip by {
            if i < a.len() {
                assert(t[i] == a[i]);
            } else {
                assert(t[i] == c[i - a.len()]);
            }
        }
    }
}

/// No links, as written.
fn empty_links() -> (r: IndexLinks)
    ensures
        links_view(r) == no_links(),
{
    let r = IndexLinks { title: None, part_of: None, contents: Vec::new(), attachments: Vec::new() };
    assert(names(r.contents@) =~= Seq::<Seq<char>>::empty());
    assert(names(r.attachments@) =~= Seq::<Seq<char>>::empty());
    r
}

/// Whether `p` is one of `v`.
fn contains_path(v: &Vec<String>, p: &str) -> (r: bool)
    ensures
        r == names(v@).contains(p@),
{
    let pc = chars_of(p);
    let mut i: usize = 0;
    while i < v.len()
        invariant
            i <= v@.len(),
            pc@ == p@,
            forall|j: int| 0 <= j < i ==> names(v@)[j] != p@,
        decreases v.len() - i,
    {
        if chars_eq(&chars_of(v[i].as_str()), &pc) {
            assert(names(v@)[i as int] == p@);
            return true;
        }
        i += 1;
    }
    false
}

/// What was read of the first markdown file at `p`.
fn facts_for_exec(scan: &DirScan, p: &str) -> (r: Option<FileFacts>)
    requires
        scan.md_facts@.len() == scan.md_files@.len(),
    ensures
        r == facts_for(names(scan.md_files@), scan.md_facts@, p@),
{
    let pc = chars_of(p);
    let ghost md = names(scan.md_files@);
    let ghost fs = scan.md_facts@;
    let mut i: usize = 0;
    assert(md.skip(0) =~= md);
    assert(fs.skip(0) =~= fs);
    while i < scan.md_files.len()
        invariant
            i <= md.len(),
            md == names(scan.md_files@),
            fs == scan.md_facts@,
            fs.len() == md.len(),
            pc@ == p@,
            facts_for(md, fs, p@) == facts_for(md.skip(i as int), fs.skip(i as int), p@),
        decreases scan.md_files.len() - i,
    {
        assert(md.skip(i as int).drop_first() =~= md.skip(i + 1));
        assert(fs.skip(i as int).drop_first() =~= fs.skip(i + 1));
        assert(md.skip(i as int)[0] == md[i as int]);
        if chars_eq(&chars_of(scan.md_files[i].as_str()), &pc) {
            return Some(scan.md_facts[i]);
        }
        i += 1;
    }
    None
}

/// The links of a newly created index for `d` (see [`new_index_links`]).
pub fn build_index_metadata(scan: &DirScan, index_map: &Vec<(String, String)>, d: &str) -> (r: IndexLinks)
    ensures
        links_view(r) == new_index_links(
            names(scan.md_files@),
            names(scan.other_files@),
            names(scan.dirs@),
            opt_text(scan.root_name),
            path_pairs(index_map@),
            d@,
        ),
{
    let root = chars_of(d).len() == 0;
    let name = if root {
        match &scan.root_name {
            Some(n) => n.clone(),
            None => {
                let w = vec!['I', 'n', 'd', 'e', 'x'];
                assert(w@ =~= index_word());
                string_of(&w)
            },
        }
    } else {
        file_name(d)
    };
    let part_of = if root {
        None
    } else {
        match get_exec(index_map, parent_rel_path(d).as_str()) {
            Some(ix) => Some(ix.clone()),
            None => None,
        }
    };
    IndexLinks {
        title: Some(prettify_filename(name.as_str())),
        part_of,
        contents: collect_contents(d, index_map, &scan.md_files, &scan.dirs),
        attachments: paths_in_dir(&scan.other_files, d),
    }
}

/// A step that skips the file at `p`.
fn skip_of(p: &str) -> (r: ImportStep)
    ensures
        step_view(r) == skip_step(p@),
{
    ImportStep { kind: StepKind::Skip, path: p.to_string(), index: String::new(), links: empty_links() }
}

/// The step for an existing index (see [`completion`]).
fn complete_index(
    scan: &DirScan,
    index_map: &Vec<(String, String)>,
    d: &str,
    ix: &str,
    f: FileFacts,
) -> (r: ImportStep)
    ensures
        step_view(r) == completion(
            names(scan.md_files@),
            names(scan.other_files@),
            names(scan.dirs@),
            path_pairs(index_map@),
            d@,
            ix@,
            f,
        ),
{
    let attachments = paths_in_dir(&scan.other_files, d);
    let need_part_of = !(f.parsed && f.has_part_of) && chars_of(d).len() != 0;
    let need_contents = !(f.parsed && f.has_contents);
    let need_attachments = !(f.parsed && f.has_attachments) && attachments.len() > 0;
    let part_of = if need_part_of {
        match get_exec(index_map, parent_rel_path(d).as_str()) {
            Some(p) => Some(p.clone()),
            None => None,
        }
    } else {
        None
    };
    let contents = if need_contents {
        collect_contents(d, index_map, &scan.md_files, &scan.dirs)
    } else {
        let v: Vec<String> = Vec::new();
        assert(names(v@) =~= Seq::<Seq<char>>::empty());
        v
    };
    let attachments = if need_attachments {
        attachments
    } else {
        let v: Vec<String> = Vec::new();
        assert(names(v@) =~= Seq::<Seq<char>>::empty());
        v
    };
    if part_of.is_none() && contents.len() == 0 && attachments.len() == 0 {
        skip_of(ix)
    } else {
        ImportStep {
            kind: StepKind::CompleteIndex,
            path: ix.to_string(),
            index: String::new(),
            links: IndexLinks { title: None, part_of, contents, attachments },
        }
    }
}

/// The plan of an in-place import of the scanned tree (see [`plan_of`]).
pub fn plan_import(scan: &DirScan) -> (r: Vec<ImportStep>)
    requires
        scan.md_facts@.len() == scan.md_files@.len(),
    ensures
        steps_view(r@) == plan_of(
            names(scan.md_files@),
            scan.md_facts@,
            names(scan.other_files@),
            names(scan.dirs@),
            opt_text(scan.root_name),
        ),
{
    let ghost md = names(scan.md_files@);
    let ghost facts = scan.md_facts@;
    let ghost other = names(scan.other_files@);
    let ghost dirs = names(scan.dirs@);
    let ghost root = opt_text(scan.root_name);
    let mut steps: Vec<ImportStep> = Vec::new();
    assert(steps_view(steps@) =~= Seq::<StepText>::empty());
    if scan.md_files.len() == 0 && scan.other_files.len() == 0 {
        return steps;
    }
    let m = dir_index_map(scan);
    let ghost mm = path_pairs(m@);
    let mut i: usize = 0;
    while i < scan.md_files.len()
        invariant
            i <= md.len(),
            md == names(scan.md_files@),
            facts == scan.md_facts@,
            facts.len() == md.len(),
            mm == path_pairs(m@),
            steps_view(steps@) == link_steps(md, facts, mm, i as nat),
        decreases scan.md_files.len() - i,
    {
        let ghost before = steps_view(steps@);
        let p = &scan.md_files[i];
        if !is_index_of_some_exec(&m, p.as_str()) {
            match get_exec(&m, parent_rel_path(p.as_str()).as_str()) {
                Some(ix) => {
                    let f = scan.md_facts[i];
                    if f.readable && f.parsed && f.has_part_of {
                        steps.push(skip_of(p.as_str()));
                        assert(steps_view(steps@) =~= before.push(skip_step(p@)));
                    } else {
                        steps.push(
                            ImportStep {
                                kind: StepKind::LinkToIndex,
                                path: p.clone(),
                                index: ix.clone(),
                                links: empty_links(),
                            },
                        );
                        assert(steps_view(steps@) =~= before.push(link_step(p@, ix@)));
                    }
                },
                None => {},
            }
        }
        i += 1;
    }
    let ghost linked = steps_view(steps@);
    let mut j: usize = 0;
    assert(linked + Seq::<StepText>::empty() =~= linked);
    while j < scan.dirs.len()
        invariant
            j <= dirs.len(),
            md == names(scan.md_files@),
            other == names(scan.other_files@),
            dirs == names(scan.dirs@),
            root == opt_text(scan.root_name),
            mm == path_pairs(m@),
            steps_view(steps@) == linked + create_steps(md, other, dirs, root, mm, j as nat),
        decreases scan.dirs.len() - j,
    {
        let ghost before = steps_view(steps@);
        let d = &scan.dirs[j];
        match get_exec(&m, d.as_str()) {
            Some(ix) => {
                if !contains_path(&scan.md_files, ix.as_str()) {
                    let links = build_index_metadata(scan, &m, d.as_str());
                    steps.push(
                        ImportStep {
                            kind: StepKind::CreateIndex,
                            path: ix.clone(),
                            index: String::new(),
                            links,
                        },
                    );
                    assert(steps_view(steps@) =~= before.push(
                        (
                            StepKind::CreateIndex,
                            ix@,
                            Seq::empty(),
                            new_index_links(md, other, dirs, root, mm, d@),
                        ),
                    ));
                }
            },
            None => {},
        }
        j += 1;
    }
    let ghost created = steps_view(steps@);
    let mut k: usize = 0;
    assert(created + Seq::<StepText>::empty() =~= created);
    while k < m.len()
        invariant
            k <= mm.len(),
            md == names(scan.md_files@),
            facts == scan.md_facts@,
            facts.len() == md.len(),
            other == names(scan.other_files@),
            dirs == names(scan.dirs@),
            mm == path_pairs(m@),
            steps_view(steps@) == created + complete_steps(md, facts, other, dirs, mm, k as nat),
        decreases m.len() - k,
    {
        let ghost before = steps_view(steps@);
        let d = &m[k].0;
        let ix = &m[k].1;
        assert(mm[k as int] == (d@, ix@));
        match facts_for_exec(scan, ix.as_str()) {
            Some(f) => {
                if f.readable {
                    let step = complete_index(scan, &m, d.as_str(), ix.as_str(), f);
                    steps.push(step);
                    assert(steps_view(steps@) =~= before.push(
                        completion(md, other, dirs, mm, d@, ix@, f),
                    ));
                }
            },
            None => {},
        }
        k += 1;
    }
    assert(steps_view(steps@) =~= linked.add(created.subrange(linked.len() as int, created.len() as int)).add(
        steps_view(steps@).subrange(created.len() as int, steps_view(steps@).len() as int),
    ));
    steps
}

// ---------------------------------------------------------------------------
// Deepest first
// ---------------------------------------------------------------------------

/// The directories of `dirs` at depth `k`, in order.
pub open spec fn at_depth(dirs: Seq<Seq<char>>, k: nat) -> Seq<Seq<char>>
    decreases dirs.len(),
{
    if dirs.len() == 0 {
        Seq::empty()
    } else {
        let r = at_depth(dirs.drop_last(), k);
        if depth(dirs.last()) == k {
            r.push(dirs.last())
        } else {
            r
        }
    }
}

/// The greatest depth among `dirs` (0 when there are none).
pub open spec fn max_depth(dirs: Seq<Seq<char>>) -> nat
    decreases dirs.len(),
{
    if dirs.len() == 0 {
        0
    } else {
        let m = max_depth(dirs.drop_last());
        if depth(dirs.last()) > m {
            depth(dirs.last())
        } else {
            m
        }
    }
}

/// The first `n` layers of `dirs` from depth `top` down: the directories of
/// depth `top`, then of depth `top - 1`, and so on, each layer in order.
pub open spec fn layers_down(dirs: Seq<Seq<char>>, top: nat, n: nat) -> Seq<Seq<char>>
    decreases n,
{
    if n == 0 {
        Seq::empty()
    } else {
        layers_down(dirs, top, (n - 1) as nat) + at_depth(dirs, (top - (n - 1)) as nat)
    }
}

/// The directories deepest first, those of equal depth in the order given
/// (sorting by depth, greatest first, with a stable sort): every layer from
/// the greatest depth down to the root's.
pub fn deepest_first(dirs: &Vec<String>) -> (r: Vec<String>)
    requires
        forall|i: int| 0 <= i < dirs@.len() ==> (#[trigger] dirs@[i])@.len() < usize::MAX,
    ensures
        names(r@) == layers_down(
            names(dirs@),
            max_depth(names(dirs@)),
            max_depth(names(dirs@)) + 1,
        ),
{
    let ghost ds = names(dirs@);
    let mut depths: Vec<usize> = Vec::new();
    let mut top: usize = 0;
    let mut i: usize = 0;
    while i < dirs.len()
        invariant
            i <= dirs@.len(),
            ds == names(dirs@),
            forall|j: int| 0 <= j < dirs@.len() ==> (#[trigger] dirs@[j])@.len() < usize::MAX,
            depths@.len() == i,
            forall|j: int| 0 <= j < i ==> depths@[j] == depth(#[trigger] ds[j]),
            top == max_depth(ds.take(i as int)),
        decreases dirs.len() - i,
    {
        assert(ds.take(i + 1).drop_last() =~= ds.take(i as int));
        assert(ds[i as int] == dirs@[i as int]@);
        let dd = dir_depth(dirs[i].as_str());
        depths.push(dd);
        if dd > top {
            top = dd;
        }
        i += 1;
    }
    assert(ds.take(dirs@.len() as int) =~= ds);
    let mut r: Vec<String> = Vec::new();
    let mut k: usize = top;
    let mut more = true;
    assert(names(r@) =~= layers_down(ds, top as nat, 0));
    while more
        invariant
            ds == names(dirs@),
            depths@.len() == ds.len(),
            forall|j: int| 0 <= j < ds.len() ==> depths@[j] == depth(#[trigger] ds[j]),
            top == max_depth(ds),
            k <= top,
            more ==> names(r@) == layers_down(ds, top as nat, (top - k) as nat),
            !more ==> names(r@) == layers_down(ds, top as nat, top as nat + 1),
        decreases k + if more {
            1int
        } else {
            0int
        },
    {
        let ghost before = names(r@);
        let mut j: usize = 0;
        assert(before + at_depth(ds.take(0), k as nat) =~= before);
        while j < dirs.len()
            invariant
                j <= ds.len(),
                ds == names(dirs@),
                depths@.len() == ds.len(),
                forall|t: int| 0 <= t < ds.len() ==> depths@[t] == depth(#[trigger] ds[t]),
                names(r@) == before + at_depth(ds.take(j as int), k as nat),
            decreases dirs.len() - j,
        {
            assert(ds.take(j + 1).drop_last() =~= ds.take(j as int));
            let ghost mid = names(r@);
            if depths[j] == k {
                r.push(dirs[j].clone());
                assert(names(r@) =~= mid.push(ds[j as int]));
            }
            j += 1;
        }
        assert(ds.take(dirs@.len() as int) =~= ds);
        assert((top - (top - k)) as nat == k as nat);
        if k == 0 {
            more = false;
        } else {
            k -= 1;
        }
    }
    r
}

// ---------------------------------------------------------------------------
// What the walk keeps
// ---------------------------------------------------------------------------

/// Whether a file name marks markdown: it ends in `.md` or `.MD`.
pub open spec fn is_markdown_name(name: Seq<char>) -> bool {
    ends_with(name, seq!['.', 'm', 'd']) || ends_with(name, seq!['.', 'M', 'D'])
}

/// Whether a file name marks markdown.
pub fn is_markdown_file_name(name: &str) -> (r: bool)
    ensures
        r == is_markdown_name(name@),
{
    let n = chars_of(name);
    let lower = vec!['.', 'm', 'd'];
    let upper = vec!['.', 'M', 'D'];
    assert(lower@ =~= seq!['.', 'm', 'd']);
    assert(upper@ =~= seq!['.', 'M', 'D']);
    has_suffix(&n, &lower) || has_suffix(&n, &upper)
}

/// The build, dependency and tool directories a walk passes over.
pub open spec fn skipped_dir_names() -> Seq<Seq<char>> {
    seq![
        "node_modules"@,
        "target"@,
        ".git"@,
        ".svn"@,
        "dist"@,
        "build"@,
        "__pycache__"@,
        ".next"@,
        ".nuxt"@,
        "vendor"@,
        ".cargo"@,
        ".obsidian"@,
        ".trash"@,
        ".diaryx"@,
    ]
}

/// Whether a walk passes over a directory: a hidden one (its name starts
/// with `.`) or one of [`skipped_dir_names`].
pub open spec fn skips_dir(name: Seq<char>) -> bool {
    (name.len() > 0 && name[0] == '.') || skipped_dir_names().contains(name)
}

/// Whether a walk passes over a directory named `name`.
pub fn is_skipped_dir(name: &str) -> (r: bool)
    ensures
        r == skips_dir(name@),
{
    let n = chars_of(name);
    if n.len() > 0 && n[0] == '.' {
        return true;
    }
    let names = vec![
        chars_of("node_modules"),
        chars_of("target"),
        chars_of(".git"),
        chars_of(".svn"),
        chars_of("dist"),
        chars_of("build"),
        chars_of("__pycache__"),
        chars_of(".next"),
        chars_of(".nuxt"),
        chars_of("vendor"),
        chars_of(".cargo"),
        chars_of(".obsidian"),
        chars_of(".trash"),
        chars_of(".diaryx"),
    ];
    assert(views(names@) =~= skipped_dir_names());
    let mut i: usize = 0;
    while i < names.len()
        invariant
            i <= names@.len(),
            views(names@) == skipped_dir_names(),
            n@ == name@,
            forall|j: int| 0 <= j < i ==> skipped_dir_names()[j] != name@,
        decreases names.len() - i,
    {
        assert(skipped_dir_names()[i as int] == names@[i as int]@);
        if chars_eq(&names[i], &n) {
            return true;
        }
        i += 1;
    }
    false
}

/// Whether a walk keeps an entry named `name`: nothing hidden (a name
/// starting with `.`), and no directory it passes over.
pub open spec fn walk_keeps(name: Seq<char>, is_dir: bool) -> bool {
    !(name.len() > 0 && name[0] == '.') && !(is_dir && skips_dir(name))
}

/// Whether a walk keeps an entry named `name` (see [`walk_keeps`]).
pub fn keeps_in_walk(name: &str, is_dir: bool) -> (r: bool)
    ensures
        r == walk_keeps(name@, is_dir),
{
    let n = chars_of(name);
    if n.len() > 0 && n[0] == '.' {
        return false;
    }
    !(is_dir && is_skipped_dir(name))
}

} // verus!
