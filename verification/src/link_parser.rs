//! Portable path links in frontmatter (`part_of`, `contents`, attachments).
//!
//! A link is either a markdown link `[Title](path)` or a plain path. Paths
//! that start with `/` are workspace-root paths; `./` and `../` paths are
//! relative to the file holding the link; anything else is ambiguous and is
//! read as relative. Canonical paths are workspace-relative, without a
//! leading `/`.

use vstd::prelude::*;
use crate::text::{
    ascii_upper, chars_eq, chars_of, extend_chars, find_chars, has_prefix, index_of,
    join, join_chars, keep_nonempty, lemma_find_from, lemma_split_len, nonempty, owned,
    rfind_char, rfind_char_exec, lemma_rfind_char, slice_chars, split, split_chars, starts_with,
    string_of, to_ascii_uppercase, v1, v2, v3, clone_chars, trim, trim_chars, views, Sep, lemma_views_push, lemma_views_drop_last, is_ws, lemma_trim_noop,
    lemma_index_of_first, lemma_index_of_none, lemma_join_split, lemma_split_join,
    lemma_split_no_sep, lemma_split_first, lemma_join_ends, lemma_join_no_char,
};

verus! {

/// The format to use when writing links to frontmatter.
#[derive(Debug, Clone, Copy, PartialEq, Eq, Structural)]
pub enum LinkFormat {
    /// Markdown link with workspace-root path: `[Title](/path/to/file.md)`.
    MarkdownRoot,
    /// Markdown link with relative path: `[Title](../relative/path.md)`.
    MarkdownRelative,
    /// Plain relative path: `../relative/path.md`.
    PlainRelative,
    /// Plain canonical path: `path/to/file.md`.
    PlainCanonical,
}

impl Default for LinkFormat {
    fn default() -> (r: Self)
        ensures
            r == LinkFormat::MarkdownRoot,
    {
        LinkFormat::MarkdownRoot
    }
}

/// The type of path in a parsed link.
#[derive(Debug, Clone, Copy, PartialEq, Eq, Structural)]
pub enum PathType {
    /// Path starts with `/`: workspace-root absolute path.
    WorkspaceRoot,
    /// Path starts with `../` or `./` (or is `..` / `.`): relative to the
    /// current file.
    Relative,
    /// Plain path like `folder/file.md`: ambiguous, read as relative.
    Ambiguous,
}

/// A parsed link from frontmatter.
#[derive(Debug, Clone)]
pub struct ParsedLink {
    /// The display title, if present (from markdown link syntax).
    pub title: Option<String>,
    /// The path portion of the link.
    pub path: String,
    /// The type of path (root, relative, or ambiguous).
    pub path_type: PathType,
}

/// The plain-value content of a [`ParsedLink`].
pub struct LinkView {
    pub title: Option<Seq<char>>,
    pub path: Seq<char>,
    pub path_type: PathType,
}

impl View for ParsedLink {
    type V = LinkView;

    open spec fn view(&self) -> LinkView {
        LinkView {
            title: match self.title {
                Some(t) => Some(t@),
                None => None,
            },
            path: self.path@,
            path_type: self.path_type,
        }
    }
}

impl ParsedLink {
    /// Create a parsed link with just a path (no title).
    pub fn new(path: String, path_type: PathType) -> (r: Self)
        ensures
            r.title is None,
            r.path == path,
            r.path_type == path_type,
    {
        ParsedLink { title: None, path, path_type }
    }

    /// Create a parsed link with a title.
    pub fn with_title(title: String, path: String, path_type: PathType) -> (r: Self)
        ensures
            r.title == Some(title),
            r.path == path,
            r.path_type == path_type,
    {
        ParsedLink { title: Some(title), path, path_type }
    }
}

// ---------------------------------------------------------------------------
// Specification
// ---------------------------------------------------------------------------

/// The type a raw path has.
pub open spec fn path_type_of(p: Seq<char>) -> PathType {
    if starts_with(p, seq!['/']) {
        PathType::WorkspaceRoot
    } else if starts_with(p, seq!['.', '.', '/']) || starts_with(p, seq!['.', '/']) || p
        == seq!['.', '.'] || p == seq!['.'] {
        PathType::Relative
    } else {
        PathType::Ambiguous
    }
}

/// A raw path as stored: workspace-root paths lose their leading `/`.
pub open spec fn stored_path(p: Seq<char>) -> Seq<char> {
    if starts_with(p, seq!['/']) {
        p.drop_first()
    } else {
        p
    }
}

/// A link read from a raw path, with an optional title.
pub open spec fn link_of(title: Option<Seq<char>>, raw: Seq<char>) -> LinkView {
    LinkView { title, path: stored_path(raw), path_type: path_type_of(raw) }
}

/// `v` read as a markdown link `[Title](path)`, if it is one: it starts with
/// `[`, the first `]` is followed by `(`, and a `)` follows after that.
pub open spec fn markdown_link(v: Seq<char>) -> Option<LinkView> {
    if !starts_with(v, seq!['[']) {
        None
    } else {
        match index_of(v, ']') {
            None => None,
            Some(cb) => if cb + 1 >= v.len() || v[cb + 1 as int] != '(' {
                None
            } else {
                let ps: int = cb + 2int;
                match index_of(v.subrange(ps, v.len() as int), ')') {
                    None => None,
                    Some(k) => Some(link_of(Some(v.subrange(1, cb as int)), v.subrange(ps, ps + k))),
                }
            },
        }
    }
}

/// What [`parse_link`] reads from a frontmatter value.
pub open spec fn parse_link_spec(value: Seq<char>) -> LinkView {
    let v = trim(value);
    match markdown_link(v) {
        Some(l) => l,
        None => link_of(None, v),
    }
}

/// Whether a path piece is kept when resolving paths: empty pieces and `.`
/// are dropped.
pub open spec fn keeps_seg(x: Seq<char>) -> bool {
    x.len() > 0 && x != seq!['.']
}

/// The pieces of `ps` that [`keeps_seg`] keeps.
pub open spec fn kept(ps: Seq<Seq<char>>) -> Seq<Seq<char>>
    decreases ps.len(),
{
    if ps.len() == 0 {
        Seq::empty()
    } else if keeps_seg(ps.last()) {
        kept(ps.drop_last()).push(ps.last())
    } else {
        kept(ps.drop_last())
    }
}

/// The named components of a path: its `/`-separated pieces without empty
/// pieces and `.`.
pub open spec fn segs(p: Seq<char>) -> Seq<Seq<char>> {
    kept(split(p, Sep::Ch('/')))
}

/// The named components of the directory that holds `file`.
pub open spec fn dir_segs(file: Seq<char>) -> Seq<Seq<char>> {
    if segs(file).len() > 0 {
        segs(file).drop_last()
    } else {
        Seq::empty()
    }
}

/// The `..` component.
pub open spec fn dotdot() -> Seq<char> {
    seq!['.', '.']
}

/// One step of resolving `..`: it removes the last name if there is one
/// (and that name is not itself `..`); any other piece is appended.
pub open spec fn norm_step(stack: Seq<Seq<char>>, x: Seq<char>) -> Seq<Seq<char>> {
    if x == dotdot() {
        if stack.len() > 0 && stack.last() != dotdot() {
            stack.drop_last()
        } else {
            stack.push(x)
        }
    } else {
        stack.push(x)
    }
}

/// Resolves `..` in a list of components, left to right.
pub open spec fn normalize(ps: Seq<Seq<char>>) -> Seq<Seq<char>>
    decreases ps.len(),
{
    if ps.len() == 0 {
        Seq::empty()
    } else {
        norm_step(normalize(ps.drop_last()), ps.last())
    }
}

/// The canonical path a link denotes when it stands in the file
/// `current_file`.
pub open spec fn canonical_spec(l: LinkView, current_file: Seq<char>) -> Seq<char> {
    match l.path_type {
        PathType::WorkspaceRoot => l.path,
        _ => {
            let base = if starts_with(l.path, seq!['/']) {
                Seq::empty()
            } else {
                dir_segs(current_file)
            };
            join(normalize(base + segs(l.path)), seq!['/'])
        },
    }
}

/// A markdown link with a workspace-root path.
pub open spec fn format_link_spec(canonical: Seq<char>, title: Seq<char>) -> Seq<char> {
    seq!['['] + title + seq![']', '(', '/'] + canonical + seq![')']
}

/// The components of a path as `Path::components` lists them, each as text:
/// `/` for the root, `.` for a leading `./`, then the named pieces.
pub open spec fn comps(p: Seq<char>) -> Seq<Seq<char>> {
    let raw = split(p, Sep::Ch('/'));
    let root: Seq<Seq<char>> = if starts_with(p, seq!['/']) {
        seq![seq!['/']]
    } else {
        Seq::empty()
    };
    let cur: Seq<Seq<char>> = if !starts_with(p, seq!['/']) && raw[0] == seq!['.'] {
        seq![seq!['.']]
    } else {
        Seq::empty()
    };
    root + cur + kept(raw)
}

/// The components of the parent of `p` (none when `p` has no parent).
pub open spec fn parent_comps(p: Seq<char>) -> Seq<Seq<char>> {
    let c = comps(p);
    if c.len() > 0 && c.last() != seq!['/'] {
        c.drop_last()
    } else {
        Seq::empty()
    }
}

/// The length of the longest common prefix of `a` and `b`.
pub open spec fn common_len(a: Seq<Seq<char>>, b: Seq<Seq<char>>) -> nat
    decreases a.len(),
{
    if a.len() == 0 || b.len() == 0 || a[0] != b[0] {
        0
    } else {
        1 + common_len(a.drop_first(), b.drop_first())
    }
}

/// The file name of `p`: its last component when that is a name.
pub open spec fn file_name_spec(p: Seq<char>) -> Option<Seq<char>> {
    let c = comps(p);
    if c.len() > 0 && c.last() != seq!['/'] && c.last() != seq!['.'] && c.last() != dotdot() {
        Some(c.last())
    } else {
        None
    }
}

/// The path from the directory of `from` to `to`.
pub open spec fn relative_spec(from: Seq<char>, to: Seq<char>) -> Seq<char> {
    let f = parent_comps(from);
    let t = comps(to);
    let n = common_len(f, t);
    let parts = Seq::new((f.len() - n) as nat, |i: int| dotdot()) + t.subrange(
        n as int,
        t.len() as int,
    );
    if parts.len() == 0 {
        match file_name_spec(to) {
            Some(name) => name,
            None => to,
        }
    } else {
        join(parts, seq!['/'])
    }
}

/// What a link is written as in `format`.
pub open spec fn format_with_spec(
    canonical: Seq<char>,
    title: Seq<char>,
    format: LinkFormat,
    from: Seq<char>,
) -> Seq<char> {
    match format {
        LinkFormat::MarkdownRoot => format_link_spec(canonical, title),
        LinkFormat::MarkdownRelative => seq!['['] + title + seq![']', '('] + relative_spec(
            from,
            canonical,
        ) + seq![')'],
        LinkFormat::PlainRelative => relative_spec(from, canonical),
        LinkFormat::PlainCanonical => canonical,
    }
}

/// The file stem of a name: the part before its last `.`, unless the only
/// `.` opens the name.
pub open spec fn stem_of_name(name: Seq<char>) -> Seq<char> {
    match rfind_char(name, '.') {
        Some(k) => if k == 0 {
            name
        } else {
            name.subrange(0, k as int)
        },
        None => name,
    }
}

/// A word with its first character upper-cased (ASCII).
pub open spec fn capitalize_ascii(w: Seq<char>) -> Seq<char> {
    if w.len() == 0 {
        w
    } else {
        seq![ascii_upper(w[0])] + w.drop_first()
    }
}

/// `_` and `-` read as spaces.
pub open spec fn despace(c: char) -> char {
    if c == '_' || c == '-' {
        ' '
    } else {
        c
    }
}

/// The display title derived from a path.
pub open spec fn title_spec(path: Seq<char>) -> Seq<char> {
    let name = match file_name_spec(path) {
        Some(n) => stem_of_name(n),
        None => path,
    };
    let spaced = name.map_values(|c: char| despace(c));
    let words = nonempty(split(spaced, Sep::Ws));
    join(words.map_values(|w: Seq<char>| capitalize_ascii(w)), seq![' '])
}

// ---------------------------------------------------------------------------
// Implementation
// ---------------------------------------------------------------------------

/// The type of a raw path.
fn determine_path_type(p: &Vec<char>) -> (t: PathType)
    ensures
        t == path_type_of(p@),
{
    if has_prefix(p, &v1('/')) {
        PathType::WorkspaceRoot
    } else if has_prefix(p, &v3('.', '.', '/')) || has_prefix(p, &v2('.', '/')) {
        PathType::Relative
    } else {
        let dd = v2('.', '.');
        let d = v1('.');
        if chars_eq(p, &dd) || chars_eq(p, &d) {
            PathType::Relative
        } else {
            PathType::Ambiguous
        }
    }
}

/// A raw path without its root `/`.
fn strip_root(p: &Vec<char>) -> (r: Vec<char>)
    ensures
        r@ == stored_path(p@),
{
    if has_prefix(p, &v1('/')) {
        slice_chars(p, 1, p.len())
    } else {
        slice_chars(p, 0, p.len())
    }
}

/// Try to parse a markdown link `[Title](path)`.
fn try_parse_markdown_link(v: &Vec<char>) -> (r: Option<ParsedLink>)
    ensures
        match r {
            Some(l) => markdown_link(v@) == Some(l@),
            None => markdown_link(v@) is None,
        },
{
    if !has_prefix(v, &v1('[')) {
        return None;
    }
    let close_bracket = match find_chars(v, &v1(']')) {
        Some(i) => i,
        None => return None,
    };
    proof {
        lemma_find_from(v@, seq![']'], 0);
        assert(v@.subrange(0, 1)[0] == v@[0]);
        assert(v@.subrange(close_bracket as int, close_bracket + 1)[0] == v@[close_bracket as int]);
    }
    assert(close_bracket < v.len());
    assert(close_bracket >= 1);
    if close_bracket + 1 >= v.len() || v[close_bracket + 1] != '(' {
        return None;
    }
    let path_start = close_bracket + 2;
    let rest = slice_chars(v, path_start, v.len());
    let k = match find_chars(&rest, &v1(')')) {
        Some(k) => k,
        None => return None,
    };
    proof {
        lemma_find_from(rest@, seq![')'], 0);
    }
    let close_paren = path_start + k;
    let title = slice_chars(v, 1, close_bracket);
    let raw = slice_chars(v, path_start, close_paren);
    let path_type = determine_path_type(&raw);
    let path = strip_root(&raw);
    let r = ParsedLink::with_title(string_of(&title), string_of(&path), path_type);
    assert(r@.title == Some(v@.subrange(1, close_bracket as int)));
    Some(r)
}

/// Parse a link value from frontmatter: a markdown link `[Title](path)` or a
/// plain path. Workspace-root paths are stored without their leading `/`.
pub fn parse_link(value: &str) -> (r: ParsedLink)
    ensures
        r@ == parse_link_spec(value@),
{
    let raw = chars_of(value);
    let v = trim_chars(&raw);
    match try_parse_markdown_link(&v) {
        Some(parsed) => parsed,
        None => {
            let path_type = determine_path_type(&v);
            let path = strip_root(&v);
            ParsedLink::new(string_of(&path), path_type)
        },
    }
}

/// Keeps the pieces that name components.
fn kept_exec(ps: &Vec<Vec<char>>) -> (r: Vec<Vec<char>>)
    ensures
        views(r@) == kept(views(ps@)),
{
    let mut r: Vec<Vec<char>> = Vec::new();
    let ghost all = views(ps@);
    let mut i: usize = 0;
    let dot = v1('.');
    while i < ps.len()
        invariant
            i <= ps.len(),
            all == views(ps@),
            dot@ == seq!['.'],
            views(r@) == kept(all.subrange(0, i as int)),
        decreases ps.len() - i,
    {
        assert(all.subrange(0, i + 1).drop_last() =~= all.subrange(0, i as int));
        assert(all[i as int] == ps@[i as int]@);
        if ps[i].len() > 0 && !chars_eq(&ps[i], &dot) {
            r.push(clone_chars(&ps[i]));
            assert(views(r@) =~= kept(all.subrange(0, i as int)).push(all[i as int]));
        }
        i += 1;
    }
    assert(all.subrange(0, ps.len() as int) =~= all);
    r
}

/// The named components of a path.
fn segs_exec(p: &Vec<char>) -> (r: Vec<Vec<char>>)
    ensures
        views(r@) == segs(p@),
{
    let raw = split_chars(p, Sep::Ch('/'));
    kept_exec(&raw)
}

/// Normalize a list of components by resolving `..`.
fn normalize_exec(ps: &Vec<Vec<char>>) -> (r: Vec<Vec<char>>)
    ensures
        views(r@) == normalize(views(ps@)),
{
    let mut stack: Vec<Vec<char>> = Vec::new();
    let ghost all = views(ps@);
    let dd = v2('.', '.');
    let mut i: usize = 0;
    while i < ps.len()
        invariant
            i <= ps.len(),
            all == views(ps@),
            dd@ == dotdot(),
            views(stack@) == normalize(all.subrange(0, i as int)),
        decreases ps.len() - i,
    {
        assert(all.subrange(0, i + 1).drop_last() =~= all.subrange(0, i as int));
        assert(all[i as int] == ps@[i as int]@);
        let ghost before = views(stack@);
        if chars_eq(&ps[i], &dd) {
            let n = stack.len();
            if n > 0 && !chars_eq(&stack[n - 1], &dd) {
                stack.pop();
                assert(views(stack@) =~= before.drop_last());
            } else {
                stack.push(clone_chars(&ps[i]));
                assert(views(stack@) =~= before.push(all[i as int]));
            }
        } else {
            stack.push(clone_chars(&ps[i]));
            assert(views(stack@) =~= before.push(all[i as int]));
        }
        i += 1;
    }
    assert(all.subrange(0, ps.len() as int) =~= all);
    stack
}

/// Appends the pieces of `src` to `dst`.
fn extend_pieces(dst: &mut Vec<Vec<char>>, src: &Vec<Vec<char>>)
    ensures
        views(final(dst)@) == views(old(dst)@) + views(src@),
{
    let mut i: usize = 0;
    while i < src.len()
        invariant
            i <= src.len(),
            views(dst@) == views(old(dst)@) + views(src@).subrange(0, i as int),
        decreases src.len() - i,
    {
        let ghost pre = dst@;
        let x = clone_chars(&src[i]);
        dst.push(x);
        proof {
            lemma_views_push(pre, x);
        }
        i += 1;
        assert(views(dst@) =~= views(old(dst)@) + views(src@).subrange(0, i as int));
    }
    assert(views(src@).subrange(0, src.len() as int) =~= views(src@));
}

/// Convert a parsed link to a canonical (workspace-relative) path, resolving
/// relative and ambiguous paths against the directory of the file that
/// holds the link.
pub fn to_canonical(parsed: &ParsedLink, current_file_path: &str) -> (r: String)
    ensures
        r@ == canonical_spec(parsed@, current_file_path@),
{
    match parsed.path_type {
        PathType::WorkspaceRoot => parsed.path.clone(),
        _ => {
            let p = chars_of(parsed.path.as_str());
            let cur = chars_of(current_file_path);
            let mut all: Vec<Vec<char>> = Vec::new();
            if !has_prefix(&p, &v1('/')) {
                let mut d = segs_exec(&cur);
                if d.len() > 0 {
                    d.pop();
                    assert(views(d@) =~= segs(cur@).drop_last());
                }
                all = d;
            }
            let ps = segs_exec(&p);
            extend_pieces(&mut all, &ps);
            let n = normalize_exec(&all);
            let joined = join_chars(&n, &v1('/'));
            string_of(&joined)
        },
    }
}

/// The text of one component piece.
fn piece(c: char) -> (r: Vec<char>)
    ensures
        r@ == seq![c],
{
    let mut r = Vec::new();
    r.push(c);
    r
}

/// The components of a path as `Path::components` lists them.
pub(crate) fn comps_exec(p: &Vec<char>) -> (r: Vec<Vec<char>>)
    ensures
        views(r@) == comps(p@),
{
    let raw = split_chars(p, Sep::Ch('/'));
    proof {
        lemma_split_len(p@, Sep::Ch('/'));
    }
    let root = has_prefix(p, &v1('/'));
    let mut r: Vec<Vec<char>> = Vec::new();
    if root {
        r.push(piece('/'));
    } else {
        let dot = piece('.');
        assert(raw@[0]@ == views(raw@)[0]);
        if chars_eq(&raw[0], &dot) {
            r.push(dot);
        }
    }
    let k = kept_exec(&raw);
    let ghost pre = views(r@);
    extend_pieces(&mut r, &k);
    assert(pre =~= (if starts_with(p@, seq!['/']) {
        seq![seq!['/']]
    } else {
        Seq::<Seq<char>>::empty()
    }) + (if !starts_with(p@, seq!['/']) && views(raw@)[0] == seq!['.'] {
        seq![seq!['.']]
    } else {
        Seq::<Seq<char>>::empty()
    }));
    r
}

/// The last component of a path when it is a name (`Path::file_name`): not
/// the root, `.` or `..`.
pub fn file_name(path: &str) -> (r: Option<String>)
    ensures
        match r {
            Some(n) => file_name_spec(path@) == Some(n@),
            None => file_name_spec(path@) is None,
        },
{
    let p = chars_of(path);
    let cs = comps_exec(&p);
    let n = cs.len();
    let ghost c = views(cs@);
    if n > 0 {
        assert(c.last() == cs@[n - 1]@);
    }
    if n > 0 && !chars_eq(&cs[n - 1], &piece('/')) && !chars_eq(&cs[n - 1], &piece('.'))
        && !chars_eq(&cs[n - 1], &v2('.', '.')) {
        Some(string_of(&cs[n - 1]))
    } else {
        None
    }
}

/// The length of the longest common prefix of two component lists.
fn common_len_exec(a: &Vec<Vec<char>>, b: &Vec<Vec<char>>) -> (n: usize)
    ensures
        n == common_len(views(a@), views(b@)),
{
    let ghost va = views(a@);
    let ghost vb = views(b@);
    let mut i: usize = 0;
    assert(va.subrange(0, va.len() as int) =~= va);
    assert(vb.subrange(0, vb.len() as int) =~= vb);
    while i < a.len() && i < b.len() && chars_eq(&a[i], &b[i])
        invariant
            i <= a.len(),
            i <= b.len(),
            va == views(a@),
            vb == views(b@),
            common_len(va, vb) == i + common_len(
                va.subrange(i as int, va.len() as int),
                vb.subrange(i as int, vb.len() as int),
            ),
        decreases a.len() - i,
    {
        let ghost sa = va.subrange(i as int, va.len() as int);
        let ghost sb = vb.subrange(i as int, vb.len() as int);
        assert(sa.drop_first() =~= va.subrange(i + 1, va.len() as int));
        assert(sb.drop_first() =~= vb.subrange(i + 1, vb.len() as int));
        assert(sa[0] == a@[i as int]@);
        assert(sb[0] == b@[i as int]@);
        i += 1;
    }
    i
}

/// Compute a relative path from the directory of `from_path` to `to_path`.
pub fn compute_relative_path(from_path: &str, to_path: &str) -> (r: String)
    ensures
        r@ == relative_spec(from_path@, to_path@),
{
    let from = chars_of(from_path);
    let to = chars_of(to_path);
    let mut from_comps = comps_exec(&from);
    let n = from_comps.len();
    let slash = piece('/');
    if n > 0 && !chars_eq(&from_comps[n - 1], &slash) {
        from_comps.pop();
        assert(views(from_comps@) =~= comps(from@).drop_last());
    } else {
        from_comps = Vec::new();
        assert(views(from_comps@) =~= Seq::<Seq<char>>::empty());
    }
    let to_comps = comps_exec(&to);
    let common = common_len_exec(&from_comps, &to_comps);
    proof {
        lemma_common_len_bound(views(from_comps@), views(to_comps@));
    }
    let ups = from_comps.len() - common;
    let mut parts: Vec<Vec<char>> = Vec::new();
    let mut i: usize = 0;
    while i < ups
        invariant
            i <= ups,
            views(parts@) == Seq::new(i as nat, |j: int| dotdot()),
        decreases ups - i,
    {
        let dd = v2('.', '.');
        let ghost pre = parts@;
        parts.push(dd);
        proof {
            lemma_views_push(pre, dd);
        }
        i += 1;
        assert(views(parts@) =~= Seq::new(i as nat, |j: int| dotdot()));
    }
    let mut j = common;
    let ghost t = views(to_comps@);
    let ghost ups_seq = views(parts@);
    while j < to_comps.len()
        invariant
            common <= j <= to_comps.len(),
            t == views(to_comps@),
            views(parts@) == ups_seq + t.subrange(common as int, j as int),
        decreases to_comps.len() - j,
    {
        let x = clone_chars(&to_comps[j]);
        let ghost pre = parts@;
        parts.push(x);
        proof {
            lemma_views_push(pre, x);
            assert(x@ == t[j as int]);
        }
        j += 1;
        assert(views(parts@) =~= ups_seq + t.subrange(common as int, j as int));
    }
    if parts.len() == 0 {
        let tn = to_comps.len();
        let dot = piece('.');
        let dd = v2('.', '.');
        if tn > 0 {
            assert(t.last() == to_comps@[tn - 1]@);
        }
        if tn > 0 && !chars_eq(&to_comps[tn - 1], &slash) && !chars_eq(&to_comps[tn - 1], &dot)
            && !chars_eq(&to_comps[tn - 1], &dd) {
            string_of(&to_comps[tn - 1])
        } else {
            owned(to_path)
        }
    } else {
        let joined = join_chars(&parts, &v1('/'));
        string_of(&joined)
    }
}

/// The common prefix is no longer than either list.
proof fn lemma_common_len_bound(a: Seq<Seq<char>>, b: Seq<Seq<char>>)
    ensures
        common_len(a, b) <= a.len(),
        common_len(a, b) <= b.len(),
    decreases a.len(),
{
    if a.len() > 0 && b.len() > 0 && a[0] == b[0] {
        lemma_common_len_bound(a.drop_first(), b.drop_first());
    }
}

/// Appends `s` to `dst`.
fn push_str(dst: &mut Vec<char>, s: &str)
    ensures
        final(dst)@ == old(dst)@ + s@,
{
    let v = chars_of(s);
    extend_chars(dst, &v);
}

/// Format a canonical path as a markdown link with a workspace-root path:
/// `[Title](/canonical/path.md)`.
pub fn format_link(canonical_path: &str, title: &str) -> (r: String)
    ensures
        r@ == format_link_spec(canonical_path@, title@),
{
    let mut out: Vec<char> = Vec::new();
    out.push('[');
    push_str(&mut out, title);
    out.push(']');
    out.push('(');
    out.push('/');
    push_str(&mut out, canonical_path);
    out.push(')');
    assert(out@ =~= format_link_spec(canonical_path@, title@));
    string_of(&out)
}

/// Format a link to `canonical_path` in `format`, as written in the file
/// `from_canonical_path`.
pub fn format_link_with_format(
    canonical_path: &str,
    title: &str,
    format: LinkFormat,
    from_canonical_path: &str,
) -> (r: String)
    ensures
        r@ == format_with_spec(canonical_path@, title@, format, from_canonical_path@),
{
    match format {
        LinkFormat::MarkdownRoot => format_link(canonical_path, title),
        LinkFormat::MarkdownRelative => {
            let relative = compute_relative_path(from_canonical_path, canonical_path);
            let mut out: Vec<char> = Vec::new();
            out.push('[');
            push_str(&mut out, title);
            out.push(']');
            out.push('(');
            push_str(&mut out, relative.as_str());
            out.push(')');
            assert(out@ =~= seq!['['] + title@ + seq![']', '('] + relative@ + seq![')']);
            string_of(&out)
        },
        LinkFormat::PlainRelative => compute_relative_path(from_canonical_path, canonical_path),
        LinkFormat::PlainCanonical => owned(canonical_path),
    }
}

/// Generate a display title from a path: the file stem, with `_` and `-`
/// read as spaces, split into words, each word's first letter upper-cased.
pub fn path_to_title(path: &str) -> (r: String)
    ensures
        r@ == title_spec(path@),
{
    let p = chars_of(path);
    let cs = comps_exec(&p);
    let n = cs.len();
    let slash = piece('/');
    let dot = piece('.');
    let dd = v2('.', '.');
    let ghost c = views(cs@);
    if n > 0 {
        assert(c.last() == cs@[n - 1]@);
    }
    let name: Vec<char> = if n > 0 && !chars_eq(&cs[n - 1], &slash) && !chars_eq(&cs[n - 1], &dot)
        && !chars_eq(&cs[n - 1], &dd) {
        let nm = &cs[n - 1];
        proof {
            lemma_rfind_char(nm@, '.');
        }
        match rfind_char_exec(nm, '.') {
            Some(k) => if k == 0 {
                clone_chars(nm)
            } else {
                slice_chars(nm, 0, k)
            },
            None => clone_chars(nm),
        }
    } else {
        clone_chars(&p)
    };
    let mut spaced: Vec<char> = Vec::new();
    let mut i: usize = 0;
    while i < name.len()
        invariant
            i <= name.len(),
            spaced@ == name@.subrange(0, i as int).map_values(|c: char| despace(c)),
        decreases name.len() - i,
    {
        let ch = name[i];
        spaced.push(if ch == '_' || ch == '-' {
            ' '
        } else {
            ch
        });
        i += 1;
        assert(spaced@ =~= name@.subrange(0, i as int).map_values(|c: char| despace(c)));
    }
    assert(name@.subrange(0, name.len() as int) =~= name@);
    let words = keep_nonempty(split_chars(&spaced, Sep::Ws));
    let mut caps: Vec<Vec<char>> = Vec::new();
    let mut k: usize = 0;
    let ghost w = views(words@);
    while k < words.len()
        invariant
            k <= words.len(),
            w == views(words@),
            views(caps@) == w.subrange(0, k as int).map_values(
                |x: Seq<char>| capitalize_ascii(x),
            ),
        decreases words.len() - k,
    {
        let word = &words[k];
        assert(word@ == w[k as int]);
        let mut cw: Vec<char> = Vec::new();
        if word.len() > 0 {
            cw.push(to_ascii_uppercase(word[0]));
            let rest = slice_chars(word, 1, word.len());
            extend_chars(&mut cw, &rest);
            assert(cw@ =~= capitalize_ascii(word@));
        } else {
            assert(cw@ =~= capitalize_ascii(word@));
        }
        let ghost pre = caps@;
        caps.push(cw);
        proof {
            lemma_views_push(pre, cw);
        }
        k += 1;
        assert(views(caps@) =~= w.subrange(0, k as int).map_values(
            |x: Seq<char>| capitalize_ascii(x),
        ));
    }
    assert(w.subrange(0, words.len() as int) =~= w);
    let joined = join_chars(&caps, &v1(' '));
    string_of(&joined)
}


// ---------------------------------------------------------------------------
// Laws
// ---------------------------------------------------------------------------

/// A path piece that reads back unchanged: not empty, not `.` or `..`, not
/// opening with `[`, and without whitespace at either end.
pub open spec fn clean_seg(x: Seq<char>) -> bool {
    &&& x.len() > 0
    &&& x != seq!['.']
    &&& x != dotdot()
    &&& x[0] != '['
    &&& !is_ws(x[0])
    &&& !is_ws(x.last())
}

/// A canonical path made only of clean pieces (so no leading `/`, no empty
/// pieces, no `.` or `..`).
pub open spec fn clean_path(p: Seq<char>) -> bool {
    forall|i: int|
        0 <= i < split(p, Sep::Ch('/')).len() ==> clean_seg(#[trigger] split(p, Sep::Ch('/'))[i])
}

/// Keeping only named pieces leaves a list of named pieces alone.
proof fn lemma_kept_all(ps: Seq<Seq<char>>)
    requires
        forall|i: int| 0 <= i < ps.len() ==> keeps_seg(#[trigger] ps[i]),
    ensures
        kept(ps) == ps,
    decreases ps.len(),
{
    if ps.len() > 0 {
        lemma_kept_all(ps.drop_last());
        assert(ps.last() == ps[ps.len() - 1]);
        assert(ps.drop_last().push(ps.last()) =~= ps);
    }
}

/// A clean path is its own list of components.
proof fn lemma_clean(p: Seq<char>)
    requires
        clean_path(p),
    ensures
        segs(p) == split(p, Sep::Ch('/')),
        comps(p) == split(p, Sep::Ch('/')),
        p.len() > 0,
        !starts_with(p, seq!['/']),
        p[0] == split(p, Sep::Ch('/'))[0][0],
        p[0] != '[',
        p[0] != '/',
        !is_ws(p[0]),
        !is_ws(p.last()),
        split(p, Sep::Ch('/')).len() >= 1,
        forall|i: int|
            0 <= i < split(p, Sep::Ch('/')).len() ==> (#[trigger] split(p, Sep::Ch('/'))[i]).len()
                > 0,
        forall|i: int|
            0 <= i < split(p, Sep::Ch('/')).len() ==> (#[trigger] split(p, Sep::Ch('/'))[i])
                != dotdot(),
{
    let raw = split(p, Sep::Ch('/'));
    lemma_split_first(p, '/');
    assert(clean_seg(raw[0]));
    assert forall|i: int| 0 <= i < raw.len() implies keeps_seg(#[trigger] raw[i]) by {
        assert(clean_seg(raw[i]));
    }
    lemma_kept_all(raw);
    assert(p.subrange(0, raw[0].len() as int)[0] == p[0]);
    assert(raw[0][0] == p[0]);
    lemma_split_no_sep(p, '/');
    assert(!raw[0].contains('/'));
    assert(raw[0][0] != '/');
    assert(!starts_with(p, seq!['/'])) by {
        if starts_with(p, seq!['/']) {
            assert(p.subrange(0, 1)[0] == p[0]);
        }
    }
    assert(raw[0] != seq!['.']);
    assert(comps(p) =~= raw);
    lemma_join_split(p, '/');
    assert forall|i: int| 0 <= i < raw.len() implies (#[trigger] raw[i]).len() > 0 && raw[i]
        != dotdot() by {
        assert(clean_seg(raw[i]));
    }
    lemma_join_ends(raw, seq!['/']);
    assert(clean_seg(raw.last())) by {
        assert(raw.last() == raw[raw.len() - 1]);
    }
}

/// Resolving a list without `..` changes nothing.
proof fn lemma_normalize_plain(ps: Seq<Seq<char>>)
    requires
        forall|i: int| 0 <= i < ps.len() ==> (#[trigger] ps[i]) != dotdot(),
    ensures
        normalize(ps) == ps,
    decreases ps.len(),
{
    if ps.len() > 0 {
        lemma_normalize_plain(ps.drop_last());
        assert(ps.last() == ps[ps.len() - 1]);
        assert(ps.drop_last().push(ps.last()) =~= ps);
    }
}

/// Resolving components appended after others: names are pushed.
proof fn lemma_normalize_append(a: Seq<Seq<char>>, b: Seq<Seq<char>>)
    requires
        forall|i: int| 0 <= i < b.len() ==> (#[trigger] b[i]) != dotdot(),
    ensures
        normalize(a + b) == normalize(a) + b,
    decreases b.len(),
{
    if b.len() == 0 {
        assert(a + b =~= a);
        assert(normalize(a) + b =~= normalize(a));
    } else {
        let b0 = b.drop_last();
        lemma_normalize_append(a, b0);
        assert((a + b).drop_last() =~= a + b0);
        assert((a + b).last() == b.last());
        assert(b.last() == b[b.len() - 1]);
        assert(normalize(a) + b =~= (normalize(a) + b0).push(b.last()));
    }
}

/// `k` copies of `..` after `k` or more names remove the last `k` names.
proof fn lemma_normalize_ups(d: Seq<Seq<char>>, k: nat)
    requires
        k <= d.len(),
        forall|i: int| 0 <= i < d.len() ==> (#[trigger] d[i]) != dotdot(),
    ensures
        normalize(d + Seq::new(k, |i: int| dotdot())) == d.subrange(0, d.len() - k),
    decreases k,
{
    let ups = Seq::new(k, |i: int| dotdot());
    if k == 0 {
        assert(d + ups =~= d);
        lemma_normalize_plain(d);
        assert(d.subrange(0, d.len() as int) =~= d);
    } else {
        let prev = Seq::new((k - 1) as nat, |i: int| dotdot());
        lemma_normalize_ups(d, (k - 1) as nat);
        assert((d + ups).drop_last() =~= d + prev);
        assert((d + ups).last() == dotdot());
        let st = d.subrange(0, d.len() - (k - 1));
        assert(st.last() == d[d.len() - k]);
        assert(st.drop_last() =~= d.subrange(0, d.len() - k));
    }
}

/// The common prefix of two lists is shared.
proof fn lemma_common_prefix(a: Seq<Seq<char>>, b: Seq<Seq<char>>)
    ensures
        common_len(a, b) <= a.len(),
        common_len(a, b) <= b.len(),
        a.subrange(0, common_len(a, b) as int) == b.subrange(0, common_len(a, b) as int),
        common_len(a, b) < a.len() && common_len(a, b) < b.len() ==> a[common_len(a, b) as int]
            != b[common_len(a, b) as int],
    decreases a.len(),
{
    if a.len() == 0 || b.len() == 0 || a[0] != b[0] {
        assert(a.subrange(0, 0) =~= b.subrange(0, 0));
    } else {
        lemma_common_prefix(a.drop_first(), b.drop_first());
        let n = common_len(a, b);
        assert(a.subrange(0, n as int) =~= seq![a[0]] + a.drop_first().subrange(0, n - 1));
        assert(b.subrange(0, n as int) =~= seq![b[0]] + b.drop_first().subrange(0, n - 1));
    }
}

/// A link written as a markdown link with a workspace-root path reads back
/// as that path with that title, whenever the title holds no `]` and the
/// path holds no `)`.
pub proof fn law_format_link_parses_back(canonical: Seq<char>, title: Seq<char>)
    requires
        !title.contains(']'),
        !canonical.contains(')'),
    ensures
        parse_link_spec(format_link_spec(canonical, title)) == (LinkView {
            title: Some(title),
            path: canonical,
            path_type: PathType::WorkspaceRoot,
        }),
        canonical_spec(parse_link_spec(format_link_spec(canonical, title)), Seq::empty())
            == canonical,
{
    let raw = seq!['/'] + canonical;
    lemma_markdown_link_of(title, raw);
    assert(format_link_spec(canonical, title) =~= seq!['['] + title + seq![']', '('] + raw
        + seq![')']);
    assert(raw.drop_first() =~= canonical);
    assert(starts_with(raw, seq!['/'])) by {
        assert(raw.subrange(0, 1) =~= seq!['/']);
    }
}

/// `[title](raw)` reads as a markdown link with that title and raw path
/// when the title holds no `]` and the path no `)`.
proof fn lemma_markdown_link_of(title: Seq<char>, raw: Seq<char>)
    requires
        !title.contains(']'),
        !raw.contains(')'),
    ensures
        parse_link_spec(seq!['['] + title + seq![']', '('] + raw + seq![')']) == link_of(
            Some(title),
            raw,
        ),
{
    let v = seq!['['] + title + seq![']', '('] + raw + seq![')'];
    let cb: int = title.len() + 1int;
    lemma_trim_noop(v);
    assert(starts_with(v, seq!['['])) by {
        assert(v.subrange(0, 1) =~= seq!['[']);
    }
    assert(v[cb as int] == ']');
    assert forall|j: int| 0 <= j < cb implies v[j] != ']' by {
        if j > 0 {
            assert(v[j] == title[j - 1]);
        }
    }
    lemma_index_of_first(v, ']', cb as nat);
    assert(v[cb + 1] == '(');
    let rest = v.subrange(cb + 2, v.len() as int);
    assert(rest =~= raw + seq![')']);
    assert forall|j: int| 0 <= j < raw.len() implies rest[j] != ')' by {
        assert(rest[j] == raw[j]);
    }
    lemma_index_of_first(rest, ')', raw.len());
    assert(v.subrange(1, cb as int) =~= title);
    assert(v.subrange(cb + 2, cb + 2 + raw.len()) =~= raw);
}

/// A relative path resolves back to where it points.
proof fn lemma_relative_resolves(c: Seq<char>, from: Seq<char>)
    requires
        clean_path(c),
        clean_path(from),
        dir_segs(from) != segs(c),
    ensures
        ({
            let r = relative_spec(from, c);
            &&& r.len() > 0
            &&& r[0] != '['
            &&& r[0] != '/'
            &&& !is_ws(r[0])
            &&& !is_ws(r.last())
            &&& (!c.contains(')') ==> !r.contains(')'))
            &&& join(normalize(dir_segs(from) + segs(r)), seq!['/']) == c
        }),
{
    lemma_clean(c);
    lemma_clean(from);
    let fs = split(from, Sep::Ch('/'));
    let d = parent_comps(from);
    assert(fs.last() == fs[fs.len() - 1]);
    assert(clean_seg(fs.last()));
    lemma_split_no_sep(from, '/');
    assert(!fs.last().contains('/')) by {
        assert(fs.last() == fs[fs.len() - 1]);
    }
    assert(fs.last() != seq!['/']) by {
        if fs.last() == seq!['/'] {
            assert(fs.last()[0] == '/');
        }
    }
    assert(d == fs.drop_last());
    assert(dir_segs(from) == d);
    let t = split(c, Sep::Ch('/'));
    assert(comps(c) == t);
    let n = common_len(d, t);
    lemma_common_prefix(d, t);
    let k = (d.len() - n) as nat;
    let ups = Seq::new(k, |i: int| dotdot());
    let downs = t.subrange(n as int, t.len() as int);
    let parts = ups + downs;
    assert(parts.len() > 0) by {
        if parts.len() == 0 {
            assert(d.len() == n);
            assert(t.len() == n);
            assert(d =~= d.subrange(0, n as int));
            assert(t =~= t.subrange(0, n as int));
        }
    }
    let r = join(parts, seq!['/']);
    assert(relative_spec(from, c) == r);
    // The pieces of the relative path.
    assert forall|i: int| 0 <= i < parts.len() implies !(#[trigger] parts[i]).contains('/')
        && parts[i].len() > 0 && keeps_seg(parts[i]) by {
        lemma_split_no_sep(c, '/');
        if i < k {
            assert(parts[i] == dotdot());
            assert(dotdot()[0] == '.' && dotdot()[1] == '.');
            assert(seq!['.'].len() == 1);
        } else {
            assert(parts[i] == t[n + i - k]);
            assert(clean_seg(t[n + i - k]));
        }
    }
    lemma_split_join(parts, '/');
    lemma_kept_all(parts);
    assert(segs(r) == parts);
    lemma_join_ends(parts, seq!['/']);
    assert(r[0] == parts[0][0]);
    if k > 0 {
        assert(parts[0] == dotdot());
    } else {
        assert(parts[0] == t[n as int]);
        assert(clean_seg(t[n as int]));
    }
    assert(r.last() == parts.last().last());
    assert(parts.last() == parts[parts.len() - 1]);
    if downs.len() > 0 {
        assert(parts.last() == t.last());
        assert(clean_seg(t.last())) by {
            assert(t.last() == t[t.len() - 1]);
        }
    } else {
        assert(parts.last() == dotdot());
    }
    if !c.contains(')') {
        assert forall|i: int| 0 <= i < parts.len() implies !(#[trigger] parts[i]).contains(')')
            by {
            if i < k {
                assert(parts[i] == dotdot());
            } else {
                assert(parts[i] == t[n + i - k]);
                let x = t[n + i - k];
                if x.contains(')') {
                    lemma_join_split(c, '/');
                    let j = choose|j: int| 0 <= j < x.len() && x[j] == ')';
                    lemma_piece_in_join(t, seq!['/'], n + i - k, j);
                }
            }
        }
        lemma_join_no_char(parts, seq!['/'], ')');
    }
    // Resolving.
    assert forall|i: int| 0 <= i < d.len() implies (#[trigger] d[i]) != dotdot() by {
        assert(d[i] == fs[i]);
        assert(clean_seg(fs[i]));
    }
    assert forall|i: int| 0 <= i < downs.len() implies (#[trigger] downs[i]) != dotdot() by {
        assert(downs[i] == t[n + i]);
    }
    assert(d + parts =~= (d + ups) + downs);
    lemma_normalize_append(d + ups, downs);
    lemma_normalize_ups(d, k);
    assert(d.subrange(0, d.len() - k) == t.subrange(0, n as int));
    assert(t.subrange(0, n as int) + downs =~= t);
    lemma_join_split(c, '/');
}

/// A character of a piece is a character of the join.
proof fn lemma_piece_in_join(ps: Seq<Seq<char>>, sep: Seq<char>, i: int, j: int)
    requires
        0 <= i < ps.len(),
        0 <= j < ps[i].len(),
    ensures
        join(ps, sep).contains(ps[i][j]),
    decreases ps.len(),
{
    if ps.len() == 1 {
        assert(join(ps, sep)[j] == ps[i][j]);
    } else if i == ps.len() - 1 {
        let a = join(ps.drop_last(), sep) + sep;
        assert(join(ps, sep)[a.len() + j] == ps[i][j]);
    } else {
        lemma_piece_in_join(ps.drop_last(), sep, i, j);
        let x = ps[i][j];
        let k = choose|k: int| 0 <= k < join(ps.drop_last(), sep).len() && join(
            ps.drop_last(),
            sep,
        )[k] == x;
        assert(join(ps, sep)[k] == x);
    }
}

/// Links read back to the canonical path they were written for. A link
/// written in any format from the file `from` to the clean canonical path
/// `canonical`, then read with [`parse_link`] and resolved with
/// [`to_canonical`] from the same file, gives `canonical` back. Markdown
/// formats need a title without `]` and a path without `)`; relative formats
/// need the target not to be the directory holding `from` itself; the plain
/// canonical format, which [`to_canonical`] reads as relative, needs `from`
/// to sit at the workspace root.
pub proof fn law_link_round_trip(
    canonical: Seq<char>,
    title: Seq<char>,
    format: LinkFormat,
    from: Seq<char>,
)
    requires
        clean_path(canonical),
        clean_path(from),
        (format == LinkFormat::MarkdownRoot || format == LinkFormat::MarkdownRelative) ==> (
        !title.contains(']') && !canonical.contains(')')),
        (format == LinkFormat::MarkdownRelative || format == LinkFormat::PlainRelative)
            ==> dir_segs(from) != segs(canonical),
        format == LinkFormat::PlainCanonical ==> dir_segs(from).len() == 0,
    ensures
        canonical_spec(parse_link_spec(format_with_spec(canonical, title, format, from)), from)
            == canonical,
{
    match format {
        LinkFormat::MarkdownRoot => {
            law_format_link_parses_back(canonical, title);
        },
        LinkFormat::MarkdownRelative => {
            lemma_relative_resolves(canonical, from);
            let r = relative_spec(from, canonical);
            lemma_markdown_link_of(title, r);
            assert(!starts_with(r, seq!['/'])) by {
                if starts_with(r, seq!['/']) {
                    assert(r.subrange(0, 1)[0] == r[0]);
                }
            }
        },
        LinkFormat::PlainRelative => {
            lemma_relative_resolves(canonical, from);
            let r = relative_spec(from, canonical);
            lemma_plain_reads(r);
        },
        LinkFormat::PlainCanonical => {
            lemma_clean(canonical);
            lemma_plain_reads(canonical);
            let t = split(canonical, Sep::Ch('/'));
            assert(Seq::<Seq<char>>::empty() + t =~= t);
            lemma_normalize_plain(t);
            lemma_join_split(canonical, '/');
        },
    }
}

/// A plain path that neither opens with `[` or `/` nor has whitespace at
/// its ends reads as itself, relative.
proof fn lemma_plain_reads(r: Seq<char>)
    requires
        r.len() > 0,
        r[0] != '[',
        r[0] != '/',
        !is_ws(r[0]),
        !is_ws(r.last()),
    ensures
        parse_link_spec(r) == link_of(None, r),
        !starts_with(r, seq!['/']),
        stored_path(r) == r,
        path_type_of(r) != PathType::WorkspaceRoot,
{
    lemma_trim_noop(r);
    assert(!starts_with(r, seq!['['])) by {
        if starts_with(r, seq!['[']) {
            assert(r.subrange(0, 1)[0] == r[0]);
        }
    }
    assert(!starts_with(r, seq!['/'])) by {
        if starts_with(r, seq!['/']) {
            assert(r.subrange(0, 1)[0] == r[0]);
        }
    }
}

} // verus!
