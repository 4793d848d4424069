//! Frontmatter delimiters: a markdown document may open with a `---` fence,
//! a YAML block, and a closing `---` fence; everything after the closing
//! fence's line break is the body.
//!
//! These functions split, extract and replace the parts of a document by
//! their delimiters alone, without reading the YAML. The orderings of a
//! parsed frontmatter map are those of [`crate::entry::ordering`].

use vstd::prelude::*;
use crate::text::{
    chars_of, find, find_chars, has_prefix, lemma_find_from, lemma_find_first, occurs_at,
    slice_chars, starts_with, string_of, extend_chars,
};

pub use crate::entry::ordering::{sort_alphabetically, sort_by_pattern};
use crate::yaml::Value;
use crate::yaml::emit::{entries_ok, mapping_text, mapping_yaml};

pub mod edit;

pub use edit::{
    remove_property_in_text, rename_property_in_text, reorder_keys_in_text, set_properties_in_text,
    set_property_in_text,
};

verus! {

/// Errors that can occur while reading frontmatter.
#[derive(Debug)]
pub enum FrontmatterError {
    /// The input did not contain valid frontmatter delimiters.
    NoFrontmatter,
    /// The frontmatter YAML failed to parse or serialize; the message says why.
    Yaml(String),
}

/// The opening fence `---` followed by a line feed.
pub open spec fn open_lf() -> Seq<char> {
    seq!['-', '-', '-', '\n']
}

/// The opening fence `---` followed by a carriage return and line feed.
pub open spec fn open_crlf() -> Seq<char> {
    seq!['-', '-', '-', '\r', '\n']
}

/// The closing fence on its own line, ended by a line feed.
pub open spec fn close_lf() -> Seq<char> {
    seq!['\n', '-', '-', '-', '\n']
}

/// The closing fence on its own line, ended by a carriage return and line
/// feed.
pub open spec fn close_crlf() -> Seq<char> {
    seq!['\n', '-', '-', '-', '\r', '\n']
}

/// Whether `c` opens with a frontmatter fence.
pub open spec fn opens(c: Seq<char>) -> bool {
    starts_with(c, open_lf()) || starts_with(c, open_crlf())
}

/// Where the closing fence starts in `rest`: the first `\n---\n`, or if
/// there is none the first `\n---\r\n`.
pub open spec fn close_at(rest: Seq<char>) -> Option<nat> {
    match find(rest, close_lf()) {
        Some(i) => Some(i),
        None => find(rest, close_crlf()),
    }
}

/// How long the closing fence found in `rest` is, with its line break:
/// five characters for `\n---\n`, six for `\n---\r\n`.
pub open spec fn close_len(rest: Seq<char>) -> nat {
    if find(rest, close_lf()) is Some {
        5
    } else {
        6
    }
}

/// The YAML text and the body of a document with frontmatter. The four
/// characters of the opening fence are skipped, the YAML runs up to the
/// closing fence, and the body starts after the closing fence's line break.
pub open spec fn split_spec(c: Seq<char>) -> Option<(Seq<char>, Seq<char>)> {
    if !opens(c) {
        None
    } else {
        let rest = c.subrange(4, c.len() as int);
        match close_at(rest) {
            None => None,
            Some(e) => Some(
                (rest.subrange(0, e as int), rest.subrange((e + close_len(rest)) as int, rest.len() as int)),
            ),
        }
    }
}

/// The body of a document: what follows its frontmatter, or the whole
/// document when it has none.
pub open spec fn body_spec(c: Seq<char>) -> Seq<char> {
    match split_spec(c) {
        Some((_, b)) => b,
        None => c,
    }
}

/// How many leading characters of `c` [`replace_body`] keeps: the opening
/// fence, the YAML and the whole closing fence line, which is everything
/// before the body [`split`] reads.
pub open spec fn header_len(c: Seq<char>) -> Option<nat> {
    if !opens(c) {
        None
    } else {
        let rest = c.subrange(4, c.len() as int);
        match close_at(rest) {
            Some(e) => Some(4 + e + close_len(rest)),
            None => None,
        }
    }
}

/// The document with its body replaced.
pub open spec fn replace_spec(c: Seq<char>, new_body: Seq<char>) -> Seq<char> {
    match header_len(c) {
        Some(h) => c.subrange(0, h as int) + new_body,
        None => new_body,
    }
}

/// A character vector for a short fence.
fn fence(which: u8) -> (r: Vec<char>)
    ensures
        which == 0 ==> r@ == open_lf(),
        which == 1 ==> r@ == open_crlf(),
        which == 2 ==> r@ == close_lf(),
        which != 0 && which != 1 && which != 2 ==> r@ == close_crlf(),
{
    let mut r: Vec<char> = Vec::new();
    if which == 2 || which > 2 {
        r.push('\n');
    }
    r.push('-');
    r.push('-');
    r.push('-');
    if which == 1 || which > 2 {
        r.push('\r');
    }
    r.push('\n');
    proof {
        if which == 0 {
            assert(r@ =~= open_lf());
        } else if which == 1 {
            assert(r@ =~= open_crlf());
        } else if which == 2 {
            assert(r@ =~= close_lf());
        } else {
            assert(r@ =~= close_crlf());
        }
    }
    r
}

/// Whether the document opens with a fence.
fn opens_exec(c: &Vec<char>) -> (r: bool)
    ensures
        r == opens(c@),
{
    has_prefix(c, &fence(0)) || has_prefix(c, &fence(1))
}

/// How long the closing fence found in `rest` is.
fn close_len_exec(rest: &Vec<char>) -> (r: usize)
    ensures
        r == close_len(rest@),
{
    if find_chars(rest, &fence(2)).is_some() {
        5
    } else {
        6
    }
}

/// Where the closing fence starts in `rest`.
fn close_at_exec(rest: &Vec<char>) -> (r: Option<usize>)
    ensures
        r == (match close_at(rest@) {
            Some(k) => Some(k as usize),
            None => None::<usize>,
        }),
        r matches Some(k) ==> k + close_len(rest@) <= rest.len(),
        close_at(rest@) matches Some(k) ==> k + close_len(rest@) <= rest@.len(),
{
    match find_chars(rest, &fence(2)) {
        Some(i) => {
            proof {
                lemma_find_from(rest@, close_lf(), 0);
            }
            Some(i)
        },
        None => {
            proof {
                lemma_find_from(rest@, close_crlf(), 0);
            }
            let r = find_chars(rest, &fence(3));
            r
        },
    }
}

/// Split a markdown string into `(frontmatter_yaml, body)` without parsing
/// the YAML. Returns `None` if `content` does not open with a `---` fence or
/// has no closing fence.
pub fn split(content: &str) -> (r: Option<(&str, &str)>)
    ensures
        match r {
            Some((y, b)) => split_spec(content@) == Some((y@, b@)),
            None => split_spec(content@) is None,
        },
{
    let c = chars_of(content);
    if !opens_exec(&c) {
        return None;
    }
    let rest = slice_chars(&c, 4, c.len());
    match close_at_exec(&rest) {
        None => None,
        Some(e) => {
            let cl = close_len_exec(&rest);
            let yaml = content.substring_char(4, 4 + e);
            let body = content.substring_char(4 + e + cl, c.len());
            assert(yaml@ =~= rest@.subrange(0, e as int));
            assert(body@ =~= rest@.subrange(e + cl, rest@.len() as int));
            assert(close_at(rest@) == Some(e as nat));
            assert(split_spec(content@) == Some((yaml@, body@)));
            Some((yaml, body))
        },
    }
}

/// Extract the raw YAML text between the frontmatter fences, or `None` when
/// there are no valid fences.
pub fn extract_yaml(content: &str) -> (r: Option<&str>)
    ensures
        match r {
            Some(y) => split_spec(content@) matches Some((y2, _)) && y@ == y2,
            None => split_spec(content@) is None,
        },
{
    match split(content) {
        Some((yaml, _)) => Some(yaml),
        None => None,
    }
}

/// Extract only the body from markdown content, stripping frontmatter. If
/// there is no (complete) frontmatter, returns the content unchanged.
pub fn extract_body(content: &str) -> (r: &str)
    ensures
        r@ == body_spec(content@),
{
    match split(content) {
        Some((_, body)) => body,
        None => content,
    }
}

/// Replace only the body of a markdown document, keeping the opening fence,
/// the YAML and the closing fence line byte for byte. Without frontmatter
/// (or with a malformed fence) the result is `new_body` itself.
pub fn replace_body(content: &str, new_body: &str) -> (r: String)
    ensures
        r@ == replace_spec(content@, new_body@),
{
    let c = chars_of(content);
    let nb = chars_of(new_body);
    if !opens_exec(&c) {
        return string_of(&nb);
    }
    let rest = slice_chars(&c, 4, c.len());
    let header_end = match close_at_exec(&rest) {
        Some(e) => 4 + e + close_len_exec(&rest),
        None => {
            return string_of(&nb);
        },
    };
    let mut out = slice_chars(&c, 0, header_end);
    extend_chars(&mut out, &nb);
    string_of(&out)
}

// ---------------------------------------------------------------------------
// Laws
// ---------------------------------------------------------------------------

/// A search that succeeds in a prefix finds the same position after
/// anything is appended.
proof fn lemma_find_prefix(h1: Seq<char>, h2: Seq<char>, n: Seq<char>)
    requires
        find(h1, n) is Some,
    ensures
        find(h1 + h2, n) == find(h1, n),
{
    lemma_find_from(h1, n, 0);
    let k: int = find(h1, n)->0 as int;
    let h = h1 + h2;
    assert(h.subrange(k, k + n.len()) =~= h1.subrange(k, k + n.len()));
    assert(k + n.len() <= h1.len());
    assert forall|j: int| 0 <= j < k implies !occurs_at(h, n, j) by {
        assert(!occurs_at(h1, n, j));
        if occurs_at(h, n, j) {
            assert(h.subrange(j, j + n.len()) =~= h1.subrange(j, j + n.len()));
        }
    }
    lemma_find_first(h, n, 0, k as nat);
}

/// Replacing the body and then reading the body gives back the new body,
/// and the frontmatter stays as it was, for every document whose fences
/// are `---\n` and `\n---\n`.
pub proof fn law_replace_then_extract(c: Seq<char>, new_body: Seq<char>)
    requires
        starts_with(c, open_lf()),
        find(c.subrange(4, c.len() as int), close_lf()) is Some,
    ensures
        body_spec(replace_spec(c, new_body)) == new_body,
        split_spec(replace_spec(c, new_body)) matches Some((y, _)) && split_spec(c) matches Some(
            (y2, _),
        ) && y == y2,
{
    let rest = c.subrange(4, c.len() as int);
    lemma_find_from(rest, close_lf(), 0);
    let i: int = find(rest, close_lf())->0 as int;
    let h: int = 4 + i + 5;
    let r = c.subrange(0, h) + new_body;
    assert(replace_spec(c, new_body) == r);
    assert(r.subrange(0, 4) =~= c.subrange(0, 4));
    assert(starts_with(r, open_lf()));
    let rest2 = r.subrange(4, r.len() as int);
    assert(rest2 =~= rest.subrange(0, i + 5) + new_body);
    assert(rest.subrange(0, i + 5).subrange(i, i + 5) =~= rest.subrange(i, i + 5));
    assert(find(rest.subrange(0, i + 5), close_lf()) == Some(i as nat)) by {
        let p = rest.subrange(0, i + 5);
        assert forall|j: int| 0 <= j < i implies !occurs_at(p, close_lf(), j) by {
            assert(!occurs_at(rest, close_lf(), j));
            if occurs_at(p, close_lf(), j) {
                assert(p.subrange(j, j + 5) =~= rest.subrange(j, j + 5));
            }
        }
        lemma_find_first(p, close_lf(), 0, i as nat);
    }
    lemma_find_prefix(rest.subrange(0, i + 5), new_body, close_lf());
    assert(rest2.subrange(i + 5, rest2.len() as int) =~= new_body);
    assert(rest2.subrange(0, i) =~= rest.subrange(0, i));
}

/// Replacing the body with the body that [`extract_body`] reads gives the
/// document back unchanged, for every document.
pub proof fn law_replace_extract_identity(c: Seq<char>)
    ensures
        replace_spec(c, body_spec(c)) == c,
{
    if opens(c) {
        let rest = c.subrange(4, c.len() as int);
        lemma_find_from(rest, close_lf(), 0);
        lemma_find_from(rest, close_crlf(), 0);
        if let Some((y, b)) = split_spec(c) {
            let e = close_at(rest)->0;
            let h = 4 + e + close_len(rest);
            assert(e + close_len(rest) <= rest.len());
            assert(b =~= c.subrange(h as int, c.len() as int));
            assert(c.subrange(0, h as int) + b =~= c);
        }
    }
}

/// For documents whose fences are `---\n` and `\n---\n`, the body read by
/// [`extract_body`] starts exactly where the header kept by
/// [`replace_body`] ends.
pub proof fn law_lf_header_is_body_start(c: Seq<char>)
    requires
        starts_with(c, open_lf()),
        find(c.subrange(4, c.len() as int), close_lf()) is Some,
    ensures
        split_spec(c) is Some,
        header_len(c) == Some((c.len() - body_spec(c).len()) as nat),
        replace_spec(c, body_spec(c)) == c,
{
    let rest = c.subrange(4, c.len() as int);
    lemma_find_from(rest, close_lf(), 0);
    law_replace_extract_identity(c);
}

// ---------------------------------------------------------------------------
// Writing a document back
// ---------------------------------------------------------------------------

/// The YAML document written for a frontmatter map, with its final line
/// break: `{}` for an empty map, else its `key: value` lines.
pub open spec fn yaml_document(fm: Seq<(String, Value)>) -> Seq<char> {
    if fm.len() == 0 {
        seq!['{', '}', '\n']
    } else {
        mapping_text(fm) + seq!['\n']
    }
}

/// The document written for frontmatter `fm` and body `body`: the opening
/// fence, the YAML document, the closing fence and the body.
pub open spec fn document_spec(fm: Seq<(String, Value)>, body: Seq<char>) -> Seq<char> {
    open_lf() + yaml_document(fm) + seq!['-', '-', '-', '\n'] + body
}

/// The markdown document with frontmatter `fm` and body `body`: the YAML
/// between `---` fences, then the body. `None` when the YAML cannot be
/// written (see [`entries_ok`]); an empty map always can.
pub fn serialize(fm: &Vec<(String, Value)>, body: &str) -> (r: Option<String>)
    ensures
        r matches Some(t) ==> t@ == document_spec(fm@, body@),
        r is Some == (fm@.len() == 0 || entries_ok(fm@, 0)),
{
    let mut out: Vec<char> = vec!['-', '-', '-', '\n'];
    if fm.len() == 0 {
        out.push('{');
        out.push('}');
    } else {
        match mapping_yaml(fm) {
            Some(y) => extend_chars(&mut out, &chars_of(y.as_str())),
            None => {
                return None;
            },
        }
    }
    out.push('\n');
    out.push('-');
    out.push('-');
    out.push('-');
    out.push('\n');
    extend_chars(&mut out, &chars_of(body));
    let ghost want = seq!['-', '-', '-', '\n'] + yaml_document(fm@) + seq!['-', '-', '-', '\n'] + body@;
    assert(out@ =~= want);
    assert(want =~= document_spec(fm@, body@));
    Some(string_of(&out))
}

/// Reading back a written document gives the YAML and the body that were
/// written: the body exactly, and the YAML document without its final line
/// break. This holds whenever the YAML itself holds no `---` line, which
/// would otherwise be read as the closing fence.
pub proof fn law_written_document_reads_back(fm: Seq<(String, Value)>, body: Seq<char>)
    requires
        find(yaml_document(fm), close_lf()) is None,
    ensures
        split_spec(document_spec(fm, body)) matches Some((y, b)) && y + seq!['\n'] == yaml_document(
            fm,
        ) && b == body,
        body_spec(document_spec(fm, body)) == body,
{
    let y = yaml_document(fm);
    let l = y.len() as int;
    let f4 = seq!['-', '-', '-', '\n'];
    let d = document_spec(fm, body);
    assert(y[l - 1] == '\n');
    assert(l >= 1);
    assert(d.subrange(0, 4) =~= open_lf());
    let rest = d.subrange(4, d.len() as int);
    assert(rest =~= y + f4 + body);
    assert(rest.subrange(l - 1, l + 4) =~= close_lf());
    lemma_find_from(y, close_lf(), 0);
    assert forall|j: int| 0 <= j < l - 1 implies !occurs_at(rest, close_lf(), j) by {
        if j + 5 <= l {
            assert(rest.subrange(j, j + 5) =~= y.subrange(j, j + 5));
            assert(!occurs_at(y, close_lf(), j));
        } else {
            assert(rest[j + 4] == '-');
            if occurs_at(rest, close_lf(), j) {
                assert(rest.subrange(j, j + 5)[4] == close_lf()[4]);
            }
        }
    }
    lemma_find_first(rest, close_lf(), 0, (l - 1) as nat);
    assert(rest.subrange(0, l - 1) + seq!['\n'] =~= y);
    assert(rest.subrange(l + 4, rest.len() as int) =~= body);
}

} // verus!
