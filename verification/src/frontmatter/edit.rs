//! Editing the frontmatter of a document in place: fig's YAML editor splices
//! only the bytes of the node that changes, so comments, key order, blank
//! lines and quoting elsewhere stay as they were. These functions find the
//! YAML between the fences, hand it to the editor, and put the edited YAML
//! back between the same fences, before the same body.

use vstd::prelude::*;
use crate::frontmatter::{
    body_spec, close_at, close_at_exec, close_lf, open_lf, opens_exec, split_spec,
    FrontmatterError,
};
use crate::text::{
    chars_of, extend_chars, find, lemma_find_first, lemma_find_from, occurs_at, slice_chars,
    starts_with, string_of,
};
use crate::yaml::Value;
use crate::yaml::emit::{decimal, entry_ok, entry_text, entry_yaml};
use crate::seq_edit::{
    added_at, identity_order, idents, is_scalar_value, plan_view, kept_flags, occ_keys, occurrence_keys_of, plan_ids,
    plan_seq_edit, scalar_ident,
};

verus! {

// ---------------------------------------------------------------------------
// fig's YAML editor
// ---------------------------------------------------------------------------

/// A failed edit as text: `Err(None)` when fig reports that the path names
/// nothing (`fig::Error::NotFound`), else `Err(Some(message))`.
pub open spec fn fig_view(r: Result<String, Option<String>>) -> Result<Seq<char>, Option<Seq<char>>> {
    match r {
        Ok(t) => Ok(t@),
        Err(None) => Err(None),
        Err(Some(m)) => Err(Some(m@)),
    }
}

/// What fig makes of the YAML document `yaml` when the value that the
/// one-entry YAML mapping `entry` holds under `key` is set at the top-level
/// key `key`.
pub uninterp spec fn fig_set_of(yaml: Seq<char>, key: Seq<char>, entry: Seq<char>) -> Result<
    Seq<char>,
    Option<Seq<char>>,
>;

/// fig's `Editor::set_value` on the YAML document `yaml` (fig-yaml's
/// format), at the top-level key `key`, with the value `entry` (a one-entry
/// YAML mapping, read with `Document::parse` and `to_value`) holds under
/// `key`; then the editor's source. `set_value` replaces the value when the
/// key is there and inserts `key: value` at the end of the mapping when it
/// is not. The result is taken to be a function of the three texts, named
/// `fig_set_of`; the editor's splicing rules are not stated.
#[verifier::external_body]
fn fig_set(yaml: &str, key: &str, entry: &str) -> (r: Result<String, Option<String>>)
    ensures
        fig_view(r) == fig_set_of(yaml@, key@, entry@),
{
    let run = || -> Result<String, fig::Error> {
        let f = fig_yaml::format()?;
        let v = fig::Document::parse(entry.as_bytes(), f)?.to_value()?;
        let mut ed = fig::Editor::open(yaml.as_bytes(), f)?;
        ed.set_value(&[fig::Segment::Key(key)], &v[key])?;
        Ok(ed.source()?.to_string())
    };
    run().map_err(|e| match e { fig::Error::NotFound => None, e => Some(e.to_string()) })
}

/// What fig makes of the YAML document `yaml` when the top-level key `key`
/// is deleted.
pub uninterp spec fn fig_delete_key_of(yaml: Seq<char>, key: Seq<char>) -> Result<
    Seq<char>,
    Option<Seq<char>>,
>;

/// fig's `Editor::delete_key` on the top-level key `key` of the YAML
/// document `yaml`, then the editor's source; `Err(None)` when the key is
/// not there. Named `fig_delete_key_of`; the splicing rules are not stated.
#[verifier::external_body]
fn fig_delete_key(yaml: &str, key: &str) -> (r: Result<String, Option<String>>)
    ensures
        fig_view(r) == fig_delete_key_of(yaml@, key@),
{
    let run = || -> Result<String, fig::Error> {
        let mut ed = fig::Editor::open(yaml.as_bytes(), fig_yaml::format()?)?;
        ed.delete_key(&[fig::Segment::Key(key)])?;
        Ok(ed.source()?.to_string())
    };
    run().map_err(|e| match e { fig::Error::NotFound => None, e => Some(e.to_string()) })
}

/// What fig makes of the YAML document `yaml` when the top-level key `old`
/// is renamed `new`.
pub uninterp spec fn fig_rename_key_of(yaml: Seq<char>, old: Seq<char>, new: Seq<char>) -> Result<
    Seq<char>,
    Option<Seq<char>>,
>;

/// fig's `Editor::rename_key` on the top-level key `old` of the YAML
/// document `yaml`, renaming it `new` in place, then the editor's source;
/// `Err(None)` when `old` is not there. Named `fig_rename_key_of`.
#[verifier::external_body]
fn fig_rename_key(yaml: &str, old: &str, new: &str) -> (r: Result<String, Option<String>>)
    ensures
        fig_view(r) == fig_rename_key_of(yaml@, old@, new@),
{
    let run = || -> Result<String, fig::Error> {
        let mut ed = fig::Editor::open(yaml.as_bytes(), fig_yaml::format()?)?;
        ed.rename_key(&[fig::Segment::Key(old)], new)?;
        Ok(ed.source()?.to_string())
    };
    run().map_err(|e| match e { fig::Error::NotFound => None, e => Some(e.to_string()) })
}

/// The characters of each string.
pub open spec fn texts(v: Seq<String>) -> Seq<Seq<char>> {
    v.map_values(|s: String| s@)
}

/// What fig makes of the YAML document `yaml` when its top-level keys are
/// reordered to put `keys` first.
pub uninterp spec fn fig_reorder_keys_of(yaml: Seq<char>, keys: Seq<Seq<char>>) -> Result<
    Seq<char>,
    Option<Seq<char>>,
>;

/// fig's `Editor::reorder_keys` on the root mapping of the YAML document
/// `yaml` (the listed keys first, in that order, the others after in their
/// own order, unknown keys ignored), then the editor's source. Named
/// `fig_reorder_keys_of`.
#[verifier::external_body]
fn fig_reorder_keys(yaml: &str, keys: &Vec<String>) -> (r: Result<String, Option<String>>)
    ensures
        fig_view(r) == fig_reorder_keys_of(yaml@, texts(keys@)),
{
    let run = || -> Result<String, fig::Error> {
        let mut ed = fig::Editor::open(yaml.as_bytes(), fig_yaml::format()?)?;
        ed.reorder_keys(&[] as &[fig::Segment], keys)?;
        Ok(ed.source()?.to_string())
    };
    run().map_err(|e| match e { fig::Error::NotFound => None, e => Some(e.to_string()) })
}

// ---------------------------------------------------------------------------
// Putting the edited YAML back
// ---------------------------------------------------------------------------

/// The YAML document the editor is handed for a document with frontmatter:
/// the text between the fences, with a final line break.
pub open spec fn yaml_doc(c: Seq<char>) -> Seq<char> {
    match split_spec(c) {
        Some((y, _)) => y + seq!['\n'],
        None => Seq::empty(),
    }
}

/// A text without its final line break, if it has one.
pub open spec fn drop_final_nl(t: Seq<char>) -> Seq<char> {
    if t.len() > 0 && t.last() == '\n' {
        t.drop_last()
    } else {
        t
    }
}

/// The document `c` (which has frontmatter) with the YAML between its
/// fences replaced by the edited YAML document `y`: the opening fence, `y`
/// without its final line break, then the closing fence and the body as
/// they were.
pub open spec fn with_yaml(c: Seq<char>, y: Seq<char>) -> Seq<char> {
    let rest = c.subrange(4, c.len() as int);
    let e = close_at(rest)->0;
    c.subrange(0, 4) + drop_final_nl(y) + c.subrange(4 + e as int, c.len() as int)
}

/// The first closing fence in `dy` followed by `tail` is the one `tail`
/// opens with, when `dy` with a line break holds none.
proof fn lemma_fence_after(dy: Seq<char>, tail: Seq<char>)
    requires
        tail.len() >= 5,
        tail.subrange(0, 5) == close_lf(),
        find(dy + seq!['\n'], close_lf()) is None,
    ensures
        find(dy + tail, close_lf()) == Some(dy.len()),
{
    let l = dy.len() as int;
    let r = dy + tail;
    let dn = dy + seq!['\n'];
    assert(r.subrange(l, l + 5) =~= tail.subrange(0, 5));
    assert(r[l] == tail[0]);
    assert(tail[0] == close_lf()[0]);
    lemma_find_from(dn, close_lf(), 0);
    assert forall|j: int| 0 <= j < l implies !occurs_at(r, close_lf(), j) by {
        if j + 5 <= l + 1 {
            assert(r.subrange(j, j + 5) =~= dn.subrange(j, j + 5));
            assert(!occurs_at(dn, close_lf(), j));
        } else if occurs_at(r, close_lf(), j) {
            assert(r.subrange(j, j + 5)[l - j] == close_lf()[l - j]);
        }
    }
    lemma_find_first(r, close_lf(), 0, l as nat);
}

/// Putting edited YAML back between the fences keeps the body: the
/// document reads back as the edited YAML (without its final line break)
/// and the body it had, whenever its fences are `---\n` and `\n---\n`
/// and the edited YAML holds no `---` line.
pub proof fn law_with_yaml_keeps_body(c: Seq<char>, y: Seq<char>)
    requires
        starts_with(c, open_lf()),
        find(c.subrange(4, c.len() as int), close_lf()) is Some,
        find(drop_final_nl(y) + seq!['\n'], close_lf()) is None,
    ensures
        split_spec(with_yaml(c, y)) == Some((drop_final_nl(y), body_spec(c))),
{
    let rest = c.subrange(4, c.len() as int);
    lemma_find_from(rest, close_lf(), 0);
    let e = find(rest, close_lf())->0 as int;
    let dy = drop_final_nl(y);
    let d = with_yaml(c, y);
    let tail = rest.subrange(e, rest.len() as int);
    assert(c.subrange(4 + e, c.len() as int) =~= tail);
    assert(tail.subrange(0, 5) =~= rest.subrange(e, e + 5));
    assert(c.subrange(0, 4) =~= open_lf());
    let rest2 = d.subrange(4, d.len() as int);
    assert(rest2 =~= dy + tail);
    assert(d.subrange(0, 4) =~= open_lf());
    lemma_fence_after(dy, tail);
    assert(rest2.subrange(dy.len() + 5int, rest2.len() as int) =~= rest.subrange(e + 5, rest.len() as int));
    assert(rest2.subrange(0, dy.len() as int) =~= dy);
}

/// The frontmatter block made for a document without one: `key: value`
/// between fences, then the whole document as the body.
pub open spec fn created_block(k: Seq<char>, v: Value, body: Seq<char>) -> Seq<char> {
    open_lf() + entry_text(k, v) + close_lf() + body
}

/// Where the YAML of a document with frontmatter ends, counted from the
/// fourth character (see [`close_at`]).
fn yaml_end(c: &Vec<char>) -> (r: Option<usize>)
    ensures
        match r {
            Some(e) => split_spec(c@) is Some && close_at(c@.subrange(4, c@.len() as int)) == Some(
                e as nat,
            ) && 4 + e <= c@.len(),
            None => split_spec(c@) is None,
        },
{
    if !opens_exec(c) {
        return None;
    }
    let rest = slice_chars(c, 4, c.len());
    match close_at_exec(&rest) {
        Some(e) => {
            proof {
                crate::text::lemma_find_from(rest@, close_lf(), 0);
                crate::text::lemma_find_from(rest@, crate::frontmatter::close_crlf(), 0);
            }
            Some(e)
        },
        None => None,
    }
}

/// The YAML document handed to the editor (see [`yaml_doc`]).
fn yaml_doc_exec(c: &Vec<char>, e: usize) -> (r: String)
    requires
        split_spec(c@) is Some,
        close_at(c@.subrange(4, c@.len() as int)) == Some(e as nat),
        4 + e <= c.len(),
    ensures
        r@ == yaml_doc(c@),
{
    let mut y = slice_chars(c, 4, 4 + e);
    y.push('\n');
    proof {
        assert((split_spec(c@)->0).0 =~= c@.subrange(4, 4 + e as int));
    }
    string_of(&y)
}

/// The document with its YAML replaced (see [`with_yaml`]).
fn with_yaml_exec(c: &Vec<char>, e: usize, y: &str) -> (r: String)
    requires
        close_at(c@.subrange(4, c@.len() as int)) == Some(e as nat),
        4 + e <= c.len(),
    ensures
        r@ == with_yaml(c@, y@),
{
    let mut out = slice_chars(c, 0, 4);
    let mut yc = chars_of(y);
    if yc.len() > 0 && yc[yc.len() - 1] == '\n' {
        yc.pop();
    }
    extend_chars(&mut out, &yc);
    extend_chars(&mut out, &slice_chars(c, 4 + e, c.len()));
    string_of(&out)
}

/// An editor failure as a frontmatter error.
fn yaml_error(m: Option<String>) -> (r: FrontmatterError)
    ensures
        r matches FrontmatterError::Yaml(t) && t@ == not_found_text(m),
{
    match m {
        Some(t) => FrontmatterError::Yaml(t),
        None => FrontmatterError::Yaml("key not found".to_string()),
    }
}

/// The message of an editor failure (see [`fig_view`]).
pub open spec fn not_found_text(m: Option<String>) -> Seq<char> {
    match m {
        Some(t) => t@,
        None => "key not found"@,
    }
}

/// The message of an editor failure, as text.
pub open spec fn fail_text(m: Option<Seq<char>>) -> Seq<char> {
    match m {
        Some(t) => t,
        None => "key not found"@,
    }
}

/// A frontmatter result as text: the document, or the message of the
/// `Yaml` error (`NoFrontmatter` never comes from these edits).
pub open spec fn edit_view(r: Result<String, FrontmatterError>) -> Result<Seq<char>, Seq<char>> {
    match r {
        Ok(t) => Ok(t@),
        Err(FrontmatterError::Yaml(m)) => Err(m@),
        Err(FrontmatterError::NoFrontmatter) => Err(Seq::empty()),
    }
}

// ---------------------------------------------------------------------------
// Removing, renaming and reordering keys
// ---------------------------------------------------------------------------

/// What [`remove_property_in_text`] gives.
pub open spec fn remove_spec(c: Seq<char>, k: Seq<char>) -> Result<Seq<char>, Seq<char>> {
    if split_spec(c) is None {
        Ok(c)
    } else {
        match fig_delete_key_of(yaml_doc(c), k) {
            Ok(y) => Ok(with_yaml(c, y)),
            Err(None) => Ok(c),
            Err(Some(m)) => Err(m),
        }
    }
}

/// Remove a top-level frontmatter property in place, keeping comments and
/// formatting elsewhere. The text is returned unchanged when the document
/// has no frontmatter or the key is absent.
pub fn remove_property_in_text(content: &str, key: &str) -> (r: Result<String, FrontmatterError>)
    ensures
        edit_view(r) == remove_spec(content@, key@),
{
    let c = chars_of(content);
    let e = match yaml_end(&c) {
        Some(e) => e,
        None => {
            return Ok(content.to_string());
        },
    };
    match fig_delete_key(yaml_doc_exec(&c, e).as_str(), key) {
        Ok(y) => Ok(with_yaml_exec(&c, e, y.as_str())),
        Err(None) => Ok(content.to_string()),
        Err(Some(m)) => Err(FrontmatterError::Yaml(m)),
    }
}

/// What [`rename_property_in_text`] gives.
pub open spec fn rename_spec(c: Seq<char>, old: Seq<char>, new: Seq<char>) -> Result<
    Option<Seq<char>>,
    Seq<char>,
> {
    if split_spec(c) is None {
        Ok(None)
    } else {
        match fig_rename_key_of(yaml_doc(c), old, new) {
            Ok(y) => Ok(Some(with_yaml(c, y))),
            Err(None) => Ok(None),
            Err(Some(m)) => Err(m),
        }
    }
}

/// A rename result as text.
pub open spec fn rename_view(r: Result<Option<String>, FrontmatterError>) -> Result<
    Option<Seq<char>>,
    Seq<char>,
> {
    match r {
        Ok(Some(t)) => Ok(Some(t@)),
        Ok(None) => Ok(None),
        Err(FrontmatterError::Yaml(m)) => Err(m@),
        Err(FrontmatterError::NoFrontmatter) => Err(Seq::empty()),
    }
}

/// Rename a top-level frontmatter key in place, its value and position
/// kept. `None` when the document has no frontmatter or the key is absent.
pub fn rename_property_in_text(content: &str, old_key: &str, new_key: &str) -> (r: Result<
    Option<String>,
    FrontmatterError,
>)
    ensures
        rename_view(r) == rename_spec(content@, old_key@, new_key@),
{
    let c = chars_of(content);
    let e = match yaml_end(&c) {
        Some(e) => e,
        None => {
            return Ok(None);
        },
    };
    match fig_rename_key(yaml_doc_exec(&c, e).as_str(), old_key, new_key) {
        Ok(y) => Ok(Some(with_yaml_exec(&c, e, y.as_str()))),
        Err(None) => Ok(None),
        Err(Some(m)) => Err(FrontmatterError::Yaml(m)),
    }
}

/// What [`reorder_keys_in_text`] gives.
pub open spec fn reorder_spec(c: Seq<char>, keys: Seq<Seq<char>>) -> Result<Seq<char>, Seq<char>> {
    if split_spec(c) is None {
        Ok(c)
    } else {
        match fig_reorder_keys_of(yaml_doc(c), keys) {
            Ok(y) => Ok(with_yaml(c, y)),
            Err(m) => Err(fail_text(m)),
        }
    }
}

/// Reorder the top-level frontmatter keys so that `keys` come first, in
/// that order; the other keys follow in their own order, and listed keys
/// the frontmatter lacks are ignored. Comments and formatting are kept. The
/// text is returned unchanged when the document has no frontmatter.
pub fn reorder_keys_in_text(content: &str, keys: &Vec<String>) -> (r: Result<String, FrontmatterError>)
    ensures
        edit_view(r) == reorder_spec(content@, texts(keys@)),
{
    let c = chars_of(content);
    let e = match yaml_end(&c) {
        Some(e) => e,
        None => {
            return Ok(content.to_string());
        },
    };
    match fig_reorder_keys(yaml_doc_exec(&c, e).as_str(), keys) {
        Ok(y) => Ok(with_yaml_exec(&c, e, y.as_str())),
        Err(m) => {
            let err = yaml_error(m);
            Err(err)
        },
    }
}

// ---------------------------------------------------------------------------
// Setting a property
// ---------------------------------------------------------------------------

/// What [`set_property_in_text`] gives when no item-level list edit applies
/// (see [`seq_edit_spec`]): without frontmatter, a new block holding only
/// `key: value` before the whole document; with frontmatter, fig's
/// `set_value` on its YAML, which replaces the value or appends the key.
pub open spec fn set_whole_spec(c: Seq<char>, k: Seq<char>, v: Value) -> Result<Seq<char>, Seq<char>> {
    if split_spec(c) is None {
        Ok(created_block(k, v, c))
    } else {
        match fig_set_of(yaml_doc(c), k, entry_text(k, v)) {
            Ok(y) => Ok(with_yaml(c, y)),
            Err(m) => Err(fail_text(m)),
        }
    }
}

/// The message given when a value cannot be written as YAML.
pub open spec fn unwritable_text() -> Seq<char> {
    "the value cannot be written as YAML"@
}

/// What [`set_property_in_text`] gives.
pub open spec fn set_spec(c: Seq<char>, k: Seq<char>, v: Value) -> Result<Seq<char>, Seq<char>> {
    if !entry_ok(k, v, 0) {
        Err(unwritable_text())
    } else {
        match seq_edit_spec(c, k, v) {
            Some(t) => Ok(t),
            None => set_whole_spec(c, k, v),
        }
    }
}

/// Set a top-level frontmatter property, keeping comments and formatting
/// elsewhere. A list of scalars replacing a list of scalars is edited item
/// by item when it can be (see [`seq_edit_spec`]), so that the comments of
/// the items that stay stay with them; otherwise the whole value is
/// replaced, or the key appended when it is not there. A document without
/// frontmatter gets a new block holding only this property. An error comes
/// when the value cannot be written as YAML or fig's editor fails.
pub fn set_property_in_text(content: &str, key: &str, value: &Value) -> (r: Result<
    String,
    FrontmatterError,
>)
    ensures
        edit_view(r) == set_spec(content@, key@, *value),
{
    let k = key.to_string();
    let entry = match entry_yaml(&k, value) {
        Some(t) => t,
        None => {
            return Err(FrontmatterError::Yaml("the value cannot be written as YAML".to_string()));
        },
    };
    let c = chars_of(content);
    let e = match yaml_end(&c) {
        Some(e) => e,
        None => {
            let mut out = chars_of("---\n");
            extend_chars(&mut out, &chars_of(entry.as_str()));
            extend_chars(&mut out, &chars_of("\n---\n"));
            extend_chars(&mut out, &c);
            proof {
                reveal_strlit("---\n");
                reveal_strlit("\n---\n");
                assert(out@ =~= created_block(key@, *value, content@));
                assert(seq_edit_spec(content@, key@, *value) is None);
            }
            return Ok(string_of(&out));
        },
    };
    let yd = yaml_doc_exec(&c, e);
    match seq_item_edit(content, &c, e, &yd, key, value) {
        Some(t) => {
            return Ok(t);
        },
        None => {},
    }
    match fig_set(yd.as_str(), key, entry.as_str()) {
        Ok(y) => Ok(with_yaml_exec(&c, e, y.as_str())),
        Err(m) => {
            let err = yaml_error(m);
            Err(err)
        },
    }
}

/// The document after setting the first `n` of `es` in turn (see
/// [`set_spec`]); the first failure stops the edits.
pub open spec fn set_all_spec(c: Seq<char>, es: Seq<(String, Value)>, n: nat) -> Result<Seq<char>, Seq<char>>
    decreases n,
{
    if n == 0 {
        Ok(c)
    } else {
        match set_all_spec(c, es, (n - 1) as nat) {
            Ok(t) => set_spec(t, es[n - 1].0@, es[n - 1].1),
            Err(m) => Err(m),
        }
    }
}

/// Once an edit fails, the later ones are not made.
proof fn lemma_set_all_err(c: Seq<char>, es: Seq<(String, Value)>, n: nat, m: nat)
    requires
        n <= m,
        set_all_spec(c, es, n) is Err,
    ensures
        set_all_spec(c, es, m) == set_all_spec(c, es, n),
    decreases m,
{
    if n < m {
        lemma_set_all_err(c, es, n, (m - 1) as nat);
    }
}

/// Set several top-level frontmatter properties in turn, each in place
/// (see [`set_property_in_text`]); the first failure is returned.
pub fn set_properties_in_text(content: &str, entries: &Vec<(String, Value)>) -> (r: Result<
    String,
    FrontmatterError,
>)
    ensures
        edit_view(r) == set_all_spec(content@, entries@, entries@.len()),
{
    let mut t = content.to_string();
    let mut i: usize = 0;
    while i < entries.len()
        invariant
            i <= entries.len(),
            set_all_spec(content@, entries@, i as nat) == Ok::<Seq<char>, Seq<char>>(t@),
        decreases entries.len() - i,
    {
        match set_property_in_text(t.as_str(), entries[i].0.as_str(), &entries[i].1) {
            Ok(u) => {
                t = u;
            },
            Err(e) => {
                proof {
                    lemma_set_all_err(content@, entries@, (i + 1) as nat, entries@.len());
                }
                return Err(e);
            },
        }
        i += 1;
    }
    Ok(t)
}

// ---------------------------------------------------------------------------
// Editing a list item by item
// ---------------------------------------------------------------------------

/// An item of a list as fig reads it: a scalar it can be matched by, or
/// anything else (a float, a nested list or mapping, a tagged scalar).
#[derive(Debug, Clone)]
pub enum FigItem {
    /// `null`.
    Null,
    /// A boolean.
    Bool(bool),
    /// An integer that fits `i64`.
    Int(i64),
    /// A string.
    Str(String),
    /// Any other value.
    Other,
}

/// A list item as plain values.
pub enum ItemText {
    /// `null`.
    Null,
    /// A boolean.
    Bool(bool),
    /// An integer.
    Int(i64),
    /// A string's characters.
    Str(Seq<char>),
    /// Any other value.
    Other,
}

/// An item as plain values.
pub open spec fn item_view(it: FigItem) -> ItemText {
    match it {
        FigItem::Null => ItemText::Null,
        FigItem::Bool(b) => ItemText::Bool(b),
        FigItem::Int(n) => ItemText::Int(n),
        FigItem::Str(s) => ItemText::Str(s@),
        FigItem::Other => ItemText::Other,
    }
}

/// The identity an item is matched by (see [`scalar_ident`]); none for an
/// item that is not a plain scalar.
pub open spec fn item_ident(t: ItemText) -> Option<Seq<char>> {
    match t {
        ItemText::Null => Some("n:"@),
        ItemText::Bool(b) => Some("b:"@ + (if b {
            "true"@
        } else {
            "false"@
        })),
        ItemText::Int(n) => Some("i:"@ + decimal(n as int)),
        ItemText::Str(t) => Some("s:"@ + t),
        ItemText::Other => None,
    }
}

/// How many items the list under the top-level key `key` of the YAML
/// document `yaml` has, when that value is a list.
pub uninterp spec fn fig_seq_len_of(yaml: Seq<char>, key: Seq<char>) -> Option<nat>;

/// The length of the list under the top-level key `key` of the YAML
/// document `yaml`, read with fig (`Document::parse`, `to_value`);
/// nothing when the document does not parse or the value is no list.
/// Named `fig_seq_len_of`; fig's YAML reading is not stated.
#[verifier::external_body]
fn fig_seq_len(yaml: &str, key: &str) -> (r: Option<usize>)
    ensures
        match r {
            Some(n) => fig_seq_len_of(yaml@, key@) == Some(n as nat),
            None => fig_seq_len_of(yaml@, key@) is None,
        },
{
    let f = fig_yaml::format().ok()?;
    let v = fig::Document::parse(yaml.as_bytes(), f).ok()?.to_value().ok()?;
    match v.get(key) {
        Some(fig::Value::Seq(items)) => Some(items.len()),
        _ => None,
    }
}

/// The item at position `i` of the list under the top-level key `key` of
/// the YAML document `yaml`.
pub uninterp spec fn fig_item_of(yaml: Seq<char>, key: Seq<char>, i: nat) -> Option<ItemText>;

/// The item at position `i` of the list under the top-level key `key` of
/// the YAML document `yaml`, read with fig, told apart by its kind;
/// nothing when there is no such item. Named `fig_item_of`.
#[verifier::external_body]
fn fig_item(yaml: &str, key: &str, i: usize) -> (r: Option<FigItem>)
    ensures
        match r {
            Some(it) => fig_item_of(yaml@, key@, i as nat) == Some(item_view(it)),
            None => fig_item_of(yaml@, key@, i as nat) is None,
        },
{
    let f = fig_yaml::format().ok()?;
    let v = fig::Document::parse(yaml.as_bytes(), f).ok()?.to_value().ok()?;
    Some(match v.get(key)?.get(i)? {
        fig::Value::Null => FigItem::Null,
        fig::Value::Bool(b) => FigItem::Bool(*b),
        fig::Value::Int(n) => FigItem::Int(*n),
        fig::Value::Str(s) => FigItem::Str(s.clone()),
        _ => FigItem::Other,
    })
}

/// What fig makes of the YAML document `yaml` when item `i` of the list
/// under `key` is deleted; nothing when the edit fails.
pub uninterp spec fn fig_delete_item_of(yaml: Seq<char>, key: Seq<char>, i: nat) -> Option<Seq<char>>;

/// fig's `Editor::delete_item` on item `i` of the list under the top-level
/// key `key` of the YAML document `yaml`, then the editor's source;
/// nothing on any failure. Named `fig_delete_item_of`.
#[verifier::external_body]
fn fig_delete_item(yaml: &str, key: &str, i: usize) -> (r: Option<String>)
    ensures
        opt_view(r) == fig_delete_item_of(yaml@, key@, i as nat),
{
    let run = || -> Result<String, fig::Error> {
        let mut ed = fig::Editor::open(yaml.as_bytes(), fig_yaml::format()?)?;
        ed.delete_item(&[fig::Segment::Key(key)], i)?;
        Ok(ed.source()?.to_string())
    };
    run().ok()
}

/// What fig makes of the YAML document `yaml` when the value that the
/// one-entry mapping `entry` holds under `key` is appended to the list
/// under `key`; nothing when the edit fails.
pub uninterp spec fn fig_append_item_of(yaml: Seq<char>, key: Seq<char>, entry: Seq<char>) -> Option<Seq<char>>;

/// fig's `Editor::append_value` on the list under the top-level key `key`
/// of the YAML document `yaml`, with the value the one-entry YAML mapping
/// `entry` holds under `key`, then the editor's source; nothing on any
/// failure. Named `fig_append_item_of`.
#[verifier::external_body]
fn fig_append_item(yaml: &str, key: &str, entry: &str) -> (r: Option<String>)
    ensures
        opt_view(r) == fig_append_item_of(yaml@, key@, entry@),
{
    let run = || -> Result<String, fig::Error> {
        let f = fig_yaml::format()?;
        let v = fig::Document::parse(entry.as_bytes(), f)?.to_value()?;
        let mut ed = fig::Editor::open(yaml.as_bytes(), f)?;
        ed.append_value(&[fig::Segment::Key(key)], &v[key])?;
        Ok(ed.source()?.to_string())
    };
    run().ok()
}

/// The positions of an order, as numbers.
pub open spec fn order_view(o: Seq<usize>) -> Seq<nat> {
    o.map_values(|a: usize| a as nat)
}

/// What fig makes of the YAML document `yaml` when the items of the list
/// under `key` are reordered by `order`; nothing when the edit fails.
pub uninterp spec fn fig_reorder_items_of(yaml: Seq<char>, key: Seq<char>, order: Seq<nat>) -> Option<Seq<char>>;

/// fig's `Editor::reorder_items` on the list under the top-level key `key`
/// of the YAML document `yaml` (new position `t` takes the item at
/// `order[t]`), then the editor's source; nothing on any failure. Named
/// `fig_reorder_items_of`.
#[verifier::external_body]
fn fig_reorder_items(yaml: &str, key: &str, order: &Vec<usize>) -> (r: Option<String>)
    ensures
        opt_view(r) == fig_reorder_items_of(yaml@, key@, order_view(order@)),
{
    let run = || -> Result<String, fig::Error> {
        let mut ed = fig::Editor::open(yaml.as_bytes(), fig_yaml::format()?)?;
        ed.reorder_items(&[fig::Segment::Key(key)], order)?;
        Ok(ed.source()?.to_string())
    };
    run().ok()
}

/// An optional text as characters.
pub open spec fn opt_view(r: Option<String>) -> Option<Seq<char>> {
    match r {
        Some(t) => Some(t@),
        None => None,
    }
}

/// The identities of the first `n` items of the list under `key`, when
/// each is a plain scalar.
pub open spec fn old_ids(yaml: Seq<char>, key: Seq<char>, n: nat) -> Option<Seq<Seq<char>>>
    decreases n,
{
    if n == 0 {
        Some(Seq::empty())
    } else {
        match old_ids(yaml, key, (n - 1) as nat) {
            Some(s) => match fig_item_of(yaml, key, (n - 1) as nat) {
                Some(t) => match item_ident(t) {
                    Some(id) => Some(s.push(id)),
                    None => None,
                },
                None => None,
            },
            None => None,
        }
    }
}

/// The items that go deleted from the last to the first, among the first
/// `n` (so that the positions of the others stay valid).
pub open spec fn deletes(yaml: Seq<char>, key: Seq<char>, kept: Seq<bool>, n: nat) -> Option<Seq<char>>
    decreases n,
{
    if n == 0 {
        Some(yaml)
    } else if kept[n - 1] {
        deletes(yaml, key, kept, (n - 1) as nat)
    } else {
        match fig_delete_item_of(yaml, key, (n - 1) as nat) {
            Some(t) => deletes(t, key, kept, (n - 1) as nat),
            None => None,
        }
    }
}

/// The first `n` of the new items at positions `adds` appended in order.
pub open spec fn appends(yaml: Seq<char>, key: Seq<char>, new: Seq<Value>, adds: Seq<nat>, n: nat) -> Option<
    Seq<char>,
>
    decreases n,
{
    if n == 0 {
        Some(yaml)
    } else {
        match appends(yaml, key, new, adds, (n - 1) as nat) {
            Some(t) => {
                let v = new[adds[n - 1] as int];
                if entry_ok(key, v, 0) {
                    fig_append_item_of(t, key, entry_text(key, v))
                } else {
                    None
                }
            },
            None => None,
        }
    }
}

/// The reorder, skipped when the order is the identity.
pub open spec fn reorder_step(yaml: Seq<char>, key: Seq<char>, order: Seq<nat>) -> Option<Seq<char>> {
    if order == identity_order(order.len()) {
        Some(yaml)
    } else {
        fig_reorder_items_of(yaml, key, order)
    }
}

/// The item-level edit of a list property, when it applies: `v` is a list,
/// the frontmatter of `c` holds a list of plain scalars under `k`, and
/// [`plan_ids`] plans the change. The document comes back unchanged when
/// nothing is removed, added or moved; else the removals (from the last),
/// the appends and the reorder are made with fig's item edits, and `None`
/// when one of them fails.
pub open spec fn seq_edit_spec(c: Seq<char>, k: Seq<char>, v: Value) -> Option<Seq<char>> {
    let y = yaml_doc(c);
    if split_spec(c) is None {
        None
    } else {
    match v {
        Value::Sequence(ns) => match fig_seq_len_of(y, k) {
            Some(n) => match old_ids(y, k, n) {
                Some(oids) => match plan_ids(oids, ns@) {
                    Some((kept, adds, order, identity)) => if identity {
                        Some(c)
                    } else {
                        match deletes(y, k, kept, n) {
                            Some(y1) => match appends(y1, k, ns@, adds, adds.len()) {
                                Some(y2) => match reorder_step(y2, k, order) {
                                    Some(y3) => Some(with_yaml(c, y3)),
                                    None => None,
                                },
                                None => None,
                            },
                            None => None,
                        }
                    },
                    None => None,
                },
                None => None,
            },
            None => None,
        },
        _ => None,
    }
    }
}

/// A list item read by fig as a value (see [`item_ident`]).
fn item_value(it: FigItem) -> (r: Option<Value>)
    ensures
        match r {
            Some(v) => is_scalar_value(v) && item_ident(item_view(it)) == Some(scalar_ident(v)),
            None => item_ident(item_view(it)) is None,
        },
{
    match it {
        FigItem::Null => Some(Value::Null),
        FigItem::Bool(b) => Some(Value::Bool(b)),
        FigItem::Int(n) => Some(Value::Int(n)),
        FigItem::Str(s) => Some(Value::String(s)),
        FigItem::Other => None,
    }
}

/// The item-level edit of a list property (see [`seq_edit_spec`]).
fn seq_item_edit(content: &str, c: &Vec<char>, e: usize, yd: &String, key: &str, value: &Value) -> (r:
    Option<String>)
    requires
        c@ == content@,
        split_spec(c@) is Some,
        close_at(c@.subrange(4, c@.len() as int)) == Some(e as nat),
        4 + e <= c.len(),
        yd@ == yaml_doc(c@),
    ensures
        opt_view(r) == seq_edit_spec(c@, key@, *value),
{
    let ns = match value {
        Value::Sequence(ns) => ns,
        _ => {
            return None;
        },
    };
    let n = match fig_seq_len(yd.as_str(), key) {
        Some(n) => n,
        None => {
            return None;
        },
    };
    let mut old: Vec<Value> = Vec::new();
    let mut i: usize = 0;
    while i < n
        invariant
            i <= n,
            *value == Value::Sequence(*ns),
            split_spec(c@) is Some,
            yd@ == yaml_doc(c@),
            fig_seq_len_of(yd@, key@) == Some(n as nat),
            old@.len() == i,
            forall|j: int| 0 <= j < i ==> is_scalar_value(#[trigger] old@[j]),
            old_ids(yd@, key@, i as nat) == Some(idents(old@)),
        decreases n - i,
    {
        let it = match fig_item(yd.as_str(), key, i) {
            Some(it) => it,
            None => {
                proof {
                    lemma_old_ids_none(yd@, key@, (i + 1) as nat, n as nat);
                }
                return None;
            },
        };
        match item_value(it) {
            Some(v) => {
                let ghost o0 = old@;
                old.push(v);
                assert(idents(old@) =~= idents(o0).push(scalar_ident(v)));
            },
            None => {
                proof {
                    lemma_old_ids_none(yd@, key@, (i + 1) as nat, n as nat);
                }
                return None;
            },
        }
        i += 1;
    }
    let plan = match plan_seq_edit(&old, ns) {
        Some(p) => p,
        None => {
            return None;
        },
    };
    assert(!(exists|j: int| 0 <= j < old@.len() && !is_scalar_value(#[trigger] old@[j])));
    assert(plan_ids(idents(old@), ns@) == Some(plan_view(plan)));
    proof {
        lemma_added_at_bound(occ_keys(idents(old@)), occurrence_keys_of(ns@), ns@.len());
    }
    if plan.identity {
        return Some(content.to_string());
    }
    // Removals, from the last item to the first.
    let mut y = yd.clone();
    let ghost kept = plan.kept@;
    assert(kept.len() == n) by {
        assert(kept == kept_flags(occ_keys(idents(old@)), occurrence_keys_of(ns@)));
    }
    let mut d: usize = n;
    while d > 0
        invariant
            d <= n,
            *value == Value::Sequence(*ns),
            split_spec(c@) is Some,
            yd@ == yaml_doc(c@),
            fig_seq_len_of(yd@, key@) == Some(n as nat),
            old_ids(yd@, key@, n as nat) == Some(idents(old@)),
            plan_ids(idents(old@), ns@) == Some(plan_view(plan)),
            !plan.identity,
            kept == plan.kept@,
            kept.len() == n,
            deletes(yd@, key@, kept, n as nat) == deletes(y@, key@, kept, d as nat),
        decreases d,
    {
        d -= 1;
        if !plan.kept[d] {
            match fig_delete_item(y.as_str(), key, d) {
                Some(t) => {
                    y = t;
                },
                None => {
                    return None;
                },
            }
        }
    }
    // Appends, in order.
    let k = key.to_string();
    let ghost adds = plan.additions@.map_values(|a: usize| a as nat);
    let ghost y1 = y@;
    assert forall|t: int| 0 <= t < plan.additions@.len() implies #[trigger] plan.additions@[t] < ns@.len() by {
        assert(adds[t] == plan.additions@[t] as nat);
        assert(adds == added_at(occ_keys(idents(old@)), occurrence_keys_of(ns@), ns@.len()));
    }
    let mut a: usize = 0;
    while a < plan.additions.len()
        invariant
            a <= plan.additions.len(),
            *value == Value::Sequence(*ns),
            split_spec(c@) is Some,
            yd@ == yaml_doc(c@),
            fig_seq_len_of(yd@, key@) == Some(n as nat),
            old_ids(yd@, key@, n as nat) == Some(idents(old@)),
            plan_ids(idents(old@), ns@) == Some(plan_view(plan)),
            !plan.identity,
            deletes(yd@, key@, plan.kept@, n as nat) == Some(y1),
            adds == plan.additions@.map_values(|a: usize| a as nat),
            k@ == key@,
            forall|t: int| 0 <= t < plan.additions@.len() ==> #[trigger] plan.additions@[t] < ns@.len(),
            appends(y1, key@, ns@, adds, a as nat) == Some(y@),
        decreases plan.additions.len() - a,
    {
        let j = plan.additions[a];
        let entry = match entry_yaml(&k, &ns[j]) {
            Some(t) => t,
            None => {
                proof {
                    lemma_appends_none(y1, key@, ns@, adds, (a + 1) as nat, adds.len());
                }
                return None;
            },
        };
        match fig_append_item(y.as_str(), key, entry.as_str()) {
            Some(t) => {
                y = t;
            },
            None => {
                proof {
                    lemma_appends_none(y1, key@, ns@, adds, (a + 1) as nat, adds.len());
                }
                return None;
            },
        }
        a += 1;
    }
    // The reorder, unless the order is the identity.
    let mut same = true;
    let mut u: usize = 0;
    while u < plan.order.len()
        invariant
            u <= plan.order.len(),
            same == forall|w: int| 0 <= w < u ==> plan.order@[w] == w,
        decreases plan.order.len() - u,
    {
        if plan.order[u] != u {
            same = false;
        }
        u += 1;
    }
    let ghost ov = order_view(plan.order@);
    proof {
        if same {
            assert(ov =~= identity_order(ov.len()));
        } else {
            let w = choose|w: int| !(0 <= w < plan.order@.len() ==> plan.order@[w] == w);
            assert(ov[w] != identity_order(ov.len())[w]);
        }
    }
    if !same {
        match fig_reorder_items(y.as_str(), key, &plan.order) {
            Some(t) => {
                y = t;
            },
            None => {
                return None;
            },
        }
    }
    Some(with_yaml_exec(c, e, y.as_str()))
}

/// The positions to append are positions of the new list.
proof fn lemma_added_at_bound(ok: Seq<(Seq<char>, nat)>, nk: Seq<(Seq<char>, nat)>, n: nat)
    ensures
        forall|t: int| 0 <= t < added_at(ok, nk, n).len() ==> #[trigger] added_at(ok, nk, n)[t] < n,
    decreases n,
{
    if n > 0 {
        lemma_added_at_bound(ok, nk, (n - 1) as nat);
        let r = added_at(ok, nk, (n - 1) as nat);
        assert forall|t: int| 0 <= t < added_at(ok, nk, n).len() implies #[trigger] added_at(ok, nk, n)[t]
            < n by {
            if t < r.len() {
                assert(added_at(ok, nk, n)[t] == r[t]);
            }
        }
    }
}

/// Once an item is missing or no plain scalar, no longer prefix has
/// identities either.
proof fn lemma_old_ids_none(yaml: Seq<char>, key: Seq<char>, n: nat, m: nat)
    requires
        n <= m,
        old_ids(yaml, key, n) is None,
    ensures
        old_ids(yaml, key, m) is None,
    decreases m,
{
    if n < m {
        lemma_old_ids_none(yaml, key, n, (m - 1) as nat);
    }
}

/// Once an append fails, the later ones do not happen.
proof fn lemma_appends_none(yaml: Seq<char>, key: Seq<char>, new: Seq<Value>, adds: Seq<nat>, n: nat, m: nat)
    requires
        n <= m,
        appends(yaml, key, new, adds, n) is None,
    ensures
        appends(yaml, key, new, adds, m) is None,
    decreases m,
{
    if n < m {
        lemma_appends_none(yaml, key, new, adds, n, (m - 1) as nat);
    }
}

} // verus!
