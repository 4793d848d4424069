//! Entry operations: the rules for titles and filenames, and what the
//! entry operations do to a file's frontmatter and body between reading
//! and writing it.

use vstd::prelude::*;
use crate::text::{chars_eq, chars_of, ends_with, extend_chars, has_suffix, string_of, v1};
use crate::yaml::Value;
use crate::entry::helpers::dedup_key_spec;
use crate::frontmatter::{
    body_spec, close_lf, document_spec, law_written_document_reads_back, split_spec, yaml_document,
};
use crate::text::find;

pub mod helpers;
pub mod ordering;

pub use helpers::{
    apply_filename_style, attachment_dedup_key, has_non_portable_chars, prettify_filename,
    sanitize_filename, slugify, slugify_title, slugify_title_with_style,
};

verus! {

/// Async-first Diaryx entry operations over a filesystem.
pub struct DiaryxApp<FS> {
    fs: FS,
}

impl<FS> DiaryxApp<FS> {
    /// The filesystem.
    pub closed spec fn fs_spec(&self) -> FS {
        self.fs
    }

    /// Entry operations over `fs`.
    pub fn new(fs: FS) -> (r: Self)
        ensures
            r.fs_spec() == fs,
    {
        DiaryxApp { fs }
    }

    /// The underlying filesystem.
    pub fn fs(&self) -> (r: &FS)
        ensures
            *r == self.fs_spec(),
    {
        &self.fs
    }
}

/// Synchronous Diaryx entry operations over a filesystem.
pub struct DiaryxAppSync<FS> {
    fs: FS,
}

impl<FS> DiaryxAppSync<FS> {
    /// The filesystem.
    pub closed spec fn fs_spec(&self) -> FS {
        self.fs
    }

    /// Entry operations over `fs`.
    pub fn new(fs: FS) -> (r: Self)
        ensures
            r.fs_spec() == fs,
    {
        DiaryxAppSync { fs }
    }

    /// The underlying filesystem.
    pub fn fs(&self) -> (r: &FS)
        ensures
            *r == self.fs_spec(),
    {
        &self.fs
    }
}

/// The content of a new entry at `path`: frontmatter with the path as its
/// title, then a heading with the path.
pub open spec fn entry_template_spec(path: Seq<char>) -> Seq<char> {
    "---\ntitle: "@ + path + "\n---\n\n# "@ + path + "\n\n"@
}

/// The content a new entry at `path` is created with.
pub fn entry_template(path: &str) -> (r: String)
    ensures
        r@ == entry_template_spec(path@),
{
    let p = chars_of(path);
    let mut out = chars_of("---\ntitle: ");
    extend_chars(&mut out, &p);
    extend_chars(&mut out, &chars_of("\n---\n\n# "));
    extend_chars(&mut out, &p);
    extend_chars(&mut out, &chars_of("\n\n"));
    string_of(&out)
}

/// A body with `content` appended: the content alone for an empty body,
/// else after the body, on a new line unless the body ends with one.
pub open spec fn appended_spec(body: Seq<char>, content: Seq<char>) -> Seq<char> {
    if body.len() == 0 {
        content
    } else if ends_with(body, seq!['\n']) {
        body + content
    } else {
        body + seq!['\n'] + content
    }
}

/// A body with `content` prepended: the content alone for an empty body,
/// else before the body, on its own line unless it ends with a newline.
pub open spec fn prepended_spec(body: Seq<char>, content: Seq<char>) -> Seq<char> {
    if body.len() == 0 {
        content
    } else if ends_with(content, seq!['\n']) {
        content + body
    } else {
        content + seq!['\n'] + body
    }
}

/// Append `content` to the end of a body (see [`appended_spec`]).
pub fn append_to_body(body: &str, content: &str) -> (r: String)
    ensures
        r@ == appended_spec(body@, content@),
{
    let mut b = chars_of(body);
    let c = chars_of(content);
    if b.len() == 0 {
        return string_of(&c);
    }
    if !has_suffix(&b, &v1('\n')) {
        b.push('\n');
    }
    extend_chars(&mut b, &c);
    string_of(&b)
}

/// Prepend `content` to the start of a body (see [`prepended_spec`]).
pub fn prepend_to_body(body: &str, content: &str) -> (r: String)
    ensures
        r@ == prepended_spec(body@, content@),
{
    let b = chars_of(body);
    let mut c = chars_of(content);
    if b.len() == 0 {
        return string_of(&c);
    }
    if !has_suffix(&c, &v1('\n')) {
        c.push('\n');
    }
    extend_chars(&mut c, &b);
    string_of(&c)
}

/// An entry whose body had `content` appended and was written back with
/// frontmatter `fm` reads back with the appended body and the same YAML,
/// whenever that YAML holds no `---` line.
pub proof fn law_append_read_back(fm: Seq<(String, Value)>, body: Seq<char>, content: Seq<char>)
    requires
        find(yaml_document(fm), close_lf()) is None,
    ensures
        body_spec(document_spec(fm, appended_spec(body, content))) == appended_spec(body, content),
        split_spec(document_spec(fm, appended_spec(body, content))) matches Some((y, _)) && y
            + seq!['\n'] == yaml_document(fm),
{
    law_written_document_reads_back(fm, appended_spec(body, content));
}

/// An entry whose body had `content` prepended and was written back with
/// frontmatter `fm` reads back with the prepended body and the same YAML,
/// whenever that YAML holds no `---` line.
pub proof fn law_prepend_read_back(fm: Seq<(String, Value)>, body: Seq<char>, content: Seq<char>)
    requires
        find(yaml_document(fm), close_lf()) is None,
    ensures
        body_spec(document_spec(fm, prepended_spec(body, content))) == prepended_spec(body, content),
        split_spec(document_spec(fm, prepended_spec(body, content))) matches Some((y, _)) && y
            + seq!['\n'] == yaml_document(fm),
{
    law_written_document_reads_back(fm, prepended_spec(body, content));
}

// ---------------------------------------------------------------------------
// Frontmatter as an ordered map (keys each once, in order of appearance)
// ---------------------------------------------------------------------------

/// The keys of an ordered frontmatter map, as characters.
pub open spec fn fm_keys(fm: Seq<(String, Value)>) -> Seq<Seq<char>> {
    fm.map_values(|e: (String, Value)| e.0@)
}

/// Where key `k` stands in the map, if it is there.
pub open spec fn key_index(fm: Seq<(String, Value)>, k: Seq<char>) -> Option<int> {
    if exists|i: int| 0 <= i < fm.len() && #[trigger] fm[i].0@ == k {
        Some(choose|i: int| 0 <= i < fm.len() && #[trigger] fm[i].0@ == k)
    } else {
        None
    }
}

/// Each key appears once.
pub open spec fn keys_unique(fm: Seq<(String, Value)>) -> bool {
    forall|i: int, j: int| 0 <= i < j < fm.len() ==> #[trigger] fm[i].0@ != #[trigger] fm[j].0@
}

/// Where key `k` stands, if it is there.
pub fn find_key(fm: &Vec<(String, Value)>, k: &str) -> (r: Option<usize>)
    requires
        keys_unique(fm@),
    ensures
        match r {
            Some(i) => key_index(fm@, k@) == Some(i as int) && i < fm@.len(),
            None => key_index(fm@, k@) is None,
        },
{
    let kc = chars_of(k);
    let mut i: usize = 0;
    while i < fm.len()
        invariant
            i <= fm.len(),
            kc@ == k@,
            keys_unique(fm@),
            forall|j: int| 0 <= j < i ==> fm@[j].0@ != k@,
        decreases fm.len() - i,
    {
        if chars_eq(&chars_of(fm[i].0.as_str()), &kc) {
            assert(fm@[i as int].0@ == k@);
            proof {
                let c = choose|c: int| 0 <= c < fm@.len() && #[trigger] fm@[c].0@ == k@;
                if c != i {
                    if c < i {
                        assert(fm@[c].0@ != fm@[i as int].0@);
                    } else {
                        assert(fm@[i as int].0@ != fm@[c].0@);
                    }
                }
            }
            return Some(i);
        }
        i += 1;
    }
    None
}

/// Set property `key` to `value`: its value is replaced where the key
/// stands, or the pair is appended when the key is new (`IndexMap::insert`).
pub fn insert_property(fm: Vec<(String, Value)>, key: &str, value: Value) -> (r: Vec<
    (String, Value),
>)
    requires
        keys_unique(fm@),
    ensures
        keys_unique(r@),
        match key_index(fm@, key@) {
            Some(i) => r@ == fm@.update(i, (fm@[i].0, value)),
            None => r@.len() == fm@.len() + 1 && r@.drop_last() == fm@ && r@.last().0@ == key@
                && r@.last().1 == value,
        },
{
    let mut fm = fm;
    match find_key(&fm, key) {
        Some(i) => {
            let ghost pre = fm@;
            let old_key = fm[i].0.clone();
            fm.set(i, (old_key, value));
            assert(fm@ =~= pre.update(i as int, (pre[i as int].0, value)));
            assert forall|a: int, b: int| 0 <= a < b < fm@.len() implies #[trigger] fm@[a].0@
                != #[trigger] fm@[b].0@ by {
                assert(pre[a].0@ != pre[b].0@);
            }
            fm
        },
        None => {
            let ghost pre = fm@;
            fm.push((key.to_string(), value));
            assert(fm@.drop_last() =~= pre);
            assert forall|a: int, b: int| 0 <= a < b < fm@.len() implies #[trigger] fm@[a].0@
                != #[trigger] fm@[b].0@ by {
                if b < pre.len() {
                    assert(pre[a].0@ != pre[b].0@);
                } else {
                    assert(pre[a].0@ != key@);
                }
            }
            fm
        },
    }
}

/// Remove property `key`, keeping the order of the rest
/// (`IndexMap::shift_remove`); returns the map and the removed value.
pub fn remove_property(fm: Vec<(String, Value)>, key: &str) -> (r: (
    Vec<(String, Value)>,
    Option<Value>,
))
    requires
        keys_unique(fm@),
    ensures
        keys_unique(r.0@),
        match key_index(fm@, key@) {
            Some(i) => r.0@ == fm@.remove(i) && r.1 == Some(fm@[i].1),
            None => r.0@ == fm@ && r.1 is None,
        },
{
    let mut fm = fm;
    match find_key(&fm, key) {
        Some(i) => {
            let ghost pre = fm@;
            let (_k, v) = fm.remove(i);
            assert(fm@ =~= pre.remove(i as int));
            assert forall|a: int, b: int| 0 <= a < b < fm@.len() implies #[trigger] fm@[a].0@
                != #[trigger] fm@[b].0@ by {
                if b < i {
                    assert(pre[a].0@ != pre[b].0@);
                } else if a < i {
                    assert(pre[a].0@ != pre[b + 1].0@);
                } else {
                    assert(pre[a + 1].0@ != pre[b + 1].0@);
                }
            }
            (fm, Some(v))
        },
        None => (fm, None),
    }
}

/// The value of property `key`, if set.
pub fn get_property<'a>(fm: &'a Vec<(String, Value)>, key: &str) -> (r: Option<&'a Value>)
    requires
        keys_unique(fm@),
    ensures
        match key_index(fm@, key@) {
            Some(i) => r == Some(&fm@[i].1),
            None => r is None,
        },
{
    match find_key(fm, key) {
        Some(i) => Some(&fm[i].1),
        None => None,
    }
}

// ---------------------------------------------------------------------------
// Attachments listed in frontmatter
// ---------------------------------------------------------------------------

/// Whether `v` is a string reference to the attachment with dedup key
/// `target` (references read from the entry at `from`).
pub open spec fn refers_to(v: Value, target: Seq<char>, from: Seq<char>) -> bool {
    v matches Value::String(s) && dedup_key_spec(s@, from) == target
}

/// Whether some item of the list refers to the attachment `target`.
pub open spec fn lists_attachment(list: Seq<Value>, target: Seq<char>, from: Seq<char>) -> bool {
    exists|j: int| 0 <= j < list.len() && #[trigger] refers_to(list[j], target, from)
}

/// The string items of a list, in order.
pub open spec fn string_items(list: Seq<Value>) -> Seq<Seq<char>>
    decreases list.len(),
{
    if list.len() == 0 {
        Seq::empty()
    } else {
        let rest = string_items(list.drop_last());
        match list.last() {
            Value::String(s) => rest.push(s@),
            _ => rest,
        }
    }
}

/// `r` is `fm` with only the value at `i` changed.
pub open spec fn same_except_at(r: Seq<(String, Value)>, fm: Seq<(String, Value)>, i: int) -> bool {
    &&& r.len() == fm.len()
    &&& forall|j: int| 0 <= j < fm.len() && j != i ==> r[j] == fm[j]
    &&& r[i].0 == fm[i].0
}

/// `v` is a list: the items `before`, then one string `s`.
pub open spec fn list_of_strings(v: Value, before: Seq<Value>, s: Seq<char>) -> bool {
    &&& v matches Value::Sequence(l)
    &&& l@.drop_last() =~= before
    &&& l@.len() == before.len() + 1
    &&& l@.last() matches Value::String(t)
    &&& t@ == s
}

/// Whether the list refers to the attachment with key `target`.
fn lists_attachment_exec(list: &Vec<Value>, target: &Vec<char>, from: &str) -> (r: bool)
    ensures
        r == lists_attachment(list@, target@, from@),
{
    let mut j: usize = 0;
    while j < list.len()
        invariant
            j <= list.len(),
            forall|k: int| 0 <= k < j ==> !refers_to(#[trigger] list@[k], target@, from@),
        decreases list.len() - j,
    {
        match &list[j] {
            Value::String(s) => {
                let key = attachment_dedup_key(s.as_str(), from);
                if chars_eq(&chars_of(key.as_str()), target) {
                    assert(refers_to(list@[j as int], target@, from@));
                    return true;
                }
            },
            _ => {},
        }
        j += 1;
    }
    false
}

/// Add `attachment` to the `attachments` list of an entry at `from`,
/// unless the list already refers to the same attachment (same dedup key).
/// A missing `attachments` property is created; one that is not a list is
/// left alone.
pub fn add_attachment_entry(fm: Vec<(String, Value)>, attachment: &str, from: &str) -> (r: Vec<
    (String, Value),
>)
    requires
        keys_unique(fm@),
    ensures
        keys_unique(r@),
        match key_index(fm@, "attachments"@) {
            None => {
                &&& r@.len() == fm@.len() + 1
                &&& r@.drop_last() == fm@
                &&& r@.last().0@ == "attachments"@
                &&& list_of_strings(r@.last().1, Seq::empty(), attachment@)
            },
            Some(i) => match fm@[i].1 {
                Value::Sequence(list) => if lists_attachment(
                    list@,
                    dedup_key_spec(attachment@, from@),
                    from@,
                ) {
                    r@ == fm@
                } else {
                    &&& same_except_at(r@, fm@, i)
                    &&& list_of_strings(r@[i].1, list@, attachment@)
                },
                _ => r@ == fm@,
            },
        },
{
    let target = chars_of(attachment_dedup_key(attachment, from).as_str());
    let mut fm = fm;
    match find_key(&fm, "attachments") {
        None => {
            let mut list: Vec<Value> = Vec::new();
            list.push(Value::String(attachment.to_string()));
            let ghost pre = fm@;
            fm.push(("attachments".to_string(), Value::Sequence(list)));
            assert(fm@.drop_last() =~= pre);
            assert forall|a: int, b: int| 0 <= a < b < fm@.len() implies #[trigger] fm@[a].0@
                != #[trigger] fm@[b].0@ by {
                if b < pre.len() {
                    assert(pre[a].0@ != pre[b].0@);
                } else {
                    assert(pre[a].0@ != "attachments"@);
                }
            }
            fm
        },
        Some(i) => {
            let ghost pre = fm@;
            let (k, v) = fm.remove(i);
            let entry = match v {
                Value::Sequence(list) => {
                    let mut list = list;
                    if !lists_attachment_exec(&list, &target, from) {
                        list.push(Value::String(attachment.to_string()));
                    }
                    (k, Value::Sequence(list))
                },
                other => (k, other),
            };
            fm.insert(i, entry);
            assert(fm@ =~= pre.update(i as int, fm@[i as int]));
            assert forall|a: int, b: int| 0 <= a < b < fm@.len() implies #[trigger] fm@[a].0@
                != #[trigger] fm@[b].0@ by {
                assert(pre[a].0@ != pre[b].0@);
            }
            fm
        },
    }
}

/// Remove every string reference to the same attachment as `attachment`
/// (same dedup key) from the `attachments` list of an entry at `from`;
/// the property is dropped when the list is left empty. Without an
/// `attachments` list nothing changes.
pub fn remove_attachment_entry(fm: Vec<(String, Value)>, attachment: &str, from: &str) -> (r: Vec<
    (String, Value),
>)
    requires
        keys_unique(fm@),
    ensures
        keys_unique(r@),
        match key_index(fm@, "attachments"@) {
            Some(i) => match fm@[i].1 {
                Value::Sequence(list) => {
                    let kept = list@.filter(
                        |v: Value| !refers_to(v, dedup_key_spec(attachment@, from@), from@),
                    );
                    if kept.len() == 0 {
                        r@ == fm@.remove(i)
                    } else {
                        &&& same_except_at(r@, fm@, i)
                        &&& r@[i].1 matches Value::Sequence(l)
                        &&& l@ == kept
                    }
                },
                _ => r@ == fm@,
            },
            None => r@ == fm@,
        },
{
    let target = chars_of(attachment_dedup_key(attachment, from).as_str());
    let ghost tgt = target@;
    let mut fm = fm;
    match find_key(&fm, "attachments") {
        None => fm,
        Some(i) => {
            let ghost pre = fm@;
            let (k, v) = fm.remove(i);
            match v {
                Value::Sequence(list) => {
                    let mut kept: Vec<Value> = Vec::new();
                    let mut list = list;
                    let ghost orig = list@;
                    let mut n: usize = 0;
                    assert(orig.len() == list.len());
                    while list.len() > 0
                        invariant
                            n + list@.len() == orig.len(),
                            orig.len() <= usize::MAX,
                            list@ == orig.subrange(n as int, orig.len() as int),
                            kept@ == orig.subrange(0, n as int).filter(
                                |v: Value| !refers_to(v, tgt, from@),
                            ),
                            target@ == tgt,
                        decreases list.len(),
                    {
                        let item = list.remove(0);
                        proof {
                            reveal(Seq::filter);
                            assert(orig.subrange(0, n + 1).drop_last() =~= orig.subrange(0, n as int));
                            assert(item == orig[n as int]);
                        }
                        let drop = match &item {
                            Value::String(s) => {
                                let key = attachment_dedup_key(s.as_str(), from);
                                chars_eq(&chars_of(key.as_str()), &target)
                            },
                            _ => false,
                        };
                        assert(drop == refers_to(item, tgt, from@));
                        if !drop {
                            kept.push(item);
                        }
                        n += 1;
                        assert(list@ =~= orig.subrange(n as int, orig.len() as int));
                    }
                    assert(orig.subrange(0, orig.len() as int) =~= orig);
                    if kept.len() == 0 {
                        assert(fm@ =~= pre.remove(i as int));
                        assert forall|a: int, b: int| 0 <= a < b < fm@.len() implies #[trigger] fm@[a].0@
                            != #[trigger] fm@[b].0@ by {
                            if b < i {
                                assert(pre[a].0@ != pre[b].0@);
                            } else if a < i {
                                assert(pre[a].0@ != pre[b + 1].0@);
                            } else {
                                assert(pre[a + 1].0@ != pre[b + 1].0@);
                            }
                        }
                        fm
                    } else {
                        fm.insert(i, (k, Value::Sequence(kept)));
                        assert(fm@ =~= pre.update(i as int, fm@[i as int]));
                        assert forall|a: int, b: int| 0 <= a < b < fm@.len() implies #[trigger] fm@[a].0@
                            != #[trigger] fm@[b].0@ by {
                            assert(pre[a].0@ != pre[b].0@);
                        }
                        fm
                    }
                },
                other => {
                    fm.insert(i, (k, other));
                    assert(fm@ =~= pre);
                    fm
                },
            }
        },
    }
}

/// The attachments an entry lists directly: the string items of its
/// `attachments` list (none when that is missing or not a list).
pub fn attachments_of(fm: &Vec<(String, Value)>) -> (r: Vec<String>)
    requires
        keys_unique(fm@),
    ensures
        r@.map_values(|s: String| s@) == match key_index(fm@, "attachments"@) {
            Some(i) => match fm@[i].1 {
                Value::Sequence(list) => string_items(list@),
                _ => Seq::empty(),
            },
            None => Seq::empty(),
        },
{
    let mut out: Vec<String> = Vec::new();
    match get_property(fm, "attachments") {
        Some(Value::Sequence(list)) => {
            let mut j: usize = 0;
            while j < list.len()
                invariant
                    j <= list.len(),
                    out@.map_values(|s: String| s@) == string_items(list@.subrange(0, j as int)),
                decreases list.len() - j,
            {
                assert(list@.subrange(0, j + 1).drop_last() =~= list@.subrange(0, j as int));
                match &list[j] {
                    Value::String(s) => {
                        out.push(s.clone());
                    },
                    _ => {},
                }
                j += 1;
                assert(out@.map_values(|s: String| s@) =~= string_items(list@.subrange(0, j as int)));
            }
            assert(list@.subrange(0, list@.len() as int) =~= list@);
            out
        },
        _ => {
            assert(out@.map_values(|s: String| s@) =~= Seq::<Seq<char>>::empty());
            out
        },
    }
}

} // verus!

verus! {

/// Reading a property after setting it gives the value set, and the keys
/// stay unique.
pub proof fn law_get_after_insert(
    fm: Seq<(String, Value)>,
    k: Seq<char>,
    v: Value,
    r: Seq<(String, Value)>,
)
    requires
        keys_unique(fm),
        keys_unique(r),
        match key_index(fm, k) {
            Some(i) => r == fm.update(i, (fm[i].0, v)),
            None => r.len() == fm.len() + 1 && r.drop_last() == fm && r.last().0@ == k
                && r.last().1 == v,
        },
    ensures
        key_index(r, k) matches Some(j) && r[j].1 == v,
{
    match key_index(fm, k) {
        Some(i) => {
            assert(r[i].0@ == k);
        },
        None => {
            assert(r[r.len() - 1].0@ == k);
        },
    }
    let j = choose|j: int| 0 <= j < r.len() && #[trigger] r[j].0@ == k;
    match key_index(fm, k) {
        Some(i) => {
            if j != i {
                if j < i {
                    assert(r[j].0@ != r[i].0@);
                } else {
                    assert(r[i].0@ != r[j].0@);
                }
            }
        },
        None => {
            if j != r.len() - 1 {
                assert(r[j].0@ != r[r.len() - 1].0@);
            }
        },
    }
}

/// After an attachment is added to an entry (the property being a list or
/// missing), the list refers to it; so adding it again changes nothing.
pub proof fn law_added_attachment_is_listed(
    fm: Seq<(String, Value)>,
    attachment: Seq<char>,
    from: Seq<char>,
    r: Seq<(String, Value)>,
)
    requires
        keys_unique(fm),
        keys_unique(r),
        match key_index(fm, "attachments"@) {
            None => {
                &&& r.len() == fm.len() + 1
                &&& r.drop_last() == fm
                &&& r.last().0@ == "attachments"@
                &&& list_of_strings(r.last().1, Seq::empty(), attachment)
            },
            Some(i) => match fm[i].1 {
                Value::Sequence(list) => if lists_attachment(
                    list@,
                    dedup_key_spec(attachment, from),
                    from,
                ) {
                    r == fm
                } else {
                    &&& same_except_at(r, fm, i)
                    &&& list_of_strings(r[i].1, list@, attachment)
                },
                _ => false,
            },
        },
    ensures
        key_index(r, "attachments"@) matches Some(j) && r[j].1 matches Value::Sequence(l)
            && lists_attachment(l@, dedup_key_spec(attachment, from), from),
{
    let target = dedup_key_spec(attachment, from);
    match key_index(fm, "attachments"@) {
        None => {
            let last = r.len() - 1;
            assert(r[last].0@ == "attachments"@);
            let j = choose|j: int| 0 <= j < r.len() && #[trigger] r[j].0@ == "attachments"@;
            if j != last {
                assert(r[j].0@ != r[last].0@);
            }
            let l = r[last].1->Sequence_0;
            assert(refers_to(l@[l@.len() - 1], target, from));
        },
        Some(i) => {
            assert(r[i].0@ == "attachments"@);
            let j = choose|j: int| 0 <= j < r.len() && #[trigger] r[j].0@ == "attachments"@;
            if j != i {
                if j < i {
                    assert(r[j].0@ != r[i].0@);
                } else {
                    assert(r[i].0@ != r[j].0@);
                }
            }
            let list = fm[i].1->Sequence_0;
            if !lists_attachment(list@, target, from) {
                let l = r[i].1->Sequence_0;
                assert(refers_to(l@[l@.len() - 1], target, from));
            }
        },
    }
}

} // verus!
