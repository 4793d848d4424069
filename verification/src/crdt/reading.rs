//! Reading file metadata from a parsed frontmatter map: how each value
//! reads into the fields of [`FileMetadata`].
//!
//! The map first reads as a whole, field by field, with each field's type
//! checked as a deserializer does; when any field fails, the known fields
//! are picked out one by one, keeping what has the expected shape.

use vstd::prelude::*;
use crate::crdt::types::{now_millis, BinaryRef, FileMetadata};
use crate::entry::keys_unique;
use crate::metadata_writer::{opt_text, opt_texts, pairs_get};
use crate::text::{chars_eq, chars_of, owned, parse_i64, parse_i64_spec, string_of};
use crate::yaml::emit::{decimal, decimal_text};
use crate::yaml::{clone_value, same_value, Value};

verus! {

// ---------------------------------------------------------------------------
// Times
// ---------------------------------------------------------------------------

/// The epoch milliseconds of the RFC 3339 time that `s` writes, if it writes
/// one (what `chrono::DateTime::parse_from_rfc3339` then `timestamp_millis`
/// give).
pub uninterp spec fn rfc3339_millis_of(s: Seq<char>) -> Option<i64>;

/// `chrono::DateTime::parse_from_rfc3339(s)`, as epoch milliseconds. Its
/// answer is taken to be a function of `s` alone, named
/// `rfc3339_millis_of`; the RFC 3339 grammar behind it is not stated.
#[verifier::external_body]
pub(crate) fn rfc3339_millis(s: &str) -> (r: Option<i64>)
    ensures
        r == rfc3339_millis_of(s@),
{
    match chrono::DateTime::parse_from_rfc3339(s) {
        Ok(t) => Some(t.timestamp_millis()),
        Err(_) => None,
    }
}

/// What an `updated` value reads as, in epoch milliseconds: an integer as
/// it is, a float by its whole part, a string that writes an integer as that
/// integer, else a string that writes an RFC 3339 time as that time.
pub open spec fn updated_millis(v: Value) -> Option<i64> {
    match v {
        Value::Int(i) => Some(i),
        Value::Real(_, w) => Some(w),
        Value::String(s) => match parse_i64_spec(s@) {
            Some(n) => Some(n),
            None => rfc3339_millis_of(s@),
        },
        _ => None,
    }
}

/// Reads an `updated` value (see [`updated_millis`]).
pub fn parse_updated_value(value: &Value) -> (r: Option<i64>)
    ensures
        r == updated_millis(*value),
{
    match value {
        Value::Int(i) => Some(*i),
        Value::Real(_, w) => Some(*w),
        Value::String(s) => match parse_i64(s.as_str()) {
            Some(n) => Some(n),
            None => rfc3339_millis(s.as_str()),
        },
        _ => None,
    }
}

// ---------------------------------------------------------------------------
// Metadata as texts
// ---------------------------------------------------------------------------

/// An attachment reference as texts.
pub struct BinaryRefText {
    /// `path`.
    pub path: Seq<char>,
    /// `source`.
    pub source: Seq<char>,
    /// `hash`.
    pub hash: Seq<char>,
    /// `mime_type`.
    pub mime_type: Seq<char>,
    /// `size`.
    pub size: u64,
    /// `uploaded_at`.
    pub uploaded_at: Option<i64>,
    /// `deleted`.
    pub deleted: bool,
}

/// An attachment reference as texts.
pub open spec fn ref_text(b: BinaryRef) -> BinaryRefText {
    BinaryRefText {
        path: b.path@,
        source: b.source@,
        hash: b.hash@,
        mime_type: b.mime_type@,
        size: b.size,
        uploaded_at: b.uploaded_at,
        deleted: b.deleted,
    }
}

/// File metadata as texts; the extra properties as they stand.
pub struct MetadataText {
    /// `filename`.
    pub filename: Seq<char>,
    /// `title`.
    pub title: Option<Seq<char>>,
    /// `part_of`.
    pub part_of: Option<Seq<char>>,
    /// `contents`.
    pub contents: Option<Seq<Seq<char>>>,
    /// `attachments`.
    pub attachments: Seq<BinaryRefText>,
    /// `deleted`.
    pub deleted: bool,
    /// `audience`.
    pub audience: Option<Seq<Seq<char>>>,
    /// `description`.
    pub description: Option<Seq<char>>,
    /// `extra`.
    pub extra: Seq<(String, Value)>,
    /// `modified_at`.
    pub modified_at: i64,
}

/// Two lists of properties with the same keys and the same values, in order.
pub open spec fn same_entries(a: Seq<(String, Value)>, b: Seq<(String, Value)>) -> bool {
    &&& a.len() == b.len()
    &&& forall|i: int|
        #![trigger a[i]]
        0 <= i < a.len() ==> a[i].0@ == b[i].0@ && same_value(a[i].1, b[i].1)
}

/// Whether `m` holds exactly what `t` describes.
pub open spec fn reads_as(m: FileMetadata, t: MetadataText) -> bool {
    &&& m.filename@ == t.filename
    &&& opt_text(m.title) == t.title
    &&& opt_text(m.part_of) == t.part_of
    &&& opt_texts(m.contents) == t.contents
    &&& m.attachments@.map_values(|b: BinaryRef| ref_text(b)) == t.attachments
    &&& m.deleted == t.deleted
    &&& opt_texts(m.audience) == t.audience
    &&& opt_text(m.description) == t.description
    &&& same_entries(m.extra@, t.extra)
    &&& m.modified_at == t.modified_at
}

// ---------------------------------------------------------------------------
// Reading values by type
// ---------------------------------------------------------------------------

/// A string value, as characters.
pub open spec fn text_value(v: Value) -> Option<Seq<char>> {
    match v {
        Value::String(s) => Some(s@),
        _ => None,
    }
}

/// A value read as optional text the lenient way: null as none; a string,
/// number or boolean as its text; a list or mapping fails.
pub open spec fn lenient_text(v: Value) -> Option<Option<Seq<char>>> {
    match v {
        Value::Null => Some(None),
        Value::String(s) => Some(Some(s@)),
        Value::Int(i) => Some(Some(decimal(i as int))),
        Value::Real(t, _) => Some(Some(t@)),
        Value::Bool(b) => Some(
            Some(
                if b {
                    "true"@
                } else {
                    "false"@
                },
            ),
        ),
        _ => None,
    }
}

/// A value read as an optional string: null as none, a string as itself.
pub open spec fn optional_text(v: Value) -> Option<Option<Seq<char>>> {
    match v {
        Value::Null => Some(None),
        Value::String(s) => Some(Some(s@)),
        _ => None,
    }
}

/// The items of a list when every one is a string.
pub open spec fn all_texts(items: Seq<Value>) -> Option<Seq<Seq<char>>>
    decreases items.len(),
{
    if items.len() == 0 {
        Some(Seq::empty())
    } else {
        match (all_texts(items.drop_last()), items.last()) {
            (Some(r), Value::String(s)) => Some(r.push(s@)),
            _ => None,
        }
    }
}

/// A value read as an optional list of strings.
pub open spec fn optional_texts(v: Value) -> Option<Option<Seq<Seq<char>>>> {
    match v {
        Value::Null => Some(None),
        Value::Sequence(xs) => match all_texts(xs@) {
            Some(l) => Some(Some(l)),
            None => None,
        },
        _ => None,
    }
}

/// A mapping read as an attachment reference: `path`, `source`, `hash`,
/// `mime_type` strings, `size` a non-negative integer and `deleted` a
/// boolean, all required; `uploaded_at` an optional integer.
pub open spec fn strict_ref(v: Value) -> Option<BinaryRefText> {
    match v {
        Value::Mapping(m) => {
            let path = match pairs_get(m@, "path"@) {
                Some(x) => text_value(x),
                None => None,
            };
            let source = match pairs_get(m@, "source"@) {
                Some(x) => text_value(x),
                None => None,
            };
            let hash = match pairs_get(m@, "hash"@) {
                Some(x) => text_value(x),
                None => None,
            };
            let mime_type = match pairs_get(m@, "mime_type"@) {
                Some(x) => text_value(x),
                None => None,
            };
            let size = match pairs_get(m@, "size"@) {
                Some(Value::Int(i)) => if i >= 0 {
                    Some(i as u64)
                } else {
                    None
                },
                _ => None,
            };
            let uploaded_at = match pairs_get(m@, "uploaded_at"@) {
                None => Some(None),
                Some(Value::Null) => Some(None),
                Some(Value::Int(i)) => Some(Some(i)),
                _ => None,
            };
            let deleted = match pairs_get(m@, "deleted"@) {
                Some(Value::Bool(b)) => Some(b),
                _ => None,
            };
            if path is Some && source is Some && hash is Some && mime_type is Some && size is Some
                && uploaded_at is Some && deleted is Some {
                Some(
                    BinaryRefText {
                        path: path->0,
                        source: source->0,
                        hash: hash->0,
                        mime_type: mime_type->0,
                        size: size->0,
                        uploaded_at: uploaded_at->0,
                        deleted: deleted->0,
                    },
                )
            } else {
                None
            }
        },
        _ => None,
    }
}

/// The items of a list when every one reads as an attachment reference.
pub open spec fn strict_refs(items: Seq<Value>) -> Option<Seq<BinaryRefText>>
    decreases items.len(),
{
    if items.len() == 0 {
        Some(Seq::empty())
    } else {
        match (strict_refs(items.drop_last()), strict_ref(items.last())) {
            (Some(r), Some(b)) => Some(r.push(b)),
            _ => None,
        }
    }
}

/// The names of the fields of file metadata, `updated` among them.
pub open spec fn known_field(k: Seq<char>) -> bool {
    ||| k == "title"@
    ||| k == "part_of"@
    ||| k == "contents"@
    ||| k == "audience"@
    ||| k == "description"@
    ||| k == "attachments"@
    ||| k == "deleted"@
    ||| k == "modified_at"@
    ||| k == "updated"@
    ||| k == "filename"@
    ||| k == "extra"@
}

// ---------------------------------------------------------------------------
// The whole map
// ---------------------------------------------------------------------------

/// The frontmatter read field by field with each field's type checked, as
/// a deserializer of [`FileMetadata`] reads it; `None` when a field has the
/// wrong type. An absent field reads as empty; `title` and `description`
/// read leniently ([`lenient_text`]); keys that are no field are passed
/// over.
pub open spec fn typed_metadata(fm: Seq<(String, Value)>) -> Option<MetadataText> {
    let filename = match pairs_get(fm, "filename"@) {
        None => Some(Seq::<char>::empty()),
        Some(v) => text_value(v),
    };
    let title = match pairs_get(fm, "title"@) {
        None => Some(None),
        Some(v) => lenient_text(v),
    };
    let part_of = match pairs_get(fm, "part_of"@) {
        None => Some(None),
        Some(v) => optional_text(v),
    };
    let contents = match pairs_get(fm, "contents"@) {
        None => Some(None),
        Some(v) => optional_texts(v),
    };
    let attachments = match pairs_get(fm, "attachments"@) {
        None => Some(Seq::<BinaryRefText>::empty()),
        Some(Value::Sequence(xs)) => strict_refs(xs@),
        Some(_) => None,
    };
    let deleted = match pairs_get(fm, "deleted"@) {
        None => Some(false),
        Some(Value::Bool(b)) => Some(b),
        Some(_) => None,
    };
    let audience = match pairs_get(fm, "audience"@) {
        None => Some(None),
        Some(v) => optional_texts(v),
    };
    let description = match pairs_get(fm, "description"@) {
        None => Some(None),
        Some(v) => lenient_text(v),
    };
    let extra = match pairs_get(fm, "extra"@) {
        None => Some(Seq::<(String, Value)>::empty()),
        Some(Value::Mapping(m)) => Some(m@),
        Some(_) => None,
    };
    let modified_at = match pairs_get(fm, "modified_at"@) {
        None => Some(0i64),
        Some(Value::Int(i)) => Some(i),
        Some(_) => None,
    };
    if filename is Some && title is Some && part_of is Some && contents is Some && attachments is Some
        && deleted is Some && audience is Some && description is Some && extra is Some
        && modified_at is Some {
        Some(
            MetadataText {
                filename: filename->0,
                title: title->0,
                part_of: part_of->0,
                contents: contents->0,
                attachments: attachments->0,
                deleted: deleted->0,
                audience: audience->0,
                description: description->0,
                extra: extra->0,
                modified_at: modified_at->0,
            },
        )
    } else {
        None
    }
}

/// Whether some property in `ps` has key `k`.
pub open spec fn has_entry(ps: Seq<(String, Value)>, k: Seq<char>) -> bool {
    exists|i: int| 0 <= i < ps.len() && #[trigger] ps[i].0@ == k
}

/// `extra` with each property of `fm` that is no field and whose key is not
/// in it yet added, in order.
pub open spec fn with_unknown_fields(extra: Seq<(String, Value)>, fm: Seq<(String, Value)>) -> Seq<
    (String, Value),
>
    decreases fm.len(),
{
    if fm.len() == 0 {
        extra
    } else {
        let r = with_unknown_fields(extra, fm.drop_last());
        let (k, v) = fm.last();
        if !known_field(k@) && !has_entry(r, k@) {
            r.push((k, v))
        } else {
            r
        }
    }
}

/// A list item read as an attachment reference the loose way: a string is
/// a local reference to that path; a mapping needs a string `path`, and
/// takes `source` (default `local`), `hash`, `mime_type`, a non-negative
/// integer `size` (default 0), an integer `uploaded_at` and a boolean
/// `deleted` where they have that shape.
pub open spec fn loose_ref(v: Value) -> Option<BinaryRefText> {
    match v {
        Value::String(p) => Some(
            BinaryRefText {
                path: p@,
                source: "local"@,
                hash: Seq::empty(),
                mime_type: Seq::empty(),
                size: 0,
                uploaded_at: None,
                deleted: false,
            },
        ),
        Value::Mapping(m) => match pairs_get(m@, "path"@) {
            Some(Value::String(p)) => Some(
                BinaryRefText {
                    path: p@,
                    source: match pairs_get(m@, "source"@) {
                        Some(Value::String(s)) => s@,
                        _ => "local"@,
                    },
                    hash: match pairs_get(m@, "hash"@) {
                        Some(Value::String(s)) => s@,
                        _ => Seq::empty(),
                    },
                    mime_type: match pairs_get(m@, "mime_type"@) {
                        Some(Value::String(s)) => s@,
                        _ => Seq::empty(),
                    },
                    size: match pairs_get(m@, "size"@) {
                        Some(Value::Int(i)) => if i >= 0 {
                            i as u64
                        } else {
                            0
                        },
                        _ => 0,
                    },
                    uploaded_at: match pairs_get(m@, "uploaded_at"@) {
                        Some(Value::Int(i)) => Some(i),
                        _ => None,
                    },
                    deleted: match pairs_get(m@, "deleted"@) {
                        Some(Value::Bool(b)) => b,
                        _ => false,
                    },
                },
            ),
            _ => None,
        },
        _ => None,
    }
}

/// The items of a list that read as attachment references the loose way.
pub open spec fn loose_refs(items: Seq<Value>) -> Seq<BinaryRefText>
    decreases items.len(),
{
    if items.len() == 0 {
        Seq::empty()
    } else {
        let r = loose_refs(items.drop_last());
        match loose_ref(items.last()) {
            Some(b) => r.push(b),
            None => r,
        }
    }
}

/// The string items of a list, in order.
pub open spec fn string_items_of(items: Seq<Value>) -> Seq<Seq<char>>
    decreases items.len(),
{
    if items.len() == 0 {
        Seq::empty()
    } else {
        let r = string_items_of(items.drop_last());
        match items.last() {
            Value::String(s) => r.push(s@),
            _ => r,
        }
    }
}

/// A field read the loose way as text: a string, else nothing.
pub open spec fn loose_text(o: Option<Value>) -> Option<Seq<char>> {
    match o {
        Some(Value::String(s)) => Some(s@),
        _ => None,
    }
}

/// A field read the loose way as a list: the string items of a list, else
/// nothing.
pub open spec fn loose_texts(o: Option<Value>) -> Option<Seq<Seq<char>>> {
    match o {
        Some(Value::Sequence(xs)) => Some(string_items_of(xs@)),
        _ => None,
    }
}

/// The time an `updated` field gives, else `now`.
pub open spec fn updated_or(fm: Seq<(String, Value)>, otherwise: i64) -> i64 {
    match pairs_get(fm, "updated"@) {
        Some(v) => match updated_millis(v) {
            Some(u) => u,
            None => otherwise,
        },
        None => otherwise,
    }
}

/// The frontmatter read field by field the loose way, keeping what has the
/// expected shape: no filename, not deleted, every other property as an
/// extra one, and the time from `updated`, else `now`.
pub open spec fn loose_metadata(fm: Seq<(String, Value)>, now: i64) -> MetadataText {
    MetadataText {
        filename: Seq::empty(),
        title: loose_text(pairs_get(fm, "title"@)),
        part_of: loose_text(pairs_get(fm, "part_of"@)),
        contents: loose_texts(pairs_get(fm, "contents"@)),
        attachments: match pairs_get(fm, "attachments"@) {
            Some(Value::Sequence(xs)) => loose_refs(xs@),
            _ => Seq::empty(),
        },
        deleted: false,
        audience: loose_texts(pairs_get(fm, "audience"@)),
        description: loose_text(pairs_get(fm, "description"@)),
        extra: with_unknown_fields(Seq::empty(), fm),
        modified_at: updated_or(fm, now),
    }
}

/// The metadata a frontmatter map reads as, `now` being the time now: the
/// typed reading when every field has its type, with the time from
/// `updated` if it gives one, `now` in place of a time 0, and every other
/// property added to the extra ones; else the loose reading.
pub open spec fn metadata_from(fm: Seq<(String, Value)>, now: i64) -> MetadataText {
    match typed_metadata(fm) {
        Some(t) => {
            let m = updated_or(fm, t.modified_at);
            MetadataText {
                modified_at: if m == 0 {
                    now
                } else {
                    m
                },
                extra: with_unknown_fields(t.extra, fm),
                ..t
            }
        },
        None => loose_metadata(fm, now),
    }
}

// ---------------------------------------------------------------------------
// Reading, executable
// ---------------------------------------------------------------------------

/// The value under key `k` (its first entry).
fn value_at<'a>(ps: &'a Vec<(String, Value)>, k: &str) -> (r: Option<&'a Value>)
    ensures
        match r {
            Some(v) => pairs_get(ps@, k@) == Some(*v),
            None => pairs_get(ps@, k@) is None,
        },
{
    let kc = chars_of(k);
    let mut i: usize = 0;
    assert(ps@.subrange(0, ps@.len() as int) =~= ps@);
    while i < ps.len()
        invariant
            i <= ps.len(),
            kc@ == k@,
            pairs_get(ps@, k@) == pairs_get(ps@.subrange(i as int, ps@.len() as int), k@),
        decreases ps.len() - i,
    {
        let ghost rest = ps@.subrange(i as int, ps@.len() as int);
        assert(rest.drop_first() =~= ps@.subrange(i + 1, ps@.len() as int));
        if chars_eq(&chars_of(ps[i].0.as_str()), &kc) {
            return Some(&ps[i].1);
        }
        i += 1;
    }
    None
}

/// A string value.
fn read_text(v: &Value) -> (r: Option<String>)
    ensures
        opt_text(r) == text_value(*v),
{
    match v {
        Value::String(s) => Some(s.clone()),
        _ => None,
    }
}

/// A value read leniently as optional text.
fn read_lenient(v: &Value) -> (r: Option<Option<String>>)
    ensures
        match r {
            Some(o) => lenient_text(*v) == Some(opt_text(o)),
            None => lenient_text(*v) is None,
        },
{
    match v {
        Value::Null => Some(None),
        Value::String(s) => Some(Some(s.clone())),
        Value::Int(i) => Some(Some(string_of(&decimal_text(*i)))),
        Value::Real(t, _) => Some(Some(t.clone())),
        Value::Bool(b) => Some(
            Some(
                if *b {
                    owned("true")
                } else {
                    owned("false")
                },
            ),
        ),
        _ => None,
    }
}

/// A value read as an optional string.
fn read_optional_text(v: &Value) -> (r: Option<Option<String>>)
    ensures
        match r {
            Some(o) => optional_text(*v) == Some(opt_text(o)),
            None => optional_text(*v) is None,
        },
{
    match v {
        Value::Null => Some(None),
        Value::String(s) => Some(Some(s.clone())),
        _ => None,
    }
}

/// The items of a list, when all are strings.
fn read_all_texts(xs: &Vec<Value>) -> (r: Option<Vec<String>>)
    ensures
        match r {
            Some(l) => all_texts(xs@) == Some(l@.map_values(|s: String| s@)),
            None => all_texts(xs@) is None,
        },
{
    let mut out: Vec<String> = Vec::new();
    let mut i: usize = 0;
    assert(xs@.take(0) =~= Seq::<Value>::empty());
    assert(out@.map_values(|s: String| s@) =~= Seq::<Seq<char>>::empty());
    while i < xs.len()
        invariant
            i <= xs@.len(),
            all_texts(xs@.take(i as int)) == Some(out@.map_values(|s: String| s@)),
        decreases xs.len() - i,
    {
        assert(xs@.take(i + 1).drop_last() =~= xs@.take(i as int));
        assert(xs@.take(i + 1).last() == xs@[i as int]);
        match &xs[i] {
            Value::String(s) => {
                let ghost before = out@.map_values(|s: String| s@);
                out.push(s.clone());
                assert(out@.map_values(|s: String| s@) =~= before.push(s@));
            },
            _ => {
                proof {
                    lemma_all_texts_fails_on(xs@, i as int);
                }
                return None;
            },
        }
        i += 1;
    }
    assert(xs@.take(xs@.len() as int) =~= xs@);
    Some(out)
}

/// Once a prefix fails to be all strings, so does every longer prefix.
proof fn lemma_all_texts_fails_on(xs: Seq<Value>, i: int)
    requires
        0 <= i < xs.len(),
        !(xs[i] is String),
    ensures
        all_texts(xs) is None,
    decreases xs.len(),
{
    if i < xs.len() - 1 {
        lemma_all_texts_fails_on(xs.drop_last(), i);
    }
}

/// A value read as an optional list of strings.
fn read_optional_texts(v: &Value) -> (r: Option<Option<Vec<String>>>)
    ensures
        match r {
            Some(o) => optional_texts(*v) == Some(opt_texts(o)),
            None => optional_texts(*v) is None,
        },
{
    match v {
        Value::Null => Some(None),
        Value::Sequence(xs) => match read_all_texts(xs) {
            Some(l) => Some(Some(l)),
            None => None,
        },
        _ => None,
    }
}

/// A mapping read as an attachment reference (see [`strict_ref`]).
fn read_strict_ref(v: &Value) -> (r: Option<BinaryRef>)
    ensures
        match r {
            Some(b) => strict_ref(*v) == Some(ref_text(b)),
            None => strict_ref(*v) is None,
        },
{
    match v {
        Value::Mapping(m) => {
            let path = match value_at(m, "path") {
                Some(x) => read_text(x),
                None => None,
            };
            let source = match value_at(m, "source") {
                Some(x) => read_text(x),
                None => None,
            };
            let hash = match value_at(m, "hash") {
                Some(x) => read_text(x),
                None => None,
            };
            let mime_type = match value_at(m, "mime_type") {
                Some(x) => read_text(x),
                None => None,
            };
            let size: Option<u64> = match value_at(m, "size") {
                Some(Value::Int(i)) => if *i >= 0 {
                    Some(*i as u64)
                } else {
                    None
                },
                _ => None,
            };
            let uploaded_at: Option<Option<i64>> = match value_at(m, "uploaded_at") {
                None => Some(None),
                Some(Value::Null) => Some(None),
                Some(Value::Int(i)) => Some(Some(*i)),
                _ => None,
            };
            let deleted: Option<bool> = match value_at(m, "deleted") {
                Some(Value::Bool(b)) => Some(*b),
                _ => None,
            };
            match (path, source, hash, mime_type, size, uploaded_at, deleted) {
                (Some(path), Some(source), Some(hash), Some(mime_type), Some(size), Some(uploaded_at), Some(deleted)) => {
                    Some(BinaryRef { path, source, hash, mime_type, size, uploaded_at, deleted })
                },
                _ => None,
            }
        },
        _ => None,
    }
}

/// The items of a list, when all read as attachment references.
fn read_strict_refs(xs: &Vec<Value>) -> (r: Option<Vec<BinaryRef>>)
    ensures
        match r {
            Some(l) => strict_refs(xs@) == Some(l@.map_values(|b: BinaryRef| ref_text(b))),
            None => strict_refs(xs@) is None,
        },
{
    let mut out: Vec<BinaryRef> = Vec::new();
    let mut i: usize = 0;
    assert(xs@.take(0) =~= Seq::<Value>::empty());
    assert(out@.map_values(|b: BinaryRef| ref_text(b)) =~= Seq::<BinaryRefText>::empty());
    while i < xs.len()
        invariant
            i <= xs@.len(),
            strict_refs(xs@.take(i as int)) == Some(out@.map_values(|b: BinaryRef| ref_text(b))),
        decreases xs.len() - i,
    {
        assert(xs@.take(i + 1).drop_last() =~= xs@.take(i as int));
        assert(xs@.take(i + 1).last() == xs@[i as int]);
        match read_strict_ref(&xs[i]) {
            Some(b) => {
                let ghost before = out@.map_values(|b: BinaryRef| ref_text(b));
                out.push(b);
                assert(out@.map_values(|b: BinaryRef| ref_text(b)) =~= before.push(ref_text(b)));
            },
            None => {
                proof {
                    lemma_strict_refs_fail_on(xs@, i as int);
                }
                return None;
            },
        }
        i += 1;
    }
    assert(xs@.take(xs@.len() as int) =~= xs@);
    Some(out)
}

/// Once one item fails to read as a reference, the whole list does.
proof fn lemma_strict_refs_fail_on(xs: Seq<Value>, i: int)
    requires
        0 <= i < xs.len(),
        strict_ref(xs[i]) is None,
    ensures
        strict_refs(xs) is None,
    decreases xs.len(),
{
    if i < xs.len() - 1 {
        lemma_strict_refs_fail_on(xs.drop_last(), i);
    }
}

/// A copy of a list of properties.
fn copy_entries(ps: &Vec<(String, Value)>) -> (r: Vec<(String, Value)>)
    ensures
        same_entries(r@, ps@),
{
    let mut out: Vec<(String, Value)> = Vec::new();
    let mut i: usize = 0;
    while i < ps.len()
        invariant
            i <= ps@.len(),
            same_entries(out@, ps@.take(i as int)),
        decreases ps.len() - i,
    {
        out.push((ps[i].0.clone(), clone_value(&ps[i].1)));
        i += 1;
    }
    assert(ps@.take(ps@.len() as int) =~= ps@);
    out
}

/// The typed reading of the frontmatter (see [`typed_metadata`]).
fn read_typed(fm: &Vec<(String, Value)>) -> (r: Option<FileMetadata>)
    ensures
        match r {
            Some(m) => typed_metadata(fm@) matches Some(t) && reads_as(m, t),
            None => typed_metadata(fm@) is None,
        },
{
    let filename = match value_at(fm, "filename") {
        None => Some(String::new()),
        Some(v) => read_text(v),
    };
    let title = match value_at(fm, "title") {
        None => Some(None),
        Some(v) => read_lenient(v),
    };
    let part_of = match value_at(fm, "part_of") {
        None => Some(None),
        Some(v) => read_optional_text(v),
    };
    let contents = match value_at(fm, "contents") {
        None => Some(None),
        Some(v) => read_optional_texts(v),
    };
    let attachments = match value_at(fm, "attachments") {
        None => Some(Vec::new()),
        Some(Value::Sequence(xs)) => read_strict_refs(xs),
        Some(_) => None,
    };
    let deleted: Option<bool> = match value_at(fm, "deleted") {
        None => Some(false),
        Some(Value::Bool(b)) => Some(*b),
        Some(_) => None,
    };
    let audience = match value_at(fm, "audience") {
        None => Some(None),
        Some(v) => read_optional_texts(v),
    };
    let description = match value_at(fm, "description") {
        None => Some(None),
        Some(v) => read_lenient(v),
    };
    let extra = match value_at(fm, "extra") {
        None => Some(Vec::new()),
        Some(Value::Mapping(m)) => Some(copy_entries(m)),
        Some(_) => None,
    };
    let modified_at: Option<i64> = match value_at(fm, "modified_at") {
        None => Some(0),
        Some(Value::Int(i)) => Some(*i),
        Some(_) => None,
    };
    match (filename, title, part_of, contents, attachments, deleted, audience, description, extra, modified_at) {
        (
            Some(filename),
            Some(title),
            Some(part_of),
            Some(contents),
            Some(attachments),
            Some(deleted),
            Some(audience),
            Some(description),
            Some(extra),
            Some(modified_at),
        ) => {
            let m = FileMetadata {
                filename,
                title,
                part_of,
                contents,
                attachments,
                deleted,
                audience,
                description,
                extra,
                modified_at,
            };
            assert(m.attachments@.map_values(|b: BinaryRef| ref_text(b)) =~= typed_metadata(
                fm@,
            )->0.attachments);
            Some(m)
        },
        _ => None,
    }
}

/// Whether `k` names a field of file metadata.
fn is_known_field(k: &str) -> (r: bool)
    ensures
        r == known_field(k@),
{
    let c = chars_of(k);
    chars_eq(&c, &chars_of("title")) || chars_eq(&c, &chars_of("part_of")) || chars_eq(
        &c,
        &chars_of("contents"),
    ) || chars_eq(&c, &chars_of("audience")) || chars_eq(&c, &chars_of("description"))
        || chars_eq(&c, &chars_of("attachments")) || chars_eq(&c, &chars_of("deleted"))
        || chars_eq(&c, &chars_of("modified_at")) || chars_eq(&c, &chars_of("updated"))
        || chars_eq(&c, &chars_of("filename")) || chars_eq(&c, &chars_of("extra"))
}

/// Whether some property in `ps` has key `k`.
fn has_entry_exec(ps: &Vec<(String, Value)>, k: &str) -> (r: bool)
    ensures
        r == has_entry(ps@, k@),
{
    let kc = chars_of(k);
    let mut i: usize = 0;
    while i < ps.len()
        invariant
            i <= ps@.len(),
            kc@ == k@,
            forall|j: int| 0 <= j < i ==> ps@[j].0@ != k@,
        decreases ps.len() - i,
    {
        if chars_eq(&chars_of(ps[i].0.as_str()), &kc) {
            return true;
        }
        i += 1;
    }
    false
}

/// Adds to `extra` each property of `fm` that is no field and whose key is
/// not in it yet (see [`with_unknown_fields`]).
fn add_unknown_fields(
    extra: &mut Vec<(String, Value)>,
    fm: &Vec<(String, Value)>,
    Ghost(e): Ghost<Seq<(String, Value)>>,
)
    requires
        same_entries(old(extra)@, e),
    ensures
        same_entries(final(extra)@, with_unknown_fields(e, fm@)),
{
    let mut i: usize = 0;
    assert(fm@.take(0) =~= Seq::<(String, Value)>::empty());
    while i < fm.len()
        invariant
            i <= fm@.len(),
            same_entries(extra@, with_unknown_fields(e, fm@.take(i as int))),
        decreases fm.len() - i,
    {
        let ghost spec_r = with_unknown_fields(e, fm@.take(i as int));
        assert(fm@.take(i + 1).drop_last() =~= fm@.take(i as int));
        assert(fm@.take(i + 1).last() == fm@[i as int]);
        let k = &fm[i].0;
        let present = has_entry_exec(extra, k.as_str());
        assert(present == has_entry(spec_r, k@)) by {
            if present {
                let j = choose|j: int| 0 <= j < extra@.len() && #[trigger] extra@[j].0@ == k@;
                assert(spec_r[j].0@ == k@);
            }
            if has_entry(spec_r, k@) {
                let j = choose|j: int| 0 <= j < spec_r.len() && #[trigger] spec_r[j].0@ == k@;
                assert(extra@[j].0@ == k@);
            }
        }
        if !is_known_field(k.as_str()) && !present {
            extra.push((k.clone(), clone_value(&fm[i].1)));
        }
        i += 1;
    }
    assert(fm@.take(fm@.len() as int) =~= fm@);
}

/// A list item read as an attachment reference the loose way (see
/// [`loose_ref`]).
fn read_loose_ref(v: &Value) -> (r: Option<BinaryRef>)
    ensures
        match r {
            Some(b) => loose_ref(*v) == Some(ref_text(b)),
            None => loose_ref(*v) is None,
        },
{
    match v {
        Value::String(p) => Some(
            BinaryRef {
                path: p.clone(),
                source: owned("local"),
                hash: String::new(),
                mime_type: String::new(),
                size: 0,
                uploaded_at: None,
                deleted: false,
            },
        ),
        Value::Mapping(m) => match value_at(m, "path") {
            Some(Value::String(p)) => {
                let source = match value_at(m, "source") {
                    Some(Value::String(s)) => s.clone(),
                    _ => owned("local"),
                };
                let hash = match value_at(m, "hash") {
                    Some(Value::String(s)) => s.clone(),
                    _ => String::new(),
                };
                let mime_type = match value_at(m, "mime_type") {
                    Some(Value::String(s)) => s.clone(),
                    _ => String::new(),
                };
                let size: u64 = match value_at(m, "size") {
                    Some(Value::Int(i)) => if *i >= 0 {
                        *i as u64
                    } else {
                        0
                    },
                    _ => 0,
                };
                let uploaded_at: Option<i64> = match value_at(m, "uploaded_at") {
                    Some(Value::Int(i)) => Some(*i),
                    _ => None,
                };
                let deleted: bool = match value_at(m, "deleted") {
                    Some(Value::Bool(b)) => *b,
                    _ => false,
                };
                Some(BinaryRef { path: p.clone(), source, hash, mime_type, size, uploaded_at, deleted })
            },
            _ => None,
        },
        _ => None,
    }
}

/// The items of a list that read as attachment references the loose way.
fn read_loose_refs(xs: &Vec<Value>) -> (r: Vec<BinaryRef>)
    ensures
        r@.map_values(|b: BinaryRef| ref_text(b)) == loose_refs(xs@),
{
    let mut out: Vec<BinaryRef> = Vec::new();
    let mut i: usize = 0;
    assert(out@.map_values(|b: BinaryRef| ref_text(b)) =~= loose_refs(xs@.take(0)));
    while i < xs.len()
        invariant
            i <= xs@.len(),
            out@.map_values(|b: BinaryRef| ref_text(b)) == loose_refs(xs@.take(i as int)),
        decreases xs.len() - i,
    {
        assert(xs@.take(i + 1).drop_last() =~= xs@.take(i as int));
        assert(xs@.take(i + 1).last() == xs@[i as int]);
        let ghost before = out@.map_values(|b: BinaryRef| ref_text(b));
        match read_loose_ref(&xs[i]) {
            Some(b) => {
                out.push(b);
                assert(out@.map_values(|b: BinaryRef| ref_text(b)) =~= before.push(ref_text(b)));
            },
            None => {},
        }
        i += 1;
    }
    assert(xs@.take(xs@.len() as int) =~= xs@);
    out
}

/// The string items of a list, in order.
fn read_string_items(xs: &Vec<Value>) -> (r: Vec<String>)
    ensures
        r@.map_values(|s: String| s@) == string_items_of(xs@),
{
    let mut out: Vec<String> = Vec::new();
    let mut i: usize = 0;
    assert(out@.map_values(|s: String| s@) =~= string_items_of(xs@.take(0)));
    while i < xs.len()
        invariant
            i <= xs@.len(),
            out@.map_values(|s: String| s@) == string_items_of(xs@.take(i as int)),
        decreases xs.len() - i,
    {
        assert(xs@.take(i + 1).drop_last() =~= xs@.take(i as int));
        assert(xs@.take(i + 1).last() == xs@[i as int]);
        let ghost before = out@.map_values(|s: String| s@);
        match &xs[i] {
            Value::String(s) => {
                out.push(s.clone());
                assert(out@.map_values(|s: String| s@) =~= before.push(s@));
            },
            _ => {},
        }
        i += 1;
    }
    assert(xs@.take(xs@.len() as int) =~= xs@);
    out
}

/// A field read the loose way as text.
fn loose_text_of(fm: &Vec<(String, Value)>, k: &str) -> (r: Option<String>)
    ensures
        opt_text(r) == loose_text(pairs_get(fm@, k@)),
{
    match value_at(fm, k) {
        Some(Value::String(s)) => Some(s.clone()),
        _ => None,
    }
}

/// A field read the loose way as a list of strings.
fn loose_texts_of(fm: &Vec<(String, Value)>, k: &str) -> (r: Option<Vec<String>>)
    ensures
        opt_texts(r) == loose_texts(pairs_get(fm@, k@)),
{
    match value_at(fm, k) {
        Some(Value::Sequence(xs)) => Some(read_string_items(xs)),
        _ => None,
    }
}

/// The time an `updated` field gives, else `otherwise`.
fn updated_or_exec(fm: &Vec<(String, Value)>, otherwise: i64) -> (r: i64)
    ensures
        r == updated_or(fm@, otherwise),
{
    match value_at(fm, "updated") {
        Some(v) => match parse_updated_value(v) {
            Some(u) => u,
            None => otherwise,
        },
        None => otherwise,
    }
}

impl FileMetadata {
    /// The metadata that parsed frontmatter reads as, with `now` standing
    /// for the time now (see [`metadata_from`]).
    pub fn from_frontmatter_at(fm: &Vec<(String, Value)>, now: i64) -> (r: FileMetadata)
        requires
            keys_unique(fm@),
        ensures
            reads_as(r, metadata_from(fm@, now)),
    {
        match read_typed(fm) {
            Some(mut m) => {
                let ghost t = typed_metadata(fm@)->0;
                let u = updated_or_exec(fm, m.modified_at);
                m.modified_at = if u == 0 {
                    now
                } else {
                    u
                };
                add_unknown_fields(&mut m.extra, fm, Ghost(t.extra));
                m
            },
            None => {
                let mut extra: Vec<(String, Value)> = Vec::new();
                add_unknown_fields(&mut extra, fm, Ghost(Seq::empty()));
                let attachments = match value_at(fm, "attachments") {
                    Some(Value::Sequence(xs)) => read_loose_refs(xs),
                    _ => Vec::new(),
                };
                let m = FileMetadata {
                    filename: String::new(),
                    title: loose_text_of(fm, "title"),
                    part_of: loose_text_of(fm, "part_of"),
                    contents: loose_texts_of(fm, "contents"),
                    attachments,
                    deleted: false,
                    audience: loose_texts_of(fm, "audience"),
                    description: loose_text_of(fm, "description"),
                    extra,
                    modified_at: updated_or_exec(fm, now),
                };
                assert(m.attachments@.map_values(|b: BinaryRef| ref_text(b)) =~= loose_metadata(
                    fm@,
                    now,
                ).attachments);
                m
            },
        }
    }

    /// The metadata that parsed frontmatter reads as, stamped with the time
    /// now where it gives none (see [`metadata_from`]); what the clock says
    /// is not known, so `modified_at` may then be any time.
    pub fn from_frontmatter(fm: &Vec<(String, Value)>) -> (r: FileMetadata)
        requires
            keys_unique(fm@),
        ensures
            exists|now: i64| reads_as(r, #[trigger] metadata_from(fm@, now)),
    {
        let now = now_millis();
        let r = Self::from_frontmatter_at(fm, now);
        assert(reads_as(r, metadata_from(fm@, now)));
        r
    }
}

/// Every key `with_unknown_fields` starts from or adds stays in it.
proof fn lemma_with_unknown_fields_keeps(e: Seq<(String, Value)>, fm: Seq<(String, Value)>, k: Seq<char>)
    requires
        has_entry(e, k) || exists|i: int| 0 <= i < fm.len() && #[trigger] fm[i].0@ == k && !known_field(k),
    ensures
        has_entry(with_unknown_fields(e, fm), k),
    decreases fm.len(),
{
    if fm.len() > 0 {
        let r = with_unknown_fields(e, fm.drop_last());
        if has_entry(e, k) || exists|i: int| 0 <= i < fm.len() - 1 && #[trigger] fm[i].0@ == k && !known_field(k) {
            if !has_entry(e, k) {
                let i = choose|i: int| 0 <= i < fm.len() - 1 && #[trigger] fm[i].0@ == k && !known_field(k);
                assert(fm.drop_last()[i].0@ == k);
            }
            lemma_with_unknown_fields_keeps(e, fm.drop_last(), k);
            let j = choose|j: int| 0 <= j < r.len() && #[trigger] r[j].0@ == k;
            let (fk, fv) = fm.last();
            if !known_field(fk@) && !has_entry(r, fk@) {
                assert(r.push((fk, fv))[j].0@ == k);
            }
        } else {
            let (fk, fv) = fm.last();
            assert(fk@ == k);
            if has_entry(r, k) {
            } else {
                assert(r.push((fk, fv))[r.len() as int].0@ == k);
            }
        }
    }
}

/// Frontmatter properties that are no field of the metadata are kept as
/// extra properties, whichever way the frontmatter reads.
pub proof fn law_unknown_fields_kept(fm: Seq<(String, Value)>, now: i64, i: int)
    requires
        0 <= i < fm.len(),
        !known_field(fm[i].0@),
    ensures
        has_entry(metadata_from(fm, now).extra, fm[i].0@),
{
    let k = fm[i].0@;
    match typed_metadata(fm) {
        Some(t) => lemma_with_unknown_fields_keeps(t.extra, fm, k),
        None => lemma_with_unknown_fields_keeps(Seq::empty(), fm, k),
    }
}

} // verus!
