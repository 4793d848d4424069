//! Turning the synced workspace state into files: how doc-IDs resolve to
//! paths, and the record of files left out.

use vstd::prelude::*;
use crate::crdt::sanity::{
    body_key, has_key, has_key_exec, lookup, lookup_exec, BodyDocs, WorkspaceListing,
};
use crate::crdt::reading::same_entries;
use crate::metadata_writer::{
    attachment_refs, get_list, get_text, is_yaml_of, read_std, texts_of, value_get,
    FrontmatterMetadata,
};
use crate::crdt::types::is_path_ref;
use crate::text::{chars_eq, chars_of, contains_char, has_suffix, owned, v3};
use crate::crdt::reading::{
    loose_text, loose_texts, parse_updated_value, reads_as, string_items_of, updated_or,
    BinaryRefText, MetadataText,
};
use crate::crdt::types::{now_millis, BinaryRef, FileMetadata};
use crate::link_parser::{canonical_spec, file_name, file_name_spec, parse_link, parse_link_spec, to_canonical};
use crate::metadata_writer::{opt_text, opt_texts, pairs_get};
use crate::text::{extend_chars, string_of};
use crate::yaml::Value;

verus! {

/// A file that was skipped during materialization.
#[derive(Debug, Clone)]
pub struct SkippedFile {
    /// The doc-ID (or path key) in the workspace state.
    pub key: String,
    /// Why it was skipped.
    pub reason: SkipReason,
}

/// Reason a file was skipped during materialization.
#[derive(Debug, Clone, Copy, PartialEq, Eq, Structural)]
pub enum SkipReason {
    /// The file is soft-deleted.
    Deleted,
    /// The path could not be resolved from the doc-ID chain.
    UnresolvedPath,
}

/// The path a doc-ID or path key resolves to: a path key (holding `/` or
/// ending in `.md`) is its own path; a doc-ID resolves through the table.
pub open spec fn resolve_spec(value: Seq<char>, id_to_path: Seq<(String, String)>) -> Option<
    Seq<char>,
> {
    if is_path_ref(value) {
        Some(value)
    } else {
        lookup(id_to_path, value)
    }
}

/// Resolve a doc-ID or path key to a filesystem path, using the table of
/// doc-ID to path entries (each doc-ID once).
pub fn resolve_path(value: &str, id_to_path: &Vec<(String, String)>) -> (r: Option<String>)
    ensures
        match r {
            Some(p) => resolve_spec(value@, id_to_path@) == Some(p@),
            None => resolve_spec(value@, id_to_path@) is None,
        },
{
    let v = chars_of(value);
    if contains_char(&v, '/') || has_suffix(&v, &v3('.', 'm', 'd')) {
        return Some(value.to_string());
    }
    let mut i: usize = 0;
    assert(id_to_path@.subrange(0, id_to_path@.len() as int) =~= id_to_path@);
    while i < id_to_path.len()
        invariant
            i <= id_to_path.len(),
            v@ == value@,
            !is_path_ref(value@),
            lookup(id_to_path@, value@) == lookup(
                id_to_path@.subrange(i as int, id_to_path@.len() as int),
                value@,
            ),
        decreases id_to_path.len() - i,
    {
        let ghost rest = id_to_path@.subrange(i as int, id_to_path@.len() as int);
        assert(rest.drop_first() =~= id_to_path@.subrange(i + 1, id_to_path@.len() as int));
        if chars_eq(&chars_of(id_to_path[i].0.as_str()), &v) {
            return Some(id_to_path[i].1.clone());
        }
        i += 1;
    }
    None
}

// ---------------------------------------------------------------------------
// Reading a snapshot file back
// ---------------------------------------------------------------------------

/// A link written in the file at `path`, as the canonical path it points to.
pub open spec fn snapshot_link(raw: Seq<char>, path: Seq<char>) -> Seq<char> {
    canonical_spec(parse_link_spec(raw), path)
}

/// A local attachment reference to `p`.
pub open spec fn local_ref(p: Seq<char>) -> BinaryRefText {
    BinaryRefText {
        path: p,
        source: "local"@,
        hash: Seq::empty(),
        mime_type: Seq::empty(),
        size: 0,
        uploaded_at: None,
        deleted: false,
    }
}

/// The metadata a snapshot file at `path` with frontmatter `fm` reads as,
/// `now` standing for the time now: the filename from the path; `title`,
/// `audience`, `description` and `deleted` where they have the expected
/// shape; `part_of`, the `contents` strings and the `attachments` strings
/// as the canonical paths their links point to (attachments as local
/// references); no extra properties; the time from `updated`, else `now`.
pub open spec fn snapshot_metadata(path: Seq<char>, fm: Seq<(String, Value)>, now: i64) -> MetadataText {
    MetadataText {
        filename: match file_name_spec(path) {
            Some(n) => n,
            None => Seq::empty(),
        },
        title: loose_text(pairs_get(fm, "title"@)),
        part_of: match loose_text(pairs_get(fm, "part_of"@)) {
            Some(raw) => Some(snapshot_link(raw, path)),
            None => None,
        },
        contents: match pairs_get(fm, "contents"@) {
            Some(Value::Sequence(xs)) => Some(
                string_items_of(xs@).map_values(|raw: Seq<char>| snapshot_link(raw, path)),
            ),
            _ => None,
        },
        attachments: match pairs_get(fm, "attachments"@) {
            Some(Value::Sequence(xs)) => string_items_of(xs@).map_values(
                |raw: Seq<char>| local_ref(snapshot_link(raw, path)),
            ),
            _ => Seq::empty(),
        },
        deleted: match pairs_get(fm, "deleted"@) {
            Some(Value::Bool(b)) => b,
            _ => false,
        },
        audience: loose_texts(pairs_get(fm, "audience"@)),
        description: loose_text(pairs_get(fm, "description"@)),
        extra: Seq::empty(),
        modified_at: updated_or(fm, now),
    }
}

/// The value under key `k` (its first entry).
fn field_of<'a>(ps: &'a Vec<(String, Value)>, k: &str) -> (r: Option<&'a Value>)
    ensures
        match r {
            Some(v) => pairs_get(ps@, k@) == Some(*v),
            None => pairs_get(ps@, k@) is None,
        },
{
    let kc = chars_of(k);
    let mut i: usize = 0;
    assert(ps@.subrange(0, ps@.len() as int) =~= ps@);
    while i < ps.len()
        invariant
            i <= ps.len(),
            kc@ == k@,
            pairs_get(ps@, k@) == pairs_get(ps@.subrange(i as int, ps@.len() as int), k@),
        decreases ps.len() - i,
    {
        let ghost rest = ps@.subrange(i as int, ps@.len() as int);
        assert(rest.drop_first() =~= ps@.subrange(i + 1, ps@.len() as int));
        if chars_eq(&chars_of(ps[i].0.as_str()), &kc) {
            return Some(&ps[i].1);
        }
        i += 1;
    }
    None
}

/// A link in the file at `path`, as the canonical path it points to.
fn link_in(raw: &str, path: &str) -> (r: String)
    ensures
        r@ == snapshot_link(raw@, path@),
{
    to_canonical(&parse_link(raw), path)
}

/// The string items of a list, each a link resolved from `path`.
fn resolved_links(xs: &Vec<Value>, path: &str) -> (r: Vec<String>)
    ensures
        r@.map_values(|s: String| s@) == string_items_of(xs@).map_values(
            |raw: Seq<char>| snapshot_link(raw, path@),
        ),
{
    let mut out: Vec<String> = Vec::new();
    let mut i: usize = 0;
    let ghost f = |raw: Seq<char>| snapshot_link(raw, path@);
    assert(out@.map_values(|s: String| s@) =~= string_items_of(xs@.take(0)).map_values(f));
    while i < xs.len()
        invariant
            i <= xs@.len(),
            f == (|raw: Seq<char>| snapshot_link(raw, path@)),
            out@.map_values(|s: String| s@) == string_items_of(xs@.take(i as int)).map_values(f),
        decreases xs.len() - i,
    {
        assert(xs@.take(i + 1).drop_last() =~= xs@.take(i as int));
        assert(xs@.take(i + 1).last() == xs@[i as int]);
        let ghost before = string_items_of(xs@.take(i as int));
        match &xs[i] {
            Value::String(s) => {
                let ghost prev = out@.map_values(|s: String| s@);
                let l = link_in(s.as_str(), path);
                out.push(l);
                assert(string_items_of(xs@.take(i + 1)) == before.push(s@));
                assert(before.push(s@).map_values(f) =~= before.map_values(f).push(f(s@)));
                assert(out@.map_values(|s: String| s@) =~= prev.push(l@));
            },
            _ => {
                assert(string_items_of(xs@.take(i + 1)) == before);
            },
        }
        i += 1;
    }
    assert(xs@.take(xs@.len() as int) =~= xs@);
    out
}

/// The metadata of a snapshot file, with `now` standing for the time now
/// (see [`snapshot_metadata`]).
pub fn snapshot_metadata_at(path: &str, fm: &Vec<(String, Value)>, now: i64) -> (r: FileMetadata)
    ensures
        reads_as(r, snapshot_metadata(path@, fm@, now)),
{
    let filename = match file_name(path) {
        Some(n) => n,
        None => String::new(),
    };
    let title = match field_of(fm, "title") {
        Some(Value::String(s)) => Some(s.clone()),
        _ => None,
    };
    let part_of = match field_of(fm, "part_of") {
        Some(Value::String(s)) => Some(link_in(s.as_str(), path)),
        _ => None,
    };
    let contents = match field_of(fm, "contents") {
        Some(Value::Sequence(xs)) => Some(resolved_links(xs, path)),
        _ => None,
    };
    let mut attachments: Vec<BinaryRef> = Vec::new();
    match field_of(fm, "attachments") {
        Some(Value::Sequence(xs)) => {
            let links = resolved_links(xs, path);
            let ghost want = string_items_of(xs@).map_values(
                |raw: Seq<char>| local_ref(snapshot_link(raw, path@)),
            );
            proof {
                let items = string_items_of(xs@);
                let f = |raw: Seq<char>| snapshot_link(raw, path@);
                assert(links@.map_values(|s: String| s@).len() == items.map_values(f).len());
                assert forall|j: int| 0 <= j < links@.len() implies want[j] == local_ref(
                    #[trigger] links@[j]@,
                ) by {
                    assert(links@.map_values(|s: String| s@)[j] == links@[j]@);
                    assert(items.map_values(f)[j] == snapshot_link(items[j], path@));
                }
            }
            let mut i: usize = 0;
            while i < links.len()
                invariant
                    i <= links@.len(),
                    links@.len() == want.len(),
                    forall|j: int|
                        0 <= j < links@.len() ==> want[j] == local_ref(#[trigger] links@[j]@),
                    attachments@.map_values(|b: BinaryRef| crate::crdt::reading::ref_text(b))
                        == want.take(i as int),
                decreases links.len() - i,
            {
                let ghost before = attachments@.map_values(
                    |b: BinaryRef| crate::crdt::reading::ref_text(b),
                );
                let b = BinaryRef {
                    path: links[i].clone(),
                    source: owned("local"),
                    hash: String::new(),
                    mime_type: String::new(),
                    size: 0,
                    uploaded_at: None,
                    deleted: false,
                };
                assert(crate::crdt::reading::ref_text(b) == want[i as int]);
                attachments.push(b);
                assert(want.take(i + 1) =~= want.take(i as int).push(want[i as int]));
                assert(attachments@.map_values(|b: BinaryRef| crate::crdt::reading::ref_text(b))
                    =~= want.take(i + 1));
                i += 1;
            }
            assert(want.take(want.len() as int) =~= want);
        },
        _ => {
            assert(attachments@.map_values(|b: BinaryRef| crate::crdt::reading::ref_text(b))
                =~= Seq::<BinaryRefText>::empty());
        },
    }
    let deleted: bool = match field_of(fm, "deleted") {
        Some(Value::Bool(b)) => *b,
        _ => false,
    };
    let audience = match field_of(fm, "audience") {
        Some(Value::Sequence(xs)) => {
            let mut out: Vec<String> = Vec::new();
            let mut i: usize = 0;
            assert(out@.map_values(|s: String| s@) =~= string_items_of(xs@.take(0)));
            while i < xs.len()
                invariant
                    i <= xs@.len(),
                    out@.map_values(|s: String| s@) == string_items_of(xs@.take(i as int)),
                decreases xs.len() - i,
            {
                assert(xs@.take(i + 1).drop_last() =~= xs@.take(i as int));
                assert(xs@.take(i + 1).last() == xs@[i as int]);
                let ghost before = out@.map_values(|s: String| s@);
                match &xs[i] {
                    Value::String(s) => {
                        out.push(s.clone());
                        assert(out@.map_values(|s: String| s@) =~= before.push(s@));
                    },
                    _ => {},
                }
                i += 1;
            }
            assert(xs@.take(xs@.len() as int) =~= xs@);
            Some(out)
        },
        _ => None,
    };
    let description = match field_of(fm, "description") {
        Some(Value::String(s)) => Some(s.clone()),
        _ => None,
    };
    let modified_at = match field_of(fm, "updated") {
        Some(v) => match parse_updated_value(v) {
            Some(u) => u,
            None => now,
        },
        None => now,
    };
    FileMetadata {
        filename,
        title,
        part_of,
        contents,
        attachments,
        deleted,
        audience,
        description,
        extra: Vec::new(),
        modified_at,
    }
}

/// Reads a snapshot file at `path`, given its parsed frontmatter and body,
/// back into metadata and body (see [`snapshot_metadata`]); a file that
/// gives no `updated` time is stamped with the time now, which may be any
/// time.
pub fn parse_snapshot_markdown(path: &str, frontmatter: &Vec<(String, Value)>, body: String) -> (r: (
    FileMetadata,
    String,
))
    ensures
        exists|now: i64| reads_as(r.0, #[trigger] snapshot_metadata(path@, frontmatter@, now)),
        r.1 == body,
{
    let now = now_millis();
    let m = snapshot_metadata_at(path, frontmatter, now);
    assert(reads_as(m, snapshot_metadata(path@, frontmatter@, now)));
    (m, body)
}

// ---------------------------------------------------------------------------
// Materializing the workspace
// ---------------------------------------------------------------------------

/// A single file extracted from the synced state.
pub struct MaterializedFile {
    /// Workspace-relative path (e.g. `Daily/2024/note.md`).
    pub path: String,
    /// Full file content (frontmatter + body).
    pub content: String,
    /// The file's metadata as synced.
    pub metadata: FileMetadata,
}

/// Result of a materialization run.
pub struct MaterializationResult {
    /// Successfully materialized files.
    pub files: Vec<MaterializedFile>,
    /// Files that were skipped (deleted, or with no path).
    pub skipped: Vec<SkippedFile>,
}

/// The path a reference resolves to on export: a path key is its own path;
/// a doc-ID of a listed file resolves to that file's path, when it has one.
pub open spec fn export_path(value: Seq<char>, listing: WorkspaceListing) -> Option<Seq<char>> {
    if is_path_ref(value) {
        Some(value)
    } else if has_key(listing.files@, value) {
        lookup(listing.paths@, value)
    } else {
        None
    }
}

/// The references among `refs` that resolve, as the paths they resolve to.
pub open spec fn export_paths(refs: Seq<String>, listing: WorkspaceListing) -> Seq<Seq<char>>
    decreases refs.len(),
{
    if refs.len() == 0 {
        Seq::empty()
    } else {
        let r = export_paths(refs.drop_last(), listing);
        match export_path(refs.last()@, listing) {
            Some(p) => r.push(p),
            None => r,
        }
    }
}

/// Whether `v` is a list of exactly the strings `texts`.
pub open spec fn string_list_of(v: Option<Seq<Value>>, texts: Seq<Seq<char>>) -> bool {
    v matches Some(l) && texts_of(l) == texts && texts_of(l).len() == l.len()
}

/// Whether `v` is the metadata `meta` as exported: `part_of` and `contents`
/// resolved to paths (an unresolved `part_of` left out, unresolved
/// `contents` items dropped), attachments by their paths, the time as
/// `modified_at`, the extra properties under `extra`, and no links of other
/// kinds.
pub open spec fn exports(v: Value, meta: FileMetadata, listing: WorkspaceListing) -> bool {
    &&& get_text(v, "title"@) == opt_text(meta.title)
    &&& get_text(v, "link"@) is None
    &&& get_list(v, "links"@) is None
    &&& get_list(v, "link_of"@) is None
    &&& get_text(v, "part_of"@) == match meta.part_of {
        Some(p) => export_path(p@, listing),
        None => None,
    }
    &&& match meta.contents {
        Some(c) => string_list_of(get_list(v, "contents"@), export_paths(c@, listing)),
        None => get_list(v, "contents"@) is None,
    }
    &&& (get_list(v, "attachments"@) matches Some(l) && attachment_refs(l) == meta.attachments@.map_values(
        |b: BinaryRef| b.path@,
    ))
    &&& match meta.audience {
        Some(a) => string_list_of(get_list(v, "audience"@), a@.map_values(|s: String| s@)),
        None => get_list(v, "audience"@) is None,
    }
    &&& get_text(v, "description"@) == opt_text(meta.description)
    &&& value_get(v, "modified_at"@) == Some(Value::Int(meta.modified_at))
    &&& (value_get(v, "extra"@) matches Some(Value::Mapping(ps)) && same_entries(ps@, meta.extra@))
}

/// The body of the file with key `key` at `path`: the body document of its
/// path, else, when that is empty and the key is no path, the body document
/// of its key; a missing document is empty.
pub open spec fn body_for(docs: Seq<(String, String)>, ws: Seq<char>, key: Seq<char>, path: Seq<char>) -> Seq<char> {
    let by_path = match lookup(docs, body_key(ws, path)) {
        Some(b) => b,
        None => Seq::empty(),
    };
    if by_path.len() == 0 && key != path {
        match lookup(docs, body_key(ws, key)) {
            Some(b) => b,
            None => Seq::empty(),
        }
    } else {
        by_path
    }
}

/// A file's content: the body alone when the YAML is empty, else the YAML
/// between `---` fences, a blank line, then the body.
pub open spec fn compose(yaml: Seq<char>, body: Seq<char>) -> Seq<char> {
    if yaml.len() == 0 {
        body
    } else {
        "---\n"@ + yaml + "\n---\n\n"@ + body
    }
}

/// Whether `content` is what the file `meta` at `path` materializes to
/// with body `body`: its metadata exported, read as frontmatter metadata
/// and written as YAML (the time in local time), then the body.
pub open spec fn materializes_to(
    content: Seq<char>,
    meta: FileMetadata,
    listing: WorkspaceListing,
    body: Seq<char>,
) -> bool {
    exists|v: Value, fm: FrontmatterMetadata, y: Seq<char>, t: Option<Seq<char>>|
        #![trigger exports(v, meta, listing), read_std(fm, v), is_yaml_of(y, fm, t)]
        exports(v, meta, listing) && read_std(fm, v) && (fm.updated is None ==> t is None) && is_yaml_of(y, fm, t)
            && content == compose(y, body)
}

/// What becomes of each of the first `n` listed files: skipped as deleted,
/// skipped for want of a path, or materialized at its path (with its
/// listing index).
pub open spec fn outcomes(listing: WorkspaceListing, n: nat) -> (
    Seq<(Seq<char>, int)>,
    Seq<(Seq<char>, SkipReason)>,
)
    decreases n,
{
    if n == 0 {
        (Seq::empty(), Seq::empty())
    } else {
        let r = outcomes(listing, (n - 1) as nat);
        let (key, meta) = listing.files@[n - 1];
        if meta.deleted {
            (r.0, r.1.push((key@, SkipReason::Deleted)))
        } else {
            match export_path(key@, listing) {
                Some(p) => (r.0.push((p, n - 1)), r.1),
                None => (r.0, r.1.push((key@, SkipReason::UnresolvedPath))),
            }
        }
    }
}

/// Resolves a reference for export (see [`export_path`]).
pub(crate) fn export_path_exec(value: &str, listing: &WorkspaceListing) -> (r: Option<String>)
    ensures
        opt_text(r) == export_path(value@, *listing),
{
    let v = chars_of(value);
    if contains_char(&v, '/') || has_suffix(&v, &v3('.', 'm', 'd')) {
        return Some(value.to_string());
    }
    if has_key_exec(&listing.files, &v) {
        match lookup_exec(&listing.paths, &v) {
            Some(p) => Some(p.clone()),
            None => None,
        }
    } else {
        None
    }
}

/// A list of strings as a list value.
fn text_list(items: &Vec<String>) -> (r: Value)
    ensures
        string_list_of(
            match r {
                Value::Sequence(l) => Some(l@),
                _ => None,
            },
            items@.map_values(|s: String| s@),
        ),
        r is Sequence,
{
    let mut out: Vec<Value> = Vec::new();
    let mut i: usize = 0;
    while i < items.len()
        invariant
            i <= items@.len(),
            texts_of(out@) == items@.take(i as int).map_values(|s: String| s@),
            texts_of(out@).len() == out@.len(),
        decreases items.len() - i,
    {
        let ghost pre = out@;
        out.push(Value::String(items[i].clone()));
        assert(out@.drop_last() =~= pre);
        assert(items@.take(i + 1).map_values(|s: String| s@) =~= items@.take(i as int).map_values(
            |s: String| s@,
        ).push(items@[i as int]@));
        i += 1;
    }
    assert(items@.take(items@.len() as int) =~= items@);
    Value::Sequence(out)
}

/// The resolved references among `refs`, as a list value.
fn resolved_list(refs: &Vec<String>, listing: &WorkspaceListing) -> (r: Value)
    ensures
        string_list_of(
            match r {
                Value::Sequence(l) => Some(l@),
                _ => None,
            },
            export_paths(refs@, *listing),
        ),
        r is Sequence,
{
    let mut out: Vec<Value> = Vec::new();
    let mut i: usize = 0;
    while i < refs.len()
        invariant
            i <= refs@.len(),
            texts_of(out@) == export_paths(refs@.take(i as int), *listing),
            texts_of(out@).len() == out@.len(),
        decreases refs.len() - i,
    {
        assert(refs@.take(i + 1).drop_last() =~= refs@.take(i as int));
        assert(refs@.take(i + 1).last() == refs@[i as int]);
        match export_path_exec(refs[i].as_str(), listing) {
            Some(p) => {
                let ghost pre = out@;
                out.push(Value::String(p));
                assert(out@.drop_last() =~= pre);
            },
            None => {},
        }
        i += 1;
    }
    assert(refs@.take(refs@.len() as int) =~= refs@);
    Value::Sequence(out)
}

/// The attachments as a list of reference mappings (a size beyond the
/// integers of the value model left null).
fn attachment_list(atts: &Vec<BinaryRef>) -> (r: Value)
    ensures
        r matches Value::Sequence(l) && attachment_refs(l@) == atts@.map_values(|b: BinaryRef| b.path@),
{
    let mut out: Vec<Value> = Vec::new();
    let mut i: usize = 0;
    while i < atts.len()
        invariant
            i <= atts@.len(),
            attachment_refs(out@) == atts@.take(i as int).map_values(|b: BinaryRef| b.path@),
        decreases atts.len() - i,
    {
        let b = &atts[i];
        let size = if b.size <= 9223372036854775807 {
            Value::Int(b.size as i64)
        } else {
            Value::Null
        };
        let m = vec![
            ("path".to_string(), Value::String(b.path.clone())),
            ("source".to_string(), Value::String(b.source.clone())),
            ("hash".to_string(), Value::String(b.hash.clone())),
            ("mime_type".to_string(), Value::String(b.mime_type.clone())),
            ("size".to_string(), size),
            (
                "uploaded_at".to_string(),
                match b.uploaded_at {
                    Some(t) => Value::Int(t),
                    None => Value::Null,
                },
            ),
            ("deleted".to_string(), Value::Bool(b.deleted)),
        ];
        let item = Value::Mapping(m);
        proof {
            reveal_strlit("path");
            assert(get_text(item, "path"@) == Some(b.path@));
        }
        let ghost pre = out@;
        out.push(item);
        assert(out@.drop_last() =~= pre);
        assert(atts@.take(i + 1).map_values(|b: BinaryRef| b.path@) =~= atts@.take(i as int).map_values(
            |b: BinaryRef| b.path@,
        ).push(b.path@));
        i += 1;
    }
    assert(atts@.take(atts@.len() as int) =~= atts@);
    Value::Sequence(out)
}

/// A string, or null.
fn text_or_null(o: &Option<String>) -> (r: Value)
    ensures
        match o {
            Some(s) => r == Value::String(*s),
            None => r is Null,
        },
{
    match o {
        Some(s) => Value::String(s.clone()),
        None => Value::Null,
    }
}

/// The metadata as exported (see [`exports`]).
pub fn export_metadata(meta: &FileMetadata, listing: &WorkspaceListing) -> (r: Value)
    ensures
        exports(r, *meta, *listing),
{
    let part_of = match &meta.part_of {
        Some(p) => match export_path_exec(p.as_str(), listing) {
            Some(q) => Value::String(q),
            None => Value::Null,
        },
        None => Value::Null,
    };
    let contents = match &meta.contents {
        Some(c) => resolved_list(c, listing),
        None => Value::Null,
    };
    let audience = match &meta.audience {
        Some(a) => text_list(a),
        None => Value::Null,
    };
    let mut extra: Vec<(String, Value)> = Vec::new();
    let mut i: usize = 0;
    while i < meta.extra.len()
        invariant
            i <= meta.extra@.len(),
            same_entries(extra@, meta.extra@.take(i as int)),
        decreases meta.extra.len() - i,
    {
        extra.push((meta.extra[i].0.clone(), crate::yaml::clone_value(&meta.extra[i].1)));
        i += 1;
    }
    assert(meta.extra@.take(meta.extra@.len() as int) =~= meta.extra@);
    proof {
        lemma_export_keys();
        assert(export_keys()[0] == "filename"@);
        assert(export_keys()[1] == "title"@);
        assert(export_keys()[2] == "part_of"@);
        assert(export_keys()[3] == "contents"@);
        assert(export_keys()[4] == "attachments"@);
        assert(export_keys()[5] == "deleted"@);
        assert(export_keys()[6] == "audience"@);
        assert(export_keys()[7] == "description"@);
        assert(export_keys()[8] == "extra"@);
        assert(export_keys()[9] == "modified_at"@);
    }
    let mut ps: Vec<(String, Value)> = Vec::new();
    put_last(&mut ps, "filename".to_string(), Value::String(meta.filename.clone()));
    put_last(&mut ps, "title".to_string(), text_or_null(&meta.title));
    put_last(&mut ps, "part_of".to_string(), part_of);
    put_last(&mut ps, "contents".to_string(), contents);
    put_last(&mut ps, "attachments".to_string(), attachment_list(&meta.attachments));
    put_last(&mut ps, "deleted".to_string(), Value::Bool(meta.deleted));
    put_last(&mut ps, "audience".to_string(), audience);
    put_last(&mut ps, "description".to_string(), text_or_null(&meta.description));
    put_last(&mut ps, "extra".to_string(), Value::Mapping(extra));
    put_last(&mut ps, "modified_at".to_string(), Value::Int(meta.modified_at));
    let r = Value::Mapping(ps);
    assert(get_text(r, "title"@) == opt_text(meta.title));
    assert(get_text(r, "link"@) is None);
    assert(get_list(r, "links"@) is None);
    assert(get_list(r, "link_of"@) is None);
    assert(get_text(r, "part_of"@) == match meta.part_of {
        Some(p) => export_path(p@, *listing),
        None => None,
    });
    assert(match meta.contents {
        Some(c) => string_list_of(get_list(r, "contents"@), export_paths(c@, *listing)),
        None => get_list(r, "contents"@) is None,
    });
    assert(get_list(r, "attachments"@) matches Some(l) && attachment_refs(l) == meta.attachments@.map_values(
        |b: BinaryRef| b.path@,
    ));
    assert(match meta.audience {
        Some(a) => string_list_of(get_list(r, "audience"@), a@.map_values(|s: String| s@)),
        None => get_list(r, "audience"@) is None,
    });
    assert(get_text(r, "description"@) == opt_text(meta.description));
    assert(value_get(r, "modified_at"@) == Some(Value::Int(meta.modified_at)));
    assert(value_get(r, "extra"@) matches Some(Value::Mapping(ps)) && same_entries(ps@, meta.extra@));
    r
}

/// The keys of exported metadata.
pub open spec fn export_keys() -> Seq<Seq<char>> {
    seq![
        "filename"@,
        "title"@,
        "part_of"@,
        "contents"@,
        "attachments"@,
        "deleted"@,
        "audience"@,
        "description"@,
        "extra"@,
        "modified_at"@,
    ]
}

/// The exported keys are distinct, and none is `link`, `links` or
/// `link_of`.
proof fn lemma_export_keys()
    ensures
        forall|i: int, j: int| 0 <= i < j < 10 ==> export_keys()[i] != export_keys()[j],
        forall|i: int|
            0 <= i < 10 ==> export_keys()[i] != "link"@ && export_keys()[i] != "links"@
                && export_keys()[i] != "link_of"@,
{
    reveal_strlit("filename");
    reveal_strlit("title");
    reveal_strlit("part_of");
    reveal_strlit("contents");
    reveal_strlit("attachments");
    reveal_strlit("deleted");
    reveal_strlit("audience");
    reveal_strlit("description");
    reveal_strlit("extra");
    reveal_strlit("modified_at");
    reveal_strlit("link");
    reveal_strlit("links");
    reveal_strlit("link_of");
    assert forall|i: int, j: int| 0 <= i < j < 10 implies export_keys()[i] != export_keys()[j] by {
        if export_keys()[i] == export_keys()[j] {
            assert(export_keys()[i].len() == export_keys()[j].len());
            assert(export_keys()[i][0] == export_keys()[j][0]);
            assert(export_keys()[i][1] == export_keys()[j][1]);
            assert(export_keys()[i][2] == export_keys()[j][2]);
        }
    }
    assert forall|i: int| 0 <= i < 10 implies export_keys()[i] != "link"@ && export_keys()[i]
        != "links"@ && export_keys()[i] != "link_of"@ by {
        if export_keys()[i] == "links"@ || export_keys()[i] == "link_of"@ || export_keys()[i] == "link"@ {
            assert(export_keys()[i][0] == 'l');
        }
    }
}

/// Appends `(k, v)`: a key not yet there now reads as `v`, others read as
/// before.
fn put_last(ps: &mut Vec<(String, Value)>, k: String, v: Value)
    ensures
        forall|q: Seq<char>|
            #[trigger] crate::metadata_writer::pairs_get(final(ps)@, q) == match crate::metadata_writer::pairs_get(
                old(ps)@,
                q,
            ) {
                Some(x) => Some(x),
                None => if q == k@ {
                    Some(v)
                } else {
                    None
                },
            },
{
    let ghost pre = ps@;
    ps.push((k, v));
    proof {
        assert forall|q: Seq<char>| #[trigger] crate::metadata_writer::pairs_get(ps@, q) == match crate::metadata_writer::pairs_get(
            pre,
            q,
        ) {
            Some(x) => Some(x),
            None => if q == k@ {
                Some(v)
            } else {
                None
            },
        } by {
            lemma_pairs_get_push(pre, k, v, q);
        }
    }
}

/// Looking a key up after a push finds an earlier entry first.
proof fn lemma_pairs_get_push(ps: Seq<(String, Value)>, k: String, v: Value, q: Seq<char>)
    ensures
        crate::metadata_writer::pairs_get(ps.push((k, v)), q) == match crate::metadata_writer::pairs_get(ps, q) {
            Some(x) => Some(x),
            None => if q == k@ {
                Some(v)
            } else {
                None
            },
        },
    decreases ps.len(),
{
    reveal_with_fuel(crate::metadata_writer::pairs_get, 2);
    if ps.len() > 0 {
        assert(ps.push((k, v))[0] == ps[0]);
        assert(ps.push((k, v)).drop_first() =~= ps.drop_first().push((k, v)));
        lemma_pairs_get_push(ps.drop_first(), k, v, q);
    } else {
        assert(ps.push((k, v))[0] == (k, v));
        assert(ps.push((k, v)).drop_first() =~= Seq::<(String, Value)>::empty());
    }
}

/// File metadata as texts.
pub open spec fn meta_text(m: FileMetadata) -> MetadataText {
    MetadataText {
        filename: m.filename@,
        title: opt_text(m.title),
        part_of: opt_text(m.part_of),
        contents: opt_texts(m.contents),
        attachments: m.attachments@.map_values(|b: BinaryRef| crate::crdt::reading::ref_text(b)),
        deleted: m.deleted,
        audience: opt_texts(m.audience),
        description: opt_text(m.description),
        extra: m.extra@,
        modified_at: m.modified_at,
    }
}

/// A copy of a list of strings.
fn copy_texts(v: &Vec<String>) -> (r: Vec<String>)
    ensures
        r@.map_values(|s: String| s@) == v@.map_values(|s: String| s@),
{
    let mut out: Vec<String> = Vec::new();
    let mut i: usize = 0;
    while i < v.len()
        invariant
            i <= v@.len(),
            out@.map_values(|s: String| s@) == v@.take(i as int).map_values(|s: String| s@),
        decreases v.len() - i,
    {
        let ghost pre = out@.map_values(|s: String| s@);
        out.push(v[i].clone());
        assert(out@.map_values(|s: String| s@) =~= pre.push(v@[i as int]@));
        assert(v@.take(i + 1).map_values(|s: String| s@) =~= v@.take(i as int).map_values(
            |s: String| s@,
        ).push(v@[i as int]@));
        i += 1;
    }
    assert(v@.take(v@.len() as int) =~= v@);
    out
}

/// A copy of file metadata.
fn copy_metadata(m: &FileMetadata) -> (r: FileMetadata)
    ensures
        reads_as(r, meta_text(*m)),
{
    let contents = match &m.contents {
        Some(c) => Some(copy_texts(c)),
        None => None,
    };
    let audience = match &m.audience {
        Some(a) => Some(copy_texts(a)),
        None => None,
    };
    let mut attachments: Vec<BinaryRef> = Vec::new();
    let mut i: usize = 0;
    while i < m.attachments.len()
        invariant
            i <= m.attachments@.len(),
            attachments@.map_values(|b: BinaryRef| crate::crdt::reading::ref_text(b)) == m.attachments@.take(
                i as int,
            ).map_values(|b: BinaryRef| crate::crdt::reading::ref_text(b)),
        decreases m.attachments.len() - i,
    {
        let b = &m.attachments[i];
        let c = BinaryRef {
            path: b.path.clone(),
            source: b.source.clone(),
            hash: b.hash.clone(),
            mime_type: b.mime_type.clone(),
            size: b.size,
            uploaded_at: b.uploaded_at,
            deleted: b.deleted,
        };
        let ghost pre = attachments@.map_values(|b: BinaryRef| crate::crdt::reading::ref_text(b));
        attachments.push(c);
        assert(attachments@.map_values(|b: BinaryRef| crate::crdt::reading::ref_text(b)) =~= pre.push(
            crate::crdt::reading::ref_text(*b),
        ));
        assert(m.attachments@.take(i + 1).map_values(|b: BinaryRef| crate::crdt::reading::ref_text(b))
            =~= m.attachments@.take(i as int).map_values(
            |b: BinaryRef| crate::crdt::reading::ref_text(b),
        ).push(crate::crdt::reading::ref_text(*b)));
        i += 1;
    }
    assert(m.attachments@.take(m.attachments@.len() as int) =~= m.attachments@);
    let mut extra: Vec<(String, Value)> = Vec::new();
    let mut j: usize = 0;
    while j < m.extra.len()
        invariant
            j <= m.extra@.len(),
            same_entries(extra@, m.extra@.take(j as int)),
        decreases m.extra.len() - j,
    {
        extra.push((m.extra[j].0.clone(), crate::yaml::clone_value(&m.extra[j].1)));
        j += 1;
    }
    assert(m.extra@.take(m.extra@.len() as int) =~= m.extra@);
    FileMetadata {
        filename: m.filename.clone(),
        title: match &m.title {
            Some(t) => Some(t.clone()),
            None => None,
        },
        part_of: match &m.part_of {
            Some(t) => Some(t.clone()),
            None => None,
        },
        contents,
        attachments,
        deleted: m.deleted,
        audience,
        description: match &m.description {
            Some(t) => Some(t.clone()),
            None => None,
        },
        extra,
        modified_at: m.modified_at,
    }
}

/// The body of the listed file with key `key` at `path` (see
/// [`body_for`]).
fn body_exec(bodies: &BodyDocs, workspace_id: &str, key: &str, path: &str) -> (r: String)
    ensures
        r@ == body_for(bodies.docs@, workspace_id@, key@, path@),
{
    let mut bk = chars_of("body:");
    extend_chars(&mut bk, &chars_of(workspace_id));
    extend_chars(&mut bk, &chars_of("/"));
    extend_chars(&mut bk, &chars_of(path));
    assert(bk@ == body_key(workspace_id@, path@));
    let by_path = match lookup_exec(&bodies.docs, &bk) {
        Some(b) => b.clone(),
        None => String::new(),
    };
    let kc = chars_of(key);
    if chars_of(by_path.as_str()).len() == 0 && !chars_eq(&kc, &chars_of(path)) {
        let mut ak = chars_of("body:");
        extend_chars(&mut ak, &chars_of(workspace_id));
        extend_chars(&mut ak, &chars_of("/"));
        extend_chars(&mut ak, &kc);
        assert(ak@ == body_key(workspace_id@, key@));
        match lookup_exec(&bodies.docs, &ak) {
            Some(b) => b.clone(),
            None => String::new(),
        }
    } else {
        by_path
    }
}

/// A file's content from its YAML and body (see [`compose`]).
fn compose_exec(yaml: &str, body: &str) -> (r: String)
    ensures
        r@ == compose(yaml@, body@),
{
    let y = chars_of(yaml);
    if y.len() == 0 {
        return body.to_string();
    }
    let mut out = chars_of("---\n");
    extend_chars(&mut out, &y);
    extend_chars(&mut out, &chars_of("\n---\n\n"));
    extend_chars(&mut out, &chars_of(body));
    string_of(&out)
}

/// Materializes the listed files: a deleted file, or one whose key
/// resolves to no path, is skipped with the reason; every other becomes a
/// file at its path whose content is its exported metadata as YAML
/// frontmatter and its body (see [`materializes_to`]).
pub fn materialize_workspace(listing: &WorkspaceListing, bodies: &BodyDocs, workspace_id: &str) -> (r:
    MaterializationResult)
    ensures
        ({
            let (made, skipped) = outcomes(*listing, listing.files@.len() as nat);
            &&& r.skipped@.map_values(|s: SkippedFile| (s.key@, s.reason)) == skipped
            &&& r.files@.len() == made.len()
            &&& forall|i: int|
                #![trigger r.files@[i]]
                0 <= i < made.len() ==> {
                    let (p, k) = made[i];
                    let (key, meta) = listing.files@[k];
                    &&& 0 <= k < listing.files@.len()
                    &&& r.files@[i].path@ == p
                    &&& reads_as(r.files@[i].metadata, meta_text(meta))
                    &&& materializes_to(
                        r.files@[i].content@,
                        meta,
                        *listing,
                        body_for(bodies.docs@, workspace_id@, key@, p),
                    )
                }
        }),
{
    let mut files: Vec<MaterializedFile> = Vec::new();
    let mut skipped: Vec<SkippedFile> = Vec::new();
    let mut n: usize = 0;
    while n < listing.files.len()
        invariant
            n <= listing.files@.len(),
            ({
                let (made, sk) = outcomes(*listing, n as nat);
                &&& skipped@.map_values(|s: SkippedFile| (s.key@, s.reason)) == sk
                &&& files@.len() == made.len()
                &&& forall|i: int|
                    #![trigger files@[i]]
                    0 <= i < made.len() ==> {
                        let (p, k) = made[i];
                        let (key, meta) = listing.files@[k];
                        &&& 0 <= k < n
                        &&& files@[i].path@ == p
                        &&& reads_as(files@[i].metadata, meta_text(meta))
                        &&& materializes_to(
                            files@[i].content@,
                            meta,
                            *listing,
                            body_for(bodies.docs@, workspace_id@, key@, p),
                        )
                    }
            }),
        decreases listing.files.len() - n,
    {
        let key = &listing.files[n].0;
        let meta = &listing.files[n].1;
        let ghost before_skipped = skipped@.map_values(|s: SkippedFile| (s.key@, s.reason));
        if meta.deleted {
            skipped.push(SkippedFile { key: key.clone(), reason: SkipReason::Deleted });
            assert(skipped@.map_values(|s: SkippedFile| (s.key@, s.reason)) =~= before_skipped.push(
                (key@, SkipReason::Deleted),
            ));
        } else {
            match export_path_exec(key.as_str(), listing) {
                None => {
                    skipped.push(SkippedFile { key: key.clone(), reason: SkipReason::UnresolvedPath });
                    assert(skipped@.map_values(|s: SkippedFile| (s.key@, s.reason)) =~= before_skipped.push(
                        (key@, SkipReason::UnresolvedPath),
                    ));
                },
                Some(path) => {
                    let v = export_metadata(meta, listing);
                    let fm = FrontmatterMetadata::from_json_with_file_path(&v, Some(path.as_str()));
                    let yaml = fm.to_yaml();
                    let body = body_exec(bodies, workspace_id, key.as_str(), path.as_str());
                    let content = compose_exec(yaml.as_str(), body.as_str());
                    proof {
                        let t = choose|t: Option<Seq<char>>|
                            (fm.updated is None ==> t is None) && #[trigger] is_yaml_of(yaml@, fm, t);
                        assert(exports(v, *meta, *listing) && read_std(fm, v) && (fm.updated is None
                            ==> t is None) && is_yaml_of(yaml@, fm, t) && content@ == compose(yaml@, body@));
                        assert(materializes_to(content@, *meta, *listing, body@));
                    }
                    let ghost old_files = files@;
                    files.push(MaterializedFile { path, content, metadata: copy_metadata(meta) });
                    assert(forall|i: int| 0 <= i < old_files.len() ==> files@[i] == old_files[i]);
                },
            }
        }
        n += 1;
    }
    MaterializationResult { files, skipped }
}

/// A materialized file carries the file's own title, description and
/// audience, and no links of other kinds: its frontmatter is written from
/// metadata whose title, description and audience are the file's, and
/// which has no `link`, `links` or `link_of`.
pub proof fn law_materialized_metadata(
    content: Seq<char>,
    meta: FileMetadata,
    listing: WorkspaceListing,
    body: Seq<char>,
)
    requires
        materializes_to(content, meta, listing, body),
    ensures
        exists|fm: FrontmatterMetadata, y: Seq<char>, t: Option<Seq<char>>|
            #![trigger is_yaml_of(y, fm, t)]
            {
                &&& opt_text(fm.title) == opt_text(meta.title)
                &&& opt_text(fm.description) == opt_text(meta.description)
                &&& opt_texts(fm.audience) == match meta.audience {
                    Some(a) => Some(a@.map_values(|s: String| s@)),
                    None => None,
                }
                &&& fm.link is None && fm.links is None && fm.link_of is None
                &&& is_yaml_of(y, fm, t)
                &&& content == compose(y, body)
            },
{
    let (v, fm, y, t) = choose|v: Value, fm: FrontmatterMetadata, y: Seq<char>, t: Option<Seq<char>>|
        #![trigger exports(v, meta, listing), read_std(fm, v), is_yaml_of(y, fm, t)]
        exports(v, meta, listing) && read_std(fm, v) && (fm.updated is None ==> t is None) && is_yaml_of(y, fm, t)
            && content == compose(y, body);
    assert(get_text(v, "description"@) == opt_text(meta.description));
    assert(get_text(v, "title"@) == opt_text(meta.title));
    assert(opt_text(fm.description) == get_text(v, "description"@));
    assert(is_yaml_of(y, fm, t));
}

} // verus!
