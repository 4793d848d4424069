//! Frontmatter metadata for writing files: links in `part_of`, `contents`
//! and `attachments` are written as portable markdown links
//! `[Title](/workspace/path.md)`, and the whole is written as YAML in a
//! fixed field order.

use vstd::prelude::*;
use crate::entry::{insert_property, key_index, keys_unique};
use crate::text::{trim_end, trim_end_chars, chars_of, chars_eq, string_of, starts_with, has_prefix, v1};
use crate::link_parser::{
    file_name, file_name_spec, format_link, format_link_spec, parse_link, parse_link_spec,
    law_format_link_parses_back, path_to_title, title_spec,
};
use crate::yaml::{clone_value, same_value, Value};
use crate::yaml::emit::{entries_ok, mapping_text, mapping_yaml};
use chrono::TimeZone;

verus! {

/// Metadata for file frontmatter, with `part_of`, `contents` and
/// `attachments` as markdown links with workspace-root paths.
#[derive(Debug, Clone, Default)]
pub struct FrontmatterMetadata {
    /// Display title.
    pub title: Option<String>,
    /// Canonical self-link for this file.
    pub link: Option<String>,
    /// Outbound links declared by this file.
    pub links: Option<Vec<String>>,
    /// Backlinks declared by other files.
    pub link_of: Option<Vec<String>>,
    /// Markdown link to the parent index file.
    pub part_of: Option<String>,
    /// Markdown links to child files.
    pub contents: Option<Vec<String>>,
    /// Markdown links to attachments.
    pub attachments: Option<Vec<String>>,
    /// Visibility/access control tags.
    pub audience: Option<Vec<String>>,
    /// File description.
    pub description: Option<String>,
    /// Last modification time (milliseconds since the Unix epoch).
    pub updated: Option<i64>,
    /// Other frontmatter properties (internal keys excluded), each key once.
    pub extra: Vec<(String, Value)>,
}

/// What an entry written to YAML holds.
pub enum Want {
    /// A string.
    Text(Seq<char>),
    /// A sequence of strings.
    Texts(Seq<Seq<char>>),
    /// An integer.
    Number(i64),
    /// A value like this one.
    Like(Value),
    /// A sequence of mappings, each with these `path` strings.
    Refs(Seq<Seq<char>>),
}

/// Whether `v` holds what `w` asks for.
pub open spec fn fits(v: Value, w: Want) -> bool {
    match w {
        Want::Text(t) => v matches Value::String(s) && s@ == t,
        Want::Texts(ts) => v matches Value::Sequence(l) && l@.len() == ts.len() && (forall|i: int|
            #![trigger l@[i]]
            0 <= i < ts.len() ==> (l@[i] matches Value::String(s) && s@ == ts[i])),
        Want::Number(n) => v matches Value::Int(m) && m == n,
        Want::Like(u) => same_value(v, u),
        Want::Refs(ps) => v matches Value::Sequence(l) && l@.len() == ps.len() && (forall|i: int|
            #![trigger l@[i]]
            0 <= i < ps.len() ==> get_text(l@[i], "path"@) == Some(ps[i])),
    }
}

/// Whether the entries hold, key for key in order, what is wanted.
pub open spec fn fits_all(es: Seq<(String, Value)>, ws: Seq<(Seq<char>, Want)>) -> bool {
    &&& es.len() == ws.len()
    &&& forall|i: int|
        #![trigger es[i]]
        0 <= i < ws.len() ==> es[i].0@ == ws[i].0 && fits(es[i].1, ws[i].1)
}

/// The optional string as characters.
pub open spec fn opt_text(o: Option<String>) -> Option<Seq<char>> {
    match o {
        Some(s) => Some(s@),
        None => None,
    }
}

/// The optional strings as characters.
pub open spec fn opt_texts(o: Option<Vec<String>>) -> Option<Seq<Seq<char>>> {
    match o {
        Some(v) => Some(v@.map_values(|s: String| s@)),
        None => None,
    }
}

/// `i` is the first position of key `k`.
pub open spec fn is_first(ws: Seq<(Seq<char>, Want)>, k: Seq<char>, i: int) -> bool {
    &&& 0 <= i < ws.len()
    &&& ws[i].0 == k
    &&& forall|j: int| 0 <= j < i ==> ws[j].0 != k
}

/// `ws` with `(k, w)` put as a map insert does: the value replaced where
/// the key first stands, or the pair appended.
pub open spec fn put_want(ws: Seq<(Seq<char>, Want)>, k: Seq<char>, w: Want) -> Seq<(Seq<char>, Want)> {
    if exists|i: int| #[trigger] is_first(ws, k, i) {
        let i = choose|i: int| #[trigger] is_first(ws, k, i);
        ws.update(i, (k, w))
    } else {
        ws.push((k, w))
    }
}

/// `ws` with the extra properties put one after the other.
pub open spec fn put_extras(ws: Seq<(Seq<char>, Want)>, extra: Seq<(String, Value)>) -> Seq<
    (Seq<char>, Want),
>
    decreases extra.len(),
{
    if extra.len() == 0 {
        ws
    } else {
        put_want(put_extras(ws, extra.drop_last()), extra.last().0@, Want::Like(extra.last().1))
    }
}

/// `ws` with `(k, w)` appended when `o` is `Some`.
pub open spec fn push_if(ws: Seq<(Seq<char>, Want)>, cond: bool, k: Seq<char>, w: Want) -> Seq<
    (Seq<char>, Want),
> {
    if cond {
        ws.push((k, w))
    } else {
        ws
    }
}

/// The entries written for `m`, in order: `title`, `link`, `links` and
/// `link_of` (unless empty), `part_of`, `contents` (even when empty),
/// `audience` (unless empty), `description`, `attachments` (unless empty),
/// `updated` (its text when it could be formatted, else the number), then
/// the extra properties.
pub open spec fn wanted_entries(m: FrontmatterMetadata, updated_text: Option<Seq<char>>) -> Seq<
    (Seq<char>, Want),
> {
    let w0 = Seq::<(Seq<char>, Want)>::empty();
    let w1 = push_if(w0, m.title is Some, "title"@, Want::Text(opt_text(m.title)->0));
    let w2 = push_if(w1, m.link is Some, "link"@, Want::Text(opt_text(m.link)->0));
    let w3 = push_if(
        w2,
        m.links is Some && opt_texts(m.links)->0.len() > 0,
        "links"@,
        Want::Texts(opt_texts(m.links)->0),
    );
    let w4 = push_if(
        w3,
        m.link_of is Some && opt_texts(m.link_of)->0.len() > 0,
        "link_of"@,
        Want::Texts(opt_texts(m.link_of)->0),
    );
    let w5 = push_if(w4, m.part_of is Some, "part_of"@, Want::Text(opt_text(m.part_of)->0));
    let w6 = push_if(w5, m.contents is Some, "contents"@, Want::Texts(opt_texts(m.contents)->0));
    let w7 = push_if(
        w6,
        m.audience is Some && opt_texts(m.audience)->0.len() > 0,
        "audience"@,
        Want::Texts(opt_texts(m.audience)->0),
    );
    let w8 = push_if(
        w7,
        m.description is Some,
        "description"@,
        Want::Text(opt_text(m.description)->0),
    );
    let w9 = push_if(
        w8,
        m.attachments is Some && opt_texts(m.attachments)->0.len() > 0,
        "attachments"@,
        Want::Texts(opt_texts(m.attachments)->0),
    );
    let w10 = match m.updated {
        Some(n) => match updated_text {
            Some(t) => w9.push(("updated"@, Want::Text(t))),
            None => w9.push(("updated"@, Want::Number(n))),
        },
        None => w9,
    };
    put_extras(w10, m.extra@)
}

/// Whether `out` is the YAML written for `m` with `updated` as
/// `updated_text`: the text of entries that hold what
/// [`wanted_entries`] lists, without trailing whitespace when they can all
/// be written (see [`entries_ok`]), empty when one of them cannot.
pub open spec fn is_yaml_of(
    out: Seq<char>,
    m: FrontmatterMetadata,
    updated_text: Option<Seq<char>>,
) -> bool {
    exists|es: Seq<(String, Value)>|
        #[trigger] fits_all(es, wanted_entries(m, updated_text)) && (if entries_ok(es, 0) {
            out == trim_end(mapping_text(es))
        } else {
            out.len() == 0
        })
}

/// `chrono::Local.timestamp_millis_opt(ms)`, written with `to_rfc3339`: the
/// timestamp as RFC 3339 text in the machine's local time zone, `None`
/// when the local time is not single. It depends on the time zone, so
/// nothing is promised of it.
#[verifier::external_body]
fn local_rfc3339(ms: i64) -> Option<String> {
    match chrono::Local.timestamp_millis_opt(ms) {
        chrono::LocalResult::Single(dt) => Some(dt.to_rfc3339()),
        _ => None,
    }
}

/// A `Value::Sequence` of the strings.
fn str_seq(items: &Vec<String>) -> (r: Value)
    ensures
        fits(r, Want::Texts(items@.map_values(|s: String| s@))),
{
    let mut out: Vec<Value> = Vec::new();
    let mut i: usize = 0;
    while i < items.len()
        invariant
            i <= items.len(),
            out@.len() == i,
            forall|j: int| #![trigger out@[j]] 0 <= j < i ==> (out@[j] matches Value::String(s) && s@ == items@[j]@),
        decreases items.len() - i,
    {
        out.push(Value::String(items[i].clone()));
        i += 1;
    }
    Value::Sequence(out)
}

/// Appends `(k, v)`, keeping the entries fitted to `ws` extended by the pair.
fn push_entry(
    es: &mut Vec<(String, Value)>,
    k: &str,
    v: Value,
    Ghost(ws): Ghost<Seq<(Seq<char>, Want)>>,
    Ghost(w): Ghost<Want>,
)
    requires
        fits_all(old(es)@, ws),
        fits(v, w),
    ensures
        fits_all(final(es)@, ws.push((k@, w))),
{
    es.push((k.to_string(), v));
    assert forall|i: int| #![trigger es@[i]] 0 <= i < ws.len() + 1 implies es@[i].0@ == ws.push((k@, w))[i].0 && fits(es@[i].1, ws.push((k@, w))[i].1) by {
        if i < ws.len() {
            assert(es@[i] == old(es)@[i]);
        }
    }
}

/// Puts `(k, v)` as a map insert does, keeping the entries fitted to the
/// wanted entries with `(k, like u)` put likewise.
fn put_entry(
    es: &mut Vec<(String, Value)>,
    k: &String,
    v: Value,
    Ghost(ws): Ghost<Seq<(Seq<char>, Want)>>,
    Ghost(u): Ghost<Value>,
)
    requires
        fits_all(old(es)@, ws),
        same_value(v, u),
    ensures
        fits_all(final(es)@, put_want(ws, k@, Want::Like(u))),
{
    let kc = chars_of(k.as_str());
    let mut j: usize = 0;
    while j < es.len()
        invariant
            j <= es.len(),
            es@ == old(es)@,
            fits_all(es@, ws),
            kc@ == k@,
            same_value(v, u),
            forall|i: int| 0 <= i < j ==> ws[i].0 != k@,
        decreases es.len() - j,
    {
        if crate::text::chars_eq(&chars_of(es[j].0.as_str()), &kc) {
            assert(is_first(ws, k@, j as int));
            proof {
                let c = choose|i: int| #[trigger] is_first(ws, k@, i);
                if c < j {
                    assert(ws[c].0 != k@);
                }
                if c > j {
                    assert(ws[j as int].0 != k@);
                }
                assert(c == j);
                assert(put_want(ws, k@, Want::Like(u)) == ws.update(j as int, (k@, Want::Like(u))));
            }
            let key = es[j].0.clone();
            let ghost pre = es@;
            let ghost vv = v;
            es.set(j, (key, v));
            assert forall|i: int| #![trigger es@[i]] 0 <= i < ws.len() implies es@[i].0@ == put_want(ws, k@, Want::Like(u))[i].0 && fits(es@[i].1, put_want(ws, k@, Want::Like(u))[i].1) by {
                if i != j {
                    assert(es@[i] == pre[i]);
                } else {
                    assert(es@[i].1 == vv);
                    assert(put_want(ws, k@, Want::Like(u))[i].1 == Want::Like(u));
                    assert(same_value(vv, u));
                }
            }
            return;
        }
        j += 1;
    }
    assert(!exists|i: int| #[trigger] is_first(ws, k@, i));
    let ghost pre = es@;
    es.push((k.clone(), v));
    assert forall|i: int| #![trigger es@[i]] 0 <= i < ws.len() + 1 implies es@[i].0@ == ws.push((k@, Want::Like(u)))[i].0 && fits(es@[i].1, ws.push((k@, Want::Like(u)))[i].1) by {
        if i < ws.len() {
            assert(es@[i] == pre[i]);
        }
    }
}

/// Puts each extra property in turn.
fn put_extras_exec(
    es: &mut Vec<(String, Value)>,
    extra: &Vec<(String, Value)>,
    Ghost(ws): Ghost<Seq<(Seq<char>, Want)>>,
)
    requires
        fits_all(old(es)@, ws),
    ensures
        fits_all(final(es)@, put_extras(ws, extra@)),
{
    let mut n: usize = 0;
    assert(extra@.subrange(0, 0) =~= Seq::<(String, Value)>::empty());
    while n < extra.len()
        invariant
            n <= extra.len(),
            fits_all(es@, put_extras(ws, extra@.subrange(0, n as int))),
        decreases extra.len() - n,
    {
        let v = clone_value(&extra[n].1);
        proof {
            let p = extra@.subrange(0, n + 1);
            assert(p.drop_last() =~= extra@.subrange(0, n as int));
        }
        put_entry(es, &extra[n].0, v, Ghost(put_extras(ws, extra@.subrange(0, n as int))), Ghost(extra@[n as int].1));
        n += 1;
    }
    assert(extra@.subrange(0, extra@.len() as int) =~= extra@);
}

impl FrontmatterMetadata {
    /// The entries written to YAML, given the text `updated` is written as
    /// (see [`wanted_entries`]).
    #[verifier::rlimit(60)]
    pub fn yaml_entries(&self, updated_text: Option<String>) -> (r: Vec<(String, Value)>)
        ensures
            fits_all(r@, wanted_entries(*self, opt_text(updated_text))),
    {
        let ghost m = *self;
        let mut es: Vec<(String, Value)> = Vec::new();
        let ghost w0 = Seq::<(Seq<char>, Want)>::empty();
        let ghost w1 = push_if(w0, m.title is Some, "title"@, Want::Text(opt_text(m.title)->0));
        match &self.title {
            Some(t) => push_entry(&mut es, "title", Value::String(t.clone()), Ghost(w0), Ghost(Want::Text(t@))),
            None => {},
        }
        let ghost w2 = push_if(w1, m.link is Some, "link"@, Want::Text(opt_text(m.link)->0));
        match &self.link {
            Some(t) => push_entry(&mut es, "link", Value::String(t.clone()), Ghost(w1), Ghost(Want::Text(t@))),
            None => {},
        }
        let ghost w3 = push_if(w2, m.links is Some && opt_texts(m.links)->0.len() > 0, "links"@, Want::Texts(opt_texts(m.links)->0));
        match &self.links {
            Some(l) => if l.len() > 0 {
                push_entry(&mut es, "links", str_seq(l), Ghost(w2), Ghost(Want::Texts(l@.map_values(|s: String| s@))));
            },
            None => {},
        }
        let ghost w4 = push_if(w3, m.link_of is Some && opt_texts(m.link_of)->0.len() > 0, "link_of"@, Want::Texts(opt_texts(m.link_of)->0));
        match &self.link_of {
            Some(l) => if l.len() > 0 {
                push_entry(&mut es, "link_of", str_seq(l), Ghost(w3), Ghost(Want::Texts(l@.map_values(|s: String| s@))));
            },
            None => {},
        }
        let ghost w5 = push_if(w4, m.part_of is Some, "part_of"@, Want::Text(opt_text(m.part_of)->0));
        match &self.part_of {
            Some(t) => push_entry(&mut es, "part_of", Value::String(t.clone()), Ghost(w4), Ghost(Want::Text(t@))),
            None => {},
        }
        let ghost w6 = push_if(w5, m.contents is Some, "contents"@, Want::Texts(opt_texts(m.contents)->0));
        match &self.contents {
            Some(l) => push_entry(&mut es, "contents", str_seq(l), Ghost(w5), Ghost(Want::Texts(l@.map_values(|s: String| s@)))),
            None => {},
        }
        let ghost w7 = push_if(w6, m.audience is Some && opt_texts(m.audience)->0.len() > 0, "audience"@, Want::Texts(opt_texts(m.audience)->0));
        match &self.audience {
            Some(l) => if l.len() > 0 {
                push_entry(&mut es, "audience", str_seq(l), Ghost(w6), Ghost(Want::Texts(l@.map_values(|s: String| s@))));
            },
            None => {},
        }
        let ghost w8 = push_if(w7, m.description is Some, "description"@, Want::Text(opt_text(m.description)->0));
        match &self.description {
            Some(t) => push_entry(&mut es, "description", Value::String(t.clone()), Ghost(w7), Ghost(Want::Text(t@))),
            None => {},
        }
        let ghost w9 = push_if(w8, m.attachments is Some && opt_texts(m.attachments)->0.len() > 0, "attachments"@, Want::Texts(opt_texts(m.attachments)->0));
        match &self.attachments {
            Some(l) => if l.len() > 0 {
                push_entry(&mut es, "attachments", str_seq(l), Ghost(w8), Ghost(Want::Texts(l@.map_values(|s: String| s@))));
            },
            None => {},
        }
        let ghost w10 = match m.updated {
            Some(n) => match opt_text(updated_text) {
                Some(t) => w9.push(("updated"@, Want::Text(t))),
                None => w9.push(("updated"@, Want::Number(n))),
            },
            None => w9,
        };
        match self.updated {
            Some(n) => match updated_text {
                Some(t) => {
                    let ghost tv = t@;
                    push_entry(&mut es, "updated", Value::String(t), Ghost(w9), Ghost(Want::Text(tv)));
                },
                None => push_entry(&mut es, "updated", Value::Int(n), Ghost(w9), Ghost(Want::Number(n))),
            },
            None => {},
        }
        assert(fits_all(es@, w10));
        put_extras_exec(&mut es, &self.extra, Ghost(w10));
        es
    }

    /// The YAML frontmatter text, with `updated` written as `updated_text`
    /// when that is given (else as its number): `key: value` lines in the
    /// order of [`wanted_entries`], trailing whitespace removed; empty when
    /// a string could not be written.
    pub fn to_yaml_with(&self, updated_text: Option<String>) -> (r: String)
        ensures
            is_yaml_of(r@, *self, opt_text(updated_text)),
    {
        let ghost t = opt_text(updated_text);
        let es = self.yaml_entries(updated_text);
        match mapping_yaml(&es) {
            Some(text) => {
                let out = trim_end_chars(&chars_of(text.as_str()));
                assert(fits_all(es@, wanted_entries(*self, t)) && entries_ok(es@, 0) && out@ == trim_end(
                    mapping_text(es@),
                ));
                string_of(&out)
            },
            None => {
                assert(fits_all(es@, wanted_entries(*self, t)) && !entries_ok(es@, 0));
                String::new()
            },
        }
    }

    /// The YAML frontmatter text: fields in a fixed order (`title`, `link`,
    /// `links`, `link_of`, `part_of`, `contents`, `audience`,
    /// `description`, `attachments`, `updated`, then the extra properties),
    /// empty lists left out except `contents: []`, `updated` as local
    /// RFC 3339 text, trailing whitespace removed.
    pub fn to_yaml(&self) -> (r: String)
        ensures
            exists|t: Option<Seq<char>>|
                (self.updated is None ==> t is None) && #[trigger] is_yaml_of(r@, *self, t),
    {
        let updated_text = match self.updated {
            Some(n) => local_rfc3339(n),
            None => None,
        };
        let r = self.to_yaml_with(updated_text);
        assert(is_yaml_of(r@, *self, opt_text(updated_text)));
        r
    }
}

// ---------------------------------------------------------------------------
// Reading metadata from a value
// ---------------------------------------------------------------------------

/// The value of the first entry with key `k`.
pub open spec fn pairs_get(ps: Seq<(String, Value)>, k: Seq<char>) -> Option<Value>
    decreases ps.len(),
{
    if ps.len() == 0 {
        None
    } else if ps[0].0@ == k {
        Some(ps[0].1)
    } else {
        pairs_get(ps.drop_first(), k)
    }
}

/// The value under key `k` of a mapping value.
pub open spec fn value_get(v: Value, k: Seq<char>) -> Option<Value> {
    match v {
        Value::Mapping(ps) => pairs_get(ps@, k),
        _ => None,
    }
}

/// The string under key `k`, if it is a string.
pub open spec fn get_text(v: Value, k: Seq<char>) -> Option<Seq<char>> {
    match value_get(v, k) {
        Some(Value::String(s)) => Some(s@),
        _ => None,
    }
}

/// The list under key `k`, if it is a list.
pub open spec fn get_list(v: Value, k: Seq<char>) -> Option<Seq<Value>> {
    match value_get(v, k) {
        Some(Value::Sequence(l)) => Some(l@),
        _ => None,
    }
}

/// The string items of a list, in order.
pub open spec fn texts_of(list: Seq<Value>) -> Seq<Seq<char>>
    decreases list.len(),
{
    if list.len() == 0 {
        Seq::empty()
    } else {
        let rest = texts_of(list.drop_last());
        match list.last() {
            Value::String(s) => rest.push(s@),
            _ => rest,
        }
    }
}

/// The path references of an attachments list: string items, and the
/// `path` string of mapping items.
pub open spec fn attachment_refs(list: Seq<Value>) -> Seq<Seq<char>>
    decreases list.len(),
{
    if list.len() == 0 {
        Seq::empty()
    } else {
        let rest = attachment_refs(list.drop_last());
        match list.last() {
            Value::String(s) => rest.push(s@),
            Value::Mapping(_) => match get_text(list.last(), "path"@) {
                Some(p) => rest.push(p),
                None => rest,
            },
            _ => rest,
        }
    }
}

/// A reference written as a markdown link with a workspace-root path: the
/// title it already has, else the title made from its path
/// (`path_to_title`).
pub open spec fn std_link(raw: Seq<char>) -> Seq<char> {
    let p = parse_link_spec(raw);
    let t = match p.title {
        Some(t) => t,
        None => title_spec(p.path),
    };
    format_link_spec(p.path, t)
}

/// An attachment reference written as a markdown link: the title it
/// already has, else its file name, else the path itself.
pub open spec fn attachment_link(raw: Seq<char>) -> Seq<char> {
    let p = parse_link_spec(raw);
    let t = match p.title {
        Some(t) => t,
        None => match file_name_spec(p.path) {
            Some(n) => n,
            None => p.path,
        },
    };
    format_link_spec(p.path, t)
}

/// Each attachment reference written as a markdown link.
pub open spec fn attachment_links(refs: Seq<Seq<char>>) -> Seq<Seq<char>> {
    refs.map_values(|raw: Seq<char>| attachment_link(raw))
}

/// Whether `t` is a title `f` gives for path `p`.
pub open spec fn resolves<F: Fn(&str) -> String>(f: F, p: Seq<char>, t: Seq<char>) -> bool {
    exists|a: &str, s: String| a@ == p && s@ == t && #[trigger] f.ensures((a,), s)
}

/// Whether `out` is `raw` written as a markdown link, titled by `f` when it
/// has no title of its own.
pub open spec fn written_by<F: Fn(&str) -> String>(raw: Seq<char>, out: Seq<char>, f: F) -> bool {
    let p = parse_link_spec(raw);
    match p.title {
        Some(t) => out == format_link_spec(p.path, t),
        None => exists|t: Seq<char>| resolves(f, p.path, t) && out == format_link_spec(p.path, t),
    }
}

/// Whether each of `outs` is the matching raw reference written by `f`.
pub open spec fn all_written_by<F: Fn(&str) -> String>(
    raws: Seq<Seq<char>>,
    outs: Seq<Seq<char>>,
    f: F,
) -> bool {
    &&& outs.len() == raws.len()
    &&& forall|i: int| 0 <= i < raws.len() ==> #[trigger] written_by(raws[i], outs[i], f)
}

/// The value under key `k` (first entry with that key).
fn get_field<'a>(v: &'a Value, k: &str) -> (r: Option<&'a Value>)
    ensures
        match r {
            Some(x) => value_get(*v, k@) == Some(*x),
            None => value_get(*v, k@) is None,
        },
{
    match v {
        Value::Mapping(ps) => {
            let kc = chars_of(k);
            let mut i: usize = 0;
            assert(ps@.subrange(0, ps@.len() as int) =~= ps@);
            while i < ps.len()
                invariant
                    i <= ps.len(),
                    kc@ == k@,
                    *v == Value::Mapping(*ps),
                    pairs_get(ps@, k@) == pairs_get(ps@.subrange(i as int, ps@.len() as int), k@),
                decreases ps.len() - i,
            {
                let ghost rest = ps@.subrange(i as int, ps@.len() as int);
                assert(rest.drop_first() =~= ps@.subrange(i + 1, ps@.len() as int));
                if chars_eq(&chars_of(ps[i].0.as_str()), &kc) {
                    return Some(&ps[i].1);
                }
                i += 1;
            }
            None
        },
        _ => None,
    }
}

/// The string under key `k`, if it is a string.
fn get_text_exec(v: &Value, k: &str) -> (r: Option<String>)
    ensures
        opt_text(r) == get_text(*v, k@),
{
    match get_field(v, k) {
        Some(Value::String(s)) => Some(s.clone()),
        _ => None,
    }
}

/// `raw` as a markdown link, titled by `f` when it has no title.
fn write_link<F: Fn(&str) -> String>(raw: &str, f: &F) -> (r: String)
    requires
        forall|a: &str| #[trigger] f.requires((a,)),
    ensures
        written_by(raw@, r@, *f),
{
    let parsed = parse_link(raw);
    assert(parsed@ == parse_link_spec(raw@));
    match &parsed.title {
        Some(t) => {
            assert(parse_link_spec(raw@).title == Some(t@));
            let r = format_link(parsed.path.as_str(), t.as_str());
            assert(r@ == format_link_spec(parse_link_spec(raw@).path, t@));
            r
        },
        None => {
            let t = f(parsed.path.as_str());
            assert(resolves(*f, parsed.path@, t@));
            let r = format_link(parsed.path.as_str(), t.as_str());
            assert(parse_link_spec(raw@).title is None);
            assert(resolves(*f, parse_link_spec(raw@).path, t@) && r@ == format_link_spec(parse_link_spec(raw@).path, t@));
            r
        },
    }
}

/// The string items of a list written as links by `f`.
fn write_links<F: Fn(&str) -> String>(list: &Vec<Value>, f: &F) -> (r: Vec<String>)
    requires
        forall|a: &str| #[trigger] f.requires((a,)),
    ensures
        all_written_by(texts_of(list@), r@.map_values(|s: String| s@), *f),
{
    let mut out: Vec<String> = Vec::new();
    let mut i: usize = 0;
    while i < list.len()
        invariant
            i <= list.len(),
            forall|a: &str| #[trigger] f.requires((a,)),
            all_written_by(texts_of(list@.subrange(0, i as int)), out@.map_values(|s: String| s@), *f),
        decreases list.len() - i,
    {
        assert(list@.subrange(0, i + 1).drop_last() =~= list@.subrange(0, i as int));
        let ghost pre = out@;
        match &list[i] {
            Value::String(s) => {
                let w = write_link(s.as_str(), f);
                out.push(w);
                let ghost raws = texts_of(list@.subrange(0, i + 1));
                let ghost outs = out@.map_values(|s: String| s@);
                assert forall|j: int| 0 <= j < raws.len() implies #[trigger] written_by(raws[j], outs[j], *f) by {
                    if j < raws.len() - 1 {
                        assert(raws[j] == texts_of(list@.subrange(0, i as int))[j]);
                        assert(outs[j] == pre.map_values(|s: String| s@)[j]);
                    }
                }
            },
            _ => {
                assert(out@.map_values(|s: String| s@) =~= pre.map_values(|s: String| s@));
            },
        }
        i += 1;
    }
    assert(list@.subrange(0, list@.len() as int) =~= list@);
    out
}

/// The string items of a list.
fn texts_exec(list: &Vec<Value>) -> (r: Vec<String>)
    ensures
        r@.map_values(|s: String| s@) == texts_of(list@),
{
    let mut out: Vec<String> = Vec::new();
    let mut i: usize = 0;
    while i < list.len()
        invariant
            i <= list.len(),
            out@.map_values(|s: String| s@) == texts_of(list@.subrange(0, i as int)),
        decreases list.len() - i,
    {
        assert(list@.subrange(0, i + 1).drop_last() =~= list@.subrange(0, i as int));
        match &list[i] {
            Value::String(s) => {
                out.push(s.clone());
            },
            _ => {},
        }
        i += 1;
        assert(out@.map_values(|s: String| s@) =~= texts_of(list@.subrange(0, i as int)));
    }
    assert(list@.subrange(0, list@.len() as int) =~= list@);
    out
}

/// The attachment references of a list, each written as a markdown link
/// titled by its file name.
fn write_attachments(list: &Vec<Value>) -> (r: Vec<String>)
    ensures
        r@.map_values(|s: String| s@) == attachment_links(attachment_refs(list@)),
{
    let mut out: Vec<String> = Vec::new();
    let mut i: usize = 0;
    while i < list.len()
        invariant
            i <= list.len(),
            out@.map_values(|s: String| s@) == attachment_links(attachment_refs(list@.subrange(0, i as int))),
        decreases list.len() - i,
    {
        assert(list@.subrange(0, i + 1).drop_last() =~= list@.subrange(0, i as int));
        assert(list@.subrange(0, i + 1).last() == list@[i as int]);
        let raw: Option<String> = match &list[i] {
            Value::String(s) => Some(s.clone()),
            Value::Mapping(_) => get_text_exec(&list[i], "path"),
            _ => None,
        };
        let ghost prev = attachment_refs(list@.subrange(0, i as int));
        let ghost now = attachment_refs(list@.subrange(0, i + 1));
        assert(match raw {
            Some(r) => now == prev.push(r@),
            None => now == prev,
        });
        let ghost pre = out@;
        match raw {
            Some(r) => {
                let parsed = parse_link(r.as_str());
                let title = match &parsed.title {
                    Some(t) => t.clone(),
                    None => match file_name(parsed.path.as_str()) {
                        Some(n) => n,
                        None => parsed.path.clone(),
                    },
                };
                let w = format_link(parsed.path.as_str(), title.as_str());
                assert(w@ == attachment_link(r@));
                out.push(w);
                assert(out@.map_values(|s: String| s@) =~= pre.map_values(|s: String| s@).push(w@));
                assert(attachment_links(now) =~= attachment_links(prev).push(attachment_link(r@)));
            },
            None => {
                assert(out@ == pre);
            },
        }
        i += 1;
        assert(out@.map_values(|s: String| s@) =~= attachment_links(attachment_refs(list@.subrange(0, i as int))));
    }
    assert(list@.subrange(0, list@.len() as int) =~= list@);
    out
}

/// Whether `out` holds the list's string items written by `f`, when the
/// list is there.
pub open spec fn links_from<F: Fn(&str) -> String>(
    out: Option<Vec<String>>,
    src: Option<Seq<Value>>,
    f: F,
) -> bool {
    match src {
        Some(l) => out matches Some(v) && all_written_by(texts_of(l), v@.map_values(|s: String| s@), f),
        None => out is None,
    }
}

/// Whether `out` holds the reference written by `f`, when it is there.
pub open spec fn link_from<F: Fn(&str) -> String>(
    out: Option<String>,
    src: Option<Seq<char>>,
    f: F,
) -> bool {
    match src {
        Some(raw) => out matches Some(l) && written_by(raw, l@, f),
        None => out is None,
    }
}

/// Whether a key is internal (starts with `_`).
pub open spec fn is_internal(e: (String, Value)) -> bool {
    starts_with(e.0@, seq!['_'])
}

/// The extra properties a value carries: the non-internal entries of its
/// `extra` mapping.
pub open spec fn extra_source(v: Value) -> Seq<(String, Value)> {
    match value_get(v, "extra"@) {
        Some(Value::Mapping(ps)) => ps@.filter(|e: (String, Value)| !is_internal(e)),
        _ => Seq::empty(),
    }
}

/// Metadata read from a value with each link written by `f`: `title`,
/// `description` and `audience` as they are; `link`, `part_of`, `links`,
/// `link_of` and `contents` as markdown links (keeping a title a link has,
/// else asking `f` for one); `attachments` as markdown links titled by
/// file name; `updated` from `modified_at`; `extra` from the non-internal
/// entries of `extra`, a later key replacing an earlier one.
pub open spec fn read_by<F: Fn(&str) -> String>(r: FrontmatterMetadata, v: Value, f: F) -> bool {
    &&& opt_text(r.title) == get_text(v, "title"@)
    &&& link_from(r.link, get_text(v, "link"@), f)
    &&& links_from(r.links, get_list(v, "links"@), f)
    &&& links_from(r.link_of, get_list(v, "link_of"@), f)
    &&& link_from(r.part_of, get_text(v, "part_of"@), f)
    &&& links_from(r.contents, get_list(v, "contents"@), f)
    &&& opt_texts(r.attachments) == match get_list(v, "attachments"@) {
        Some(l) => Some(attachment_links(attachment_refs(l))),
        None => None,
    }
    &&& opt_texts(r.audience) == match get_list(v, "audience"@) {
        Some(l) => Some(texts_of(l)),
        None => None,
    }
    &&& opt_text(r.description) == get_text(v, "description"@)
    &&& r.updated == match value_get(v, "modified_at"@) {
        Some(Value::Int(n)) => Some(n),
        _ => None,
    }
    &&& fits_all(r.extra@, put_extras(Seq::empty(), extra_source(v)))
}

/// Puts the non-internal entries of `source` in turn.
fn put_non_internal(
    es: &mut Vec<(String, Value)>,
    source: &Vec<(String, Value)>,
    Ghost(ws): Ghost<Seq<(Seq<char>, Want)>>,
)
    requires
        fits_all(old(es)@, ws),
    ensures
        fits_all(
            final(es)@,
            put_extras(ws, source@.filter(|e: (String, Value)| !is_internal(e))),
        ),
{
    let mut n: usize = 0;
    assert(source@.subrange(0, 0).filter(|e: (String, Value)| !is_internal(e)) =~= Seq::<
        (String, Value),
    >::empty()) by {
        reveal(Seq::filter);
    }
    while n < source.len()
        invariant
            n <= source.len(),
            fits_all(
                es@,
                put_extras(
                    ws,
                    source@.subrange(0, n as int).filter(|e: (String, Value)| !is_internal(e)),
                ),
            ),
        decreases source.len() - n,
    {
        let ghost before = source@.subrange(0, n as int).filter(|e: (String, Value)| !is_internal(e));
        proof {
            reveal(Seq::filter);
            assert(source@.subrange(0, n + 1).drop_last() =~= source@.subrange(0, n as int));
        }
        if !has_prefix(&chars_of(source[n].0.as_str()), &v1('_')) {
            let v = clone_value(&source[n].1);
            put_entry(es, &source[n].0, v, Ghost(put_extras(ws, before)), Ghost(source@[n as int].1));
            assert(before.push(source@[n as int]).drop_last() =~= before);
        }
        n += 1;
    }
    assert(source@.subrange(0, source@.len() as int) =~= source@);
}

/// Metadata read from a value with links titled by `path_to_title`: as
/// [`read_by`], with every link written exactly as [`std_link`].
pub open spec fn read_std(r: FrontmatterMetadata, v: Value) -> bool {
    &&& opt_text(r.title) == get_text(v, "title"@)
    &&& opt_text(r.link) == match get_text(v, "link"@) {
        Some(raw) => Some(std_link(raw)),
        None => None,
    }
    &&& opt_texts(r.links) == match get_list(v, "links"@) {
        Some(l) => Some(texts_of(l).map_values(|raw: Seq<char>| std_link(raw))),
        None => None,
    }
    &&& opt_texts(r.link_of) == match get_list(v, "link_of"@) {
        Some(l) => Some(texts_of(l).map_values(|raw: Seq<char>| std_link(raw))),
        None => None,
    }
    &&& opt_text(r.part_of) == match get_text(v, "part_of"@) {
        Some(raw) => Some(std_link(raw)),
        None => None,
    }
    &&& opt_texts(r.contents) == match get_list(v, "contents"@) {
        Some(l) => Some(texts_of(l).map_values(|raw: Seq<char>| std_link(raw))),
        None => None,
    }
    &&& opt_texts(r.attachments) == match get_list(v, "attachments"@) {
        Some(l) => Some(attachment_links(attachment_refs(l))),
        None => None,
    }
    &&& opt_texts(r.audience) == match get_list(v, "audience"@) {
        Some(l) => Some(texts_of(l)),
        None => None,
    }
    &&& opt_text(r.description) == get_text(v, "description"@)
    &&& r.updated == match value_get(v, "modified_at"@) {
        Some(Value::Int(n)) => Some(n),
        _ => None,
    }
    &&& fits_all(r.extra@, put_extras(Seq::empty(), extra_source(v)))
}

/// A reference written by a resolver that titles paths as `path_to_title`
/// does is the standard link.
proof fn lemma_written_std<F: Fn(&str) -> String>(f: F, raw: Seq<char>, out: Seq<char>)
    requires
        forall|a: &str, s: String| #[trigger] f.ensures((a,), s) ==> s@ == title_spec(a@),
        written_by(raw, out, f),
    ensures
        out == std_link(raw),
{
    let p = parse_link_spec(raw);
    if p.title is None {
        let t = choose|t: Seq<char>| resolves(f, p.path, t) && out == format_link_spec(p.path, t);
        let (a, s) = choose|a: &str, s: String| a@ == p.path && s@ == t && #[trigger] f.ensures((a,), s);
        assert(t == title_spec(p.path));
    }
}

/// Lists written by such a resolver are the standard links.
proof fn lemma_all_written_std<F: Fn(&str) -> String>(f: F, raws: Seq<Seq<char>>, outs: Seq<Seq<char>>)
    requires
        forall|a: &str, s: String| #[trigger] f.ensures((a,), s) ==> s@ == title_spec(a@),
        all_written_by(raws, outs, f),
    ensures
        outs == raws.map_values(|raw: Seq<char>| std_link(raw)),
{
    assert forall|i: int| 0 <= i < raws.len() implies outs[i] == std_link(raws[i]) by {
        assert(written_by(raws[i], outs[i], f));
        lemma_written_std(f, raws[i], outs[i]);
    }
    assert(outs =~= raws.map_values(|raw: Seq<char>| std_link(raw)));
}

/// Reading with the resolver that titles a path as `path_to_title` does
/// ([`FrontmatterMetadata::from_json_with_markdown_links`]) gives what
/// reading with a file path gives
/// ([`FrontmatterMetadata::from_json_with_file_path`], for any path): the
/// metadata [`read_std`] describes.
pub proof fn law_path_titles_read_as_file_path<F: Fn(&str) -> String>(
    f: F,
    v: Value,
    r: FrontmatterMetadata,
)
    requires
        forall|a: &str, s: String| #[trigger] f.ensures((a,), s) ==> s@ == title_spec(a@),
        read_by(r, v, f),
    ensures
        read_std(r, v),
{
    match get_text(v, "link"@) {
        Some(raw) => lemma_written_std(f, raw, r.link->0@),
        None => {},
    }
    match get_text(v, "part_of"@) {
        Some(raw) => lemma_written_std(f, raw, r.part_of->0@),
        None => {},
    }
    match get_list(v, "links"@) {
        Some(l) => lemma_all_written_std(f, texts_of(l), r.links->0@.map_values(|s: String| s@)),
        None => {},
    }
    match get_list(v, "link_of"@) {
        Some(l) => lemma_all_written_std(f, texts_of(l), r.link_of->0@.map_values(|s: String| s@)),
        None => {},
    }
    match get_list(v, "contents"@) {
        Some(l) => lemma_all_written_std(f, texts_of(l), r.contents->0@.map_values(|s: String| s@)),
        None => {},
    }
}

/// Values that hold the same data as a third hold the same data as each
/// other.
proof fn lemma_same_value_through(a: Value, b: Value, c: Value)
    requires
        same_value(a, b),
        same_value(c, b),
    ensures
        same_value(a, c),
    decreases a,
{
    match a {
        Value::Sequence(xs) => {
            let ys = b->Sequence_0;
            let zs = c->Sequence_0;
            assert forall|i: int| 0 <= i < xs.len() implies same_value(#[trigger] xs@[i], zs@[i]) by {
                assert(decreases_to!(a => xs));
                assert(decreases_to!(xs => xs@[i]));
                assert(same_value(zs@[i], ys@[i]));
                lemma_same_value_through(xs@[i], ys@[i], zs@[i]);
            }
        },
        Value::Mapping(xs) => {
            let ys = b->Mapping_0;
            let zs = c->Mapping_0;
            assert forall|i: int| 0 <= i < xs.len() implies xs@[i].0@ == zs@[i].0@ && same_value(
                #[trigger] xs@[i].1,
                zs@[i].1,
            ) by {
                assert(decreases_to!(a => xs));
                assert(decreases_to!(xs => xs@[i]));
                assert(decreases_to!(xs@[i] => xs@[i].1));
                assert(zs@[i].0@ == ys@[i].0@ && same_value(zs@[i].1, ys@[i].1));
                lemma_same_value_through(xs@[i].1, ys@[i].1, zs@[i].1);
            }
        },
        _ => {},
    }
}

/// The wants that the extra properties make are all "a value like this".
proof fn lemma_extras_like(ws: Seq<(Seq<char>, Want)>, extra: Seq<(String, Value)>)
    requires
        forall|i: int| 0 <= i < ws.len() ==> (#[trigger] ws[i]).1 is Like,
    ensures
        forall|i: int| 0 <= i < put_extras(ws, extra).len() ==> (#[trigger] put_extras(ws, extra)[i]).1 is Like,
    decreases extra.len(),
{
    if extra.len() > 0 {
        lemma_extras_like(ws, extra.drop_last());
        let w = put_extras(ws, extra.drop_last());
        let k = extra.last().0@;
        if exists|i: int| #[trigger] is_first(w, k, i) {
            let i = choose|i: int| #[trigger] is_first(w, k, i);
            assert forall|j: int| 0 <= j < put_extras(ws, extra).len() implies (#[trigger] put_extras(
                ws,
                extra,
            )[j]).1 is Like by {
                if j != i {
                    assert(put_extras(ws, extra)[j] == w[j]);
                }
            }
        } else {
            assert forall|j: int| 0 <= j < put_extras(ws, extra).len() implies (#[trigger] put_extras(
                ws,
                extra,
            )[j]).1 is Like by {
                if j < w.len() {
                    assert(put_extras(ws, extra)[j] == w[j]);
                }
            }
        }
    }
}

/// Two metadata hold the same data: the same texts and lists of texts,
/// the same update time, and the same extra keys in the same order with
/// values holding the same data.
pub open spec fn same_metadata(a: FrontmatterMetadata, b: FrontmatterMetadata) -> bool {
    &&& opt_text(a.title) == opt_text(b.title)
    &&& opt_text(a.link) == opt_text(b.link)
    &&& opt_texts(a.links) == opt_texts(b.links)
    &&& opt_texts(a.link_of) == opt_texts(b.link_of)
    &&& opt_text(a.part_of) == opt_text(b.part_of)
    &&& opt_texts(a.contents) == opt_texts(b.contents)
    &&& opt_texts(a.attachments) == opt_texts(b.attachments)
    &&& opt_texts(a.audience) == opt_texts(b.audience)
    &&& opt_text(a.description) == opt_text(b.description)
    &&& a.updated == b.updated
    &&& a.extra@.len() == b.extra@.len()
    &&& forall|i: int|
        0 <= i < a.extra@.len() ==> (#[trigger] a.extra@[i]).0@ == b.extra@[i].0@ && same_value(
            a.extra@[i].1,
            b.extra@[i].1,
        )
}

/// Reading with a file path ([`FrontmatterMetadata::from_json_with_file_path`],
/// whatever the path) and reading with the `path_to_title` resolver
/// ([`FrontmatterMetadata::from_json_with_markdown_links`]) give the same
/// metadata, field by field.
pub proof fn law_file_path_reading_equals_resolver_reading<F: Fn(&str) -> String>(
    f: F,
    v: Value,
    by_path: FrontmatterMetadata,
    by_resolver: FrontmatterMetadata,
)
    requires
        forall|a: &str, s: String| #[trigger] f.ensures((a,), s) ==> s@ == title_spec(a@),
        read_std(by_path, v),
        read_by(by_resolver, v, f),
    ensures
        same_metadata(by_path, by_resolver),
{
    law_path_titles_read_as_file_path(f, v, by_resolver);
    let ws = put_extras(Seq::empty(), extra_source(v));
    lemma_extras_like(Seq::empty(), extra_source(v));
    assert forall|i: int| 0 <= i < by_path.extra@.len() implies (#[trigger] by_path.extra@[i]).0@
        == by_resolver.extra@[i].0@ && same_value(by_path.extra@[i].1, by_resolver.extra@[i].1) by {
        assert(ws[i].1 is Like);
        let u = ws[i].1->Like_0;
        assert(fits(by_path.extra@[i].1, ws[i].1));
        assert(fits(by_resolver.extra@[i].1, ws[i].1));
        lemma_same_value_through(by_path.extra@[i].1, u, by_resolver.extra@[i].1);
    }
}

/// A reference already written as a markdown link `[title](/path)` whose
/// title holds no `]` and whose path holds no `)`.
pub open spec fn is_formatted_link(raw: Seq<char>) -> bool {
    exists|p: Seq<char>, t: Seq<char>|
        !t.contains(']') && !p.contains(')') && raw == #[trigger] format_link_spec(p, t)
}

/// A formatted link is written as it stands, whatever the resolver.
proof fn lemma_formatted_kept<F: Fn(&str) -> String>(f: F, raw: Seq<char>, out: Seq<char>)
    requires
        is_formatted_link(raw),
        written_by(raw, out, f),
    ensures
        out == raw,
{
    let (p, t) = choose|p: Seq<char>, t: Seq<char>|
        !t.contains(']') && !p.contains(')') && raw == #[trigger] format_link_spec(p, t);
    law_format_link_parses_back(p, t);
}

/// A list of formatted links is written as it stands.
proof fn lemma_all_formatted_kept<F: Fn(&str) -> String>(
    f: F,
    raws: Seq<Seq<char>>,
    outs: Seq<Seq<char>>,
)
    requires
        forall|i: int| 0 <= i < raws.len() ==> is_formatted_link(#[trigger] raws[i]),
        all_written_by(raws, outs, f),
    ensures
        outs == raws,
{
    assert forall|i: int| 0 <= i < raws.len() implies outs[i] == raws[i] by {
        assert(written_by(raws[i], outs[i], f));
        lemma_formatted_kept(f, raws[i], outs[i]);
    }
    assert(outs =~= raws);
}

/// Links already written as markdown links are kept as they are, never
/// wrapped again: when the `part_of` and `contents` of a value are
/// formatted links, reading it with any resolver gives them back
/// unchanged, and the resolver's titles play no part.
pub proof fn law_formatted_links_kept<F: Fn(&str) -> String>(f: F, v: Value, r: FrontmatterMetadata)
    requires
        read_by(r, v, f),
        get_text(v, "part_of"@) matches Some(raw) ==> is_formatted_link(raw),
        get_list(v, "contents"@) matches Some(l) ==> forall|i: int|
            0 <= i < texts_of(l).len() ==> is_formatted_link(#[trigger] texts_of(l)[i]),
    ensures
        opt_text(r.part_of) == get_text(v, "part_of"@),
        opt_texts(r.contents) == match get_list(v, "contents"@) {
            Some(l) => Some(texts_of(l)),
            None => None,
        },
{
    match get_text(v, "part_of"@) {
        Some(raw) => lemma_formatted_kept(f, raw, r.part_of->0@),
        None => {},
    }
    match get_list(v, "contents"@) {
        Some(l) => lemma_all_formatted_kept(f, texts_of(l), r.contents->0@.map_values(|s: String| s@)),
        None => {},
    }
}

impl FrontmatterMetadata {
    /// Read metadata from a value (typically from `FileMetadata`), writing
    /// links as markdown links with workspace-root paths titled by
    /// `path_to_title` when they have no title.
    pub fn from_json(value: &Value) -> (r: Self)
        ensures
            read_std(r, *value),
    {
        Self::from_json_with_file_path(value, None)
    }

    /// As [`from_json`](Self::from_json); the file's canonical path is not
    /// needed for workspace-root links.
    pub fn from_json_with_file_path(value: &Value, _canonical_file_path: Option<&str>) -> (r: Self)
        ensures
            read_std(r, *value),
    {
        let f = |p: &str| -> (t: String)
            ensures
                t@ == title_spec(p@),
            { path_to_title(p) };
        let ghost g = f;
        let r = Self::from_json_with_markdown_links(value, f);
        proof {
            law_path_titles_read_as_file_path(g, *value, r);
        }
        r
    }

    /// Read metadata from a value, writing `link`, `part_of`, `links`,
    /// `link_of` and `contents` as markdown links with workspace-root paths
    /// (titled by `title_resolver` when the reference has no title) and
    /// `attachments` as markdown links titled by file name.
    pub fn from_json_with_markdown_links<F: Fn(&str) -> String>(
        value: &Value,
        title_resolver: F,
    ) -> (r: Self)
        requires
            forall|a: &str| #[trigger] title_resolver.requires((a,)),
        ensures
            read_by(r, *value, title_resolver),
    {
        let f = &title_resolver;
        let title = get_text_exec(value, "title");
        let link = match get_field(value, "link") {
            Some(Value::String(s)) => Some(write_link(s.as_str(), f)),
            _ => None,
        };
        let links = match get_field(value, "links") {
            Some(Value::Sequence(l)) => Some(write_links(l, f)),
            _ => None,
        };
        let link_of = match get_field(value, "link_of") {
            Some(Value::Sequence(l)) => Some(write_links(l, f)),
            _ => None,
        };
        let part_of = match get_field(value, "part_of") {
            Some(Value::String(s)) => Some(write_link(s.as_str(), f)),
            _ => None,
        };
        let contents = match get_field(value, "contents") {
            Some(Value::Sequence(l)) => Some(write_links(l, f)),
            _ => None,
        };
        let attachments = match get_field(value, "attachments") {
            Some(Value::Sequence(l)) => Some(write_attachments(l)),
            _ => None,
        };
        let audience = match get_field(value, "audience") {
            Some(Value::Sequence(l)) => Some(texts_exec(l)),
            _ => None,
        };
        let description = get_text_exec(value, "description");
        let updated = match get_field(value, "modified_at") {
            Some(Value::Int(n)) => Some(*n),
            _ => None,
        };
        let mut extra: Vec<(String, Value)> = Vec::new();
        match get_field(value, "extra") {
            Some(Value::Mapping(ps)) => {
                put_non_internal(&mut extra, ps, Ghost(Seq::empty()));
            },
            _ => {},
        }
        FrontmatterMetadata {
            title,
            link,
            links,
            link_of,
            part_of,
            contents,
            attachments,
            audience,
            description,
            updated,
            extra,
        }
    }
}

/// A file written with metadata: the body alone when the YAML is empty,
/// else the YAML between `---` fences, then the body.
pub open spec fn document_spec(yaml: Seq<char>, body: Seq<char>) -> Seq<char> {
    if yaml.len() == 0 {
        body
    } else {
        seq!['-', '-', '-', '\n'] + yaml + seq!['\n', '-', '-', '-', '\n'] + body
    }
}

/// The text of a file written with YAML frontmatter `yaml` and `body` (see
/// [`document_spec`]).
pub fn document_with_yaml(yaml: &str, body: &str) -> (r: String)
    ensures
        r@ == document_spec(yaml@, body@),
{
    let y = chars_of(yaml);
    if y.len() == 0 {
        return body.to_string();
    }
    let mut out: Vec<char> = vec!['-', '-', '-', '\n'];
    crate::text::extend_chars(&mut out, &y);
    out.push('\n');
    out.push('-');
    out.push('-');
    out.push('-');
    out.push('\n');
    crate::text::extend_chars(&mut out, &chars_of(body));
    assert(out@ =~= document_spec(yaml@, body@));
    string_of(&out)
}

// ---------------------------------------------------------------------------
// Keeping the links of the file being replaced
// ---------------------------------------------------------------------------

/// Where key `k` first stands in `ps`.
pub open spec fn first_key(ps: Seq<(String, Value)>, k: Seq<char>) -> Option<int>
    decreases ps.len(),
{
    if ps.len() == 0 {
        None
    } else if ps[0].0@ == k {
        Some(0)
    } else {
        match first_key(ps.drop_first(), k) {
            Some(i) => Some(i + 1),
            None => None,
        }
    }
}

/// Whether `r` is `ps` with `k` set to `v`: in place where the key first
/// stands, else appended.
pub open spec fn put_as(r: Seq<(String, Value)>, ps: Seq<(String, Value)>, k: Seq<char>, v: Value) -> bool {
    match first_key(ps, k) {
        Some(i) => {
            &&& r.len() == ps.len()
            &&& forall|j: int| 0 <= j < ps.len() && j != i ==> r[j] == ps[j]
            &&& r[i].0@ == k
            &&& r[i].1 == v
        },
        None => {
            &&& r.len() == ps.len() + 1
            &&& r.drop_last() == ps
            &&& r.last().0@ == k
            &&& r.last().1 == v
        },
    }
}

/// Whether a property is missing or null.
pub open spec fn unset(ps: Seq<(String, Value)>, k: Seq<char>) -> bool {
    match pairs_get(ps, k) {
        None => true,
        Some(Value::Null) => true,
        _ => false,
    }
}

/// Whether `v` is a list of exactly the strings `texts`.
pub open spec fn holds_texts(v: Value, texts: Seq<Seq<char>>) -> bool {
    v matches Value::Sequence(xs) && xs@.len() == texts.len() && forall|i: int|
        0 <= i < texts.len() ==> (#[trigger] xs@[i] matches Value::String(s) && s@ == texts[i])
}

/// Sets `k` to `v` in `ps`.
pub(crate) fn put_value(entries: Vec<(String, Value)>, k: &str, v: Value) -> (r: Vec<(String, Value)>)
    ensures
        put_as(r@, entries@, k@, v),
{
    let kc = chars_of(k);
    let mut ps = entries;
    let mut i: usize = 0;
    let ghost orig = ps@;
    assert(orig.skip(0) =~= orig);
    while i < ps.len()
        invariant
            i <= ps@.len(),
            ps@ == orig,
            orig == entries@,
            kc@ == k@,
            first_key(orig, k@) == (match first_key(orig.skip(i as int), k@) {
                Some(j) => Some(j + i),
                None => None::<int>,
            }),
        decreases ps.len() - i,
    {
        assert(orig.skip(i as int).drop_first() =~= orig.skip(i + 1));
        assert(orig.skip(i as int)[0] == orig[i as int]);
        if chars_eq(&chars_of(ps[i].0.as_str()), &kc) {
            assert(first_key(orig.skip(i as int), k@) == Some(0int));
            let (key, _old) = ps.remove(i);
            ps.insert(i, (key, v));
            assert(ps@ =~= orig.update(i as int, (orig[i as int].0, v)));
            assert(first_key(orig, k@) == Some(i as int));
            return ps;
        }
        i += 1;
    }
    assert(orig.skip(orig.len() as int) =~= Seq::<(String, Value)>::empty());
    ps.push((k.to_string(), v));
    assert(ps@.drop_last() =~= orig);
    ps
}

/// Whether a property is missing or null.
fn unset_exec(ps: &Vec<(String, Value)>, k: &str) -> (r: bool)
    ensures
        r == unset(ps@, k@),
{
    match value_in(ps, k) {
        None => true,
        Some(Value::Null) => true,
        _ => false,
    }
}

/// The value under key `k`.
fn value_in<'a>(ps: &'a Vec<(String, Value)>, k: &str) -> (r: Option<&'a Value>)
    ensures
        match r {
            Some(v) => pairs_get(ps@, k@) == Some(*v),
            None => pairs_get(ps@, k@) is None,
        },
{
    let kc = chars_of(k);
    let mut i: usize = 0;
    assert(ps@.subrange(0, ps@.len() as int) =~= ps@);
    while i < ps.len()
        invariant
            i <= ps.len(),
            kc@ == k@,
            pairs_get(ps@, k@) == pairs_get(ps@.subrange(i as int, ps@.len() as int), k@),
        decreases ps.len() - i,
    {
        let ghost rest = ps@.subrange(i as int, ps@.len() as int);
        assert(rest.drop_first() =~= ps@.subrange(i + 1, ps@.len() as int));
        if chars_eq(&chars_of(ps[i].0.as_str()), &kc) {
            return Some(&ps[i].1);
        }
        i += 1;
    }
    None
}

/// The string items of a list, as a list value.
fn string_list(xs: &Vec<Value>) -> (r: Value)
    ensures
        holds_texts(r, texts_of(xs@)),
{
    let mut out: Vec<Value> = Vec::new();
    let mut i: usize = 0;
    while i < xs.len()
        invariant
            i <= xs@.len(),
            out@.len() == texts_of(xs@.take(i as int)).len(),
            forall|j: int|
                0 <= j < out@.len() ==> (#[trigger] out@[j] matches Value::String(s) && s@ == texts_of(
                    xs@.take(i as int),
                )[j]),
        decreases xs.len() - i,
    {
        assert(xs@.take(i + 1).drop_last() =~= xs@.take(i as int));
        assert(xs@.take(i + 1).last() == xs@[i as int]);
        match &xs[i] {
            Value::String(s) => {
                out.push(Value::String(s.clone()));
            },
            _ => {},
        }
        i += 1;
    }
    assert(xs@.take(xs@.len() as int) =~= xs@);
    Value::Sequence(out)
}

/// Whether `m` is `md` with the file's `contents` kept: when `md` leaves
/// `contents` out or null and the file `existing` has a `contents` list,
/// `m` sets it to that list's strings; else `m` is `md`.
pub open spec fn kept_contents(m: Seq<(String, Value)>, md: Seq<(String, Value)>, existing: Seq<(String, Value)>) -> bool {
    match pairs_get(existing, "contents"@) {
        Some(Value::Sequence(xs)) => if unset(md, "contents"@) {
            exists|v: Value| holds_texts(v, texts_of(xs@)) && #[trigger] put_as(m, md, "contents"@, v)
        } else {
            m == md
        },
        _ => m == md,
    }
}

/// Whether `r` is `m` with the file's `part_of` kept: when `m` leaves
/// `part_of` out or null and the file has a string `part_of`, `r` sets it
/// to that string; else `r` is `m`.
pub open spec fn kept_part_of(r: Seq<(String, Value)>, m: Seq<(String, Value)>, existing: Seq<(String, Value)>) -> bool {
    match pairs_get(existing, "part_of"@) {
        Some(Value::String(p)) => if unset(m, "part_of"@) {
            exists|v: Value| (v matches Value::String(s) && s@ == p@) && #[trigger] put_as(r, m, "part_of"@, v)
        } else {
            r == m
        },
        _ => r == m,
    }
}

/// The metadata to write over a file whose frontmatter is `existing`: a
/// `contents` or `part_of` that `metadata` leaves out or sets to null is
/// kept from the file (see [`kept_contents`], [`kept_part_of`]).
pub fn keep_existing_links(metadata: Vec<(String, Value)>, existing: &Vec<(String, Value)>) -> (r: Vec<
    (String, Value),
>)
    ensures
        exists|m: Seq<(String, Value)>|
            #[trigger] kept_contents(m, metadata@, existing@) && kept_part_of(r@, m, existing@),
{
    let mut md = metadata;
    let ghost md0 = md@;
    match value_in(existing, "contents") {
        Some(Value::Sequence(xs)) => if unset_exec(&md, "contents") {
            let v = string_list(xs);
            md = put_value(md, "contents", v);
        },
        _ => {},
    }
    let ghost m = md@;
    assert(kept_contents(m, md0, existing@));
    match value_in(existing, "part_of") {
        Some(Value::String(p)) => if unset_exec(&md, "part_of") {
            let v = Value::String(p.clone());
            md = put_value(md, "part_of", v);
        },
        _ => {},
    }
    assert(kept_part_of(md@, m, existing@));
    md
}

// ---------------------------------------------------------------------------
// What the written YAML holds
// ---------------------------------------------------------------------------

/// Putting extra properties keeps in place every wanted entry whose key
/// none of them has.
proof fn lemma_put_extras_keeps(ws: Seq<(Seq<char>, Want)>, extra: Seq<(String, Value)>, i: int)
    requires
        0 <= i < ws.len(),
        forall|j: int| 0 <= j < extra.len() ==> (#[trigger] extra[j]).0@ != ws[i].0,
    ensures
        i < put_extras(ws, extra).len(),
        put_extras(ws, extra)[i] == ws[i],
    decreases extra.len(),
{
    if extra.len() > 0 {
        let e0 = extra.drop_last();
        assert forall|j: int| 0 <= j < e0.len() implies (#[trigger] e0[j]).0@ != ws[i].0 by {
            assert(e0[j] == extra[j]);
        }
        lemma_put_extras_keeps(ws, e0, i);
        let w = put_extras(ws, e0);
        let k = extra.last().0@;
        assert(extra.last() == extra[extra.len() - 1]);
        if exists|f: int| #[trigger] is_first(w, k, f) {
            let f = choose|f: int| #[trigger] is_first(w, k, f);
            assert(f != i);
        }
    }
}

/// An entry pushed when a condition holds stays where it was pushed.
/// Whether an entry holds exactly the strings `texts`, in order.
pub open spec fn holds_strings(v: Value, texts: Seq<String>) -> bool {
    v matches Value::Sequence(xs) && xs@.len() == texts.len() && forall|j: int|
        0 <= j < texts.len() ==> (#[trigger] xs@[j] matches Value::String(s) && s@ == texts[j]@)
}

/// Whether no extra property has key `k`.
pub open spec fn no_extra_key(m: FrontmatterMetadata, k: Seq<char>) -> bool {
    forall|j: int| 0 <= j < m.extra@.len() ==> (#[trigger] m.extra@[j]).0@ != k
}

proof fn lemma_push_if_contains(ws: Seq<(Seq<char>, Want)>, cond: bool, k: Seq<char>, w: Want)
    ensures
        forall|x: (Seq<char>, Want)|
            (ws.contains(x) || (cond && x == (k, w))) ==> #[trigger] push_if(ws, cond, k, w).contains(x),
{
    assert forall|x: (Seq<char>, Want)| (ws.contains(x) || (cond && x == (k, w))) implies #[trigger] push_if(
        ws,
        cond,
        k,
        w,
    ).contains(x) by {
        if cond {
            let p = ws.push((k, w));
            if ws.contains(x) {
                let i = choose|i: int| 0 <= i < ws.len() && ws[i] == x;
                assert(p[i] == x);
            } else {
                assert(p[ws.len() as int] == x);
            }
        }
    }
}

proof fn lemma_listed_is_written(
    m: FrontmatterMetadata,
    es: Seq<(String, Value)>,
    ws: Seq<(Seq<char>, Want)>,
    k: Seq<char>,
    w: Want,
)
    requires
        fits_all(es, put_extras(ws, m.extra@)),
        ws.contains((k, w)),
        no_extra_key(m, k),
    ensures
        exists|i: int| 0 <= i < es.len() && (#[trigger] es[i]).0@ == k && fits(es[i].1, w),
{
    let i = choose|i: int| 0 <= i < ws.len() && ws[i] == (k, w);
    lemma_put_extras_keeps(ws, m.extra@, i);
    assert(es[i].0@ == k && fits(es[i].1, w));
}

/// Whether some entry has key `k` and the string `t`.
pub open spec fn has_text_entry(es: Seq<(String, Value)>, k: Seq<char>, t: Seq<char>) -> bool {
    exists|i: int| 0 <= i < es.len() && (#[trigger] es[i]).0@ == k && (es[i].1 matches Value::String(s) && s@ == t)
}

/// Whether some entry has key `k` and holds exactly the strings `l`.
pub open spec fn has_list_entry(es: Seq<(String, Value)>, k: Seq<char>, l: Seq<String>) -> bool {
    exists|i: int| 0 <= i < es.len() && (#[trigger] es[i]).0@ == k && holds_strings(es[i].1, l)
}

/// Every field of the metadata is written: the entries of the written YAML
/// hold the title, link, part of and description texts when they are set,
/// the contents list when it is set (even empty), and the links, backlinks,
/// audience and attachments lists when they are not empty, each under its
/// own key and exactly as given; the update time is written under
/// `updated` when it is set, as the given text when there is one and as
/// the number otherwise. A field is only promised where no extra property
/// of the same name replaces it.
pub proof fn law_fields_written(m: FrontmatterMetadata, t: Option<Seq<char>>, es: Seq<(String, Value)>)
    requires
        fits_all(es, wanted_entries(m, t)),
    ensures
        m.title is Some && no_extra_key(m, "title"@) ==> has_text_entry(es, "title"@, m.title->0@),
        m.link is Some && no_extra_key(m, "link"@) ==> has_text_entry(es, "link"@, m.link->0@),
        m.links is Some && m.links->0@.len() > 0 && no_extra_key(m, "links"@) ==> has_list_entry(
            es,
            "links"@,
            m.links->0@,
        ),
        m.link_of is Some && m.link_of->0@.len() > 0 && no_extra_key(m, "link_of"@) ==> has_list_entry(
            es,
            "link_of"@,
            m.link_of->0@,
        ),
        m.part_of is Some && no_extra_key(m, "part_of"@) ==> has_text_entry(es, "part_of"@, m.part_of->0@),
        m.contents is Some && no_extra_key(m, "contents"@) ==> has_list_entry(es, "contents"@, m.contents->0@),
        m.audience is Some && m.audience->0@.len() > 0 && no_extra_key(m, "audience"@) ==> has_list_entry(
            es,
            "audience"@,
            m.audience->0@,
        ),
        m.description is Some && no_extra_key(m, "description"@) ==> has_text_entry(
            es,
            "description"@,
            m.description->0@,
        ),
        m.attachments is Some && m.attachments->0@.len() > 0 && no_extra_key(m, "attachments"@) ==> has_list_entry(
            es,
            "attachments"@,
            m.attachments->0@,
        ),
        m.updated is Some && t is Some && no_extra_key(m, "updated"@) ==> has_text_entry(es, "updated"@, t->0),
        m.updated is Some && t is None && no_extra_key(m, "updated"@) ==> exists|i: int|
            0 <= i < es.len() && (#[trigger] es[i]).0@ == "updated"@ && es[i].1 == Value::Int(m.updated->0),
{
    let w0 = Seq::<(Seq<char>, Want)>::empty();
    let w1 = push_if(w0, m.title is Some, "title"@, Want::Text(opt_text(m.title)->0));
    let w2 = push_if(w1, m.link is Some, "link"@, Want::Text(opt_text(m.link)->0));
    let w3 = push_if(w2, m.links is Some && opt_texts(m.links)->0.len() > 0, "links"@,
        Want::Texts(opt_texts(m.links)->0));
    let w4 = push_if(w3, m.link_of is Some && opt_texts(m.link_of)->0.len() > 0, "link_of"@,
        Want::Texts(opt_texts(m.link_of)->0));
    let w5 = push_if(w4, m.part_of is Some, "part_of"@, Want::Text(opt_text(m.part_of)->0));
    let w6 = push_if(w5, m.contents is Some, "contents"@, Want::Texts(opt_texts(m.contents)->0));
    let w7 = push_if(w6, m.audience is Some && opt_texts(m.audience)->0.len() > 0, "audience"@,
        Want::Texts(opt_texts(m.audience)->0));
    let w8 = push_if(w7, m.description is Some, "description"@, Want::Text(opt_text(m.description)->0));
    let w9 = push_if(w8, m.attachments is Some && opt_texts(m.attachments)->0.len() > 0, "attachments"@,
        Want::Texts(opt_texts(m.attachments)->0));
    let uw = match t {
        Some(tt) => Want::Text(tt),
        None => Want::Number(m.updated->0),
    };
    let w10 = push_if(w9, m.updated is Some, "updated"@, uw);
    assert(wanted_entries(m, t) == put_extras(w10, m.extra@));
    lemma_push_if_contains(w0, m.title is Some, "title"@, Want::Text(opt_text(m.title)->0));
    lemma_push_if_contains(w1, m.link is Some, "link"@, Want::Text(opt_text(m.link)->0));
    lemma_push_if_contains(w2, m.links is Some && opt_texts(m.links)->0.len() > 0, "links"@,
        Want::Texts(opt_texts(m.links)->0));
    lemma_push_if_contains(w3, m.link_of is Some && opt_texts(m.link_of)->0.len() > 0, "link_of"@,
        Want::Texts(opt_texts(m.link_of)->0));
    lemma_push_if_contains(w4, m.part_of is Some, "part_of"@, Want::Text(opt_text(m.part_of)->0));
    lemma_push_if_contains(w5, m.contents is Some, "contents"@, Want::Texts(opt_texts(m.contents)->0));
    lemma_push_if_contains(w6, m.audience is Some && opt_texts(m.audience)->0.len() > 0, "audience"@,
        Want::Texts(opt_texts(m.audience)->0));
    lemma_push_if_contains(w7, m.description is Some, "description"@, Want::Text(opt_text(m.description)->0));
    lemma_push_if_contains(w8, m.attachments is Some && opt_texts(m.attachments)->0.len() > 0, "attachments"@,
        Want::Texts(opt_texts(m.attachments)->0));
    lemma_push_if_contains(w9, m.updated is Some, "updated"@, uw);
    if m.title is Some && no_extra_key(m, "title"@) {
        lemma_listed_is_written(m, es, w10, "title"@, Want::Text(opt_text(m.title)->0));
    }
    if m.link is Some && no_extra_key(m, "link"@) {
        lemma_listed_is_written(m, es, w10, "link"@, Want::Text(opt_text(m.link)->0));
    }
    if m.links is Some && m.links->0@.len() > 0 && no_extra_key(m, "links"@) {
        lemma_listed_is_written(m, es, w10, "links"@, Want::Texts(opt_texts(m.links)->0));
        lemma_holds_texts(es, "links"@, m.links->0@);
    }
    if m.link_of is Some && m.link_of->0@.len() > 0 && no_extra_key(m, "link_of"@) {
        lemma_listed_is_written(m, es, w10, "link_of"@, Want::Texts(opt_texts(m.link_of)->0));
        lemma_holds_texts(es, "link_of"@, m.link_of->0@);
    }
    if m.part_of is Some && no_extra_key(m, "part_of"@) {
        lemma_listed_is_written(m, es, w10, "part_of"@, Want::Text(opt_text(m.part_of)->0));
    }
    if m.contents is Some && no_extra_key(m, "contents"@) {
        lemma_listed_is_written(m, es, w10, "contents"@, Want::Texts(opt_texts(m.contents)->0));
        lemma_holds_texts(es, "contents"@, m.contents->0@);
    }
    if m.audience is Some && m.audience->0@.len() > 0 && no_extra_key(m, "audience"@) {
        lemma_listed_is_written(m, es, w10, "audience"@, Want::Texts(opt_texts(m.audience)->0));
        lemma_holds_texts(es, "audience"@, m.audience->0@);
    }
    if m.description is Some && no_extra_key(m, "description"@) {
        lemma_listed_is_written(m, es, w10, "description"@, Want::Text(opt_text(m.description)->0));
    }
    if m.attachments is Some && m.attachments->0@.len() > 0 && no_extra_key(m, "attachments"@) {
        lemma_listed_is_written(m, es, w10, "attachments"@, Want::Texts(opt_texts(m.attachments)->0));
        lemma_holds_texts(es, "attachments"@, m.attachments->0@);
    }
    if m.updated is Some && no_extra_key(m, "updated"@) {
        lemma_listed_is_written(m, es, w10, "updated"@, uw);
    }
}

proof fn lemma_holds_texts(es: Seq<(String, Value)>, k: Seq<char>, l: Seq<String>)
    requires
        exists|i: int|
            0 <= i < es.len() && (#[trigger] es[i]).0@ == k && fits(es[i].1, Want::Texts(l.map_values(|s: String| s@))),
    ensures
        has_list_entry(es, k, l),
{
    let i = choose|i: int|
        0 <= i < es.len() && (#[trigger] es[i]).0@ == k && fits(es[i].1, Want::Texts(l.map_values(|s: String| s@)));
    assert(holds_strings(es[i].1, l));
}

} // verus!
