//! Writing imported entries into a workspace: the date-based folder
//! hierarchy (`folder/YYYY/MM/YYYY-MM-DD-slug.md`), the file each entry
//! becomes, and the root, year and month indexes that link them.

use vstd::prelude::*;
use vstd::set_lib::*;
use vstd::relations::injective_on;
use crate::entry::helpers::{capitalize_spec, slug_spec, slugify};
use crate::import::dayone::{utc_day, utc_day_of};
use crate::text::{char_to_uppercase, chars_eq, chars_of, extend_chars, string_of};
use crate::yaml::emit::{digit_char, digits, digits_exec, mapping_text, mapping_yaml};
use crate::yaml::{clone_value, same_value, Value};
use crate::import::{ImportedAttachment, ImportedEntry};
use crate::link_parser::format_link_spec;
use crate::metadata_writer::{first_key, holds_texts, put_as, put_value};
use crate::import::directory::names;
use crate::import::hierarchy::{
    file_month_exec, file_year_exec, lemma_year_tree_distinct, month_dir, month_dir_exec, month_file_is,
    month_index, month_key, month_key_exec, month_nodes, month_title, month_title_exec, month_tree,
    root_file_is, root_index, root_key, root_key_exec, year_file_is, year_index, year_nodes, year_tree,
    MonthDraft, Placed, YearDraft,
};
use crate::link_parser::format_link;
use crate::entry::helpers::{prettify_filename, prettify_spec};
use crate::text::{find, find_chars};

verus! {

// ---------------------------------------------------------------------------
// Dates and names
// ---------------------------------------------------------------------------

/// The UTC year and month of an epoch-millisecond time, as `chrono`
/// formats them with `%Y` and `%m`, when the time is in the calendar's
/// range.
pub uninterp spec fn utc_year_month_of(millis: i64) -> Option<(Seq<char>, Seq<char>)>;

/// `chrono::DateTime::from_timestamp_millis(millis)` formatted with `%Y`
/// and with `%m`. Its answer is taken to be a function of `millis` alone,
/// named `utc_year_month_of`; the calendar arithmetic behind it is not
/// stated.
#[verifier::external_body]
fn utc_year_month(millis: i64) -> (r: Option<(String, String)>)
    ensures
        match r {
            Some((y, m)) => utc_year_month_of(millis) == Some((y@, m@)),
            None => utc_year_month_of(millis) is None,
        },
{
    match chrono::DateTime::from_timestamp_millis(millis) {
        Some(t) => Some((t.format("%Y").to_string(), t.format("%m").to_string())),
        None => None,
    }
}

/// The RFC 3339 text of an epoch-millisecond time in UTC, as `chrono`'s
/// `to_rfc3339` writes it, when the time is in the calendar's range.
pub uninterp spec fn utc_rfc3339_of(millis: i64) -> Option<Seq<char>>;

/// `chrono::DateTime::from_timestamp_millis(millis)` written with
/// `to_rfc3339`. Its answer is taken to be a function of `millis` alone,
/// named `utc_rfc3339_of`; the formatting behind it is not stated.
#[verifier::external_body]
fn utc_rfc3339(millis: i64) -> (r: Option<String>)
    ensures
        match r {
            Some(t) => utc_rfc3339_of(millis) == Some(t@),
            None => utc_rfc3339_of(millis) is None,
        },
{
    match chrono::DateTime::from_timestamp_millis(millis) {
        Some(t) => Some(t.to_rfc3339()),
        None => None,
    }
}

/// The slug an entry's filename takes from its title; `untitled` when the
/// title leaves none.
pub open spec fn entry_slug_spec(title: Seq<char>) -> Seq<char> {
    if slug_spec(title).len() == 0 {
        "untitled"@
    } else {
        slug_spec(title)
    }
}

/// The slug an entry's filename takes from its title.
pub fn entry_slug(title: &str) -> (r: String)
    ensures
        r@ == entry_slug_spec(title@),
{
    let slug = slugify(title);
    if chars_of(slug.as_str()).len() == 0 {
        "untitled".to_string()
    } else {
        slug
    }
}

/// `s` with its first character in upper case.
pub fn capitalize(s: &str) -> (r: String)
    ensures
        r@ == capitalize_spec(s@),
{
    let c = chars_of(s);
    if c.len() == 0 {
        return String::new();
    }
    let mut out = char_to_uppercase(c[0]);
    let ghost head = out@;
    let mut i: usize = 1;
    while i < c.len()
        invariant
            1 <= i <= c@.len(),
            out@ == head + c@.subrange(1, i as int),
        decreases c.len() - i,
    {
        out.push(c[i]);
        i += 1;
        assert(out@ =~= head + c@.subrange(1, i as int));
    }
    assert(c@.subrange(1, c@.len() as int) =~= c@.drop_first());
    string_of(&out)
}

// ---------------------------------------------------------------------------
// Free file names
// ---------------------------------------------------------------------------

/// `dir/stem.md`.
pub open spec fn plain_name(dir: Seq<char>, stem: Seq<char>) -> Seq<char> {
    dir + seq!['/'] + stem + seq!['.', 'm', 'd']
}

/// `dir/stem-n.md`.
pub open spec fn numbered_name(dir: Seq<char>, stem: Seq<char>, n: nat) -> Seq<char> {
    dir + seq!['/'] + stem + seq!['-'] + digits(n) + seq!['.', 'm', 'd']
}

/// Whether `n` is the first counter from 2 whose numbered name is free.
pub open spec fn first_free_counter(dir: Seq<char>, stem: Seq<char>, used: Seq<Seq<char>>, n: nat) -> bool {
    &&& n >= 2
    &&& !used.contains(numbered_name(dir, stem, n))
    &&& forall|m: nat| 2 <= m < n ==> used.contains(#[trigger] numbered_name(dir, stem, m))
}

/// The name a file `dir/stem.md` is written under: itself when free, else
/// `dir/stem-N.md` for the first `N` from 2 that is free.
pub open spec fn free_name(dir: Seq<char>, stem: Seq<char>, used: Seq<Seq<char>>) -> Seq<char> {
    if !used.contains(plain_name(dir, stem)) {
        plain_name(dir, stem)
    } else {
        numbered_name(dir, stem, choose|n: nat| first_free_counter(dir, stem, used, n))
    }
}

/// A number's digits end in its last digit.
proof fn lemma_digits_shape(n: nat)
    ensures
        digits(n).len() >= 1,
        n >= 10 ==> digits(n).len() >= 2,
        forall|i: int| 0 <= i < digits(n).len() ==> '0' <= #[trigger] digits(n)[i] <= '9',
    decreases n,
{
    if n >= 10 {
        lemma_digits_shape(n / 10);
    }
}

/// Different digits have different digit characters.
proof fn lemma_digit_char_injective(x: nat, y: nat)
    requires
        x < 10,
        y < 10,
        digit_char(x) == digit_char(y),
    ensures
        x == y,
{
    assert((digit_char(x) as int) == ('0' as int) + x);
    assert((digit_char(y) as int) == ('0' as int) + y);
}

/// Different numbers have different digits.
proof fn lemma_digits_injective(a: nat, b: nat)
    requires
        digits(a) == digits(b),
    ensures
        a == b,
    decreases a,
{
    lemma_digits_shape(a);
    lemma_digits_shape(b);
    if a >= 10 && b >= 10 {
        assert(digits(a).drop_last() == digits(a / 10));
        assert(digits(b).drop_last() == digits(b / 10));
        lemma_digits_injective(a / 10, b / 10);
        assert(digit_char(a % 10) == digits(a).last());
        assert(digit_char(b % 10) == digits(b).last());
        lemma_digit_char_injective(a % 10, b % 10);
    } else if a < 10 && b < 10 {
        assert(digits(a)[0] == digit_char(a));
        assert(digits(b)[0] == digit_char(b));
        lemma_digit_char_injective(a, b);
    }
}

/// Different counters give different names.
proof fn lemma_numbered_injective(dir: Seq<char>, stem: Seq<char>, a: nat, b: nat)
    requires
        numbered_name(dir, stem, a) == numbered_name(dir, stem, b),
    ensures
        a == b,
{
    let p = dir + seq!['/'] + stem + seq!['-'];
    let x = numbered_name(dir, stem, a);
    let y = numbered_name(dir, stem, b);
    assert(x.len() == y.len());
    assert(digits(a).len() == digits(b).len());
    assert(digits(a) =~= x.subrange(p.len() as int, (p.len() + digits(a).len()) as int));
    assert(digits(b) =~= y.subrange(p.len() as int, (p.len() + digits(b).len()) as int));
    lemma_digits_injective(a, b);
}

/// Some counter from 2 to one past the number of used names gives a free
/// name.
proof fn lemma_some_counter_free(dir: Seq<char>, stem: Seq<char>, used: Seq<Seq<char>>)
    ensures
        exists|n: nat| 2 <= n <= used.len() + 2 && !used.contains(#[trigger] numbered_name(dir, stem, n)),
{
    if forall|n: nat| 2 <= n <= used.len() + 2 ==> used.contains(#[trigger] numbered_name(dir, stem, n)) {
        let lo: int = 2;
        let hi: int = used.len() + 3int;
        let f = |i: int| numbered_name(dir, stem, i as nat);
        let range = set_int_range(lo, hi);
        lemma_int_range(lo, hi);
        assert(injective_on(f, range)) by {
            assert forall|i: int, j: int| range.contains(i) && range.contains(j) && #[trigger] f(i) == #[trigger] f(j) implies i == j by {
                lemma_numbered_injective(dir, stem, i as nat, j as nat);
            }
        }
        let names = range.map(f);
        lemma_map_size(range, names, f);
        assert(names.subset_of(used.to_set())) by {
            assert forall|s: Seq<char>| names.contains(s) implies used.to_set().contains(s) by {
                let i = choose|i: int| range.contains(i) && f(i) == s;
                assert(used.contains(numbered_name(dir, stem, i as nat)));
            }
        }
        used.lemma_cardinality_of_set();
        lemma_len_subset(names, used.to_set());
        assert(false);
    }
}

/// The first free counter exists.
proof fn lemma_first_free_counter(dir: Seq<char>, stem: Seq<char>, used: Seq<Seq<char>>)
    ensures
        exists|n: nat| first_free_counter(dir, stem, used, n),
{
    lemma_some_counter_free(dir, stem, used);
    let k = choose|n: nat| 2 <= n <= used.len() + 2 && !used.contains(#[trigger] numbered_name(dir, stem, n));
    lemma_least_free_below(dir, stem, used, k);
}

/// Below a free counter `k` lies a first free one.
proof fn lemma_least_free_below(dir: Seq<char>, stem: Seq<char>, used: Seq<Seq<char>>, k: nat)
    requires
        k >= 2,
        !used.contains(numbered_name(dir, stem, k)),
    ensures
        exists|n: nat| first_free_counter(dir, stem, used, n),
    decreases k,
{
    if forall|m: nat| 2 <= m < k ==> used.contains(#[trigger] numbered_name(dir, stem, m)) {
        assert(first_free_counter(dir, stem, used, k));
    } else {
        let m = choose|m: nat| 2 <= m < k && !used.contains(#[trigger] numbered_name(dir, stem, m));
        lemma_least_free_below(dir, stem, used, m);
    }
}

/// A first free counter comes no later than any free counter.
proof fn lemma_first_free_is_least(dir: Seq<char>, stem: Seq<char>, used: Seq<Seq<char>>, n: nat, k: nat)
    requires
        first_free_counter(dir, stem, used, n),
        k >= 2,
        !used.contains(numbered_name(dir, stem, k)),
    ensures
        n <= k,
{
    if k < n {
        assert(used.contains(numbered_name(dir, stem, k)));
    }
}

/// `dir/stem.md`, or `dir/stem-n.md` when a counter is given.
fn name_with(dir: &str, stem: &str, n: Option<usize>) -> (r: String)
    ensures
        r@ == match n {
            Some(k) => numbered_name(dir@, stem@, k as nat),
            None => plain_name(dir@, stem@),
        },
{
    let mut out = chars_of(dir);
    out.push('/');
    extend_chars(&mut out, &chars_of(stem));
    match n {
        Some(k) => {
            out.push('-');
            extend_chars(&mut out, &digits_exec(k as u64));
        },
        None => {},
    }
    out.push('.');
    out.push('m');
    out.push('d');
    proof {
        match n {
            Some(k) => assert(out@ =~= numbered_name(dir@, stem@, k as nat)),
            None => assert(out@ =~= plain_name(dir@, stem@)),
        }
    }
    string_of(&out)
}

/// Whether `p` is one of `used`.
fn is_used(used: &Vec<String>, p: &str) -> (r: bool)
    ensures
        r == crate::import::directory::names(used@).contains(p@),
{
    let pc = chars_of(p);
    let ghost ns = crate::import::directory::names(used@);
    let mut i: usize = 0;
    while i < used.len()
        invariant
            i <= used@.len(),
            ns == crate::import::directory::names(used@),
            pc@ == p@,
            forall|j: int| 0 <= j < i ==> ns[j] != p@,
        decreases used.len() - i,
    {
        if chars_eq(&chars_of(used[i].as_str()), &pc) {
            assert(ns[i as int] == p@);
            return true;
        }
        i += 1;
    }
    false
}

/// The name `dir/stem.md` is written under, given the names already used
/// (see [`free_name`]).
pub fn deduplicate_path(dir: &str, stem: &str, used: &Vec<String>) -> (r: String)
    requires
        used@.len() + 3 <= usize::MAX,
    ensures
        r@ == free_name(dir@, stem@, crate::import::directory::names(used@)),
{
    let ghost ns = crate::import::directory::names(used@);
    let plain = name_with(dir, stem, None);
    if !is_used(used, plain.as_str()) {
        return plain;
    }
    proof {
        lemma_some_counter_free(dir@, stem@, ns);
        lemma_first_free_counter(dir@, stem@, ns);
    }
    let ghost least = choose|n: nat| first_free_counter(dir@, stem@, ns, n);
    proof {
        let k = choose|n: nat| 2 <= n <= ns.len() + 2 && !ns.contains(#[trigger] numbered_name(dir@, stem@, n));
        lemma_first_free_is_least(dir@, stem@, ns, least, k);
    }
    let mut n: usize = 2;
    loop
        invariant
            2 <= n <= least,
            least <= used@.len() + 2,
            used@.len() + 3 <= usize::MAX,
            ns == crate::import::directory::names(used@),
            first_free_counter(dir@, stem@, ns, least),
            least == choose|n: nat| first_free_counter(dir@, stem@, ns, n),
            ns.contains(plain_name(dir@, stem@)),
            forall|m: nat| 2 <= m < n ==> ns.contains(#[trigger] numbered_name(dir@, stem@, m)),
        decreases least - n,
    {
        let cand = name_with(dir, stem, Some(n));
        if !is_used(used, cand.as_str()) {
            proof {
                lemma_first_free_is_least(dir@, stem@, ns, least, n as nat);
            }
            return cand;
        }
        n += 1;
    }
}

// ---------------------------------------------------------------------------
// The file of an entry
// ---------------------------------------------------------------------------

/// What a frontmatter value of an entry file holds.
pub enum EntryField {
    /// A value kept as the importer gave it.
    Kept(Value),
    /// A string.
    Text(Seq<char>),
    /// A list of strings.
    Texts(Seq<Seq<char>>),
}

/// Whether `v` holds what `f` describes.
pub open spec fn field_is(v: Value, f: EntryField) -> bool {
    match f {
        EntryField::Kept(x) => same_value(v, x),
        EntryField::Text(t) => v matches Value::String(s) && s@ == t,
        EntryField::Texts(ts) => holds_texts(v, ts),
    }
}

/// Where key `k` first stands among described fields.
pub open spec fn first_field(ws: Seq<(Seq<char>, EntryField)>, k: Seq<char>) -> Option<int>
    decreases ws.len(),
{
    if ws.len() == 0 {
        None
    } else if ws[0].0 == k {
        Some(0)
    } else {
        match first_field(ws.drop_first(), k) {
            Some(i) => Some(i + 1),
            None => None,
        }
    }
}

/// Described fields with `k` set to `f`: in place where the key first
/// stands, else appended (`IndexMap::insert`).
pub open spec fn put_field(ws: Seq<(Seq<char>, EntryField)>, k: Seq<char>, f: EntryField) -> Seq<
    (Seq<char>, EntryField),
> {
    match first_field(ws, k) {
        Some(i) => ws.update(i, (k, f)),
        None => ws.push((k, f)),
    }
}

/// Whether the properties `ps` are the described fields `ws`, in order.
pub open spec fn fields_match(ps: Seq<(String, Value)>, ws: Seq<(Seq<char>, EntryField)>) -> bool {
    &&& ps.len() == ws.len()
    &&& forall|i: int| #![trigger ps[i]] 0 <= i < ps.len() ==> ps[i].0@ == ws[i].0 && field_is(ps[i].1, ws[i].1)
}

/// Described fields with each of the properties `md` set in turn.
pub open spec fn with_metadata(ws: Seq<(Seq<char>, EntryField)>, md: Seq<(String, Value)>) -> Seq<
    (Seq<char>, EntryField),
>
    decreases md.len(),
{
    if md.len() == 0 {
        ws
    } else {
        put_field(with_metadata(ws, md.drop_last()), md.last().0@, EntryField::Kept(md.last().1))
    }
}

/// Where an attachment of the entry written at `path` is saved: beside
/// it, in `<stem>/_attachments/`.
pub open spec fn attachment_path(path: Seq<char>, filename: Seq<char>) -> Seq<char> {
    path.subrange(0, path.len() - 3) + "/_attachments/"@ + filename
}

/// The frontmatter of an entry written at `path` in the month with index
/// `month_index` titled `month_title`: its title, its metadata, its date as
/// RFC 3339 text, `part_of` the month index, and its attachments, each set
/// in turn.
pub open spec fn entry_fields(
    e: ImportedEntry,
    path: Seq<char>,
    month_index: Seq<char>,
    month_title: Seq<char>,
) -> Seq<(Seq<char>, EntryField)> {
    let w1 = with_metadata(seq![("title"@, EntryField::Text(e.title@))], e.metadata@);
    let w2 = match e.date {
        Some(d) => match utc_rfc3339_of(d) {
            Some(t) => put_field(w1, "date"@, EntryField::Text(t)),
            None => w1,
        },
        None => w1,
    };
    let w3 = put_field(w2, "part_of"@, EntryField::Text(format_link_spec(month_index, month_title)));
    if e.attachments@.len() > 0 {
        put_field(
            w3,
            "attachments"@,
            EntryField::Texts(
                e.attachments@.map_values(|a: ImportedAttachment| attachment_path(path, a.filename@)),
            ),
        )
    } else {
        w3
    }
}

/// Whether `content` is the file of the entry: its frontmatter (see
/// [`entry_fields`]) as YAML between `---` fences, then its body; the
/// fences alone when the YAML cannot be written.
pub open spec fn entry_file_is(
    content: Seq<char>,
    e: ImportedEntry,
    path: Seq<char>,
    month_index: Seq<char>,
    month_title: Seq<char>,
) -> bool {
    exists|ps: Seq<(String, Value)>|
        #[trigger] fields_match(ps, entry_fields(e, path, month_index, month_title)) && (content
            == "---\n"@ + mapping_text(ps) + "\n---\n"@ + e.body@ || content == "---\n---\n"@ + e.body@)
}

/// Properties and their description agree on where a key first stands.
proof fn lemma_first_key_matches(ps: Seq<(String, Value)>, ws: Seq<(Seq<char>, EntryField)>, k: Seq<char>)
    requires
        fields_match(ps, ws),
    ensures
        first_key(ps, k) == first_field(ws, k),
    decreases ps.len(),
{
    if ps.len() > 0 {
        assert(ps[0].0@ == ws[0].0);
        let (p1, w1) = (ps.drop_first(), ws.drop_first());
        assert forall|i: int| #![trigger p1[i]] 0 <= i < p1.len() implies p1[i].0@ == w1[i].0 && field_is(p1[i].1, w1[i].1) by {
            assert(ps[i + 1].0@ == ws[i + 1].0);
        }
        lemma_first_key_matches(p1, w1, k);
    }
}

/// Where a key first stands among described fields, it stands there.
proof fn lemma_first_field_range(ws: Seq<(Seq<char>, EntryField)>, k: Seq<char>)
    ensures
        first_field(ws, k) matches Some(i) ==> 0 <= i < ws.len() && ws[i].0 == k,
    decreases ws.len(),
{
    if ws.len() > 0 && ws[0].0 != k {
        lemma_first_field_range(ws.drop_first(), k);
    }
}

/// Setting a key keeps properties and their description in step.
proof fn lemma_put_matches(
    ps: Seq<(String, Value)>,
    ws: Seq<(Seq<char>, EntryField)>,
    r: Seq<(String, Value)>,
    k: Seq<char>,
    v: Value,
    f: EntryField,
)
    requires
        fields_match(ps, ws),
        put_as(r, ps, k, v),
        field_is(v, f),
    ensures
        fields_match(r, put_field(ws, k, f)),
{
    lemma_first_key_matches(ps, ws, k);
    lemma_first_field_range(ws, k);
    let w = put_field(ws, k, f);
    match first_key(ps, k) {
        Some(j) => {
            assert(w == ws.update(j, (k, f)));
            assert forall|i: int| #![trigger r[i]] 0 <= i < r.len() implies r[i].0@ == w[i].0 && field_is(r[i].1, w[i].1) by {
                if i != j {
                    assert(r[i] == ps[i]);
                    assert(w[i] == ws[i]);
                }
            }
        },
        None => {
            assert(w == ws.push((k, f)));
            assert forall|i: int| #![trigger r[i]] 0 <= i < r.len() implies r[i].0@ == w[i].0 && field_is(r[i].1, w[i].1) by {
                if i < ps.len() {
                    assert(r[i] == r.drop_last()[i]);
                    assert(ps[i] == r[i]);
                    assert(w[i] == ws[i]);
                } else {
                    assert(r[i] == r.last());
                }
            }
        },
    }
}

/// A list of strings as a list value.
pub(crate) fn texts_value(items: &Vec<String>) -> (r: Value)
    ensures
        holds_texts(r, items@.map_values(|s: String| s@)),
{
    let mut out: Vec<Value> = Vec::new();
    let mut i: usize = 0;
    while i < items.len()
        invariant
            i <= items@.len(),
            out@.len() == i,
            forall|j: int| 0 <= j < i ==> (#[trigger] out@[j] matches Value::String(s) && s@ == items@[j]@),
        decreases items.len() - i,
    {
        out.push(Value::String(items[i].clone()));
        i += 1;
    }
    Value::Sequence(out)
}

/// Where an attachment of the entry written at `path` is saved.
fn attachment_path_exec(path: &str, filename: &str) -> (r: String)
    requires
        path@.len() >= 3,
    ensures
        r@ == attachment_path(path@, filename@),
{
    let p = chars_of(path);
    let mut out = crate::text::slice_chars(&p, 0, p.len() - 3);
    extend_chars(&mut out, &chars_of("/_attachments/"));
    extend_chars(&mut out, &chars_of(filename));
    string_of(&out)
}

/// The file an entry is written as (see [`entry_file_is`]).
pub fn format_entry(e: &ImportedEntry, path: &str, month_index: &str, month_title: &str) -> (r: String)
    requires
        path@.len() >= 3,
    ensures
        entry_file_is(r@, *e, path@, month_index@, month_title@),
{
    let ghost w0 = seq![("title"@, EntryField::Text(e.title@))];
    let mut ps: Vec<(String, Value)> = Vec::new();
    ps.push(("title".to_string(), Value::String(e.title.clone())));
    assert(fields_match(ps@, w0));
    let mut i: usize = 0;
    while i < e.metadata.len()
        invariant
            i <= e.metadata@.len(),
            fields_match(ps@, with_metadata(w0, e.metadata@.take(i as int))),
        decreases e.metadata.len() - i,
    {
        let ghost pre = ps@;
        let ghost wpre = with_metadata(w0, e.metadata@.take(i as int));
        assert(e.metadata@.take(i + 1).drop_last() =~= e.metadata@.take(i as int));
        assert(e.metadata@.take(i + 1).last() == e.metadata@[i as int]);
        let v = clone_value(&e.metadata[i].1);
        ps = put_value(ps, e.metadata[i].0.as_str(), v);
        proof {
            lemma_put_matches(pre, wpre, ps@, e.metadata@[i as int].0@, v, EntryField::Kept(e.metadata@[i as int].1));
        }
        i += 1;
    }
    assert(e.metadata@.take(e.metadata@.len() as int) =~= e.metadata@);
    let ghost w1 = with_metadata(w0, e.metadata@);
    match e.date {
        Some(d) => match utc_rfc3339(d) {
            Some(t) => {
                let ghost pre = ps@;
                let v = Value::String(t);
                ps = put_value(ps, "date", v);
                proof {
                    lemma_put_matches(pre, w1, ps@, "date"@, v, EntryField::Text(t@));
                }
            },
            None => {},
        },
        None => {},
    }
    let ghost w2 = match e.date {
        Some(d) => match utc_rfc3339_of(d) {
            Some(t) => put_field(w1, "date"@, EntryField::Text(t)),
            None => w1,
        },
        None => w1,
    };
    let link = crate::link_parser::format_link(month_index, month_title);
    let ghost pre2 = ps@;
    let lv = Value::String(link);
    ps = put_value(ps, "part_of", lv);
    proof {
        lemma_put_matches(pre2, w2, ps@, "part_of"@, lv, EntryField::Text(format_link_spec(month_index@, month_title@)));
    }
    let ghost w3 = put_field(w2, "part_of"@, EntryField::Text(format_link_spec(month_index@, month_title@)));
    if e.attachments.len() > 0 {
        let mut paths: Vec<String> = Vec::new();
        let mut j: usize = 0;
        while j < e.attachments.len()
            invariant
                j <= e.attachments@.len(),
                path@.len() >= 3,
                paths@.map_values(|s: String| s@) == e.attachments@.take(j as int).map_values(
                    |a: ImportedAttachment| attachment_path(path@, a.filename@),
                ),
            decreases e.attachments.len() - j,
        {
            let ghost pre = paths@.map_values(|s: String| s@);
            let ap = attachment_path_exec(path, e.attachments[j].filename.as_str());
            paths.push(ap);
            assert(paths@.map_values(|s: String| s@) =~= pre.push(ap@));
            assert(e.attachments@.take(j + 1).map_values(|a: ImportedAttachment| attachment_path(path@, a.filename@))
                =~= e.attachments@.take(j as int).map_values(
                |a: ImportedAttachment| attachment_path(path@, a.filename@),
            ).push(attachment_path(path@, e.attachments@[j as int].filename@)));
            j += 1;
        }
        assert(e.attachments@.take(e.attachments@.len() as int) =~= e.attachments@);
        let ghost pre3 = ps@;
        let av = texts_value(&paths);
        ps = put_value(ps, "attachments", av);
        proof {
            lemma_put_matches(pre3, w3, ps@, "attachments"@, av, EntryField::Texts(paths@.map_values(|s: String| s@)));
        }
    }
    let fence = chars_of("---\n");
    let mut out = chars_of("---\n");
    let ghost written: bool;
    match mapping_yaml(&ps) {
        Some(y) => {
            let closing = chars_of("\n---\n");
            extend_chars(&mut out, &chars_of(y.as_str()));
            extend_chars(&mut out, &closing);
            proof {
                written = true;
            }
            assert(out@ == "---\n"@ + mapping_text(ps@) + "\n---\n"@);
        },
        None => {
            extend_chars(&mut out, &fence);
            proof {
                written = false;
            }
            assert(out@ == "---\n"@ + "---\n"@);
        },
    }
    extend_chars(&mut out, &chars_of(e.body.as_str()));
    let r = string_of(&out);
    proof {
        assert(fields_match(ps@, entry_fields(*e, path@, month_index@, month_title@)));
        if written {
            assert(r@ == "---\n"@ + mapping_text(ps@) + "\n---\n"@ + e.body@);
        } else {
            assert(r@ == "---\n"@ + "---\n"@ + e.body@);
            assert("---\n"@ + "---\n"@ =~= "---\n---\n"@) by {
                reveal_strlit("---\n");
                reveal_strlit("---\n---\n");
            }
        }
    }
    r
}

// ---------------------------------------------------------------------------
// Planning an import
// ---------------------------------------------------------------------------

/// The year, month and day (`YYYY`, `MM`, `YYYY-MM-DD`, in UTC) an entry is
/// filed under: those of its date, or of `now` when it has none; nothing
/// when the time is outside the calendar's range.
pub open spec fn entry_parts(e: ImportedEntry, now: i64) -> Option<(Seq<char>, Seq<char>, Seq<char>)> {
    let ms = match e.date {
        Some(d) => d,
        None => now,
    };
    match utc_year_month_of(ms) {
        Some((y, m)) => match utc_day_of(ms) {
            Some(d) => Some((y, m, d)),
            None => None,
        },
        None => None,
    }
}

/// The stem of an entry's file: `YYYY-MM-DD-slug`.
pub open spec fn entry_stem(day: Seq<char>, title: Seq<char>) -> Seq<char> {
    day + seq!['-'] + entry_slug_spec(title)
}

/// The entries placed, in order: each with a date filed in its month's
/// folder under the first free name for its stem, and linked by its title.
pub open spec fn placements(es: Seq<ImportedEntry>, folder: Seq<char>, now: i64) -> Seq<Placed>
    decreases es.len(),
{
    if es.len() == 0 {
        Seq::empty()
    } else {
        let prev = placements(es.drop_last(), folder, now);
        let e = es.last();
        match entry_parts(e, now) {
            Some((y, m, d)) => {
                let path = free_name(
                    month_dir(folder, y, m),
                    entry_stem(d, e.title@),
                    prev.map_values(|p: Placed| p.path),
                );
                prev.push(Placed { year: y, month: m, path, link: format_link_spec(path, e.title@) })
            },
            None => prev,
        }
    }
}

/// The folder an entry's attachments are saved in.
pub open spec fn attachments_dir(path: Seq<char>) -> Seq<char> {
    path.subrange(0, path.len() - 3) + "/_attachments"@
}

/// An entry file to write: the folder to make, the path and content of the
/// file, and where each of its attachments goes.
pub struct EntryFile {
    pub dir: String,
    pub path: String,
    pub content: String,
    pub attachment_dir: String,
    pub attachment_paths: Vec<String>,
}

/// An index file to write unless one is there: the folder to make, and the
/// path and content of the file.
pub struct IndexFile {
    pub dir: String,
    pub path: String,
    pub content: String,
}

/// What an import writes: for each entry its file, or nothing when it has
/// no date to file it under; then the root, year and month indexes.
pub struct ImportPlan {
    pub entries: Vec<Option<EntryFile>>,
    pub indexes: Vec<IndexFile>,
}

/// Whether `f` is the file of entry `e` placed at `path` in the month `y`-`m`.
pub open spec fn entry_file_planned(
    f: EntryFile,
    e: ImportedEntry,
    path: Seq<char>,
    folder: Seq<char>,
    y: Seq<char>,
    m: Seq<char>,
) -> bool {
    &&& f.path@ == path
    &&& f.dir@ == month_dir(folder, y, m)
    &&& entry_file_is(f.content@, e, path, month_key(folder, y, m), month_title(y, m))
    &&& f.attachment_dir@ == attachments_dir(path)
    &&& f.attachment_paths@.len() == e.attachments@.len()
    &&& forall|j: int|
        0 <= j < f.attachment_paths@.len() ==> #[trigger] f.attachment_paths@[j]@ == attachment_path(
            path,
            e.attachments@[j].filename@,
        )
}

/// Whether `w` is what the import writes for entry `i` of `es`.
pub open spec fn entry_planned(w: Option<EntryFile>, es: Seq<ImportedEntry>, i: int, folder: Seq<char>, now: i64) -> bool {
    match entry_parts(es[i], now) {
        None => w is None,
        Some((y, m, d)) => match w {
            Some(f) => entry_file_planned(f, es[i], placements(es.take(i + 1), folder, now).last().path, folder, y, m),
            None => false,
        },
    }
}

/// Whether `ixs` are the indexes of the placed entries `ps`: the root
/// index, then each year's in the order opened, then each month's.
pub open spec fn indexes_planned(ixs: Seq<IndexFile>, folder: Seq<char>, ps: Seq<Placed>) -> bool {
    let ys = year_tree(ps, folder);
    let ms = month_tree(ps, folder);
    &&& ixs.len() == 1 + ys.len() + ms.len()
    &&& ixs[0].dir@ == folder
    &&& ixs[0].path@ == root_key(folder)
    &&& root_file_is(ixs[0].content@, folder, ys)
    &&& forall|k: int|
        0 <= k < ys.len() ==> {
            &&& (#[trigger] ixs[1 + k]).dir@ == folder + seq!['/'] + ys[k].title
            &&& ixs[1 + k].path@ == ys[k].key
            &&& year_file_is(ixs[1 + k].content@, folder, ys[k])
        }
    &&& forall|k: int|
        0 <= k < ms.len() ==> {
            &&& (#[trigger] ixs[1 + ys.len() + k]).dir@ == month_dir(folder, ms[k].year, ms[k].month)
            &&& ixs[1 + ys.len() + k].path@ == ms[k].key
            &&& month_file_is(ixs[1 + ys.len() + k].content@, ys, ms[k])
        }
}

/// The folder an entry's attachments are saved in.
fn attachments_dir_exec(path: &str) -> (r: String)
    requires
        path@.len() >= 3,
    ensures
        r@ == attachments_dir(path@),
{
    let p = chars_of(path);
    let mut out = crate::text::slice_chars(&p, 0, p.len() - 3);
    extend_chars(&mut out, &chars_of("/_attachments"));
    string_of(&out)
}

/// The file of entry `e` once placed at `path` in the month `y`-`m`.
fn entry_file(e: &ImportedEntry, path: String, folder: &str, y: &str, m: &str) -> (r: EntryFile)
    requires
        path@.len() >= 3,
    ensures
        entry_file_planned(r, *e, path@, folder@, y@, m@),
{
    let mk = month_key_exec(folder, y, m);
    let mt = month_title_exec(y, m);
    let content = format_entry(e, path.as_str(), mk.as_str(), mt.as_str());
    let mut paths: Vec<String> = Vec::new();
    let mut j: usize = 0;
    while j < e.attachments.len()
        invariant
            j <= e.attachments@.len(),
            path@.len() >= 3,
            paths@.len() == j,
            forall|t: int|
                0 <= t < j ==> #[trigger] paths@[t]@ == attachment_path(path@, e.attachments@[t].filename@),
        decreases e.attachments.len() - j,
    {
        paths.push(attachment_path_exec(path.as_str(), e.attachments[j].filename.as_str()));
        j += 1;
    }
    EntryFile {
        dir: month_dir_exec(folder, y, m),
        attachment_dir: attachments_dir_exec(path.as_str()),
        path,
        content,
        attachment_paths: paths,
    }
}

/// What importing `entries` into `folder` writes (see [`ImportPlan`]):
/// each entry with a date (`now` standing in for a missing one) goes to
/// `folder/YYYY/MM/YYYY-MM-DD-slug.md`, numbered `-2`, `-3`, … when that
/// name is taken, with `part_of` its month; each month, year and the folder
/// get an index listing what is under them.
pub fn plan_entries(folder: &str, entries: &Vec<ImportedEntry>, now: i64) -> (r: ImportPlan)
    requires
        entries@.len() + 3 <= usize::MAX,
    ensures
        r.entries@.len() == entries@.len(),
        forall|i: int| 0 <= i < entries@.len() ==> entry_planned(#[trigger] r.entries@[i], entries@, i, folder@, now),
        entries@.len() == 0 ==> r.indexes@.len() == 0,
        entries@.len() > 0 ==> indexes_planned(r.indexes@, folder@, placements(entries@, folder@, now)),
{
    let ghost es = entries@;
    let mut used: Vec<String> = Vec::new();
    let mut ys: Vec<YearDraft> = Vec::new();
    let mut ms: Vec<MonthDraft> = Vec::new();
    let mut files: Vec<Option<EntryFile>> = Vec::new();
    let mut i: usize = 0;
    assert(es.take(0) =~= Seq::<ImportedEntry>::empty());
    assert(names(used@) =~= placements(es.take(0), folder@, now).map_values(|p: Placed| p.path));
    while i < entries.len()
        invariant
            i <= es.len(),
            es == entries@,
            es.len() + 3 <= usize::MAX,
            used@.len() <= i,
            names(used@) == placements(es.take(i as int), folder@, now).map_values(|p: Placed| p.path),
            year_nodes(ys@) == year_tree(placements(es.take(i as int), folder@, now), folder@),
            month_nodes(ms@) == month_tree(placements(es.take(i as int), folder@, now), folder@),
            files@.len() == i,
            forall|j: int| 0 <= j < i ==> entry_planned(#[trigger] files@[j], es, j, folder@, now),
        decreases es.len() - i,
    {
        let ghost prev = placements(es.take(i as int), folder@, now);
        assert(es.take(i + 1).drop_last() =~= es.take(i as int));
        assert(es.take(i + 1).last() == es[i as int]);
        let e = &entries[i];
        let when = match e.date {
            Some(d) => d,
            None => now,
        };
        let parts = match utc_year_month(when) {
            Some(ym) => match utc_day(when) {
                Some(d) => Some((ym.0, ym.1, d)),
                None => None,
            },
            None => None,
        };
        match parts {
            Some((y, m, d)) => {
                let mut stem = chars_of(d.as_str());
                stem.push('-');
                extend_chars(&mut stem, &chars_of(entry_slug(e.title.as_str()).as_str()));
                let stem = string_of(&stem);
                assert(stem@ =~= entry_stem(d@, e.title@));
                let dir = month_dir_exec(folder, y.as_str(), m.as_str());
                let path = deduplicate_path(dir.as_str(), stem.as_str(), &used);
                let ghost next = placements(es.take(i + 1), folder@, now);
                let ghost placed = Placed { year: y@, month: m@, path: path@, link: format_link_spec(path@, e.title@) };
                assert(next == prev.push(placed));
                assert(next.drop_last() =~= prev);
                assert(next.last() == placed);
                let link = format_link(path.as_str(), e.title.as_str());
                file_year_exec(&mut ys, folder, y.as_str(), m.as_str(), path.as_str(), link.as_str());
                file_month_exec(&mut ms, folder, y.as_str(), m.as_str(), path.as_str(), link.as_str());
                let ghost u0 = used@;
                used.push(path.clone());
                assert(names(used@) =~= names(u0).push(path@));
                assert(next.map_values(|p: Placed| p.path) =~= prev.map_values(|p: Placed| p.path).push(path@));
                let f = entry_file(e, path, folder, y.as_str(), m.as_str());
                files.push(Some(f));
            },
            None => {
                assert(placements(es.take(i + 1), folder@, now) == prev);
                files.push(None);
            },
        }
        i += 1;
    }
    assert(es.take(es.len() as int) =~= es);
    let mut indexes: Vec<IndexFile> = Vec::new();
    if entries.len() == 0 {
        return ImportPlan { entries: files, indexes };
    }
    let ghost ps = placements(es, folder@, now);
    proof {
        lemma_year_tree_distinct(ps, folder@);
    }
    indexes.push(IndexFile { dir: folder.to_string(), path: root_key_exec(folder), content: root_index(folder, &ys) });
    let mut k: usize = 0;
    while k < ys.len()
        invariant
            k <= ys@.len(),
            year_nodes(ys@) == year_tree(ps, folder@),
            crate::import::hierarchy::years_distinct(year_nodes(ys@)),
            indexes@.len() == 1 + k,
            indexes@[0].dir@ == folder@,
            indexes@[0].path@ == root_key(folder@),
            root_file_is(indexes@[0].content@, folder@, year_nodes(ys@)),
            forall|t: int|
                0 <= t < k ==> {
                    &&& (#[trigger] indexes@[1 + t]).dir@ == folder@ + seq!['/'] + year_nodes(ys@)[t].title
                    &&& indexes@[1 + t].path@ == year_nodes(ys@)[t].key
                    &&& year_file_is(indexes@[1 + t].content@, folder@, year_nodes(ys@)[t])
                },
        decreases ys.len() - k,
    {
        let ghost yn = year_nodes(ys@);
        assert(yn[k as int] == ys@[k as int].node());
        let mut dir = chars_of(folder);
        dir.push('/');
        extend_chars(&mut dir, &chars_of(ys[k].title.as_str()));
        let content = year_index(folder, &ys[k]);
        indexes.push(IndexFile { dir: string_of(&dir), path: ys[k].key.clone(), content });
        k += 1;
    }
    let mut k: usize = 0;
    while k < ms.len()
        invariant
            k <= ms@.len(),
            year_nodes(ys@) == year_tree(ps, folder@),
            month_nodes(ms@) == month_tree(ps, folder@),
            indexes@.len() == 1 + ys@.len() + k,
            indexes@[0].dir@ == folder@,
            indexes@[0].path@ == root_key(folder@),
            root_file_is(indexes@[0].content@, folder@, year_nodes(ys@)),
            forall|t: int|
                0 <= t < ys@.len() ==> {
                    &&& (#[trigger] indexes@[1 + t]).dir@ == folder@ + seq!['/'] + year_nodes(ys@)[t].title
                    &&& indexes@[1 + t].path@ == year_nodes(ys@)[t].key
                    &&& year_file_is(indexes@[1 + t].content@, folder@, year_nodes(ys@)[t])
                },
            forall|t: int|
                0 <= t < k ==> {
                    &&& (#[trigger] indexes@[1 + ys@.len() + t]).dir@ == month_dir(
                        folder@,
                        month_nodes(ms@)[t].year,
                        month_nodes(ms@)[t].month,
                    )
                    &&& indexes@[1 + ys@.len() + t].path@ == month_nodes(ms@)[t].key
                    &&& month_file_is(indexes@[1 + ys@.len() + t].content@, year_nodes(ys@), month_nodes(ms@)[t])
                },
        decreases ms.len() - k,
    {
        let ghost mn = month_nodes(ms@);
        assert(mn[k as int] == ms@[k as int].node());
        let content = month_index(&ys, &ms[k]);
        let dir = month_dir_exec(folder, ms[k].year.as_str(), ms[k].month.as_str());
        indexes.push(IndexFile { dir, path: ms[k].key.clone(), content });
        k += 1;
    }
    ImportPlan { entries: files, indexes }
}

// ---------------------------------------------------------------------------
// Grafting the import into the workspace
// ---------------------------------------------------------------------------

/// Where key `k` first stands in `ps`; a scan that met it first at `i`, or
/// not at all, found where it first stands.
proof fn lemma_first_key_scan(ps: Seq<(String, Value)>, k: Seq<char>, i: int)
    requires
        0 <= i <= ps.len(),
        forall|j: int| 0 <= j < i ==> ps[j].0@ != k,
    ensures
        first_key(ps, k) matches Some(p) ==> 0 <= p < ps.len() && ps[p].0@ == k,
        i < ps.len() && ps[i].0@ == k ==> first_key(ps, k) == Some(i),
        i == ps.len() ==> first_key(ps, k) is None,
    decreases ps.len(),
{
    if ps.len() > 0 && ps[0].0@ != k {
        let rest = ps.drop_first();
        if i > 0 {
            assert forall|j: int| 0 <= j < i - 1 implies rest[j].0@ != k by {
                assert(rest[j] == ps[j + 1]);
            }
            lemma_first_key_scan(rest, k, i - 1);
        } else {
            lemma_first_key_scan(rest, k, 0);
        }
    }
}

/// Where key `k` first stands in `ps`.
fn first_key_exec(ps: &Vec<(String, Value)>, k: &str) -> (r: Option<usize>)
    ensures
        match r {
            Some(i) => first_key(ps@, k@) == Some(i as int) && i < ps@.len(),
            None => first_key(ps@, k@) is None,
        },
{
    let kc = chars_of(k);
    let mut i: usize = 0;
    while i < ps.len()
        invariant
            i <= ps@.len(),
            kc@ == k@,
            forall|j: int| 0 <= j < i ==> ps@[j].0@ != k@,
        decreases ps.len() - i,
    {
        if chars_eq(&chars_of(ps[i].0.as_str()), &kc) {
            proof {
                lemma_first_key_scan(ps@, k@, i as int);
            }
            return Some(i);
        }
        i += 1;
    }
    proof {
        lemma_first_key_scan(ps@, k@, i as int);
    }
    None
}

/// Whether a value is a string in which `needle` occurs.
pub open spec fn mentions(v: Value, needle: Seq<char>) -> bool {
    v matches Value::String(s) && find(s@, needle) is Some
}

/// Whether the `contents` of `fm` are a list with an item that mentions
/// `canonical`.
pub open spec fn lists_path(fm: Seq<(String, Value)>, canonical: Seq<char>) -> bool {
    match first_key(fm, "contents"@) {
        Some(i) => fm[i].1 matches Value::Sequence(xs) && exists|j: int|
            0 <= j < xs@.len() && #[trigger] mentions(xs@[j], canonical),
        None => false,
    }
}

/// Whether `v` is the `contents` value `before` with `link` added: appended
/// when it was a list, else a list of the link alone.
pub open spec fn link_added(v: Value, before: Option<Value>, link: Seq<char>) -> bool {
    v matches Value::Sequence(ys) && match before {
        Some(Value::Sequence(xs)) => {
            &&& ys@.len() == xs@.len() + 1
            &&& ys@.take(xs@.len() as int) == xs@
            &&& ys@.last() matches Value::String(s) && s@ == link
        },
        _ => ys@.len() == 1 && (ys@[0] matches Value::String(s) && s@ == link),
    }
}

/// Whether `r` is `fm` with `link` added to its `contents`.
pub open spec fn with_contents_link(r: Seq<(String, Value)>, fm: Seq<(String, Value)>, link: Seq<char>) -> bool {
    exists|v: Value|
        #[trigger] put_as(r, fm, "contents"@, v) && link_added(
            v,
            match first_key(fm, "contents"@) {
                Some(i) => Some(fm[i].1),
                None => None,
            },
            link,
        )
}

/// Whether some item of `xs` mentions `needle`.
fn any_mentions(xs: &Vec<Value>, needle: &str) -> (r: bool)
    ensures
        r == exists|j: int| 0 <= j < xs@.len() && #[trigger] mentions(xs@[j], needle@),
{
    let n = chars_of(needle);
    let mut i: usize = 0;
    while i < xs.len()
        invariant
            i <= xs@.len(),
            n@ == needle@,
            forall|j: int| 0 <= j < i ==> !(#[trigger] mentions(xs@[j], needle@)),
        decreases xs.len() - i,
    {
        match &xs[i] {
            Value::String(s) => {
                if find_chars(&chars_of(s.as_str()), &n).is_some() {
                    assert(mentions(xs@[i as int], needle@));
                    return true;
                }
            },
            _ => {},
        }
        i += 1;
    }
    false
}

/// The frontmatter of the workspace's root index with the import's root
/// index (`canonical`, titled `title`) listed under `contents`; nothing
/// when an item there already mentions it.
pub fn graft_contents(fm: Vec<(String, Value)>, canonical: &str, title: &str) -> (r: Option<Vec<(String, Value)>>)
    ensures
        r is None <==> lists_path(fm@, canonical@),
        r matches Some(out) ==> with_contents_link(out@, fm@, format_link_spec(canonical@, title@)),
{
    let link = format_link(canonical, title);
    let ghost before = fm@;
    match first_key_exec(&fm, "contents") {
        Some(i) => {
            let listed = match &fm[i].1 {
                Value::Sequence(xs) => any_mentions(xs, canonical),
                _ => false,
            };
            if listed {
                return None;
            }
            let ghost old_v = fm@[i as int].1;
            proof {
                lemma_first_key_scan(before, "contents"@, 0);
            }
            let mut out = fm;
            let (k, v) = out.remove(i);
            let nv = match v {
                Value::Sequence(xs) => {
                    let mut ys = xs;
                    let ghost x0 = ys@;
                    ys.push(Value::String(link));
                    assert(ys@.take(x0.len() as int) =~= x0);
                    Value::Sequence(ys)
                },
                _ => {
                    let mut ys: Vec<Value> = Vec::new();
                    ys.push(Value::String(link));
                    Value::Sequence(ys)
                },
            };
            out.insert(i, (k, nv));
            assert(put_as(out@, before, "contents"@, nv)) by {
                assert forall|j: int| 0 <= j < before.len() && j != i implies out@[j] == before[j] by {
                    if j < i {
                        assert(out@[j] == before.remove(i as int)[j]);
                    } else {
                        assert(out@[j] == before.remove(i as int)[j - 1]);
                    }
                }
            }
            assert(link_added(nv, Some(old_v), format_link_spec(canonical@, title@)));
            Some(out)
        },
        None => {
            let mut ys: Vec<Value> = Vec::new();
            ys.push(Value::String(link));
            let nv = Value::Sequence(ys);
            let mut out = fm;
            out.push(("contents".to_string(), nv));
            assert(out@.drop_last() =~= before);
            assert(put_as(out@, before, "contents"@, nv));
            Some(out)
        },
    }
}

/// Whether `r` is `fm` with `part_of` set to `link`.
pub open spec fn with_part_of(r: Seq<(String, Value)>, fm: Seq<(String, Value)>, link: Seq<char>) -> bool {
    exists|v: Value| #[trigger] put_as(r, fm, "part_of"@, v) && (v matches Value::String(s) && s@ == link)
}

/// The frontmatter of the import's root index with `part_of` set to a link
/// to the workspace's root index (`canonical`, titled `title`); nothing when
/// it has a `part_of` already.
pub fn graft_part_of(fm: Vec<(String, Value)>, canonical: &str, title: &str) -> (r: Option<Vec<(String, Value)>>)
    ensures
        r is None <==> first_key(fm@, "part_of"@) is Some,
        r matches Some(out) ==> with_part_of(out@, fm@, format_link_spec(canonical@, title@)),
{
    if first_key_exec(&fm, "part_of").is_some() {
        return None;
    }
    let ghost before = fm@;
    let link = format_link(canonical, title);
    let ghost lv = link@;
    let v = Value::String(link);
    let ghost gv = v;
    assert(gv matches Value::String(s) && s@ == lv);
    let out = put_value(fm, "part_of", v);
    assert(put_as(out@, before, "part_of"@, gv) && (gv matches Value::String(s) && s@ == format_link_spec(
        canonical@,
        title@,
    )));
    Some(out)
}

/// Whether a file with frontmatter `fm` is a workspace's root index: it has
/// `contents` and no `part_of`.
pub fn is_root_index(fm: &Vec<(String, Value)>) -> (r: bool)
    ensures
        r == (first_key(fm@, "contents"@) is Some && first_key(fm@, "part_of"@) is None),
{
    first_key_exec(fm, "contents").is_some() && first_key_exec(fm, "part_of").is_none()
}

/// The title of the workspace's root index: its frontmatter `title` when
/// that is a string, else its file stem made readable, else `Index`.
pub fn root_title(fm: &Vec<(String, Value)>, stem: Option<&str>) -> (r: String)
    ensures
        r@ == (match first_key(fm@, "title"@) {
            Some(i) => match fm@[i].1 {
                Value::String(s) => s@,
                _ => match stem {
                    Some(st) => prettify_spec(st@),
                    None => "Index"@,
                },
            },
            None => match stem {
                Some(st) => prettify_spec(st@),
                None => "Index"@,
            },
        }),
{
    match first_key_exec(fm, "title") {
        Some(i) => match &fm[i].1 {
            Value::String(s) => {
                return s.clone();
            },
            _ => {},
        },
        None => {},
    }
    match stem {
        Some(st) => prettify_filename(st),
        None => "Index".to_string(),
    }
}

} // verus!
