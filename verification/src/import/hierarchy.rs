//! The date hierarchy imported entries are filed in: where an entry of a
//! given year and month goes, and the years and months that the entries
//! placed so far have opened, each with what its index will list.

use vstd::prelude::*;
use vstd::seq_lib::*;
use vstd::multiset::Multiset;
use crate::entry::ordering::{lemma_text_less_total, lemma_text_less_transitive, text_less, text_less_exec};
use crate::text::{chars_eq, chars_of, extend_chars, string_of};
use crate::entry::helpers::capitalize_spec;
use crate::import::orchestrate::{capitalize, fields_match, field_is, texts_value, EntryField};
use crate::link_parser::{format_link, format_link_spec};
use crate::metadata_writer::holds_texts;
use crate::yaml::Value;
use crate::yaml::emit::{mapping_text, mapping_yaml};

verus! {

broadcast use vstd::multiset::group_multiset_axioms;

// ---------------------------------------------------------------------------
// Places
// ---------------------------------------------------------------------------

/// The folder of a month: `folder/YYYY/MM`.
pub open spec fn month_dir(folder: Seq<char>, year: Seq<char>, month: Seq<char>) -> Seq<char> {
    folder + seq!['/'] + year + seq!['/'] + month
}

/// The index of a month: `folder/YYYY/MM/YYYY_MM.md`.
pub open spec fn month_key(folder: Seq<char>, year: Seq<char>, month: Seq<char>) -> Seq<char> {
    month_dir(folder, year, month) + seq!['/'] + year + seq!['_'] + month + seq!['.', 'm', 'd']
}

/// The index of a year: `folder/YYYY/YYYY_index.md`.
pub open spec fn year_key(folder: Seq<char>, year: Seq<char>) -> Seq<char> {
    folder + seq!['/'] + year + seq!['/'] + year + seq!['_', 'i', 'n', 'd', 'e', 'x', '.', 'm', 'd']
}

/// The index of the whole import: `folder/index.md`.
pub open spec fn root_key(folder: Seq<char>) -> Seq<char> {
    folder + seq!['/', 'i', 'n', 'd', 'e', 'x', '.', 'm', 'd']
}

/// The title of a month: `YYYY-MM`.
pub open spec fn month_title(year: Seq<char>, month: Seq<char>) -> Seq<char> {
    year + seq!['-'] + month
}

fn push_text(out: &mut Vec<char>, s: &str)
    ensures
        final(out)@ == old(out)@ + s@,
{
    extend_chars(out, &chars_of(s));
}

/// The folder of a month.
pub fn month_dir_exec(folder: &str, year: &str, month: &str) -> (r: String)
    ensures
        r@ == month_dir(folder@, year@, month@),
{
    let mut out = chars_of(folder);
    out.push('/');
    push_text(&mut out, year);
    out.push('/');
    push_text(&mut out, month);
    assert(out@ =~= month_dir(folder@, year@, month@));
    string_of(&out)
}

/// The index of a month.
pub fn month_key_exec(folder: &str, year: &str, month: &str) -> (r: String)
    ensures
        r@ == month_key(folder@, year@, month@),
{
    let mut out = chars_of(month_dir_exec(folder, year, month).as_str());
    out.push('/');
    push_text(&mut out, year);
    out.push('_');
    push_text(&mut out, month);
    out.push('.');
    out.push('m');
    out.push('d');
    assert(out@ =~= month_key(folder@, year@, month@));
    string_of(&out)
}

/// The index of a year.
pub fn year_key_exec(folder: &str, year: &str) -> (r: String)
    ensures
        r@ == year_key(folder@, year@),
{
    let mut out = chars_of(folder);
    out.push('/');
    push_text(&mut out, year);
    out.push('/');
    push_text(&mut out, year);
    out.push('_');
    out.push('i');
    out.push('n');
    out.push('d');
    out.push('e');
    out.push('x');
    out.push('.');
    out.push('m');
    out.push('d');
    assert(out@ =~= year_key(folder@, year@));
    string_of(&out)
}

/// The index of the whole import.
pub fn root_key_exec(folder: &str) -> (r: String)
    ensures
        r@ == root_key(folder@),
{
    let mut out = chars_of(folder);
    out.push('/');
    out.push('i');
    out.push('n');
    out.push('d');
    out.push('e');
    out.push('x');
    out.push('.');
    out.push('m');
    out.push('d');
    assert(out@ =~= root_key(folder@));
    string_of(&out)
}

/// The title of a month.
pub fn month_title_exec(year: &str, month: &str) -> (r: String)
    ensures
        r@ == month_title(year@, month@),
{
    let mut out = chars_of(year);
    out.push('-');
    push_text(&mut out, month);
    string_of(&out)
}

// ---------------------------------------------------------------------------
// Keyed lists
// ---------------------------------------------------------------------------

/// Where `k` first stands in `ks`.
pub open spec fn first_in(ks: Seq<Seq<char>>, k: Seq<char>) -> Option<int>
    decreases ks.len(),
{
    if ks.len() == 0 {
        None
    } else if ks[0] == k {
        Some(0)
    } else {
        match first_in(ks.drop_first(), k) {
            Some(i) => Some(i + 1),
            None => None,
        }
    }
}

/// Where `k` first stands, it stands; a scan that met `k` first at `i`,
/// or not at all, found where it first stands.
pub proof fn lemma_first_in(ks: Seq<Seq<char>>, k: Seq<char>, i: int)
    requires
        0 <= i <= ks.len(),
        forall|j: int| 0 <= j < i ==> ks[j] != k,
    ensures
        first_in(ks, k) matches Some(p) ==> 0 <= p < ks.len() && ks[p] == k && p >= i,
        i < ks.len() && ks[i] == k ==> first_in(ks, k) == Some(i),
        i == ks.len() ==> first_in(ks, k) is None,
    decreases ks.len(),
{
    if ks.len() > 0 && ks[0] != k {
        let rest = ks.drop_first();
        if i > 0 {
            assert forall|j: int| 0 <= j < i - 1 implies rest[j] != k by {
                assert(rest[j] == ks[j + 1]);
            }
            lemma_first_in(rest, k, i - 1);
        } else {
            lemma_first_in(rest, k, 0);
        }
    }
}

/// Pairs of a key and a title.
pub open spec fn pair_keys(ps: Seq<(Seq<char>, Seq<char>)>) -> Seq<Seq<char>> {
    ps.map_values(|p: (Seq<char>, Seq<char>)| p.0)
}

/// `ps` with `(k, v)` appended unless `k` is there already.
pub open spec fn put_if_absent(ps: Seq<(Seq<char>, Seq<char>)>, k: Seq<char>, v: Seq<char>) -> Seq<
    (Seq<char>, Seq<char>),
> {
    match first_in(pair_keys(ps), k) {
        Some(_) => ps,
        None => ps.push((k, v)),
    }
}

/// Key and title pairs as text.
pub open spec fn pair_views(ps: Seq<(String, String)>) -> Seq<(Seq<char>, Seq<char>)> {
    ps.map_values(|p: (String, String)| (p.0@, p.1@))
}

/// Whether `a` and `b` are the same text.
fn same_text(a: &str, b: &str) -> (r: bool)
    ensures
        r == (a@ == b@),
{
    chars_eq(&chars_of(a), &chars_of(b))
}

/// Where `k` first stands among the keys of `ps`.
fn find_pair(ps: &Vec<(String, String)>, k: &str) -> (r: Option<usize>)
    ensures
        r matches Some(i) ==> first_in(pair_keys(pair_views(ps@)), k@) == Some(i as int),
        r is None ==> first_in(pair_keys(pair_views(ps@)), k@) is None,
{
    let ghost ks = pair_keys(pair_views(ps@));
    let mut i: usize = 0;
    while i < ps.len()
        invariant
            i <= ps@.len(),
            ks == pair_keys(pair_views(ps@)),
            forall|j: int| 0 <= j < i ==> ks[j] != k@,
        decreases ps.len() - i,
    {
        assert(ks[i as int] == ps@[i as int].0@);
        if same_text(ps[i].0.as_str(), k) {
            proof {
                lemma_first_in(ks, k@, i as int);
            }
            return Some(i);
        }
        i += 1;
    }
    proof {
        lemma_first_in(ks, k@, i as int);
    }
    None
}

/// Appends `(k, v)` unless `k` is there already.
fn put_pair_if_absent(ps: &mut Vec<(String, String)>, k: &str, v: &str)
    ensures
        pair_views(final(ps)@) == put_if_absent(pair_views(old(ps)@), k@, v@),
{
    match find_pair(ps, k) {
        Some(_) => {},
        None => {
            let ghost before = ps@;
            ps.push((k.to_string(), v.to_string()));
            assert(pair_views(ps@) =~= pair_views(before).push((k@, v@)));
        },
    }
}


// ---------------------------------------------------------------------------
// Years and months
// ---------------------------------------------------------------------------

/// An entry as placed: its year and month, the path it is written at and
/// the link to it.
pub struct Placed {
    pub year: Seq<char>,
    pub month: Seq<char>,
    pub path: Seq<char>,
    pub link: Seq<char>,
}

/// A year opened by the entries: its index, its title and its months, each
/// as the month's index and title, in the order they were opened.
pub struct YearNode {
    pub key: Seq<char>,
    pub title: Seq<char>,
    pub months: Seq<(Seq<char>, Seq<char>)>,
}

/// A month opened by the entries: its index, its year and month, and the
/// links to its entries in the order they were placed.
pub struct MonthNode {
    pub key: Seq<char>,
    pub year: Seq<char>,
    pub month: Seq<char>,
    pub links: Seq<Seq<char>>,
}

/// The indexes of the years.
pub open spec fn year_keys(ys: Seq<YearNode>) -> Seq<Seq<char>> {
    ys.map_values(|y: YearNode| y.key)
}

/// The indexes of the months.
pub open spec fn month_keys(ms: Seq<MonthNode>) -> Seq<Seq<char>> {
    ms.map_values(|m: MonthNode| m.key)
}

/// The years once entry `p` is placed: its year opened if new, and its
/// month listed under it if new.
pub open spec fn file_year(ys: Seq<YearNode>, folder: Seq<char>, p: Placed) -> Seq<YearNode> {
    let yk = year_key(folder, p.year);
    let mk = month_key(folder, p.year, p.month);
    let mt = month_title(p.year, p.month);
    match first_in(year_keys(ys), yk) {
        Some(i) => ys.update(
            i,
            YearNode { key: ys[i].key, title: ys[i].title, months: put_if_absent(ys[i].months, mk, mt) },
        ),
        None => ys.push(YearNode { key: yk, title: p.year, months: seq![(mk, mt)] }),
    }
}

/// The months once entry `p` is placed: its month opened if new, and the
/// link to it added to the month.
pub open spec fn file_month(ms: Seq<MonthNode>, folder: Seq<char>, p: Placed) -> Seq<MonthNode> {
    let mk = month_key(folder, p.year, p.month);
    match first_in(month_keys(ms), mk) {
        Some(i) => ms.update(
            i,
            MonthNode { key: ms[i].key, year: ms[i].year, month: ms[i].month, links: ms[i].links.push(p.link) },
        ),
        None => ms.push(MonthNode { key: mk, year: p.year, month: p.month, links: seq![p.link] }),
    }
}

/// The years the placed entries open, in the order opened.
pub open spec fn year_tree(ps: Seq<Placed>, folder: Seq<char>) -> Seq<YearNode>
    decreases ps.len(),
{
    if ps.len() == 0 {
        Seq::empty()
    } else {
        file_year(year_tree(ps.drop_last(), folder), folder, ps.last())
    }
}

/// The months the placed entries open, in the order opened.
pub open spec fn month_tree(ps: Seq<Placed>, folder: Seq<char>) -> Seq<MonthNode>
    decreases ps.len(),
{
    if ps.len() == 0 {
        Seq::empty()
    } else {
        file_month(month_tree(ps.drop_last(), folder), folder, ps.last())
    }
}

/// Where a key does not first stand, it does not stand at all.
pub proof fn lemma_first_in_none(ks: Seq<Seq<char>>, k: Seq<char>)
    ensures
        first_in(ks, k) is None ==> forall|j: int| 0 <= j < ks.len() ==> ks[j] != k,
    decreases ks.len(),
{
    if ks.len() > 0 && ks[0] != k {
        lemma_first_in_none(ks.drop_first(), k);
        if first_in(ks, k) is None {
            assert forall|j: int| 0 <= j < ks.len() implies ks[j] != k by {
                if j > 0 {
                    assert(ks[j] == ks.drop_first()[j - 1]);
                }
            }
        }
    }
}

/// Appending a key that is not there keeps the keys distinct.
proof fn lemma_put_if_absent_distinct(ps: Seq<(Seq<char>, Seq<char>)>, k: Seq<char>, v: Seq<char>)
    requires
        keys_distinct(pair_keys(ps)),
    ensures
        keys_distinct(pair_keys(put_if_absent(ps, k, v))),
{
    lemma_first_in_none(pair_keys(ps), k);
    if first_in(pair_keys(ps), k) is None {
        let r = ps.push((k, v));
        assert forall|i: int, j: int| 0 <= i < j < r.len() implies #[trigger] pair_keys(r)[i] != #[trigger] pair_keys(r)[j] by {
            if j == ps.len() {
                assert(pair_keys(ps)[i] != k);
            } else {
                assert(pair_keys(ps)[i] != pair_keys(ps)[j]);
            }
        }
    }
}

/// Whether no year stands twice and no month twice within a year.
pub open spec fn years_distinct(ys: Seq<YearNode>) -> bool {
    &&& keys_distinct(year_keys(ys))
    &&& forall|i: int| 0 <= i < ys.len() ==> keys_distinct(pair_keys(#[trigger] ys[i].months))
}

/// Placing an entry keeps years and months distinct.
proof fn lemma_file_year_distinct(ys: Seq<YearNode>, folder: Seq<char>, p: Placed)
    requires
        years_distinct(ys),
    ensures
        years_distinct(file_year(ys, folder, p)),
{
    let yk = year_key(folder, p.year);
    let mk = month_key(folder, p.year, p.month);
    let mt = month_title(p.year, p.month);
    let r = file_year(ys, folder, p);
    lemma_first_in(year_keys(ys), yk, 0);
    lemma_first_in_none(year_keys(ys), yk);
    match first_in(year_keys(ys), yk) {
        Some(i) => {
            lemma_put_if_absent_distinct(ys[i].months, mk, mt);
            assert forall|a: int, b: int| 0 <= a < b < r.len() implies #[trigger] year_keys(r)[a] != #[trigger] year_keys(r)[b] by {
                assert(year_keys(ys)[a] != year_keys(ys)[b]);
            }
            assert forall|a: int| 0 <= a < r.len() implies keys_distinct(pair_keys(#[trigger] r[a].months)) by {
                if a != i {
                    assert(r[a] == ys[a]);
                }
            }
        },
        None => {
            assert forall|a: int, b: int| 0 <= a < b < r.len() implies #[trigger] year_keys(r)[a] != #[trigger] year_keys(r)[b] by {
                if b == ys.len() {
                    assert(year_keys(ys)[a] != yk);
                } else {
                    assert(year_keys(ys)[a] != year_keys(ys)[b]);
                }
            }
            assert forall|a: int| 0 <= a < r.len() implies keys_distinct(pair_keys(#[trigger] r[a].months)) by {
                if a < ys.len() {
                    assert(r[a] == ys[a]);
                } else {
                    assert(pair_keys(r[a].months) =~= seq![mk]);
                }
            }
        },
    }
}

/// The years that placed entries open are distinct, and so are the months
/// of each.
pub proof fn lemma_year_tree_distinct(ps: Seq<Placed>, folder: Seq<char>)
    ensures
        years_distinct(year_tree(ps, folder)),
    decreases ps.len(),
{
    if ps.len() > 0 {
        lemma_year_tree_distinct(ps.drop_last(), folder);
        lemma_file_year_distinct(year_tree(ps.drop_last(), folder), folder, ps.last());
    }
}

/// A year being gathered.
pub struct YearDraft {
    pub key: String,
    pub title: String,
    pub months: Vec<(String, String)>,
}

/// A month being gathered.
pub struct MonthDraft {
    pub key: String,
    pub year: String,
    pub month: String,
    pub links: Vec<String>,
}

impl YearDraft {
    /// What the draft holds.
    pub open spec fn node(&self) -> YearNode {
        YearNode { key: self.key@, title: self.title@, months: pair_views(self.months@) }
    }
}

impl MonthDraft {
    /// What the draft holds.
    pub open spec fn node(&self) -> MonthNode {
        MonthNode {
            key: self.key@,
            year: self.year@,
            month: self.month@,
            links: self.links@.map_values(|l: String| l@),
        }
    }
}

/// What year drafts hold.
pub open spec fn year_nodes(ds: Seq<YearDraft>) -> Seq<YearNode> {
    ds.map_values(|d: YearDraft| d.node())
}

/// What month drafts hold.
pub open spec fn month_nodes(ds: Seq<MonthDraft>) -> Seq<MonthNode> {
    ds.map_values(|d: MonthDraft| d.node())
}

/// Where the year with index `k` stands among the drafts.
fn find_year(ys: &Vec<YearDraft>, k: &str) -> (r: Option<usize>)
    ensures
        r matches Some(i) ==> first_in(year_keys(year_nodes(ys@)), k@) == Some(i as int),
        r is None ==> first_in(year_keys(year_nodes(ys@)), k@) is None,
{
    let ghost ks = year_keys(year_nodes(ys@));
    let mut i: usize = 0;
    while i < ys.len()
        invariant
            i <= ys@.len(),
            ks == year_keys(year_nodes(ys@)),
            forall|j: int| 0 <= j < i ==> ks[j] != k@,
        decreases ys.len() - i,
    {
        assert(ks[i as int] == ys@[i as int].key@);
        if same_text(ys[i].key.as_str(), k) {
            proof {
                lemma_first_in(ks, k@, i as int);
            }
            return Some(i);
        }
        i += 1;
    }
    proof {
        lemma_first_in(ks, k@, i as int);
    }
    None
}

/// Where the month with index `k` stands among the drafts.
fn find_month(ms: &Vec<MonthDraft>, k: &str) -> (r: Option<usize>)
    ensures
        r matches Some(i) ==> first_in(month_keys(month_nodes(ms@)), k@) == Some(i as int),
        r is None ==> first_in(month_keys(month_nodes(ms@)), k@) is None,
{
    let ghost ks = month_keys(month_nodes(ms@));
    let mut i: usize = 0;
    while i < ms.len()
        invariant
            i <= ms@.len(),
            ks == month_keys(month_nodes(ms@)),
            forall|j: int| 0 <= j < i ==> ks[j] != k@,
        decreases ms.len() - i,
    {
        assert(ks[i as int] == ms@[i as int].key@);
        if same_text(ms[i].key.as_str(), k) {
            proof {
                lemma_first_in(ks, k@, i as int);
            }
            return Some(i);
        }
        i += 1;
    }
    proof {
        lemma_first_in(ks, k@, i as int);
    }
    None
}

/// Files an entry of `year` and `month` under its year.
pub fn file_year_exec(ys: &mut Vec<YearDraft>, folder: &str, year: &str, month: &str, path: &str, link: &str)
    ensures
        year_nodes(final(ys)@) == file_year(
            year_nodes(old(ys)@),
            folder@,
            Placed { year: year@, month: month@, path: path@, link: link@ },
        ),
{
    let yk = year_key_exec(folder, year);
    let mk = month_key_exec(folder, year, month);
    let mt = month_title_exec(year, month);
    let ghost before = year_nodes(ys@);
    match find_year(ys, yk.as_str()) {
        Some(i) => {
            proof {
                lemma_first_in(year_keys(before), yk@, 0);
            }
            let ghost v0 = ys@;
            let mut d = ys.remove(i);
            put_pair_if_absent(&mut d.months, mk.as_str(), mt.as_str());
            ys.insert(i, d);
            assert(year_nodes(ys@) =~= before.update(
                i as int,
                YearNode {
                    key: before[i as int].key,
                    title: before[i as int].title,
                    months: put_if_absent(before[i as int].months, mk@, mt@),
                },
            )) by {
                assert forall|j: int| 0 <= j < ys@.len() && j != i implies ys@[j] == v0[j] by {
                    if j < i {
                        assert(ys@[j] == v0.remove(i as int)[j]);
                    } else {
                        assert(ys@[j] == v0.remove(i as int)[j - 1]);
                    }
                }
            }
        },
        None => {
            let mut months: Vec<(String, String)> = Vec::new();
            months.push((mk, mt));
            assert(pair_views(months@) =~= seq![(mk@, mt@)]);
            let d = YearDraft { key: yk, title: year.to_string(), months };
            ys.push(d);
            assert(year_nodes(ys@) =~= before.push(d.node()));
        },
    }
}

/// Files the link to an entry of `year` and `month` under its month.
pub fn file_month_exec(ms: &mut Vec<MonthDraft>, folder: &str, year: &str, month: &str, path: &str, link: &str)
    ensures
        month_nodes(final(ms)@) == file_month(
            month_nodes(old(ms)@),
            folder@,
            Placed { year: year@, month: month@, path: path@, link: link@ },
        ),
{
    let mk = month_key_exec(folder, year, month);
    let ghost before = month_nodes(ms@);
    match find_month(ms, mk.as_str()) {
        Some(i) => {
            proof {
                lemma_first_in(month_keys(before), mk@, 0);
            }
            let ghost v0 = ms@;
            let mut d = ms.remove(i);
            let ghost l0 = d.links@;
            d.links.push(link.to_string());
            assert(d.links@.map_values(|l: String| l@) =~= l0.map_values(|l: String| l@).push(link@));
            ms.insert(i, d);
            assert(month_nodes(ms@) =~= before.update(
                i as int,
                MonthNode {
                    key: before[i as int].key,
                    year: before[i as int].year,
                    month: before[i as int].month,
                    links: before[i as int].links.push(link@),
                },
            )) by {
                assert forall|j: int| 0 <= j < ms@.len() && j != i implies ms@[j] == v0[j] by {
                    if j < i {
                        assert(ms@[j] == v0.remove(i as int)[j]);
                    } else {
                        assert(ms@[j] == v0.remove(i as int)[j - 1]);
                    }
                }
            }
        },
        None => {
            let mut links: Vec<String> = Vec::new();
            links.push(link.to_string());
            assert(links@.map_values(|l: String| l@) =~= seq![link@]);
            let d = MonthDraft { key: mk, year: year.to_string(), month: month.to_string(), links };
            ms.push(d);
            assert(month_nodes(ms@) =~= before.push(d.node()));
        },
    }
}

// ---------------------------------------------------------------------------
// Ordering by key
// ---------------------------------------------------------------------------

/// Whether no key stands twice.
pub open spec fn keys_distinct(ks: Seq<Seq<char>>) -> bool {
    forall|i: int, j: int| 0 <= i < j < ks.len() ==> #[trigger] ks[i] != #[trigger] ks[j]
}

/// Whether the keys strictly increase.
pub open spec fn keys_increase(ps: Seq<(Seq<char>, Seq<char>)>) -> bool {
    forall|i: int, j: int| 0 <= i < j < ps.len() ==> text_less(#[trigger] ps[i].0, #[trigger] ps[j].0)
}

/// Whether `s` is `pairs` ordered by key: the same pairs, keys increasing.
pub open spec fn sorted_as(s: Seq<(Seq<char>, Seq<char>)>, pairs: Seq<(Seq<char>, Seq<char>)>) -> bool {
    &&& s.to_multiset() == pairs.to_multiset()
    &&& keys_increase(s)
}

/// An empty sequence has nothing to count.
proof fn lemma_empty_multiset<A>(s: Seq<A>)
    requires
        s.len() == 0,
    ensures
        s.to_multiset() =~= Multiset::empty(),
{
    to_multiset_len(s);
    vstd::multiset::lemma_multiset_empty_len(s.to_multiset());
}

/// Pairs with distinct keys, ordered by key (what `sort_by_key` on the
/// keys gives).
fn sort_pairs(ps: Vec<(String, String)>) -> (r: Vec<(String, String)>)
    requires
        keys_distinct(pair_keys(pair_views(ps@))),
    ensures
        sorted_as(pair_views(r@), pair_views(ps@)),
{
    let ghost orig = pair_views(ps@);
    let mut rest = ps;
    let mut r: Vec<(String, String)> = Vec::new();
    proof {
        lemma_empty_multiset(pair_views(r@));
    }
    assert(pair_views(r@).to_multiset().add(pair_views(rest@).to_multiset()) =~= orig.to_multiset());
    while rest.len() > 0
        invariant
            keys_distinct(pair_keys(pair_views(rest@))),
            keys_increase(pair_views(r@)),
            forall|i: int, j: int|
                0 <= i < r@.len() && 0 <= j < rest@.len() ==> #[trigger] r@[i].0@ != #[trigger] rest@[j].0@,
            pair_views(r@).to_multiset().add(pair_views(rest@).to_multiset()) == orig.to_multiset(),
        decreases rest.len(),
    {
        let ghost before = rest@;
        let ghost r0 = r@;
        let x = rest.pop().unwrap();
        assert(before =~= rest@.push(x));
        assert forall|i: int, j: int| 0 <= i < j < rest@.len() implies #[trigger] pair_keys(pair_views(rest@))[i]
            != #[trigger] pair_keys(pair_views(rest@))[j] by {
            assert(pair_keys(pair_views(before))[i] != pair_keys(pair_views(before))[j]);
        }
        let mut p: usize = 0;
        while p < r.len() && text_less_exec(r[p].0.as_str(), x.0.as_str())
            invariant
                p <= r.len(),
                r@ == r0,
                forall|t: int| 0 <= t < p ==> text_less(#[trigger] r@[t].0@, x.0@),
            decreases r.len() - p,
        {
            p += 1;
        }
        proof {
            assert forall|t: int| p <= t < r@.len() implies text_less(x.0@, #[trigger] r@[t].0@) by {
                assert(r@[p as int].0@ != before[before.len() - 1].0@);
                lemma_text_less_total(r@[p as int].0@, x.0@);
                if t > p {
                    assert(text_less(pair_views(r0)[p as int].0, pair_views(r0)[t].0));
                    lemma_text_less_transitive(x.0@, r@[p as int].0@, r@[t].0@);
                }
            }
            assert(pair_views(before) =~= pair_views(rest@).push((x.0@, x.1@)));
            assert(pair_views(r0.insert(p as int, x)) =~= pair_views(r0).insert(p as int, (x.0@, x.1@)));
            to_multiset_build(pair_views(rest@), (x.0@, x.1@));
            to_multiset_insert(pair_views(r0), p as int, (x.0@, x.1@));
        }
        r.insert(p, x);
        proof {
            assert(pair_views(r@).to_multiset().add(pair_views(rest@).to_multiset()) =~= orig.to_multiset());
            assert forall|i: int, j: int| 0 <= i < j < r@.len() implies text_less(
                #[trigger] pair_views(r@)[i].0,
                #[trigger] pair_views(r@)[j].0,
            ) by {
                if j < p {
                    assert(text_less(pair_views(r0)[i].0, pair_views(r0)[j].0));
                } else if j == p {
                } else if i < p {
                    assert(text_less(r0[i].0@, x.0@));
                    assert(text_less(x.0@, r0[j - 1].0@));
                    lemma_text_less_transitive(r0[i].0@, x.0@, r0[j - 1].0@);
                } else if i == p {
                } else {
                    assert(text_less(pair_views(r0)[i - 1].0, pair_views(r0)[j - 1].0));
                }
            }
            assert forall|i: int, j: int| 0 <= i < r@.len() && 0 <= j < rest@.len() implies #[trigger] r@[i].0@
                != #[trigger] rest@[j].0@ by {
                if i < p {
                    assert(r0[i].0@ != before[j].0@);
                } else if i == p {
                    assert(pair_keys(pair_views(before))[j] != pair_keys(pair_views(before))[before.len() - 1]);
                } else {
                    assert(r0[i - 1].0@ != before[j].0@);
                }
            }
        }
    }
    proof {
        lemma_empty_multiset(pair_views(rest@));
        assert(pair_views(r@).to_multiset() =~= pair_views(r@).to_multiset().add(
            pair_views(rest@).to_multiset(),
        ));
    }
    r
}

// ---------------------------------------------------------------------------
// Index files
// ---------------------------------------------------------------------------

/// The frontmatter of an index: its title, its `part_of` link when it has
/// one, and the links it lists under `contents`.
pub open spec fn index_fields(title: Seq<char>, part_of: Option<Seq<char>>, links: Seq<Seq<char>>) -> Seq<
    (Seq<char>, EntryField),
> {
    let head = seq![("title"@, EntryField::Text(title))];
    let mid = match part_of {
        Some(p) => head.push(("part_of"@, EntryField::Text(p))),
        None => head,
    };
    mid.push(("contents"@, EntryField::Texts(links)))
}

/// Whether `content` is an index file with that frontmatter, as YAML
/// between `---` fences; the fences alone when the YAML cannot be written.
pub open spec fn index_file_is(
    content: Seq<char>,
    title: Seq<char>,
    part_of: Option<Seq<char>>,
    links: Seq<Seq<char>>,
) -> bool {
    exists|ps: Seq<(String, Value)>|
        #[trigger] fields_match(ps, index_fields(title, part_of, links)) && (content == "---\n"@
            + mapping_text(ps) + "\n---\n"@ || content == "---\n---\n"@)
}

/// The links to key and title pairs.
pub open spec fn link_list(s: Seq<(Seq<char>, Seq<char>)>) -> Seq<Seq<char>> {
    s.map_values(|p: (Seq<char>, Seq<char>)| format_link_spec(p.0, p.1))
}

/// An index file (see [`index_file_is`]).
fn index_file(title: &str, part_of: Option<String>, links: &Vec<String>) -> (r: String)
    ensures
        index_file_is(r@, title@, opt_text(part_of), links@.map_values(|s: String| s@)),
{
    let ghost ws = index_fields(title@, opt_text(part_of), links@.map_values(|s: String| s@));
    let mut ps: Vec<(String, Value)> = Vec::new();
    ps.push(("title".to_string(), Value::String(title.to_string())));
    match part_of {
        Some(p) => {
            ps.push(("part_of".to_string(), Value::String(p)));
        },
        None => {},
    }
    ps.push(("contents".to_string(), texts_value(links)));
    assert(fields_match(ps@, ws)) by {
        assert forall|i: int| #![trigger ps@[i]] 0 <= i < ps@.len() implies ps@[i].0@ == ws[i].0 && field_is(ps@[i].1, ws[i].1) by {
            if i == ps@.len() - 1 {
                assert(ws[i] == ("contents"@, EntryField::Texts(links@.map_values(|s: String| s@))));
            }
        }
    }
    let mut out = chars_of("---\n");
    let written: bool;
    match mapping_yaml(&ps) {
        Some(y) => {
            extend_chars(&mut out, &chars_of(y.as_str()));
            extend_chars(&mut out, &chars_of("\n---\n"));
            written = true;
        },
        None => {
            extend_chars(&mut out, &chars_of("---\n"));
            written = false;
        },
    }
    let r = string_of(&out);
    proof {
        if !written {
            assert("---\n"@ + "---\n"@ =~= "---\n---\n"@) by {
                reveal_strlit("---\n");
                reveal_strlit("---\n---\n");
            }
        }
    }
    r
}

/// An optional string as text.
pub open spec fn opt_text(o: Option<String>) -> Option<Seq<char>> {
    match o {
        Some(s) => Some(s@),
        None => None,
    }
}

/// The links to key and title pairs, in order.
fn links_of(ps: &Vec<(String, String)>) -> (r: Vec<String>)
    ensures
        r@.map_values(|s: String| s@) == link_list(pair_views(ps@)),
{
    let mut out: Vec<String> = Vec::new();
    let mut i: usize = 0;
    while i < ps.len()
        invariant
            i <= ps@.len(),
            out@.map_values(|s: String| s@) == link_list(pair_views(ps@.take(i as int))),
        decreases ps.len() - i,
    {
        let ghost o0 = out@;
        out.push(format_link(ps[i].0.as_str(), ps[i].1.as_str()));
        assert(pair_views(ps@.take(i + 1)) =~= pair_views(ps@.take(i as int)).push((ps@[i as int].0@, ps@[i as int].1@)));
        assert(out@.map_values(|s: String| s@) =~= o0.map_values(|s: String| s@).push(out@.last()@));
        assert(link_list(pair_views(ps@.take(i + 1))) =~= link_list(pair_views(ps@.take(i as int))).push(
            format_link_spec(ps@[i as int].0@, ps@[i as int].1@),
        ));
        i += 1;
    }
    assert(ps@.take(ps@.len() as int) =~= ps@);
    out
}

/// The years as key and title pairs.
pub open spec fn year_pairs(ys: Seq<YearNode>) -> Seq<(Seq<char>, Seq<char>)> {
    ys.map_values(|y: YearNode| (y.key, y.title))
}

/// Whether `content` is the root index of the import in `folder`: titled
/// after the folder, listing the years ordered by index path.
pub open spec fn root_file_is(content: Seq<char>, folder: Seq<char>, ys: Seq<YearNode>) -> bool {
    exists|s: Seq<(Seq<char>, Seq<char>)>|
        #[trigger] sorted_as(s, year_pairs(ys)) && index_file_is(content, capitalize_spec(folder), None, link_list(s))
}

/// Whether `content` is the index of year `y`: titled with the year, part of
/// the root index, listing its months ordered by index path.
pub open spec fn year_file_is(content: Seq<char>, folder: Seq<char>, y: YearNode) -> bool {
    exists|s: Seq<(Seq<char>, Seq<char>)>|
        #[trigger] sorted_as(s, y.months) && index_file_is(
            content,
            y.title,
            Some(format_link_spec(root_key(folder), capitalize_spec(folder))),
            link_list(s),
        )
}

/// The first year that lists month `mk`.
pub open spec fn year_of_month(ys: Seq<YearNode>, mk: Seq<char>) -> Option<int>
    decreases ys.len(),
{
    if ys.len() == 0 {
        None
    } else if first_in(pair_keys(ys[0].months), mk) is Some {
        Some(0)
    } else {
        match year_of_month(ys.drop_first(), mk) {
            Some(i) => Some(i + 1),
            None => None,
        }
    }
}

/// Whether `content` is the index of month `m`: titled `YYYY-MM`, part of
/// the first year that lists it, listing its entries in the order placed.
pub open spec fn month_file_is(content: Seq<char>, ys: Seq<YearNode>, m: MonthNode) -> bool {
    index_file_is(
        content,
        month_title(m.year, m.month),
        match year_of_month(ys, m.key) {
            Some(i) => Some(format_link_spec(ys[i].key, ys[i].title)),
            None => None,
        },
        m.links,
    )
}

/// The root index of the import in `folder`.
pub fn root_index(folder: &str, ys: &Vec<YearDraft>) -> (r: String)
    requires
        keys_distinct(year_keys(year_nodes(ys@))),
    ensures
        root_file_is(r@, folder@, year_nodes(ys@)),
{
    let ghost pairs = year_pairs(year_nodes(ys@));
    let mut ps: Vec<(String, String)> = Vec::new();
    let mut i: usize = 0;
    while i < ys.len()
        invariant
            i <= ys@.len(),
            pairs == year_pairs(year_nodes(ys@)),
            pair_views(ps@) == pairs.take(i as int),
        decreases ys.len() - i,
    {
        let ghost p0 = ps@;
        let k = ys[i].key.clone();
        let t = ys[i].title.clone();
        ps.push((k, t));
        assert(pairs[i as int] == (ys@[i as int].key@, ys@[i as int].title@));
        assert(pair_views(ps@) =~= pair_views(p0).push((k@, t@)));
        assert(pairs.take(i + 1) =~= pairs.take(i as int).push(pairs[i as int]));
        i += 1;
    }
    assert(pairs.take(ys@.len() as int) =~= pairs);
    assert(pair_keys(pairs) =~= year_keys(year_nodes(ys@)));
    let sorted = sort_pairs(ps);
    let links = links_of(&sorted);
    let r = index_file(capitalize(folder).as_str(), None, &links);
    assert(sorted_as(pair_views(sorted@), pairs));
    r
}

/// The index of one year of the import in `folder`.
pub fn year_index(folder: &str, y: &YearDraft) -> (r: String)
    requires
        keys_distinct(pair_keys(y.node().months)),
    ensures
        year_file_is(r@, folder@, y.node()),
{
    let mut ps: Vec<(String, String)> = Vec::new();
    let mut i: usize = 0;
    while i < y.months.len()
        invariant
            i <= y.months@.len(),
            pair_views(ps@) == pair_views(y.months@).take(i as int),
        decreases y.months.len() - i,
    {
        let ghost p0 = ps@;
        let k = y.months[i].0.clone();
        let t = y.months[i].1.clone();
        ps.push((k, t));
        assert(pair_views(ps@) =~= pair_views(p0).push((k@, t@)));
        assert(pair_views(y.months@).take(i + 1) =~= pair_views(y.months@).take(i as int).push(
            pair_views(y.months@)[i as int],
        ));
        i += 1;
    }
    assert(pair_views(y.months@).take(y.months@.len() as int) =~= pair_views(y.months@));
    let sorted = sort_pairs(ps);
    let links = links_of(&sorted);
    let part_of = format_link(root_key_exec(folder).as_str(), capitalize(folder).as_str());
    let r = index_file(y.title.as_str(), Some(part_of), &links);
    assert(sorted_as(pair_views(sorted@), y.node().months));
    r
}

/// Where the first year that lists month `mk` stands.
fn find_year_of_month(ys: &Vec<YearDraft>, mk: &str) -> (r: Option<usize>)
    ensures
        r matches Some(i) ==> year_of_month(year_nodes(ys@), mk@) == Some(i as int),
        r is None ==> year_of_month(year_nodes(ys@), mk@) is None,
{
    let ghost ns = year_nodes(ys@);
    assert(ns.skip(0) =~= ns);
    let mut i: usize = 0;
    while i < ys.len()
        invariant
            i <= ys@.len(),
            ns == year_nodes(ys@),
            year_of_month(ns, mk@) == (match year_of_month(ns.skip(i as int), mk@) {
                Some(j) => Some(j + i),
                None => None,
            }),
        decreases ys.len() - i,
    {
        let ghost rest = ns.skip(i as int);
        assert(rest[0] == ns[i as int]);
        assert(rest.drop_first() =~= ns.skip(i + 1));
        if find_pair(&ys[i].months, mk).is_some() {
            return Some(i);
        }
        i += 1;
    }
    assert(ns.skip(i as int).len() == 0);
    None
}

/// The first year that lists a month is one of the years.
proof fn lemma_year_of_month_range(ys: Seq<YearNode>, mk: Seq<char>)
    ensures
        year_of_month(ys, mk) matches Some(i) ==> 0 <= i < ys.len(),
    decreases ys.len(),
{
    if ys.len() > 0 {
        lemma_year_of_month_range(ys.drop_first(), mk);
    }
}

/// The index of one month, part of the first year in `ys` that lists it.
pub fn month_index(ys: &Vec<YearDraft>, m: &MonthDraft) -> (r: String)
    ensures
        month_file_is(r@, year_nodes(ys@), m.node()),
{
    proof {
        lemma_year_of_month_range(year_nodes(ys@), m.key@);
    }
    let title = month_title_exec(m.year.as_str(), m.month.as_str());
    let part_of = match find_year_of_month(ys, m.key.as_str()) {
        Some(i) => Some(format_link(ys[i].key.as_str(), ys[i].title.as_str())),
        None => None,
    };
    index_file(title.as_str(), part_of, &m.links)
}

} // verus!
