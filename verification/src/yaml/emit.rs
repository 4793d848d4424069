//! Writing a frontmatter mapping as block-style YAML: one `key: value` line
//! per scalar, sequences as `- item` lines at the key's indentation,
//! nested mappings indented by two, and empty collections as `[]` / `{}`.
//! How a string scalar is quoted is decided by `serde_yaml`.

use vstd::prelude::*;
use crate::text::{
    chars_of, ends_with, extend_chars, has_suffix, join, join_chars, slice_chars, split,
    split_chars, string_of, v1, views, lemma_split_len, lemma_views_push, Sep,
};
use crate::yaml::Value;

verus! {

// ---------------------------------------------------------------------------
// Scalars
// ---------------------------------------------------------------------------

/// The YAML document `serde_yaml::to_string` writes for a string, or
/// nothing when it reports an error.
pub uninterp spec fn yaml_str_of(s: Seq<char>) -> Option<Seq<char>>;

/// `serde_yaml::to_string` on a string: the YAML document for that string
/// scalar (plain, quoted or a block literal, as serde_yaml decides, ending
/// with a newline), `None` when serde_yaml reports an error. Its answer is
/// taken to be a function of the string alone, named `yaml_str_of`; the
/// quoting rules, and when an error comes, are not stated.
#[verifier::external_body]
fn yaml_str(s: &str) -> (r: Option<String>)
    ensures
        match r {
            Some(t) => yaml_str_of(s@) == Some(t@),
            None => yaml_str_of(s@) is None,
        },
{
    match serde_yaml::to_string(s) {
        Ok(t) => Some(t),
        Err(_) => None,
    }
}

/// The digit character for `d` (below 10).
pub open spec fn digit_char(d: nat) -> char {
    (('0' as nat) + d) as char
}

/// The decimal digits of `n`.
pub open spec fn digits(n: nat) -> Seq<char>
    decreases n,
{
    if n < 10 {
        seq![digit_char(n)]
    } else {
        digits(n / 10).push(digit_char(n % 10))
    }
}

/// The decimal text of an integer.
pub open spec fn decimal(n: int) -> Seq<char> {
    if n < 0 {
        seq!['-'] + digits((-n) as nat)
    } else {
        digits(n as nat)
    }
}

/// The decimal digits of `n`.
pub(crate) fn digits_exec(n: u64) -> (r: Vec<char>)
    ensures
        r@ == digits(n as nat),
    decreases n,
{
    let d: u8 = (n % 10) as u8;
    let c = (48u8 + d) as char;
    if n < 10 {
        v1(c)
    } else {
        let mut r = digits_exec(n / 10);
        r.push(c);
        r
    }
}

/// The decimal text of `n`.
pub fn decimal_text(n: i64) -> (r: Vec<char>)
    ensures
        r@ == decimal(n as int),
{
    if n < 0 {
        let m: u64 = ((-(n + 1)) as u64) + 1;
        let mut r = v1('-');
        extend_chars(&mut r, &digits_exec(m));
        r
    } else {
        digits_exec(n as u64)
    }
}

/// The YAML document serde_yaml writes for a string (empty when it cannot).
pub open spec fn yaml_str_text(s: Seq<char>) -> Seq<char> {
    match yaml_str_of(s) {
        Some(t) => t,
        None => Seq::empty(),
    }
}

/// Whether serde_yaml can write a string.
pub open spec fn writes(s: Seq<char>) -> bool {
    yaml_str_of(s) is Some
}

/// `t` without one trailing newline.
pub open spec fn strip_nl(t: Seq<char>) -> Seq<char> {
    if ends_with(t, seq!['\n']) {
        t.drop_last()
    } else {
        t
    }
}

/// The text of a string scalar: serde_yaml's document without its final
/// newline.
pub open spec fn str_scalar(s: Seq<char>) -> Seq<char> {
    strip_nl(yaml_str_text(s))
}

/// Whether a value is written as an indented block (a non-empty sequence
/// or mapping) rather than after its key on the same line.
pub open spec fn is_block(v: Value) -> bool {
    match v {
        Value::Sequence(xs) => xs@.len() > 0,
        Value::Mapping(ps) => ps@.len() > 0,
        _ => false,
    }
}

/// The text of a value written on one line (with possible continuation
/// lines for a multi-line string).
pub open spec fn inline_text(v: Value) -> Seq<char> {
    match v {
        Value::Null => "null"@,
        Value::Bool(b) => if b {
            "true"@
        } else {
            "false"@
        },
        Value::Int(n) => decimal(n as int),
        Value::Real(t, _) => t@,
        Value::String(s) => str_scalar(s@),
        Value::Sequence(_) => "[]"@,
        Value::Mapping(_) => "{}"@,
    }
}

/// `n` spaces.
pub open spec fn pad(n: nat) -> Seq<char> {
    Seq::new(n, |i: int| ' ')
}

/// The lines of `prefix` followed by `text`: the first line of the text
/// after the prefix, the later ones indented by `cont`.
pub open spec fn attach(prefix: Seq<char>, text: Seq<char>, cont: nat) -> Seq<Seq<char>> {
    let ls = split(text, Sep::Ch('\n'));
    seq![prefix + ls[0]] + ls.drop_first().map_values(|l: Seq<char>| pad(cont) + l)
}

/// The lines of an item that holds a block, nested at `ind + 2`: its first
/// line follows the `- ` marker.
pub open spec fn hang(ind: nat, inner: Seq<Seq<char>>) -> Seq<Seq<char>> {
    if inner.len() == 0 {
        seq![pad(ind) + "-"@]
    } else {
        seq![pad(ind) + "- "@ + inner[0].subrange(ind + 2int, inner[0].len() as int)]
            + inner.drop_first()
    }
}

/// The lines of the items of a sequence at indentation `ind`.
pub open spec fn items_lines(xs: Seq<Value>, ind: nat) -> Seq<Seq<char>>
    decreases xs,
{
    if xs.len() == 0 {
        Seq::empty()
    } else {
        items_lines(xs.subrange(0, xs.len() - 1), ind) + item_lines(xs[xs.len() - 1], ind)
    }
}

/// The lines of one sequence item at indentation `ind`.
pub open spec fn item_lines(x: Value, ind: nat) -> Seq<Seq<char>>
    decreases x,
{
    match x {
        Value::Sequence(xs) => if xs@.len() > 0 {
            hang(ind, items_lines(xs@, ind + 2))
        } else {
            attach(pad(ind) + "- "@, inline_text(x), ind)
        },
        Value::Mapping(ps) => if ps@.len() > 0 {
            hang(ind, entries_lines(ps@, ind + 2))
        } else {
            attach(pad(ind) + "- "@, inline_text(x), ind)
        },
        _ => attach(pad(ind) + "- "@, inline_text(x), ind),
    }
}

/// The lines of the entries of a mapping at indentation `ind`.
pub open spec fn entries_lines(ps: Seq<(String, Value)>, ind: nat) -> Seq<Seq<char>>
    decreases ps,
{
    if ps.len() == 0 {
        Seq::empty()
    } else {
        entries_lines(ps.subrange(0, ps.len() - 1), ind) + entry_lines(
            ps[ps.len() - 1].0@,
            ps[ps.len() - 1].1,
            ind,
        )
    }
}

/// The lines of one `key: value` entry at indentation `ind`: a block
/// sequence follows at the same indentation, a block mapping two further
/// in.
pub open spec fn entry_lines(k: Seq<char>, v: Value, ind: nat) -> Seq<Seq<char>>
    decreases v,
{
    let head = pad(ind) + str_scalar(k) + ":"@;
    match v {
        Value::Sequence(xs) => if xs@.len() > 0 {
            seq![head] + items_lines(xs@, ind)
        } else {
            attach(head + " "@, inline_text(v), ind)
        },
        Value::Mapping(ps) => if ps@.len() > 0 {
            seq![head] + entries_lines(ps@, ind + 2)
        } else {
            attach(head + " "@, inline_text(v), ind)
        },
        _ => attach(head + " "@, inline_text(v), ind),
    }
}

/// The YAML text of a mapping: its lines joined by newlines.
pub open spec fn mapping_text(ps: Seq<(String, Value)>) -> Seq<char> {
    join(entries_lines(ps, 0), seq!['\n'])
}

// ---------------------------------------------------------------------------
// When a mapping can be written
// ---------------------------------------------------------------------------

/// Whether a value can be written on one line: any value but a string
/// serde_yaml cannot write.
pub open spec fn inline_ok(v: Value) -> bool {
    match v {
        Value::String(s) => writes(s@),
        _ => true,
    }
}

/// Whether a sequence item at indentation `ind` can be written: its
/// strings can, and a nested block's indentation fits in a `usize`.
pub open spec fn item_ok(x: Value, ind: nat) -> bool
    decreases x,
{
    match x {
        Value::Sequence(xs) => if xs@.len() > 0 {
            ind + 4 <= usize::MAX && items_ok(xs@, ind + 2)
        } else {
            true
        },
        Value::Mapping(ps) => if ps@.len() > 0 {
            ind + 4 <= usize::MAX && entries_ok(ps@, ind + 2)
        } else {
            true
        },
        _ => inline_ok(x),
    }
}

/// Whether every item of a sequence at indentation `ind` can be written.
pub open spec fn items_ok(xs: Seq<Value>, ind: nat) -> bool
    decreases xs,
{
    if xs.len() == 0 {
        true
    } else {
        items_ok(xs.subrange(0, xs.len() - 1), ind) && item_ok(xs[xs.len() - 1], ind)
    }
}

/// Whether a `key: value` entry at indentation `ind` can be written: its
/// key and its strings can, and a nested mapping's indentation fits.
pub open spec fn entry_ok(k: Seq<char>, v: Value, ind: nat) -> bool
    decreases v,
{
    &&& writes(k)
    &&& match v {
        Value::Sequence(xs) => if xs@.len() > 0 {
            items_ok(xs@, ind)
        } else {
            true
        },
        Value::Mapping(ps) => if ps@.len() > 0 {
            ind + 2 <= usize::MAX && entries_ok(ps@, ind + 2)
        } else {
            true
        },
        _ => inline_ok(v),
    }
}

/// Whether every entry of a mapping at indentation `ind` can be written.
pub open spec fn entries_ok(ps: Seq<(String, Value)>, ind: nat) -> bool
    decreases ps,
{
    if ps.len() == 0 {
        true
    } else {
        entries_ok(ps.subrange(0, ps.len() - 1), ind) && entry_ok(ps[ps.len() - 1].0@, ps[ps.len() - 1].1, ind)
    }
}

/// What it takes for every item to be writable.
proof fn lemma_items_ok(xs: Seq<Value>, ind: nat)
    ensures
        items_ok(xs, ind) <==> forall|i: int| 0 <= i < xs.len() ==> #[trigger] item_ok(xs[i], ind),
    decreases xs.len(),
{
    if xs.len() == 0 {
        assert(items_ok(xs, ind));
    }
    if xs.len() > 0 {
        let init = xs.subrange(0, xs.len() - 1);
        assert(items_ok(xs, ind) == (items_ok(init, ind) && item_ok(xs[xs.len() - 1], ind)));
        lemma_items_ok(init, ind);
        assert forall|i: int| 0 <= i < init.len() implies init[i] == xs[i] by {}
        if forall|i: int| 0 <= i < xs.len() ==> #[trigger] item_ok(xs[i], ind) {
            assert forall|i: int| 0 <= i < init.len() implies #[trigger] item_ok(init[i], ind) by {
                assert(item_ok(xs[i], ind));
            }
        }
        if items_ok(xs, ind) {
            assert forall|i: int| 0 <= i < xs.len() implies #[trigger] item_ok(xs[i], ind) by {
                if i < xs.len() - 1 {
                    assert(item_ok(init[i], ind));
                }
            }
        }
    }
}

/// What it takes for every entry to be writable.
proof fn lemma_entries_ok(ps: Seq<(String, Value)>, ind: nat)
    ensures
        entries_ok(ps, ind) <==> forall|i: int| 0 <= i < ps.len() ==> #[trigger] entry_ok(ps[i].0@, ps[i].1, ind),
    decreases ps.len(),
{
    if ps.len() == 0 {
        assert(entries_ok(ps, ind));
    }
    if ps.len() > 0 {
        let init = ps.subrange(0, ps.len() - 1);
        assert(entries_ok(ps, ind) == (entries_ok(init, ind) && entry_ok(ps[ps.len() - 1].0@, ps[ps.len() - 1].1, ind)));
        lemma_entries_ok(init, ind);
        assert forall|i: int| 0 <= i < init.len() implies init[i] == ps[i] by {}
        if forall|i: int| 0 <= i < ps.len() ==> #[trigger] entry_ok(ps[i].0@, ps[i].1, ind) {
            assert forall|i: int| 0 <= i < init.len() implies #[trigger] entry_ok(init[i].0@, init[i].1, ind) by {
                assert(entry_ok(ps[i].0@, ps[i].1, ind));
            }
        }
        if entries_ok(ps, ind) {
            assert forall|i: int| 0 <= i < ps.len() implies #[trigger] entry_ok(ps[i].0@, ps[i].1, ind) by {
                if i < ps.len() - 1 {
                    assert(entry_ok(init[i].0@, init[i].1, ind));
                }
            }
        }
    }
}

/// Whether every line is at least `n` characters long.
pub open spec fn wide(ls: Seq<Seq<char>>, n: nat) -> bool {
    forall|j: int| 0 <= j < ls.len() ==> #[trigger] ls[j].len() >= n
}

/// A prefix at least `cont` long makes every attached line that long.
proof fn lemma_attach_wide(prefix: Seq<char>, text: Seq<char>, cont: nat)
    requires
        prefix.len() >= cont,
    ensures
        wide(attach(prefix, text, cont), cont),
{
    let ls = split(text, Sep::Ch('\n'));
    let a = attach(prefix, text, cont);
    assert forall|j: int| 0 <= j < a.len() implies #[trigger] a[j].len() >= cont by {
        if j > 0 {
            assert(a[j] == pad(cont) + ls.drop_first()[j - 1]);
        }
    }
}

/// The lines of a sequence item are at least as long as its indentation.
proof fn lemma_item_wide(x: Value, ind: nat)
    ensures
        wide(item_lines(x, ind), ind),
    decreases x,
{
    reveal_strlit("- ");
    reveal_strlit("-");
    match x {
        Value::Sequence(xs) => if xs@.len() > 0 {
            assert(decreases_to!(x => x->Sequence_0));
            assert(decreases_to!(xs => xs@));
            lemma_items_wide(xs@, ind + 2);
            lemma_hang_wide(ind, items_lines(xs@, ind + 2));
        } else {
            lemma_attach_wide(pad(ind) + "- "@, inline_text(x), ind);
        },
        Value::Mapping(ps) => if ps@.len() > 0 {
            assert(decreases_to!(x => x->Mapping_0));
            assert(decreases_to!(ps => ps@));
            lemma_entries_wide(ps@, ind + 2);
            lemma_hang_wide(ind, entries_lines(ps@, ind + 2));
        } else {
            lemma_attach_wide(pad(ind) + "- "@, inline_text(x), ind);
        },
        _ => lemma_attach_wide(pad(ind) + "- "@, inline_text(x), ind),
    }
}

/// Hanging lines nested two further in under a `- ` marker keeps them at
/// least as long as the marker's indentation.
proof fn lemma_hang_wide(ind: nat, inner: Seq<Seq<char>>)
    requires
        wide(inner, ind + 2),
    ensures
        wide(hang(ind, inner), ind),
{
    reveal_strlit("- ");
    reveal_strlit("-");
    let h = hang(ind, inner);
    assert forall|j: int| 0 <= j < h.len() implies #[trigger] h[j].len() >= ind by {
        if inner.len() > 0 && j > 0 {
            assert(h[j] == inner.drop_first()[j - 1]);
            assert(inner[j].len() >= ind + 2);
        }
        if inner.len() > 0 && j == 0 {
            assert(inner[0].len() >= ind + 2);
        }
    }
}

/// The lines of a sequence's items are at least as long as their
/// indentation.
proof fn lemma_items_wide(xs: Seq<Value>, ind: nat)
    ensures
        wide(items_lines(xs, ind), ind),
    decreases xs,
{
    if xs.len() > 0 {
        let init = xs.subrange(0, xs.len() - 1);
        lemma_items_wide(init, ind);
        lemma_item_wide(xs[xs.len() - 1], ind);
        let a = items_lines(init, ind);
        let b = item_lines(xs[xs.len() - 1], ind);
        assert forall|j: int| 0 <= j < (a + b).len() implies #[trigger] (a + b)[j].len() >= ind by {
            if j < a.len() {
                assert((a + b)[j] == a[j]);
            } else {
                assert((a + b)[j] == b[j - a.len()]);
            }
        }
    }
}

/// The lines of an entry are at least as long as its indentation.
proof fn lemma_entry_wide(k: Seq<char>, v: Value, ind: nat)
    ensures
        wide(entry_lines(k, v, ind), ind),
    decreases v,
{
    reveal_strlit(":");
    reveal_strlit(" ");
    let head = pad(ind) + str_scalar(k) + ":"@;
    match v {
        Value::Sequence(xs) => if xs@.len() > 0 {
            assert(decreases_to!(v => v->Sequence_0));
            assert(decreases_to!(xs => xs@));
            lemma_items_wide(xs@, ind);
            let b = items_lines(xs@, ind);
            let l = seq![head] + b;
            assert forall|j: int| 0 <= j < l.len() implies #[trigger] l[j].len() >= ind by {
                if j > 0 {
                    assert(l[j] == b[j - 1]);
                }
            }
        } else {
            lemma_attach_wide(head + " "@, inline_text(v), ind);
        },
        Value::Mapping(ps) => if ps@.len() > 0 {
            assert(decreases_to!(v => v->Mapping_0));
            assert(decreases_to!(ps => ps@));
            lemma_entries_wide(ps@, ind + 2);
            let b = entries_lines(ps@, ind + 2);
            let l = seq![head] + b;
            assert forall|j: int| 0 <= j < l.len() implies #[trigger] l[j].len() >= ind by {
                if j > 0 {
                    assert(l[j] == b[j - 1]);
                }
            }
        } else {
            lemma_attach_wide(head + " "@, inline_text(v), ind);
        },
        _ => lemma_attach_wide(head + " "@, inline_text(v), ind),
    }
}

/// The lines of a mapping's entries are at least as long as their
/// indentation.
proof fn lemma_entries_wide(ps: Seq<(String, Value)>, ind: nat)
    ensures
        wide(entries_lines(ps, ind), ind),
    decreases ps,
{
    if ps.len() > 0 {
        let init = ps.subrange(0, ps.len() - 1);
        lemma_entries_wide(init, ind);
        assert(decreases_to!(ps => ps[ps.len() - 1]));
        assert(decreases_to!(ps[ps.len() - 1] => ps[ps.len() - 1].1));
        lemma_entry_wide(ps[ps.len() - 1].0@, ps[ps.len() - 1].1, ind);
        let a = entries_lines(init, ind);
        let b = entry_lines(ps[ps.len() - 1].0@, ps[ps.len() - 1].1, ind);
        assert forall|j: int| 0 <= j < (a + b).len() implies #[trigger] (a + b)[j].len() >= ind by {
            if j < a.len() {
                assert((a + b)[j] == a[j]);
            } else {
                assert((a + b)[j] == b[j - a.len()]);
            }
        }
    }
}

// ---------------------------------------------------------------------------
// Writing
// ---------------------------------------------------------------------------

/// `n` spaces.
fn pad_exec(n: usize) -> (r: Vec<char>)
    ensures
        r@ == pad(n as nat),
{
    let mut r: Vec<char> = Vec::new();
    while r.len() < n
        invariant
            r.len() <= n,
            forall|i: int| 0 <= i < r.len() ==> r@[i] == ' ',
        decreases n - r.len(),
    {
        r.push(' ');
    }
    assert(r@ =~= pad(n as nat));
    r
}

/// Appends the lines of `attach(prefix, text, cont)` to `out`.
fn attach_exec(prefix: Vec<char>, text: &Vec<char>, cont: usize, out: &mut Vec<Vec<char>>)
    ensures
        views(final(out)@) == views(old(out)@) + attach(prefix@, text@, cont as nat),
{
    let ls = split_chars(text, Sep::Ch('\n'));
    proof {
        lemma_split_len(text@, Sep::Ch('\n'));
    }
    let ghost lv = views(ls@);
    let mut first = prefix;
    extend_chars(&mut first, &ls[0]);
    let ghost start = views(out@);
    let ghost first_v = first@;
    out.push(first);
    proof {
        lemma_views_push(old(out)@, first);
    }
    let p = pad_exec(cont);
    let mut i: usize = 1;
    while i < ls.len()
        invariant
            1 <= i <= ls.len(),
            lv == views(ls@),
            lv.len() >= 1,
            p@ == pad(cont as nat),
            first_v == prefix@ + lv[0],
            views(out@) == start + seq![first_v] + lv.subrange(1, i as int).map_values(
                |l: Seq<char>| pad(cont as nat) + l,
            ),
        decreases ls.len() - i,
    {
        let mut line = p.clone();
        extend_chars(&mut line, &ls[i]);
        let ghost pre = out@;
        out.push(line);
        proof {
            lemma_views_push(pre, line);
        }
        i += 1;
        assert(lv.subrange(1, i as int).map_values(|l: Seq<char>| pad(cont as nat) + l) =~= lv.subrange(
            1,
            i - 1,
        ).map_values(|l: Seq<char>| pad(cont as nat) + l).push(pad(cont as nat) + lv[i - 1]));
    }
    assert(lv.subrange(1, lv.len() as int) =~= lv.drop_first());
    assert(split(text@, Sep::Ch('\n')) == lv);
    assert(views(out@) =~= start + attach(prefix@, text@, cont as nat));
}

/// The one-line text of a value; `None` when serde_yaml fails on a string.
fn inline_exec(v: &Value) -> (r: Option<Vec<char>>)
    ensures
        r is Some == inline_ok(*v),
        r matches Some(t) ==> t@ == inline_text(*v),
{
    match v {
        Value::Null => Some(chars_of("null")),
        Value::Bool(b) => if *b {
            Some(chars_of("true"))
        } else {
            Some(chars_of("false"))
        },
        Value::Int(n) => Some(decimal_text(*n)),
        Value::Real(t, _) => Some(chars_of(t.as_str())),
        Value::String(s) => match yaml_str(s.as_str()) {
            Some(t) => {
                let tc = chars_of(t.as_str());
                if has_suffix(&tc, &v1('\n')) {
                    Some(slice_chars(&tc, 0, tc.len() - 1))
                } else {
                    Some(tc)
                }
            },
            None => None,
        },
        Value::Sequence(_) => Some(chars_of("[]")),
        Value::Mapping(_) => Some(chars_of("{}")),
    }
}

/// Appends the lines of `hang(ind, inner)` to `out`; `false` if the first
/// inner line is shorter than its indentation.
fn hang_exec(ind: usize, inner: Vec<Vec<char>>, out: &mut Vec<Vec<char>>) -> (ok: bool)
    requires
        ind + 2 <= usize::MAX,
    ensures
        ok == (inner@.len() == 0 || inner@[0]@.len() >= ind + 2),
        ok ==> views(final(out)@) == views(old(out)@) + hang(ind as nat, views(inner@)),
{
    let ghost iv = views(inner@);
    let ghost start = views(out@);
    let mut first = pad_exec(ind);
    first.push('-');
    if inner.len() == 0 {
        out.push(first);
        proof {
            lemma_views_push(old(out)@, first);
        }
        assert(first@ =~= pad(ind as nat) + "-"@) by {
            reveal_strlit("-");
        }
        return true;
    }
    assert(views(inner@)[0] == inner@[0]@);
    if inner[0].len() < ind + 2 {
        return false;
    }
    first.push(' ');
    assert(first@ =~= pad(ind as nat) + "- "@) by {
        reveal_strlit("- ");
    }
    extend_chars(&mut first, &slice_chars(&inner[0], ind + 2, inner[0].len()));
    out.push(first);
    proof {
        lemma_views_push(old(out)@, first);
    }
    let mut i: usize = 1;
    while i < inner.len()
        invariant
            1 <= i <= inner.len(),
            iv == views(inner@),
            iv.len() >= 1,
            views(out@) == start + seq![pad(ind as nat) + "- "@ + iv[0].subrange(ind + 2int, iv[0].len() as int)] + iv.subrange(1, i as int),
        decreases inner.len() - i,
    {
        let line = inner[i].clone();
        let ghost pre = out@;
        out.push(line);
        proof {
            lemma_views_push(pre, line);
        }
        i += 1;
        assert(iv.subrange(1, i as int) =~= iv.subrange(1, i - 1).push(iv[i - 1]));
    }
    assert(iv.subrange(1, iv.len() as int) =~= iv.drop_first());
    assert(views(out@) =~= start + hang(ind as nat, iv));
    true
}

/// Appends the lines of the items of `xs` at indentation `ind`; `false`
/// when a string could not be written.
fn items_exec(xs: &Vec<Value>, ind: usize, out: &mut Vec<Vec<char>>) -> (ok: bool)
    ensures
        ok == items_ok(xs@, ind as nat),
        ok ==> views(final(out)@) == views(old(out)@) + items_lines(xs@, ind as nat),
    decreases xs@,
{
    let ghost start = views(out@);
    let mut i: usize = 0;
    assert(xs@.subrange(0, 0) =~= Seq::<Value>::empty());
    while i < xs.len()
        invariant
            i <= xs.len(),
            views(out@) == start + items_lines(xs@.subrange(0, i as int), ind as nat),
            forall|j: int| 0 <= j < i ==> #[trigger] item_ok(xs@[j], ind as nat),
        decreases xs.len() - i,
    {
        proof {
            assert(decreases_to!(xs@ => xs@[i as int]));
        }
        let ok = item_exec(&xs[i], ind, out);
        if !ok {
            assert(!item_ok(xs@[i as int], ind as nat));
            proof {
                lemma_items_ok(xs@, ind as nat);
            }
            return false;
        }
        proof {
            let p = xs@.subrange(0, i + 1);
            assert(p.subrange(0, p.len() - 1) =~= xs@.subrange(0, i as int));
            assert(p[p.len() - 1] == xs@[i as int]);
        }
        i += 1;
    }
    assert(xs@.subrange(0, xs@.len() as int) =~= xs@);
    proof {
        lemma_items_ok(xs@, ind as nat);
    }
    true
}

/// Appends the lines of one sequence item at indentation `ind`.
fn item_exec(x: &Value, ind: usize, out: &mut Vec<Vec<char>>) -> (ok: bool)
    ensures
        ok == item_ok(*x, ind as nat),
        ok ==> views(final(out)@) == views(old(out)@) + item_lines(*x, ind as nat),
    decreases *x,
{
    match x {
        Value::Sequence(xs) => {
            if xs.len() > 0 {
                if ind > usize::MAX - 4 {
                    return false;
                }
                let mut inner: Vec<Vec<char>> = Vec::new();
                proof {
                    assert(decreases_to!(*x => (*x)->Sequence_0));
                    assert(decreases_to!(*xs => xs@));
                    assert(decreases_to!(*x => xs@));
                }
                if !items_exec(xs, ind + 2, &mut inner) {
                    return false;
                }
                assert(views(inner@) =~= items_lines(xs@, (ind + 2) as nat));
                proof {
                    lemma_items_wide(xs@, (ind + 2) as nat);
                    if inner@.len() > 0 {
                        assert(views(inner@)[0] == inner@[0]@);
                    }
                }
                return hang_exec(ind, inner, out);
            }
        },
        Value::Mapping(ps) => {
            if ps.len() > 0 {
                if ind > usize::MAX - 4 {
                    return false;
                }
                let mut inner: Vec<Vec<char>> = Vec::new();
                proof {
                    assert(decreases_to!(*x => (*x)->Mapping_0));
                    assert(decreases_to!(*ps => ps@));
                    assert(decreases_to!(*x => ps@));
                }
                if !entries_exec(ps, ind + 2, &mut inner) {
                    return false;
                }
                assert(views(inner@) =~= entries_lines(ps@, (ind + 2) as nat));
                proof {
                    lemma_entries_wide(ps@, (ind + 2) as nat);
                    if inner@.len() > 0 {
                        assert(views(inner@)[0] == inner@[0]@);
                    }
                }
                return hang_exec(ind, inner, out);
            }
        },
        _ => {},
    }
    match inline_exec(x) {
        Some(t) => {
            let mut prefix = pad_exec(ind);
            prefix.push('-');
            prefix.push(' ');
            assert(prefix@ =~= pad(ind as nat) + "- "@) by {
                reveal_strlit("- ");
            }
            attach_exec(prefix, &t, ind, out);
            true
        },
        None => false,
    }
}

/// Appends the lines of the entries of `ps` at indentation `ind`.
fn entries_exec(ps: &Vec<(String, Value)>, ind: usize, out: &mut Vec<Vec<char>>) -> (ok: bool)
    ensures
        ok == entries_ok(ps@, ind as nat),
        ok ==> views(final(out)@) == views(old(out)@) + entries_lines(ps@, ind as nat),
    decreases ps@,
{
    let ghost start = views(out@);
    let mut i: usize = 0;
    assert(ps@.subrange(0, 0) =~= Seq::<(String, Value)>::empty());
    while i < ps.len()
        invariant
            i <= ps.len(),
            views(out@) == start + entries_lines(ps@.subrange(0, i as int), ind as nat),
            forall|j: int| 0 <= j < i ==> #[trigger] entry_ok(ps@[j].0@, ps@[j].1, ind as nat),
        decreases ps.len() - i,
    {
        proof {
            assert(decreases_to!(ps@ => ps@[i as int]));
            assert(decreases_to!(ps@[i as int] => ps@[i as int].1));
            assert(decreases_to!(ps@ => ps@[i as int].1));
        }
        let ok = entry_exec(&ps[i].0, &ps[i].1, ind, out);
        if !ok {
            assert(!entry_ok(ps@[i as int].0@, ps@[i as int].1, ind as nat));
            proof {
                lemma_entries_ok(ps@, ind as nat);
            }
            return false;
        }
        proof {
            let p = ps@.subrange(0, i + 1);
            assert(p.subrange(0, p.len() - 1) =~= ps@.subrange(0, i as int));
            assert(p[p.len() - 1] == ps@[i as int]);
        }
        i += 1;
    }
    assert(ps@.subrange(0, ps@.len() as int) =~= ps@);
    proof {
        lemma_entries_ok(ps@, ind as nat);
    }
    true
}

/// Appends the lines of one `key: value` entry at indentation `ind`.
fn entry_exec(k: &String, v: &Value, ind: usize, out: &mut Vec<Vec<char>>) -> (ok: bool)
    ensures
        ok == entry_ok(k@, *v, ind as nat),
        ok ==> views(final(out)@) == views(old(out)@) + entry_lines(k@, *v, ind as nat),
    decreases *v,
{
    let kt = match yaml_str(k.as_str()) {
        Some(t) => t,
        None => {
            return false;
        },
    };
    let ktc = chars_of(kt.as_str());
    let key_text = if has_suffix(&ktc, &v1('\n')) {
        slice_chars(&ktc, 0, ktc.len() - 1)
    } else {
        ktc
    };
    assert(key_text@ == str_scalar(k@));
    let mut head = pad_exec(ind);
    extend_chars(&mut head, &key_text);
    head.push(':');
    assert(head@ =~= pad(ind as nat) + str_scalar(k@) + ":"@) by {
        reveal_strlit(":");
    }
    match v {
        Value::Sequence(xs) => {
            if xs.len() > 0 {
                let ghost start = views(out@);
                out.push(head);
                proof {
                    lemma_views_push(old(out)@, head);
                    assert(decreases_to!(*v => (*v)->Sequence_0));
                    assert(decreases_to!(*xs => xs@));
                    assert(decreases_to!(*v => xs@));
                }
                let ghost mid = views(out@);
                if !items_exec(xs, ind, out) {
                    return false;
                }
                assert(views(out@) =~= start + (seq![head@] + items_lines(xs@, ind as nat)));
                return true;
            }
        },
        Value::Mapping(ps) => {
            if ps.len() > 0 {
                if ind > usize::MAX - 2 {
                    return false;
                }
                let ghost start = views(out@);
                out.push(head);
                proof {
                    lemma_views_push(old(out)@, head);
                    assert(decreases_to!(*v => (*v)->Mapping_0));
                    assert(decreases_to!(*ps => ps@));
                    assert(decreases_to!(*v => ps@));
                }
                if !entries_exec(ps, ind + 2, out) {
                    return false;
                }
                assert(views(out@) =~= start + (seq![head@] + entries_lines(ps@, (ind + 2) as nat)));
                return true;
            }
        },
        _ => {},
    }
    match inline_exec(v) {
        Some(t) => {
            head.push(' ');
            assert(head@ =~= pad(ind as nat) + str_scalar(k@) + ":"@ + " "@) by {
                reveal_strlit(" ");
                reveal_strlit(":");
            }
            attach_exec(head, &t, ind, out);
            true
        },
        None => false,
    }
}

/// The YAML text of a mapping; `None` when serde_yaml fails on a string or
/// the nesting is too deep to indent.
pub fn mapping_yaml(ps: &Vec<(String, Value)>) -> (r: Option<String>)
    ensures
        r is Some == entries_ok(ps@, 0),
        r matches Some(t) ==> t@ == mapping_text(ps@),
{
    let mut lines: Vec<Vec<char>> = Vec::new();
    if !entries_exec(ps, 0, &mut lines) {
        return None;
    }
    assert(views(lines@) =~= entries_lines(ps@, 0));
    Some(string_of(&join_chars(&lines, &v1('\n'))))
}

/// The YAML text of the one-entry mapping `k: v`.
pub open spec fn entry_text(k: Seq<char>, v: Value) -> Seq<char> {
    join(entry_lines(k, v, 0), seq!['\n'])
}

/// The YAML text of the one-entry mapping `k: v` (see [`entry_text`]);
/// `None` when it cannot be written (see [`entry_ok`]).
pub fn entry_yaml(k: &String, v: &Value) -> (r: Option<String>)
    ensures
        r is Some == entry_ok(k@, *v, 0),
        r matches Some(t) ==> t@ == entry_text(k@, *v),
{
    let mut lines: Vec<Vec<char>> = Vec::new();
    if !entry_exec(k, v, 0, &mut lines) {
        return None;
    }
    assert(views(lines@) =~= entry_lines(k@, *v, 0));
    Some(string_of(&join_chars(&lines, &v1('\n'))))
}


} // verus!
