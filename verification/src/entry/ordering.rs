//! Reordering and renaming the properties of a frontmatter map: the
//! alphabetical order, the order a sort pattern asks for, and renaming a key
//! where it stands.

use vstd::prelude::*;
use vstd::seq_lib::*;
use vstd::multiset::Multiset;
use crate::entry::{find_key, keys_unique, key_index, remove_property};
use crate::text::{chars_of, split, split_chars, string_of, trim, trim_chars, views, Sep};
use crate::yaml::Value;

verus! {

broadcast use vstd::multiset::group_multiset_axioms;

// ---------------------------------------------------------------------------
// The order of keys
// ---------------------------------------------------------------------------

/// Whether `a` comes strictly before `b` in the order of `str::cmp`:
/// character by character by code point, a proper prefix first.
pub open spec fn text_less(a: Seq<char>, b: Seq<char>) -> bool
    decreases a.len(),
{
    if b.len() == 0 {
        false
    } else if a.len() == 0 {
        true
    } else if a[0] != b[0] {
        a[0] < b[0]
    } else {
        text_less(a.drop_first(), b.drop_first())
    }
}

/// No text comes before itself.
pub proof fn lemma_text_less_irreflexive(a: Seq<char>)
    ensures
        !text_less(a, a),
    decreases a.len(),
{
    if a.len() > 0 {
        lemma_text_less_irreflexive(a.drop_first());
    }
}

/// The order is transitive.
pub proof fn lemma_text_less_transitive(a: Seq<char>, b: Seq<char>, c: Seq<char>)
    requires
        text_less(a, b),
        text_less(b, c),
    ensures
        text_less(a, c),
    decreases a.len(),
{
    if a.len() > 0 && b.len() > 0 && c.len() > 0 && a[0] == b[0] && b[0] == c[0] {
        lemma_text_less_transitive(a.drop_first(), b.drop_first(), c.drop_first());
    }
}

/// Of two different texts, one comes before the other, and not both ways.
pub proof fn lemma_text_less_total(a: Seq<char>, b: Seq<char>)
    ensures
        a != b ==> (text_less(a, b) || text_less(b, a)),
        !(text_less(a, b) && text_less(b, a)),
    decreases a.len(),
{
    if a.len() > 0 && b.len() > 0 && a[0] == b[0] {
        lemma_text_less_total(a.drop_first(), b.drop_first());
        if a.drop_first() == b.drop_first() {
            assert(a =~= seq![a[0]] + a.drop_first());
            assert(b =~= seq![b[0]] + b.drop_first());
        }
    }
    if a.len() == 0 && b.len() == 0 {
        assert(a =~= b);
    }
}

/// Whether `a` comes strictly before `b` (`a < b` on strings).
pub fn text_less_exec(a: &str, b: &str) -> (r: bool)
    ensures
        r == text_less(a@, b@),
{
    let x = chars_of(a);
    let y = chars_of(b);
    let mut i: usize = 0;
    assert(x@.subrange(0, x@.len() as int) =~= x@);
    assert(y@.subrange(0, y@.len() as int) =~= y@);
    while i < x.len() && i < y.len() && x[i] == y[i]
        invariant
            i <= x.len(),
            i <= y.len(),
            x@ == a@,
            y@ == b@,
            text_less(a@, b@) == text_less(
                x@.subrange(i as int, x@.len() as int),
                y@.subrange(i as int, y@.len() as int),
            ),
        decreases x.len() - i,
    {
        let ghost xs = x@.subrange(i as int, x@.len() as int);
        let ghost ys = y@.subrange(i as int, y@.len() as int);
        assert(xs.drop_first() =~= x@.subrange(i + 1, x@.len() as int));
        assert(ys.drop_first() =~= y@.subrange(i + 1, y@.len() as int));
        i += 1;
    }
    if i == y.len() {
        false
    } else if i == x.len() {
        true
    } else {
        x[i] < y[i]
    }
}

// ---------------------------------------------------------------------------
// Entries and their alphabetical order
// ---------------------------------------------------------------------------

/// A frontmatter map seen as (key text, value) pairs.
pub open spec fn entries(fm: Seq<(String, Value)>) -> Seq<(Seq<char>, Value)> {
    fm.map_values(|e: (String, Value)| (e.0@, e.1))
}

/// Whether the keys of `fm` stand in strictly increasing order.
pub open spec fn keys_sorted(fm: Seq<(String, Value)>) -> bool {
    forall|i: int, j: int|
        0 <= i < j < fm.len() ==> text_less(#[trigger] fm[i].0@, #[trigger] fm[j].0@)
}

/// Strictly increasing keys are each there once.
pub proof fn lemma_sorted_keys_unique(fm: Seq<(String, Value)>)
    requires
        keys_sorted(fm),
    ensures
        keys_unique(fm),
{
    assert forall|i: int, j: int| 0 <= i < j < fm.len() implies #[trigger] fm[i].0@
        != #[trigger] fm[j].0@ by {
        if fm[i].0@ == fm[j].0@ {
            lemma_text_less_irreflexive(fm[i].0@);
        }
    }
}

/// An empty sequence has no elements to count.
proof fn lemma_no_entries<A>(s: Seq<A>)
    requires
        s.len() == 0,
    ensures
        s.to_multiset() =~= Multiset::empty(),
{
    to_multiset_len(s);
    vstd::multiset::lemma_multiset_empty_len(s.to_multiset());
}

/// The properties of `fm` in alphabetical order of their keys (what sorting
/// the pairs by `str::cmp` on the keys gives): the same pairs, reordered so
/// that the keys increase.
pub fn sort_alphabetically(fm: Vec<(String, Value)>) -> (r: Vec<(String, Value)>)
    requires
        keys_unique(fm@),
    ensures
        entries(r@).to_multiset() == entries(fm@).to_multiset(),
        keys_sorted(r@),
        keys_unique(r@),
{
    let ghost orig = fm@;
    let mut rest = fm;
    let mut r: Vec<(String, Value)> = Vec::new();
    proof {
        lemma_no_entries(entries(r@));
    }
    assert(entries(r@).to_multiset().add(entries(rest@).to_multiset()) =~= entries(
        orig,
    ).to_multiset());
    while rest.len() > 0
        invariant
            keys_unique(rest@),
            keys_sorted(r@),
            forall|i: int, j: int|
                0 <= i < r@.len() && 0 <= j < rest@.len() ==> #[trigger] r@[i].0@
                    != #[trigger] rest@[j].0@,
            entries(r@).to_multiset().add(entries(rest@).to_multiset()) == entries(
                orig,
            ).to_multiset(),
        decreases rest.len(),
    {
        let ghost before = rest@;
        let ghost r0 = r@;
        let x = rest.pop().unwrap();
        assert(before =~= rest@.push(x));
        let mut p: usize = 0;
        while p < r.len() && text_less_exec(r[p].0.as_str(), x.0.as_str())
            invariant
                p <= r.len(),
                r@ == r0,
                forall|t: int| 0 <= t < p ==> text_less(#[trigger] r@[t].0@, x.0@),
            decreases r.len() - p,
        {
            p += 1;
        }
        proof {
            assert forall|t: int| p <= t < r@.len() implies text_less(x.0@, #[trigger] r@[t].0@) by {
                assert(r@[p as int].0@ != before[before.len() - 1].0@);
                lemma_text_less_total(r@[p as int].0@, x.0@);
                if t > p {
                    assert(text_less(r@[p as int].0@, r@[t].0@));
                    lemma_text_less_transitive(x.0@, r@[p as int].0@, r@[t].0@);
                }
            }
            assert(entries(before) =~= entries(rest@).push((x.0@, x.1)));
            assert(entries(r0.insert(p as int, x)) =~= entries(r0).insert(p as int, (x.0@, x.1)));
            to_multiset_build(entries(rest@), (x.0@, x.1));
            to_multiset_insert(entries(r0), p as int, (x.0@, x.1));
        }
        r.insert(p, x);
        proof {
            assert(entries(r@).to_multiset().add(entries(rest@).to_multiset()) =~= entries(
                orig,
            ).to_multiset());
            assert forall|i: int, j: int| 0 <= i < j < r@.len() implies text_less(
                #[trigger] r@[i].0@,
                #[trigger] r@[j].0@,
            ) by {
                if j < p {
                    assert(text_less(r0[i].0@, r0[j].0@));
                } else if j == p {
                } else if i < p {
                    assert(text_less(r0[i].0@, x.0@));
                    assert(text_less(x.0@, r0[j - 1].0@));
                    lemma_text_less_transitive(r0[i].0@, x.0@, r0[j - 1].0@);
                } else if i == p {
                } else {
                    assert(text_less(r0[i - 1].0@, r0[j - 1].0@));
                }
            }
            assert forall|i: int, j: int| 0 <= i < r@.len() && 0 <= j < rest@.len() implies #[trigger] r@[i].0@
                != #[trigger] rest@[j].0@ by {
                if i < p {
                    assert(r0[i].0@ != before[j].0@);
                } else if i == p {
                    assert(before[j].0@ != before[before.len() - 1].0@);
                } else {
                    assert(r0[i - 1].0@ != before[j].0@);
                }
            }
        }
    }
    proof {
        lemma_no_entries(entries(rest@));
        assert(entries(r@).to_multiset() =~= entries(r@).to_multiset().add(
            entries(rest@).to_multiset(),
        ));
        lemma_sorted_keys_unique(r@);
    }
    r
}

// ---------------------------------------------------------------------------
// Sorting by a pattern
// ---------------------------------------------------------------------------

/// The keys a sort pattern lists: its comma-separated pieces, trimmed.
pub open spec fn pattern_keys(pattern: Seq<char>) -> Seq<Seq<char>> {
    split(pattern, Sep::Ch(',')).map_values(|p: Seq<char>| trim(p))
}

/// Takes out of `rem` the properties whose keys `keys` lists, in the order
/// listed and up to the first `*`; gives those taken, as entries, and the
/// properties left.
pub open spec fn pick_by_keys(rem: Seq<(String, Value)>, keys: Seq<Seq<char>>) -> (
    Seq<(Seq<char>, Value)>,
    Seq<(String, Value)>,
)
    decreases keys.len(),
{
    if keys.len() == 0 || keys[0] == seq!['*'] {
        (Seq::empty(), rem)
    } else {
        match key_index(rem, keys[0]) {
            Some(i) => {
                let rest = pick_by_keys(rem.remove(i), keys.drop_first());
                (seq![(keys[0], rem[i].1)] + rest.0, rest.1)
            },
            None => pick_by_keys(rem, keys.drop_first()),
        }
    }
}

/// The properties of `fm` in the order of `pattern`, a comma-separated list
/// of keys in which `*` stands for "the rest, alphabetically": the listed
/// keys that are set come first, in the order listed, and every other
/// property follows in alphabetical order. Keys after a `*` are not looked
/// at; without a `*` the rest still follows alphabetically.
pub fn sort_by_pattern(fm: Vec<(String, Value)>, pattern: &str) -> (r: Vec<(String, Value)>)
    requires
        keys_unique(fm@),
    ensures
        ({
            let (taken, left) = pick_by_keys(fm@, pattern_keys(pattern@));
            &&& r@.len() == taken.len() + left.len()
            &&& entries(r@).take(taken.len() as int) == taken
            &&& entries(r@.skip(taken.len() as int)).to_multiset() == entries(left).to_multiset()
            &&& keys_sorted(r@.skip(taken.len() as int))
        }),
        keys_unique(r@),
{
    let pc = chars_of(pattern);
    let parts = split_chars(&pc, Sep::Ch(','));
    let ghost keys = pattern_keys(pattern@);
    let ghost whole = pick_by_keys(fm@, keys);
    let mut rem = fm;
    let mut taken: Vec<(String, Value)> = Vec::new();
    let mut k: usize = 0;
    assert(keys.skip(0) =~= keys);
    assert(entries(taken@) + whole.0 =~= whole.0);
    while k < parts.len()
        invariant
            k <= parts.len(),
            keys.len() == parts@.len(),
            forall|t: int| 0 <= t < parts@.len() ==> keys[t] == trim(#[trigger] parts@[t]@),
            keys_unique(rem@),
            keys_unique(taken@),
            forall|a: int, b: int|
                0 <= a < taken@.len() && 0 <= b < rem@.len() ==> #[trigger] taken@[a].0@
                    != #[trigger] rem@[b].0@,
            whole == (
                entries(taken@) + pick_by_keys(rem@, keys.skip(k as int)).0,
                pick_by_keys(rem@, keys.skip(k as int)).1,
            ),
        decreases parts.len() - k,
    {
        let key = trim_chars(&parts[k]);
        let ghost ks = keys.skip(k as int);
        assert(ks[0] == key@);
        assert(ks.drop_first() =~= keys.skip(k + 1));
        if key.len() == 1 && key[0] == '*' {
            assert(key@ =~= seq!['*']);
            assert(keys.skip(parts.len() as int) =~= Seq::<Seq<char>>::empty());
            k = parts.len();
        } else {
            assert(key@ != seq!['*']);
            let name = string_of(&key);
            let ghost rem0 = rem@;
            let ghost t0 = entries(taken@);
            let (rest, found) = remove_property(rem, name.as_str());
            rem = rest;
            match found {
                Some(v) => {
                    let ghost tk0 = taken@;
                    taken.push((name, v));
                    proof {
                        let ii = key_index(rem0, key@)->0;
                        assert(rem0[ii].0@ == key@);
                        assert forall|a: int, b: int|
                            0 <= a < taken@.len() && 0 <= b < rem@.len() implies #[trigger] taken@[a].0@
                            != #[trigger] rem@[b].0@ by {
                            let ob = if b < ii { b } else { b + 1 };
                            if a < tk0.len() {
                                assert(tk0[a].0@ != rem0[ob].0@);
                            } else {
                                assert(rem0[ii].0@ != rem0[ob].0@);
                            }
                        }
                        assert forall|a: int, b: int| 0 <= a < b < taken@.len() implies #[trigger] taken@[a].0@
                            != #[trigger] taken@[b].0@ by {
                            if b < tk0.len() {
                                assert(tk0[a].0@ != tk0[b].0@);
                            } else {
                                assert(tk0[a].0@ != rem0[ii].0@);
                            }
                        }
                    }
                    assert(entries(taken@) =~= t0.push((key@, v)));
                    assert(t0 + (seq![(key@, v)] + pick_by_keys(rem@, keys.skip(k + 1)).0)
                        =~= entries(taken@) + pick_by_keys(rem@, keys.skip(k + 1)).0);
                },
                None => {
                    assert(rem@ == rem0);
                },
            }
            k += 1;
        }
    }
    assert(keys.skip(k as int) =~= Seq::<Seq<char>>::empty());
    let ghost front = taken@;
    let mut tail = sort_alphabetically(rem);
    let ghost back = tail@;
    proof {
        to_multiset_len(entries(back));
        to_multiset_len(entries(whole.1));
        assert forall|t: int| 0 <= t < back.len() implies exists|b: int|
            0 <= b < whole.1.len() && #[trigger] back[t].0@ == whole.1[b].0@ by {
            let en = (back[t].0@, back[t].1);
            assert(entries(back)[t] == en);
            to_multiset_contains(entries(back), en);
            to_multiset_contains(entries(whole.1), en);
            let b = choose|b: int| 0 <= b < entries(whole.1).len() && entries(whole.1)[b] == en;
            assert(whole.1[b].0@ == back[t].0@);
        }
    }
    taken.append(&mut tail);
    proof {
        assert forall|a: int, b: int| 0 <= a < b < taken@.len() implies #[trigger] taken@[a].0@
            != #[trigger] taken@[b].0@ by {
            let n = front.len() as int;
            if b < n {
                assert(front[a].0@ != front[b].0@);
            } else if a < n {
                let c = choose|c: int| 0 <= c < whole.1.len() && #[trigger] back[b - n].0@ == whole.1[c].0@;
                assert(front[a].0@ != whole.1[c].0@);
            } else {
                assert(back[a - n].0@ != back[b - n].0@);
            }
        }
    }
    assert(entries(taken@).take(front.len() as int) =~= entries(front));
    assert(taken@.skip(front.len() as int) =~= back);
    taken
}

// ---------------------------------------------------------------------------
// Renaming a key
// ---------------------------------------------------------------------------

/// The entries `e` after the key at `i` is renamed to `new_key`, which stands
/// at `j` if anywhere: the renamed pair keeps the first of the two places,
/// and the value that comes later in `e` wins (as re-inserting every pair
/// into an `IndexMap` in order does).
pub open spec fn renamed(
    e: Seq<(Seq<char>, Value)>,
    i: int,
    new_key: Seq<char>,
    j: Option<int>,
) -> Seq<(Seq<char>, Value)> {
    if j is Some && j->0 < i {
        e.update(j->0, (new_key, e[i].1)).remove(i)
    } else if j is Some && j->0 > i {
        e.update(i, (new_key, e[j->0].1)).remove(j->0)
    } else {
        e.update(i, (new_key, e[i].1))
    }
}

/// Renames property `old_key` to `new_key` where it stands; `None` when
/// `old_key` is not set.
pub fn rename_property(fm: Vec<(String, Value)>, old_key: &str, new_key: &str) -> (r: Option<
    Vec<(String, Value)>,
>)
    requires
        keys_unique(fm@),
    ensures
        match key_index(fm@, old_key@) {
            None => r is None,
            Some(i) => r matches Some(v) && keys_unique(v@) && entries(v@) == renamed(
                entries(fm@),
                i,
                new_key@,
                key_index(fm@, new_key@),
            ),
        },
{
    let i = match find_key(&fm, old_key) {
        None => {
            return None;
        },
        Some(i) => i,
    };
    match find_key(&fm, new_key) {
        Some(j) => {
            if j < i {
                Some(merge_into_earlier(fm, j, i))
            } else if j > i {
                Some(merge_into_later(fm, i, j, new_key))
            } else {
                Some(rekey_at(fm, i, new_key))
            }
        },
        None => Some(rekey_at(fm, i, new_key)),
    }
}

/// Gives the pair at `i` the key `new_key`, which no other pair has.
fn rekey_at(fm: Vec<(String, Value)>, i: usize, new_key: &str) -> (r: Vec<(String, Value)>)
    requires
        keys_unique(fm@),
        i < fm@.len(),
        forall|b: int| 0 <= b < fm@.len() && b != i ==> #[trigger] fm@[b].0@ != new_key@,
    ensures
        keys_unique(r@),
        entries(r@) == entries(fm@).update(i as int, (new_key@, fm@[i as int].1)),
{
    let ghost f0 = fm@;
    let mut fm = fm;
    let (_k, v) = fm.remove(i);
    fm.insert(i, (new_key.to_string(), v));
    assert(entries(fm@) =~= entries(f0).update(i as int, (new_key@, f0[i as int].1)));
    assert forall|a: int, b: int| 0 <= a < b < fm@.len() implies #[trigger] fm@[a].0@
        != #[trigger] fm@[b].0@ by {
        if a != i as int && b != i as int {
            assert(f0[a].0@ != f0[b].0@);
        }
    }
    fm
}

/// Moves the value at `i` onto the pair at `j < i`, which already has the
/// new key, and drops the pair at `i`.
fn merge_into_earlier(fm: Vec<(String, Value)>, j: usize, i: usize) -> (r: Vec<(String, Value)>)
    requires
        keys_unique(fm@),
        j < i < fm@.len(),
    ensures
        keys_unique(r@),
        entries(r@) == entries(fm@).update(j as int, (fm@[j as int].0@, fm@[i as int].1)).remove(
            i as int,
        ),
{
    let ghost f0 = fm@;
    let mut fm = fm;
    let (_ki, vi) = fm.remove(i);
    let (kj, _vj) = fm.remove(j);
    fm.insert(j, (kj, vi));
    assert(entries(fm@) =~= entries(f0).update(j as int, (f0[j as int].0@, f0[i as int].1)).remove(
        i as int,
    ));
    assert forall|a: int, b: int| 0 <= a < b < fm@.len() implies #[trigger] fm@[a].0@
        != #[trigger] fm@[b].0@ by {
        let oa = if a < i { a } else { a + 1 };
        let ob = if b < i { b } else { b + 1 };
        assert(f0[oa].0@ != f0[ob].0@);
    }
    fm
}

/// Gives the pair at `i` the new key and the value of the later pair at
/// `j`, which has that key, and drops the pair at `j`.
fn merge_into_later(fm: Vec<(String, Value)>, i: usize, j: usize, new_key: &str) -> (r: Vec<
    (String, Value),
>)
    requires
        keys_unique(fm@),
        i < j < fm@.len(),
        fm@[j as int].0@ == new_key@,
    ensures
        keys_unique(r@),
        entries(r@) == entries(fm@).update(i as int, (new_key@, fm@[j as int].1)).remove(j as int),
{
    let ghost f0 = fm@;
    let mut fm = fm;
    let (_kj, vj) = fm.remove(j);
    let (_ki, _vi) = fm.remove(i);
    fm.insert(i, (new_key.to_string(), vj));
    assert(entries(fm@) =~= entries(f0).update(i as int, (new_key@, f0[j as int].1)).remove(
        j as int,
    ));
    assert forall|a: int, b: int| 0 <= a < b < fm@.len() implies #[trigger] fm@[a].0@
        != #[trigger] fm@[b].0@ by {
        let oa = if a < j { a } else { a + 1 };
        let ob = if b < j { b } else { b + 1 };
        if oa == i as int {
            assert(f0[j as int].0@ != f0[ob].0@);
        } else if ob == i as int {
            assert(f0[oa].0@ != f0[j as int].0@);
        } else {
            assert(f0[oa].0@ != f0[ob].0@);
        }
    }
    fm
}

} // verus!
