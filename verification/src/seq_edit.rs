//! Planning an item-level edit of a frontmatter list: which items of the
//! old list go, which of the new list are appended, and how the result is
//! reordered, so that items that stay keep their place in the text (and the
//! comments beside them).

use vstd::prelude::*;
use crate::text::{chars_eq, chars_of, extend_chars, string_of};
use crate::yaml::emit::{decimal, decimal_text};
use crate::yaml::Value;

verus! {

// ---------------------------------------------------------------------------
// Identities of scalar items
// ---------------------------------------------------------------------------

/// Whether a value is a scalar: no nested list or mapping.
pub open spec fn is_scalar_value(v: Value) -> bool {
    !(v is Sequence) && !(v is Mapping)
}

/// A type-tagged identity text for a scalar, so that values of different
/// types with the same text (`1`, `"1"`, `true`) never match.
pub open spec fn scalar_ident(v: Value) -> Seq<char> {
    match v {
        Value::Null => "n:"@,
        Value::Bool(b) => "b:"@ + (if b {
            "true"@
        } else {
            "false"@
        }),
        Value::Int(i) => "i:"@ + decimal(i as int),
        Value::Real(t, _) => "f:"@ + t@,
        Value::String(s) => "s:"@ + s@,
        _ => Seq::empty(),
    }
}

/// Whether a value is a scalar.
pub fn is_scalar(v: &Value) -> (r: bool)
    ensures
        r == is_scalar_value(*v),
{
    match v {
        Value::Sequence(_) => false,
        Value::Mapping(_) => false,
        _ => true,
    }
}

/// `prefix` followed by `rest`.
fn tagged(prefix: &str, rest: &Vec<char>) -> (r: String)
    ensures
        r@ == prefix@ + rest@,
{
    let mut out = chars_of(prefix);
    extend_chars(&mut out, rest);
    string_of(&out)
}

/// The identity text of a scalar (see [`scalar_ident`]).
pub fn scalar_ident_exec(v: &Value) -> (r: String)
    ensures
        r@ == scalar_ident(*v),
{
    match v {
        Value::Null => "n:".to_string(),
        Value::Bool(b) => {
            if *b {
                tagged("b:", &chars_of("true"))
            } else {
                tagged("b:", &chars_of("false"))
            }
        },
        Value::Int(i) => tagged("i:", &decimal_text(*i)),
        Value::Real(t, _) => tagged("f:", &chars_of(t.as_str())),
        Value::String(s) => tagged("s:", &chars_of(s.as_str())),
        _ => String::new(),
    }
}

/// The identities of a list's items.
pub open spec fn idents(items: Seq<Value>) -> Seq<Seq<char>> {
    items.map_values(|v: Value| scalar_ident(v))
}

/// How many of the first `n` identities are `id`.
pub open spec fn count_before(ids: Seq<Seq<char>>, id: Seq<char>, n: int) -> nat
    decreases n,
{
    if n <= 0 {
        0
    } else {
        count_before(ids, id, n - 1) + (if ids[n - 1] == id {
            1nat
        } else {
            0nat
        })
    }
}

/// Occurrence keys: the `k`-th item with a given identity is keyed
/// `(identity, k)`, so that equal items are matched one to one.
pub open spec fn occurrence_keys_of(items: Seq<Value>) -> Seq<(Seq<char>, nat)> {
    occ_keys(idents(items))
}

/// Occurrence keys of a list of identities: the `k`-th occurrence of an
/// identity is keyed `(identity, k)`.
pub open spec fn occ_keys(ids: Seq<Seq<char>>) -> Seq<(Seq<char>, nat)> {
    Seq::new(ids.len(), |i: int| (ids[i], count_before(ids, ids[i], i)))
}

/// Keys as text and count.
pub open spec fn key_views(ks: Seq<(String, usize)>) -> Seq<(Seq<char>, nat)> {
    ks.map_values(|k: (String, usize)| (k.0@, k.1 as nat))
}

/// The occurrence keys of a list's items (see [`occurrence_keys_of`]).
pub fn occurrence_keys(items: &Vec<Value>) -> (r: Vec<(String, usize)>)
    ensures
        key_views(r@) == occurrence_keys_of(items@),
{
    let ghost ids = idents(items@);
    let mut out: Vec<(String, usize)> = Vec::new();
    let mut texts: Vec<Vec<char>> = Vec::new();
    let mut i: usize = 0;
    while i < items.len()
        invariant
            i <= items@.len(),
            ids == idents(items@),
            texts@.len() == i,
            forall|j: int| 0 <= j < i ==> #[trigger] texts@[j]@ == ids[j],
            key_views(out@) == occurrence_keys_of(items@).take(i as int),
        decreases items.len() - i,
    {
        let id = scalar_ident_exec(&items[i]);
        let idc = chars_of(id.as_str());
        let mut n: usize = 0;
        let mut j: usize = 0;
        while j < i
            invariant
                j <= i,
                i < items@.len(),
                texts@.len() == i,
                forall|t: int| 0 <= t < i ==> #[trigger] texts@[t]@ == ids[t],
                idc@ == ids[i as int],
                n == count_before(ids, ids[i as int], j as int),
                n <= j,
            decreases i - j,
        {
            if chars_eq(&texts[j], &idc) {
                n += 1;
            }
            j += 1;
        }
        let ghost o0 = key_views(out@);
        out.push((id, n));
        texts.push(idc);
        assert(key_views(out@) =~= o0.push((ids[i as int], n as nat)));
        assert(occurrence_keys_of(items@).take(i + 1) =~= occurrence_keys_of(items@).take(i as int).push(
            (ids[i as int], count_before(ids, ids[i as int], i as int)),
        ));
        i += 1;
    }
    assert(occurrence_keys_of(items@).take(items@.len() as int) =~= occurrence_keys_of(items@));
    out
}

// ---------------------------------------------------------------------------
// The plan of an item-level edit
// ---------------------------------------------------------------------------

/// Which old items stay: those whose occurrence key the new list has.
pub open spec fn kept_flags(ok: Seq<(Seq<char>, nat)>, nk: Seq<(Seq<char>, nat)>) -> Seq<bool> {
    Seq::new(ok.len(), |i: int| nk.contains(ok[i]))
}

/// The keys of the old items that stay, among the first `n`, in order.
pub open spec fn kept_keys(ok: Seq<(Seq<char>, nat)>, nk: Seq<(Seq<char>, nat)>, n: nat) -> Seq<
    (Seq<char>, nat),
>
    decreases n,
{
    if n == 0 {
        Seq::empty()
    } else {
        let r = kept_keys(ok, nk, (n - 1) as nat);
        if nk.contains(ok[n - 1]) {
            r.push(ok[n - 1])
        } else {
            r
        }
    }
}

/// The positions, among the first `n` new items, of those whose key the
/// old list lacks, in order: the items to append.
pub open spec fn added_at(ok: Seq<(Seq<char>, nat)>, nk: Seq<(Seq<char>, nat)>, n: nat) -> Seq<nat>
    decreases n,
{
    if n == 0 {
        Seq::empty()
    } else {
        let r = added_at(ok, nk, (n - 1) as nat);
        if !ok.contains(nk[n - 1]) {
            r.push((n - 1) as nat)
        } else {
            r
        }
    }
}

/// The last position of `k` in `s`.
pub open spec fn last_index(s: Seq<(Seq<char>, nat)>, k: (Seq<char>, nat)) -> Option<nat>
    decreases s.len(),
{
    if s.len() == 0 {
        None
    } else if s.last() == k {
        Some((s.len() - 1) as nat)
    } else {
        last_index(s.drop_last(), k)
    }
}

/// For each of the first `n` new keys, where it stands in `cur`; `None`
/// when one is missing.
pub open spec fn order_of(cur: Seq<(Seq<char>, nat)>, nk: Seq<(Seq<char>, nat)>, n: nat) -> Option<
    Seq<nat>,
>
    decreases n,
{
    if n == 0 {
        Some(Seq::empty())
    } else {
        match order_of(cur, nk, (n - 1) as nat) {
            Some(o) => match last_index(cur, nk[n - 1]) {
                Some(p) => Some(o.push(p)),
                None => None,
            },
            None => None,
        }
    }
}

/// Once a key is missing, the order stays undefined.
proof fn lemma_order_none(cur: Seq<(Seq<char>, nat)>, nk: Seq<(Seq<char>, nat)>, n: nat, m: nat)
    requires
        n <= m,
        order_of(cur, nk, n) is None,
    ensures
        order_of(cur, nk, m) is None,
    decreases m,
{
    if n < m {
        lemma_order_none(cur, nk, n, (m - 1) as nat);
    }
}

/// The order, when there is one, has one entry per key.
proof fn lemma_order_len(cur: Seq<(Seq<char>, nat)>, nk: Seq<(Seq<char>, nat)>, n: nat)
    ensures
        order_of(cur, nk, n) matches Some(o) ==> o.len() == n,
    decreases n,
{
    if n > 0 {
        lemma_order_len(cur, nk, (n - 1) as nat);
    }
}

/// The plan of an item-level list edit: which old items stay, the
/// positions of the new items to append, and the order that turns the
/// survivors followed by the appended items into the new list.
pub struct SeqPlan {
    /// For each old item, whether it stays.
    pub kept: Vec<bool>,
    /// The positions of the new items to append, in order.
    pub additions: Vec<usize>,
    /// For each new position, where its item stands after the removals
    /// and appends.
    pub order: Vec<usize>,
    /// Nothing is removed, added or moved.
    pub identity: bool,
}

/// The plan as plain values.
pub open spec fn plan_view(p: SeqPlan) -> (Seq<bool>, Seq<nat>, Seq<nat>, bool) {
    (p.kept@, p.additions@.map_values(|j: usize| j as nat), p.order@.map_values(|j: usize| j as nat), p.identity)
}

/// The keys of the new items at positions `adds`.
pub open spec fn keys_at(nk: Seq<(Seq<char>, nat)>, adds: Seq<nat>) -> Seq<(Seq<char>, nat)> {
    adds.map_values(|j: nat| nk[j as int])
}

/// The identity order on `n` positions.
pub open spec fn identity_order(n: nat) -> Seq<nat> {
    Seq::new(n, |i: int| i as nat)
}

/// The plan for turning the scalar list `old` into the scalar list `new`
/// item by item, or `None` when the edit is declined: either list is empty
/// or holds a non-scalar, every old item would go, or the order cannot be
/// made a permutation.
pub open spec fn plan_spec(old: Seq<Value>, new: Seq<Value>) -> Option<(Seq<bool>, Seq<nat>, Seq<nat>, bool)> {
    if exists|i: int| 0 <= i < old.len() && !is_scalar_value(#[trigger] old[i]) {
        None
    } else {
        plan_ids(idents(old), new)
    }
}

/// The plan of an item-level edit from a scalar list with identities
/// `oids` to the list `new` (see [`plan_spec`]).
pub open spec fn plan_ids(oids: Seq<Seq<char>>, new: Seq<Value>) -> Option<(Seq<bool>, Seq<nat>, Seq<nat>, bool)> {
    let ok = occ_keys(oids);
    let nk = occurrence_keys_of(new);
    let kept = kept_keys(ok, nk, oids.len());
    let adds = added_at(ok, nk, new.len());
    let cur = kept + keys_at(nk, adds);
    if new.len() == 0 || oids.len() == 0 || exists|i: int| 0 <= i < new.len() && !is_scalar_value(#[trigger] new[i])
        || kept.len() == 0 {
        None
    } else {
        match order_of(cur, nk, new.len()) {
            None => None,
            Some(o) => if o.len() != cur.len() {
                None
            } else {
                Some(
                    (
                        kept_flags(ok, nk),
                        adds,
                        o,
                        kept.len() == oids.len() && adds.len() == 0 && o == identity_order(new.len()),
                    ),
                )
            },
        }
    }
}

/// Whether the key list `ks` holds `k`.
fn keys_contain(ks: &Vec<(String, usize)>, k: &(String, usize)) -> (r: bool)
    ensures
        r == key_views(ks@).contains((k.0@, k.1 as nat)),
{
    let kc = chars_of(k.0.as_str());
    let mut i: usize = 0;
    while i < ks.len()
        invariant
            i <= ks.len(),
            kc@ == k.0@,
            forall|j: int| 0 <= j < i ==> key_views(ks@)[j] != (k.0@, k.1 as nat),
        decreases ks.len() - i,
    {
        if ks[i].1 == k.1 && chars_eq(&chars_of(ks[i].0.as_str()), &kc) {
            assert(key_views(ks@)[i as int] == (k.0@, k.1 as nat));
            return true;
        }
        i += 1;
    }
    false
}

/// Whether every item is a scalar.
fn all_scalar(items: &Vec<Value>) -> (r: bool)
    ensures
        r == forall|i: int| 0 <= i < items@.len() ==> is_scalar_value(#[trigger] items@[i]),
{
    let mut i: usize = 0;
    while i < items.len()
        invariant
            i <= items.len(),
            forall|j: int| 0 <= j < i ==> is_scalar_value(#[trigger] items@[j]),
        decreases items.len() - i,
    {
        if !is_scalar(&items[i]) {
            return false;
        }
        i += 1;
    }
    true
}

/// The plan of an item-level edit from `old` to `new` (see [`plan_spec`]).
pub fn plan_seq_edit(old: &Vec<Value>, new: &Vec<Value>) -> (r: Option<SeqPlan>)
    ensures
        match r {
            Some(p) => plan_spec(old@, new@) == Some(plan_view(p)),
            None => plan_spec(old@, new@) is None,
        },
{
    let ghost okv = occurrence_keys_of(old@);
    let ghost nkv = occurrence_keys_of(new@);
    if new.len() == 0 || old.len() == 0 || !all_scalar(new) || !all_scalar(old) {
        return None;
    }
    let ok = occurrence_keys(old);
    let nk = occurrence_keys(new);
    // Which old items stay, and their keys.
    let mut kept: Vec<bool> = Vec::new();
    let mut cur: Vec<(String, usize)> = Vec::new();
    let mut i: usize = 0;
    while i < ok.len()
        invariant
            i <= ok.len(),
            key_views(ok@) == okv,
            key_views(nk@) == nkv,
            okv.len() == old@.len(),
            kept@ == kept_flags(okv, nkv).take(i as int),
            key_views(cur@) == kept_keys(okv, nkv, i as nat),
        decreases ok.len() - i,
    {
        let stays = keys_contain(&nk, &ok[i]);
        assert(key_views(ok@)[i as int] == (ok@[i as int].0@, ok@[i as int].1 as nat));
        kept.push(stays);
        assert(kept@ =~= kept_flags(okv, nkv).take(i + 1));
        if stays {
            let ghost c0 = key_views(cur@);
            cur.push((ok[i].0.clone(), ok[i].1));
            assert(key_views(cur@) =~= c0.push(okv[i as int]));
        }
        i += 1;
    }
    assert(kept@ =~= kept_flags(okv, nkv));
    let n_kept = cur.len();
    if n_kept == 0 {
        return None;
    }
    // The new items the old list lacks, appended in order.
    let mut additions: Vec<usize> = Vec::new();
    let mut j: usize = 0;
    while j < nk.len()
        invariant
            j <= nk.len(),
            key_views(ok@) == okv,
            key_views(nk@) == nkv,
            nkv.len() == new@.len(),
            additions@.map_values(|a: usize| a as nat) == added_at(okv, nkv, j as nat),
            key_views(cur@) == kept_keys(okv, nkv, okv.len()) + keys_at(nkv, added_at(okv, nkv, j as nat)),
            forall|t: int| 0 <= t < additions@.len() ==> #[trigger] additions@[t] < j,
        decreases nk.len() - j,
    {
        assert(key_views(nk@)[j as int] == (nk@[j as int].0@, nk@[j as int].1 as nat));
        if !keys_contain(&ok, &nk[j]) {
            let ghost a0 = added_at(okv, nkv, j as nat);
            let ghost c0 = key_views(cur@);
            additions.push(j);
            cur.push((nk[j].0.clone(), nk[j].1));
            assert(added_at(okv, nkv, (j + 1) as nat) == a0.push(j as nat));
            assert(additions@.map_values(|a: usize| a as nat) =~= a0.push(j as nat));
            assert(keys_at(nkv, a0.push(j as nat)) =~= keys_at(nkv, a0).push(nkv[j as int]));
            assert(key_views(cur@) =~= c0.push(nkv[j as int]));
        }
        j += 1;
    }
    // Where each new item stands after the removals and appends.
    let ghost curv = key_views(cur@);
    assert(nk@.len() == new@.len());
    assert(curv == kept_keys(okv, nkv, old@.len()) + keys_at(nkv, added_at(okv, nkv, new@.len())));
    let mut order: Vec<usize> = Vec::new();
    let mut t: usize = 0;
    while t < nk.len()
        invariant
            t <= nk.len(),
            key_views(nk@) == nkv,
            key_views(cur@) == curv,
            nkv.len() == new@.len(),
            okv == occurrence_keys_of(old@),
            nkv == occurrence_keys_of(new@),
            curv == kept_keys(okv, nkv, old@.len()) + keys_at(nkv, added_at(okv, nkv, new@.len())),
            kept_keys(okv, nkv, old@.len()).len() == n_kept,
            n_kept > 0,
            new@.len() > 0,
            old@.len() > 0,
            forall|i: int| 0 <= i < new@.len() ==> is_scalar_value(#[trigger] new@[i]),
            forall|i: int| 0 <= i < old@.len() ==> is_scalar_value(#[trigger] old@[i]),
            order@.len() == t,
            order_of(curv, nkv, t as nat) == Some(order@.map_values(|a: usize| a as nat)),
        decreases nk.len() - t,
    {
        let kc = chars_of(nk[t].0.as_str());
        let mut found: Option<usize> = None;
        let mut q: usize = 0;
        assert(key_views(nk@)[t as int] == (nk@[t as int].0@, nk@[t as int].1 as nat));
        while q < cur.len()
            invariant
                q <= cur.len(),
                t < nk.len(),
                kc@ == nk@[t as int].0@,
                key_views(cur@) == curv,
                key_views(nk@) == nkv,
                found matches Some(p) ==> p < q,
                last_index(curv.take(q as int), nkv[t as int]) == (match found {
                    Some(p) => Some(p as nat),
                    None => None::<nat>,
                }),
            decreases cur.len() - q,
        {
            assert(curv.take(q + 1).drop_last() =~= curv.take(q as int));
            assert(curv[q as int] == (cur@[q as int].0@, cur@[q as int].1 as nat));
            if cur[q].1 == nk[t].1 && chars_eq(&chars_of(cur[q].0.as_str()), &kc) {
                found = Some(q);
            }
            q += 1;
        }
        assert(curv.take(cur.len() as int) =~= curv);
        match found {
            Some(p) => {
                let ghost o0 = order@.map_values(|a: usize| a as nat);
                order.push(p);
                assert(order@.map_values(|a: usize| a as nat) =~= o0.push(p as nat));
            },
            None => {
                proof {
                    lemma_order_none(curv, nkv, (t + 1) as nat, nkv.len());
                    assert(curv == kept_keys(okv, nkv, old@.len()) + keys_at(nkv, added_at(okv, nkv, new@.len())));
                    assert(kept_keys(okv, nkv, old@.len()).len() == n_kept);
                }
                return None;
            },
        }
        t += 1;
    }
    assert(nk.len() == new@.len());
    if order.len() != cur.len() {
        return None;
    }
    // Nothing removed, added or moved.
    let mut identity = n_kept == ok.len() && additions.len() == 0;
    let mut u: usize = 0;
    while u < order.len()
        invariant
            u <= order.len(),
            identity ==> n_kept == ok.len() && additions.len() == 0,
            identity ==> forall|w: int| 0 <= w < u ==> order@[w] == w,
            !identity ==> !(n_kept == ok.len() && additions.len() == 0 && forall|w: int|
                0 <= w < order.len() ==> order@[w] == w),
        decreases order.len() - u,
    {
        if order[u] != u {
            identity = false;
        }
        u += 1;
    }
    let ghost ov = order@.map_values(|a: usize| a as nat);
    proof {
        if !identity && n_kept == ok.len() && additions.len() == 0 {
            let w = choose|w: int| !(0 <= w < order@.len() ==> order@[w] == w);
            assert(ov[w] != identity_order(new@.len())[w]);
        }
        let kv = kept_keys(okv, nkv, old@.len());
        let av = added_at(okv, nkv, new@.len());
        assert(curv == kv + keys_at(nkv, av));
        assert(kv.len() == n_kept);
        assert(order_of(curv, nkv, new@.len()) == Some(ov));
        assert(ov.len() == order@.len());
        assert(additions@.len() == av.len());
        assert(!(exists|i: int| 0 <= i < new@.len() && !is_scalar_value(#[trigger] new@[i])));
        assert(!(exists|i: int| 0 <= i < old@.len() && !is_scalar_value(#[trigger] old@[i])));
        if identity {
            assert(ov =~= identity_order(new@.len()));
        } else if n_kept == ok.len() && additions.len() == 0 {
            assert(ov != identity_order(new@.len())) by {
                if ov == identity_order(new@.len()) {
                    assert forall|w: int| 0 <= w < order.len() implies order@[w] == w by {
                        assert(ov[w] == identity_order(new@.len())[w]);
                    }
                }
            }
        }
    }
    let p = SeqPlan { kept, additions, order, identity };
    proof {
        let kv = kept_keys(okv, nkv, old@.len());
        let av = added_at(okv, nkv, new@.len());
        assert(p.kept@ == kept_flags(okv, nkv));
        assert(p.additions@.map_values(|a: usize| a as nat) == av);
        assert(order_of(kv + keys_at(nkv, av), nkv, new@.len()) == Some(ov));
        assert(ov.len() == (kv + keys_at(nkv, av)).len());
        assert(kv.len() == n_kept);
        assert(ok@.len() == old@.len());
        assert(p.additions@.len() == av.len());
        if identity {
            assert(ov == identity_order(new@.len()));
        }
        assert(identity == (kv.len() == old@.len() && av.len() == 0 && ov == identity_order(new@.len())));
    }
    Some(p)
}

} // verus!
