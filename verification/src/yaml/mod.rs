//! The plain-value model of frontmatter values: a tree of scalars,
//! sequences and string-keyed mappings, with floating-point numbers kept as
//! their decimal text and their whole part.

use vstd::prelude::*;
use crate::text::chars_eq;
use crate::text::chars_of;

pub mod emit;

verus! {

/// A frontmatter (YAML or JSON) value.
#[derive(Debug)]
pub enum Value {
    /// `null` / `~`.
    Null,
    /// `true` / `false`.
    Bool(bool),
    /// An integer.
    Int(i64),
    /// A floating-point number: its decimal text, and the number truncated
    /// toward zero to an `i64` as `as i64` gives it (saturating at the
    /// bounds, 0 for NaN).
    Real(String, i64),
    /// A string.
    String(String),
    /// A sequence of values.
    Sequence(Vec<Value>),
    /// A mapping from string keys to values, in key order of appearance.
    Mapping(Vec<(String, Value)>),
}

/// Two values hold the same data: scalars compared by value, strings by
/// their characters, sequences and mappings element by element in order.
pub open spec fn same_value(a: Value, b: Value) -> bool
    decreases a,
{
    match a {
        Value::Null => b is Null,
        Value::Bool(x) => b matches Value::Bool(y) && x == y,
        Value::Int(x) => b matches Value::Int(y) && x == y,
        Value::Real(x, i) => b matches Value::Real(y, j) && x@ == y@ && i == j,
        Value::String(x) => b matches Value::String(y) && x@ == y@,
        Value::Sequence(xs) => b matches Value::Sequence(ys) && xs.len() == ys.len() && (forall|
            i: int,
        |
            #![trigger xs@[i]]
            0 <= i < xs.len() ==> same_value(xs@[i], ys@[i])),
        Value::Mapping(xs) => b matches Value::Mapping(ys) && xs.len() == ys.len() && (forall|
            i: int,
        |
            #![trigger xs@[i]]
            0 <= i < xs.len() ==> xs@[i].0@ == ys@[i].0@ && same_value(xs@[i].1, ys@[i].1)),
    }
}

/// Whether two values hold the same data (see [`same_value`]).
pub fn values_equal(a: &Value, b: &Value) -> (r: bool)
    ensures
        r == same_value(*a, *b),
    decreases *a,
{
    match (a, b) {
        (Value::Null, Value::Null) => true,
        (Value::Bool(x), Value::Bool(y)) => *x == *y,
        (Value::Int(x), Value::Int(y)) => *x == *y,
        (Value::Real(x, i), Value::Real(y, j)) => *i == *j && chars_eq(
            &chars_of(x.as_str()),
            &chars_of(y.as_str()),
        ),
        (Value::String(x), Value::String(y)) => chars_eq(
            &chars_of(x.as_str()),
            &chars_of(y.as_str()),
        ),
        (Value::Sequence(xs), Value::Sequence(ys)) => {
            if xs.len() != ys.len() {
                return false;
            }
            let mut i: usize = 0;
            while i < xs.len()
                invariant
                    i <= xs.len() == ys.len(),
                    *a == Value::Sequence(*xs),
                    *b == Value::Sequence(*ys),
                    forall|j: int| #![trigger xs@[j]] 0 <= j < i ==> same_value(xs@[j], ys@[j]),
                decreases xs.len() - i,
            {
                proof {
                    assert(decreases_to!(*a => (*a)->Sequence_0));
                    assert(decreases_to!(*xs => xs@));
                    assert(decreases_to!(xs@ => xs@[i as int]));
                    assert(decreases_to!(*a => xs@[i as int]));
                }
                let same = values_equal(&xs[i], &ys[i]);
                if !same {
                    return false;
                }
                i += 1;
            }
            true
        },
        (Value::Mapping(xs), Value::Mapping(ys)) => {
            if xs.len() != ys.len() {
                return false;
            }
            let mut i: usize = 0;
            while i < xs.len()
                invariant
                    i <= xs.len() == ys.len(),
                    *a == Value::Mapping(*xs),
                    *b == Value::Mapping(*ys),
                    forall|j: int|
                        #![trigger xs@[j]]
                        0 <= j < i ==> xs@[j].0@ == ys@[j].0@ && same_value(xs@[j].1, ys@[j].1),
                decreases xs.len() - i,
            {
                proof {
                    assert(decreases_to!(*a => (*a)->Mapping_0));
                    assert(decreases_to!(*xs => xs@));
                    assert(decreases_to!(xs@ => xs@[i as int]));
                    assert(decreases_to!(xs@[i as int] => xs@[i as int].1));
                    assert(decreases_to!(*a => xs@[i as int].1));
                }
                let key_same = xs[i].0 == ys[i].0;
                if !key_same {
                    return false;
                }
                let same = values_equal(&xs[i].1, &ys[i].1);
                if !same {
                    return false;
                }
                i += 1;
            }
            true
        },
        _ => false,
    }
}

impl Clone for Value {
    /// A copy holding the same data.
    fn clone(&self) -> (r: Self)
        ensures
            same_value(r, *self),
    {
        clone_value(self)
    }
}

/// A copy of a value.
pub fn clone_value(v: &Value) -> (r: Value)
    ensures
        same_value(r, *v),
    decreases *v,
{
    match v {
        Value::Null => Value::Null,
        Value::Bool(b) => Value::Bool(*b),
        Value::Int(n) => Value::Int(*n),
        Value::Real(t, w) => Value::Real(t.clone(), *w),
        Value::String(t) => Value::String(t.clone()),
        Value::Sequence(xs) => {
            let mut out: Vec<Value> = Vec::new();
            let mut i: usize = 0;
            while i < xs.len()
                invariant
                    i <= xs.len(),
                    *v == Value::Sequence(*xs),
                    out.len() == i,
                    forall|j: int| #![trigger out@[j]] 0 <= j < i ==> same_value(out@[j], xs@[j]),
                decreases xs.len() - i,
            {
                proof {
                    assert(decreases_to!(*v => (*v)->Sequence_0));
                    assert(decreases_to!(*xs => xs@));
                    assert(decreases_to!(xs@ => xs@[i as int]));
                    assert(decreases_to!(*v => xs@[i as int]));
                }
                let c = clone_value(&xs[i]);
                out.push(c);
                i += 1;
            }
            Value::Sequence(out)
        },
        Value::Mapping(xs) => {
            let mut out: Vec<(String, Value)> = Vec::new();
            let mut i: usize = 0;
            while i < xs.len()
                invariant
                    i <= xs.len(),
                    *v == Value::Mapping(*xs),
                    out.len() == i,
                    forall|j: int|
                        #![trigger out@[j]]
                        0 <= j < i ==> out@[j].0@ == xs@[j].0@ && same_value(out@[j].1, xs@[j].1),
                decreases xs.len() - i,
            {
                proof {
                    assert(decreases_to!(*v => (*v)->Mapping_0));
                    assert(decreases_to!(*xs => xs@));
                    assert(decreases_to!(xs@ => xs@[i as int]));
                    assert(decreases_to!(xs@[i as int] => xs@[i as int].1));
                    assert(decreases_to!(*v => xs@[i as int].1));
                }
                let k = xs[i].0.clone();
                let c = clone_value(&xs[i].1);
                out.push((k, c));
                i += 1;
            }
            Value::Mapping(out)
        },
    }
}

} // verus!

