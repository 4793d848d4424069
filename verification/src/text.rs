//! Character-level helpers shared by the parsers in this crate.
//!
//! Strings are handled as sequences of `char`s: a `&str` is turned into a
//! `Vec<char>`, processed, and turned back into a `String`. The spec
//! functions here (splitting, joining, trimming, searching) are the
//! vocabulary in which the contracts of the other modules are written.

use vstd::prelude::*;
use vstd::std_specs::iter::IteratorSpec;

verus! {

broadcast use vstd::string::group_string_axioms;

// ---------------------------------------------------------------------------
// Character classes
// ---------------------------------------------------------------------------

/// Unicode `White_Space`, the set `char::is_whitespace` tests for.
pub open spec fn is_ws(c: char) -> bool {
    ||| ('\t' <= c && c <= '\r')
    ||| c == ' '
    ||| c == '\u{85}'
    ||| c == '\u{A0}'
    ||| c == '\u{1680}'
    ||| ('\u{2000}' <= c && c <= '\u{200A}')
    ||| c == '\u{2028}'
    ||| c == '\u{2029}'
    ||| c == '\u{202F}'
    ||| c == '\u{205F}'
    ||| c == '\u{3000}'
}

/// Whether `c` is whitespace (same set as `char::is_whitespace`).
pub fn is_whitespace(c: char) -> (b: bool)
    ensures
        b == is_ws(c),
{
    ('\t' <= c && c <= '\r') || c == ' ' || c == '\u{85}' || c == '\u{A0}' || c == '\u{1680}'
        || ('\u{2000}' <= c && c <= '\u{200A}') || c == '\u{2028}' || c == '\u{2029}' || c
        == '\u{202F}' || c == '\u{205F}' || c == '\u{3000}'
}

/// ASCII upper-casing of one character; other characters are unchanged.
pub open spec fn ascii_upper(c: char) -> char {
    if 'a' <= c && c <= 'z' {
        ((c as u32) - 32) as char
    } else {
        c
    }
}

/// ASCII lower-casing of one character; other characters are unchanged.
pub open spec fn ascii_lower(c: char) -> char {
    if 'A' <= c && c <= 'Z' {
        ((c as u32) + 32) as char
    } else {
        c
    }
}

/// `char::to_ascii_uppercase`.
pub fn to_ascii_uppercase(c: char) -> (r: char)
    ensures
        r == ascii_upper(c),
{
    if 'a' <= c && c <= 'z' {
        let b: u8 = (c as u32 - 32) as u8;
        assert(b as int == c as int - 32);
        b as char
    } else {
        c
    }
}

/// `char::to_ascii_lowercase`.
pub fn to_ascii_lowercase(c: char) -> (r: char)
    ensures
        r == ascii_lower(c),
{
    if 'A' <= c && c <= 'Z' {
        let b: u8 = (c as u32 + 32) as u8;
        assert(b as int == c as int + 32);
        b as char
    } else {
        c
    }
}

// ---------------------------------------------------------------------------
// Conversions between strings and character vectors
// ---------------------------------------------------------------------------

/// Appends one character to a `String` (`String::push`).
#[verifier::external_body]
fn push_char(s: &mut String, c: char)
    ensures
        final(s)@ == old(s)@.push(c),
{
    s.push(c);
}

/// The characters of `s`, in order.
pub fn chars_of(s: &str) -> (v: Vec<char>)
    ensures
        v@ == s@,
{
    let mut v: Vec<char> = Vec::new();
    let mut it = s.chars();
    loop
        invariant
            it.obeys_prophetic_iter_laws(),
            v@ + it.remaining() == s@,
            it.decrease() is Some,
        ensures
            v@ == s@,
        decreases it.decrease()->0,
    {
        match it.next() {
            Some(c) => {
                v.push(c);
            },
            None => {
                break ;
            },
        }
    }
    v
}

/// The `String` holding exactly the characters of `v`.
pub fn string_of(v: &Vec<char>) -> (s: String)
    ensures
        s@ == v@,
{
    let mut s = String::new();
    let mut i: usize = 0;
    while i < v.len()
        invariant
            i <= v.len(),
            s@ == v@.subrange(0, i as int),
        decreases v.len() - i,
    {
        push_char(&mut s, v[i]);
        i += 1;
        assert(s@ == v@.subrange(0, i as int));
    }
    s
}

/// A copy of `s` as an owned `String`.
pub fn owned(s: &str) -> (r: String)
    ensures
        r@ == s@,
{
    let v = chars_of(s);
    string_of(&v)
}

/// Appends the characters of `src` to `dst`.
pub fn extend_chars(dst: &mut Vec<char>, src: &Vec<char>)
    ensures
        final(dst)@ == old(dst)@ + src@,
{
    let mut i: usize = 0;
    while i < src.len()
        invariant
            i <= src.len(),
            dst@ == old(dst)@ + src@.subrange(0, i as int),
        decreases src.len() - i,
    {
        dst.push(src[i]);
        i += 1;
        assert(dst@ == old(dst)@ + src@.subrange(0, i as int));
    }
    assert(src@.subrange(0, src.len() as int) == src@);
}

/// The characters of `v` from `start` (inclusive) to `end` (exclusive).
pub fn slice_chars(v: &Vec<char>, start: usize, end: usize) -> (r: Vec<char>)
    requires
        start <= end <= v.len(),
    ensures
        r@ == v@.subrange(start as int, end as int),
{
    let mut r: Vec<char> = Vec::new();
    let mut i = start;
    while i < end
        invariant
            start <= i <= end <= v.len(),
            r@ == v@.subrange(start as int, i as int),
        decreases end - i,
    {
        r.push(v[i]);
        i += 1;
        assert(r@ == v@.subrange(start as int, i as int));
    }
    r
}

/// Whether two character vectors hold the same characters.
pub fn chars_eq(a: &Vec<char>, b: &Vec<char>) -> (r: bool)
    ensures
        r == (a@ == b@),
{
    if a.len() != b.len() {
        return false;
    }
    let mut i: usize = 0;
    while i < a.len()
        invariant
            a.len() == b.len(),
            i <= a.len(),
            forall|j: int| 0 <= j < i ==> a@[j] == b@[j],
        decreases a.len() - i,
    {
        if a[i] != b[i] {
            return false;
        }
        i += 1;
    }
    assert(a@ =~= b@);
    true
}

// ---------------------------------------------------------------------------
// Prefixes, suffixes and search
// ---------------------------------------------------------------------------

/// `p` is a prefix of `s`.
pub open spec fn starts_with(s: Seq<char>, p: Seq<char>) -> bool {
    p.len() <= s.len() && s.subrange(0, p.len() as int) == p
}

/// `p` is a suffix of `s`.
pub open spec fn ends_with(s: Seq<char>, p: Seq<char>) -> bool {
    p.len() <= s.len() && s.subrange(s.len() - p.len(), s.len() as int) == p
}

/// `n` occurs in `h` starting at position `i`.
pub open spec fn occurs_at(h: Seq<char>, n: Seq<char>, i: int) -> bool {
    0 <= i && i + n.len() <= h.len() && h.subrange(i, i + n.len()) == n
}

/// The first position at or after `i` at which `n` occurs in `h`.
pub open spec fn find_from(h: Seq<char>, n: Seq<char>, i: nat) -> Option<nat>
    decreases h.len() - i,
{
    if i + n.len() > h.len() {
        None
    } else if h.subrange(i as int, (i + n.len()) as int) == n {
        Some(i)
    } else if n.len() == 0 {
        None
    } else {
        find_from(h, n, i + 1)
    }
}

/// The first position at which `n` occurs in `h` (what `str::find` gives,
/// counted in characters).
pub open spec fn find(h: Seq<char>, n: Seq<char>) -> Option<nat> {
    find_from(h, n, 0)
}

/// What a search result tells: the position is an occurrence and no
/// earlier position at or after `i` is one.
pub proof fn lemma_find_from(h: Seq<char>, n: Seq<char>, i: nat)
    ensures
        find_from(h, n, i) matches Some(k) ==> i <= k && occurs_at(h, n, k as int)
            && forall|j: int| i <= j < k ==> !occurs_at(h, n, j),
        find_from(h, n, i) is None ==> forall|j: int| i <= j ==> !occurs_at(h, n, j),
    decreases h.len() - i,
{
    if i + n.len() > h.len() {
    } else if h.subrange(i as int, (i + n.len()) as int) == n {
    } else if n.len() == 0 {
        assert(h.subrange(i as int, i as int) =~= n);
    } else {
        lemma_find_from(h, n, i + 1);
    }
}

/// Whether `p` is a prefix of `s`.
pub fn has_prefix(s: &Vec<char>, p: &Vec<char>) -> (r: bool)
    ensures
        r == starts_with(s@, p@),
{
    if p.len() > s.len() {
        return false;
    }
    let mut i: usize = 0;
    while i < p.len()
        invariant
            p.len() <= s.len(),
            i <= p.len(),
            forall|j: int| 0 <= j < i ==> s@[j] == p@[j],
        decreases p.len() - i,
    {
        if s[i] != p[i] {
            return false;
        }
        i += 1;
    }
    assert(s@.subrange(0, p@.len() as int) =~= p@);
    true
}

/// Whether `p` is a suffix of `s`.
pub fn has_suffix(s: &Vec<char>, p: &Vec<char>) -> (r: bool)
    ensures
        r == ends_with(s@, p@),
{
    if p.len() > s.len() {
        return false;
    }
    let off = s.len() - p.len();
    let mut i: usize = 0;
    while i < p.len()
        invariant
            p.len() <= s.len(),
            off == s.len() - p.len(),
            i <= p.len(),
            forall|j: int| 0 <= j < i ==> s@[off + j] == p@[j],
        decreases p.len() - i,
    {
        if s[off + i] != p[i] {
            return false;
        }
        i += 1;
    }
    assert(s@.subrange(s@.len() - p@.len(), s@.len() as int) =~= p@);
    true
}

/// Whether `n` occurs in `h` at position `i`.
fn occurs_at_exec(h: &Vec<char>, n: &Vec<char>, i: usize) -> (r: bool)
    requires
        i + n.len() <= h.len(),
    ensures
        r == (h@.subrange(i as int, i + n@.len()) == n@),
{
    let mut j: usize = 0;
    while j < n.len()
        invariant
            i + n.len() <= h.len(),
            j <= n.len(),
            forall|k: int| 0 <= k < j ==> h@[i + k] == n@[k],
        decreases n.len() - j,
    {
        if h[i + j] != n[j] {
            assert(h@.subrange(i as int, i + n@.len())[j as int] != n@[j as int]);
            return false;
        }
        j += 1;
    }
    assert(h@.subrange(i as int, i + n@.len()) =~= n@);
    true
}

/// The first position at or after `from` at which `n` occurs in `h`.
pub fn find_chars_from(h: &Vec<char>, n: &Vec<char>, from: usize) -> (r: Option<usize>)
    ensures
        r == (match find_from(h@, n@, from as nat) {
            Some(k) => Some(k as usize),
            None => None::<usize>,
        }),
{
    let mut i = from;
    while i <= h.len() && h.len() - i >= n.len()
        invariant
            from <= i,
            find_from(h@, n@, from as nat) == find_from(h@, n@, i as nat),
        decreases h.len() + 1 - i,
    {
        if occurs_at_exec(h, n, i) {
            return Some(i);
        }
        if n.len() == 0 {
            return None;
        }
        i += 1;
    }
    None
}

/// The first position at which `n` occurs in `h`.
pub fn find_chars(h: &Vec<char>, n: &Vec<char>) -> (r: Option<usize>)
    ensures
        r == (match find(h@, n@) {
            Some(k) => Some(k as usize),
            None => None::<usize>,
        }),
{
    find_chars_from(h, n, 0)
}

/// Whether `c` occurs in `v`.
pub fn contains_char(v: &Vec<char>, c: char) -> (r: bool)
    ensures
        r == v@.contains(c),
{
    let mut i: usize = 0;
    while i < v.len()
        invariant
            i <= v.len(),
            forall|j: int| 0 <= j < i ==> v@[j] != c,
        decreases v.len() - i,
    {
        if v[i] == c {
            assert(v@[i as int] == c);
            return true;
        }
        i += 1;
    }
    false
}

/// The first position of `c` in `s`, if any.
pub open spec fn index_of(s: Seq<char>, c: char) -> Option<nat> {
    find(s, seq![c])
}

/// Position of the last `c` in `s`.
pub open spec fn rfind_char(s: Seq<char>, c: char) -> Option<nat>
    decreases s.len(),
{
    if s.len() == 0 {
        None
    } else if s.last() == c {
        Some((s.len() - 1) as nat)
    } else {
        rfind_char(s.drop_last(), c)
    }
}

/// Where the last `c` in `s` stands, if it occurs.
pub fn rfind_char_exec(s: &Vec<char>, c: char) -> (r: Option<usize>)
    ensures
        r == (match rfind_char(s@, c) {
            Some(k) => Some(k as usize),
            None => None::<usize>,
        }),
{
    let mut i = s.len();
    assert(s@.subrange(0, s@.len() as int) =~= s@);
    while i > 0
        invariant
            i <= s.len(),
            rfind_char(s@, c) == rfind_char(s@.subrange(0, i as int), c),
        decreases i,
    {
        assert(s@.subrange(0, i as int).drop_last() =~= s@.subrange(0, i - 1));
        if s[i - 1] == c {
            return Some(i - 1);
        }
        i -= 1;
    }
    None
}

/// The last position of `c` is an occurrence, and later positions are not.
pub proof fn lemma_rfind_char(s: Seq<char>, c: char)
    ensures
        rfind_char(s, c) matches Some(k) ==> k < s.len() && s[k as int] == c && forall|j: int|
            k < j < s.len() ==> s[j] != c,
        rfind_char(s, c) is None ==> forall|j: int| 0 <= j < s.len() ==> s[j] != c,
    decreases s.len(),
{
    if s.len() > 0 && s.last() != c {
        lemma_rfind_char(s.drop_last(), c);
        assert(forall|j: int| 0 <= j < s.len() - 1 ==> s.drop_last()[j] == s[j]);
    }
}

// ---------------------------------------------------------------------------
// Splitting and joining
// ---------------------------------------------------------------------------

/// What separates the pieces of a split.
pub enum Sep {
    /// A single character.
    Ch(char),
    /// Any whitespace character.
    Ws,
}

/// Whether `c` separates pieces under `sep`.
pub open spec fn is_sep(sep: Sep, c: char) -> bool {
    match sep {
        Sep::Ch(d) => c == d,
        Sep::Ws => is_ws(c),
    }
}

/// The pieces of `s` between separators (what `str::split` yields): there is
/// always one more piece than there are separators.
pub open spec fn split(s: Seq<char>, sep: Sep) -> Seq<Seq<char>>
    decreases s.len(),
{
    if s.len() == 0 {
        seq![Seq::<char>::empty()]
    } else {
        let p = split(s.drop_last(), sep);
        if is_sep(sep, s.last()) {
            p.push(Seq::<char>::empty())
        } else {
            p.update(p.len() - 1, p.last().push(s.last()))
        }
    }
}

/// A split has at least one piece.
pub proof fn lemma_split_len(s: Seq<char>, sep: Sep)
    ensures
        split(s, sep).len() >= 1,
    decreases s.len(),
{
    if s.len() > 0 {
        lemma_split_len(s.drop_last(), sep);
    }
}

/// The views of a vector of character vectors.
pub open spec fn views(v: Seq<Vec<char>>) -> Seq<Seq<char>> {
    v.map_values(|x: Vec<char>| x@)
}

/// Pushing onto a vector of pieces pushes the piece's view.
pub proof fn lemma_views_push(v: Seq<Vec<char>>, x: Vec<char>)
    ensures
        views(v.push(x)) == views(v).push(x@),
{
    assert(views(v.push(x)) =~= views(v).push(x@));
}

/// Dropping the last piece drops the last view.
pub proof fn lemma_views_drop_last(v: Seq<Vec<char>>)
    requires
        v.len() > 0,
    ensures
        views(v.drop_last()) == views(v).drop_last(),
{
    assert(views(v.drop_last()) =~= views(v).drop_last());
}

/// Splits `s` into the pieces between separators.
pub fn split_chars(s: &Vec<char>, sep: Sep) -> (parts: Vec<Vec<char>>)
    ensures
        views(parts@) == split(s@, sep),
{
    let mut parts: Vec<Vec<char>> = Vec::new();
    let mut cur: Vec<char> = Vec::new();
    let mut i: usize = 0;
    assert(s@.subrange(0, 0) =~= Seq::<char>::empty());
    assert(views(parts@).push(cur@) =~= split(s@.subrange(0, 0), sep));
    while i < s.len()
        invariant
            i <= s.len(),
            views(parts@).push(cur@) == split(s@.subrange(0, i as int), sep),
        decreases s.len() - i,
    {
        let c = s[i];
        let ghost pre = s@.subrange(0, i as int);
        let ghost nxt = s@.subrange(0, i + 1);
        assert(nxt.drop_last() =~= pre);
        assert(nxt.last() == c);
        proof {
            lemma_split_len(pre, sep);
        }
        let sepc = match sep {
            Sep::Ch(d) => c == d,
            Sep::Ws => is_whitespace(c),
        };
        if sepc {
            let done = cur;
            parts.push(done);
            cur = Vec::new();
            assert(views(parts@).push(cur@) =~= split(pre, sep).push(Seq::<char>::empty()));
        } else {
            let ghost old_parts = views(parts@);
            let ghost old_cur = cur@;
            cur.push(c);
            assert(views(parts@) == old_parts);
            assert(views(parts@).push(cur@) =~= old_parts.push(old_cur).update(
                old_parts.len() as int,
                old_cur.push(c),
            ));
        }
        i += 1;
    }
    assert(s@.subrange(0, s.len() as int) =~= s@);
    parts.push(cur);
    parts
}

/// The non-empty pieces of `ps`, in order.
pub open spec fn nonempty(ps: Seq<Seq<char>>) -> Seq<Seq<char>>
    decreases ps.len(),
{
    if ps.len() == 0 {
        Seq::empty()
    } else if ps.last().len() == 0 {
        nonempty(ps.drop_last())
    } else {
        nonempty(ps.drop_last()).push(ps.last())
    }
}

/// Keeps the non-empty pieces.
pub fn keep_nonempty(ps: Vec<Vec<char>>) -> (r: Vec<Vec<char>>)
    ensures
        views(r@) == nonempty(views(ps@)),
{
    let mut r: Vec<Vec<char>> = Vec::new();
    let mut i: usize = 0;
    let ghost all = views(ps@);
    let mut ps = ps;
    while i < ps.len()
        invariant
            i <= ps.len(),
            views(ps@) == all,
            views(r@) == nonempty(all.subrange(0, i as int)),
        decreases ps.len() - i,
    {
        assert(all.subrange(0, i + 1).drop_last() =~= all.subrange(0, i as int));
        let piece = clone_chars(&ps[i]);
        assert(piece@ == all[i as int]);
        if piece.len() > 0 {
            r.push(piece);
            assert(views(r@) =~= nonempty(all.subrange(0, i as int)).push(all[i as int]));
        }
        i += 1;
    }
    assert(all.subrange(0, ps.len() as int) =~= all);
    r
}

/// The pieces of `ps` put back together with `sep` between neighbours.
pub open spec fn join(ps: Seq<Seq<char>>, sep: Seq<char>) -> Seq<char>
    decreases ps.len(),
{
    if ps.len() == 0 {
        Seq::empty()
    } else if ps.len() == 1 {
        ps[0]
    } else {
        join(ps.drop_last(), sep) + sep + ps.last()
    }
}

/// Joins the pieces with `sep` between neighbours.
pub fn join_chars(ps: &Vec<Vec<char>>, sep: &Vec<char>) -> (r: Vec<char>)
    ensures
        r@ == join(views(ps@), sep@),
{
    let mut r: Vec<char> = Vec::new();
    let mut i: usize = 0;
    let ghost all = views(ps@);
    while i < ps.len()
        invariant
            i <= ps.len(),
            all == views(ps@),
            r@ == join(all.subrange(0, i as int), sep@),
        decreases ps.len() - i,
    {
        let ghost pre = all.subrange(0, i as int);
        assert(all.subrange(0, i + 1).drop_last() =~= pre);
        if i > 0 {
            extend_chars(&mut r, sep);
        }
        extend_chars(&mut r, &ps[i]);
        i += 1;
        assert(r@ =~= join(all.subrange(0, i as int), sep@));
    }
    assert(all.subrange(0, ps.len() as int) =~= all);
    r
}

/// A vector holding one character.
pub fn v1(a: char) -> (r: Vec<char>)
    ensures
        r@ == seq![a],
{
    let mut r = Vec::new();
    r.push(a);
    assert(r@ =~= seq![a]);
    r
}

/// A vector holding two characters.
pub fn v2(a: char, b: char) -> (r: Vec<char>)
    ensures
        r@ == seq![a, b],
{
    let mut r = Vec::new();
    r.push(a);
    r.push(b);
    assert(r@ =~= seq![a, b]);
    r
}

/// A vector holding three characters.
pub fn v3(a: char, b: char, c: char) -> (r: Vec<char>)
    ensures
        r@ == seq![a, b, c],
{
    let mut r = Vec::new();
    r.push(a);
    r.push(b);
    r.push(c);
    assert(r@ =~= seq![a, b, c]);
    r
}

/// A copy of a character vector.
pub fn clone_chars(v: &Vec<char>) -> (r: Vec<char>)
    ensures
        r@ == v@,
{
    assert(v@.subrange(0, v@.len() as int) =~= v@);
    slice_chars(v, 0, v.len())
}

// ---------------------------------------------------------------------------
// Trimming
// ---------------------------------------------------------------------------

/// `s` without its leading whitespace.
pub open spec fn trim_start(s: Seq<char>) -> Seq<char>
    decreases s.len(),
{
    if s.len() > 0 && is_ws(s[0]) {
        trim_start(s.drop_first())
    } else {
        s
    }
}

/// `s` without its trailing whitespace.
pub open spec fn trim_end(s: Seq<char>) -> Seq<char>
    decreases s.len(),
{
    if s.len() > 0 && is_ws(s.last()) {
        trim_end(s.drop_last())
    } else {
        s
    }
}

/// `s` without leading and trailing whitespace (what `str::trim` gives).
pub open spec fn trim(s: Seq<char>) -> Seq<char> {
    trim_end(trim_start(s))
}

/// Removes leading whitespace.
pub fn trim_start_chars(s: &Vec<char>) -> (r: Vec<char>)
    ensures
        r@ == trim_start(s@),
{
    let mut i: usize = 0;
    assert(s@.subrange(0, s@.len() as int) =~= s@);
    while i < s.len() && is_whitespace(s[i])
        invariant
            i <= s.len(),
            trim_start(s@) == trim_start(s@.subrange(i as int, s@.len() as int)),
        decreases s.len() - i,
    {
        assert(s@.subrange(i as int, s@.len() as int).drop_first() =~= s@.subrange(
            i + 1,
            s@.len() as int,
        ));
        i += 1;
    }
    slice_chars(s, i, s.len())
}

/// Removes trailing whitespace.
pub fn trim_end_chars(s: &Vec<char>) -> (r: Vec<char>)
    ensures
        r@ == trim_end(s@),
{
    let mut i: usize = s.len();
    assert(s@.subrange(0, s@.len() as int) =~= s@);
    while i > 0 && is_whitespace(s[i - 1])
        invariant
            i <= s.len(),
            trim_end(s@) == trim_end(s@.subrange(0, i as int)),
        decreases i,
    {
        assert(s@.subrange(0, i as int).drop_last() =~= s@.subrange(0, i - 1));
        i -= 1;
    }
    slice_chars(s, 0, i)
}

/// Removes leading and trailing whitespace.
pub fn trim_chars(s: &Vec<char>) -> (r: Vec<char>)
    ensures
        r@ == trim(s@),
{
    let a = trim_start_chars(s);
    trim_end_chars(&a)
}

// ---------------------------------------------------------------------------
// Unicode operations of std that this crate calls
// ---------------------------------------------------------------------------

/// What `char::is_alphanumeric` answers for `c` (Unicode `Alphabetic` or
/// `Numeric`).
pub uninterp spec fn unicode_alphanumeric(c: char) -> bool;

/// What `str::to_lowercase` gives for a string.
pub uninterp spec fn unicode_lowercase(s: Seq<char>) -> Seq<char>;

/// What `str::to_uppercase` gives for a string.
pub uninterp spec fn unicode_uppercase(s: Seq<char>) -> Seq<char>;

/// What `char::to_uppercase` yields for one character.
pub uninterp spec fn unicode_char_uppercase(c: char) -> Seq<char>;

/// Whether `c` is an ASCII character.
pub open spec fn is_ascii_char(c: char) -> bool {
    (c as u32) < 128
}

/// Whether `c` is an ASCII letter or digit.
pub open spec fn is_ascii_alnum(c: char) -> bool {
    ('a' <= c && c <= 'z') || ('A' <= c && c <= 'Z') || ('0' <= c && c <= '9')
}

/// Whether every character of `s` is ASCII.
pub open spec fn all_ascii(s: Seq<char>) -> bool {
    forall|i: int| 0 <= i < s.len() ==> is_ascii_char(#[trigger] s[i])
}

/// `char::is_alphanumeric`: whether `c` is Unicode alphabetic or numeric.
/// Its answer is taken to be a function of `c` alone, named
/// `unicode_alphanumeric`; of an ASCII character it is stated that the
/// answer is whether it is a letter or a digit, and the Unicode tables
/// beyond ASCII are not stated.
#[verifier::external_body]
pub fn is_alphanumeric(c: char) -> (b: bool)
    ensures
        b == unicode_alphanumeric(c),
        is_ascii_char(c) ==> (b == is_ascii_alnum(c)),
{
    c.is_alphanumeric()
}

/// `str::to_lowercase`: the Unicode lower-case mapping of a whole string.
/// The result is named `unicode_lowercase` of the argument; of an ASCII
/// string it is stated that each letter `A`-`Z` becomes `a`-`z` and every
/// other character stays, and the mapping tables beyond ASCII are not
/// stated.
#[verifier::external_body]
pub fn to_lowercase(s: &str) -> (r: String)
    ensures
        r@ == unicode_lowercase(s@),
        all_ascii(s@) ==> r@ == s@.map_values(|c: char| ascii_lower(c)),
{
    s.to_lowercase()
}

/// `str::to_uppercase`: the Unicode upper-case mapping of a whole string.
/// The result is named `unicode_uppercase` of the argument; of an ASCII
/// string it is stated that each letter `a`-`z` becomes `A`-`Z` and every
/// other character stays, and the mapping tables beyond ASCII are not
/// stated.
#[verifier::external_body]
pub fn to_uppercase(s: &str) -> (r: String)
    ensures
        r@ == unicode_uppercase(s@),
        all_ascii(s@) ==> r@ == s@.map_values(|c: char| ascii_upper(c)),
{
    s.to_uppercase()
}

/// `char::to_uppercase`: the characters the upper-case mapping of `c`
/// yields (one or more). Named `unicode_char_uppercase` of `c`; of an
/// ASCII character it is stated that it yields the one character
/// `to_ascii_uppercase` gives, and the tables beyond ASCII are not stated.
#[verifier::external_body]
pub fn char_to_uppercase(c: char) -> (r: Vec<char>)
    ensures
        r@ == unicode_char_uppercase(c),
        is_ascii_char(c) ==> r@ == seq![ascii_upper(c)],
{
    c.to_uppercase().collect()
}

} // verus!

verus! {

// ---------------------------------------------------------------------------
// Facts about the spec functions above
// ---------------------------------------------------------------------------

/// Trimming leaves a string alone when it neither starts nor ends with
/// whitespace.
pub proof fn lemma_trim_noop(s: Seq<char>)
    requires
        s.len() == 0 || (!is_ws(s[0]) && !is_ws(s.last())),
    ensures
        trim(s) == s,
{
}

/// The first occurrence at or after `i` is found.
pub proof fn lemma_find_first(h: Seq<char>, n: Seq<char>, i: nat, k: nat)
    requires
        i <= k,
        occurs_at(h, n, k as int),
        forall|j: int| i <= j < k ==> !occurs_at(h, n, j),
    ensures
        find_from(h, n, i) == Some(k),
    decreases k - i,
{
    if i < k {
        assert(!occurs_at(h, n, i as int));
        if n.len() == 0 {
            assert(h.subrange(i as int, i as int) =~= n);
        }
        lemma_find_first(h, n, i + 1, k);
    }
}

/// Nothing is found when nothing occurs.
pub proof fn lemma_find_none(h: Seq<char>, n: Seq<char>, i: nat)
    requires
        forall|j: int| i <= j ==> !occurs_at(h, n, j),
    ensures
        find_from(h, n, i) is None,
    decreases h.len() - i,
{
    if i + n.len() <= h.len() {
        assert(!occurs_at(h, n, i as int));
        if n.len() > 0 {
            lemma_find_none(h, n, i + 1);
        }
    }
}

/// Where a single character is first found.
pub proof fn lemma_index_of_first(s: Seq<char>, c: char, k: nat)
    requires
        k < s.len(),
        s[k as int] == c,
        forall|j: int| 0 <= j < k ==> s[j] != c,
    ensures
        index_of(s, c) == Some(k),
{
    assert(s.subrange(k as int, k + 1int) =~= seq![c]);
    assert forall|j: int| 0 <= j < k implies !occurs_at(s, seq![c], j) by {
        if occurs_at(s, seq![c], j) {
            assert(s.subrange(j, j + 1)[0] == s[j]);
        }
    }
    lemma_find_first(s, seq![c], 0, k);
}

/// A character that does not occur is not found.
pub proof fn lemma_index_of_none(s: Seq<char>, c: char)
    requires
        !s.contains(c),
    ensures
        index_of(s, c) is None,
{
    assert forall|j: int| 0 <= j implies !occurs_at(s, seq![c], j) by {
        if occurs_at(s, seq![c], j) {
            assert(s.subrange(j, j + 1)[0] == s[j]);
        }
    }
    lemma_find_none(s, seq![c], 0);
}

/// Splitting and joining again with the same character gives back the
/// string.
pub proof fn lemma_join_split(s: Seq<char>, c: char)
    ensures
        join(split(s, Sep::Ch(c)), seq![c]) == s,
    decreases s.len(),
{
    if s.len() > 0 {
        let t = s.drop_last();
        lemma_join_split(t, c);
        lemma_split_len(t, Sep::Ch(c));
        let p = split(t, Sep::Ch(c));
        if s.last() == c {
            assert(p.push(Seq::<char>::empty()).drop_last() =~= p);
            assert(s =~= t + seq![c] + Seq::<char>::empty());
        } else {
            let q = p.update(p.len() - 1, p.last().push(s.last()));
            if p.len() == 1 {
                assert(s =~= p[0].push(s.last()));
            } else {
                assert(q.drop_last() =~= p.drop_last());
                assert(join(p, seq![c]) == join(p.drop_last(), seq![c]) + seq![c] + p.last());
                assert(q.last() == p.last().push(s.last()));
                assert(join(q, seq![c]) == join(q.drop_last(), seq![c]) + seq![c] + q.last());
                assert(s =~= t.push(s.last()));
                assert(s =~= join(p.drop_last(), seq![c]) + seq![c] + p.last().push(s.last()));
            }
        }
    }
}

/// Appending characters that are not separators extends the last piece.
pub proof fn lemma_split_append(a: Seq<char>, b: Seq<char>, c: char)
    requires
        !b.contains(c),
    ensures
        split(a + b, Sep::Ch(c)) == split(a, Sep::Ch(c)).update(
            split(a, Sep::Ch(c)).len() - 1,
            split(a, Sep::Ch(c)).last() + b,
        ),
    decreases b.len(),
{
    lemma_split_len(a, Sep::Ch(c));
    if b.len() == 0 {
        assert(a + b =~= a);
        let p = split(a, Sep::Ch(c));
        assert(p.update(p.len() - 1, p.last() + b) =~= p);
    } else {
        let b0 = b.drop_last();
        assert(!b0.contains(c)) by {
            if b0.contains(c) {
                let j = choose|j: int| 0 <= j < b0.len() && b0[j] == c;
                assert(b[j] == c);
            }
        }
        lemma_split_append(a, b0, c);
        assert((a + b).drop_last() =~= a + b0);
        assert((a + b).last() == b.last());
        assert(b.last() != c) by {
            assert(b[b.len() - 1] == b.last());
        }
        let p = split(a, Sep::Ch(c));
        assert(b0.push(b.last()) =~= b);
        assert(split(a + b, Sep::Ch(c)) =~= p.update(p.len() - 1, p.last() + b));
    }
}

/// Splitting a join at the joining character gives back the pieces, when no
/// piece holds that character.
pub proof fn lemma_split_join(ps: Seq<Seq<char>>, c: char)
    requires
        ps.len() >= 1,
        forall|i: int| 0 <= i < ps.len() ==> !(#[trigger] ps[i]).contains(c),
    ensures
        split(join(ps, seq![c]), Sep::Ch(c)) == ps,
    decreases ps.len(),
{
    if ps.len() == 1 {
        lemma_split_append(Seq::<char>::empty(), ps[0], c);
        assert(Seq::<char>::empty() + ps[0] =~= ps[0]);
        assert(split(Seq::<char>::empty(), Sep::Ch(c)).update(0, Seq::<char>::empty() + ps[0])
            =~= ps);
    } else {
        let q = ps.drop_last();
        lemma_split_join(q, c);
        let a = join(q, seq![c]) + seq![c];
        assert(a.drop_last() =~= join(q, seq![c]));
        assert(split(a, Sep::Ch(c)) == q.push(Seq::<char>::empty()));
        assert(!ps.last().contains(c)) by {
            assert(ps.last() == ps[ps.len() - 1]);
        }
        lemma_split_append(a, ps.last(), c);
        assert(Seq::<char>::empty() + ps.last() =~= ps.last());
        assert(q.push(Seq::<char>::empty()).update(q.len() as int, Seq::<char>::empty() + ps.last())
            =~= ps);
    }
}

/// Dropping empty pieces leaves pieces that are all non-empty alone.
pub proof fn lemma_nonempty_all(ps: Seq<Seq<char>>)
    requires
        forall|i: int| 0 <= i < ps.len() ==> (#[trigger] ps[i]).len() > 0,
    ensures
        nonempty(ps) == ps,
    decreases ps.len(),
{
    if ps.len() > 0 {
        lemma_nonempty_all(ps.drop_last());
        assert(ps.drop_last().push(ps.last()) =~= ps);
    }
}

} // verus!

verus! {

/// No piece of a split holds a separator.
pub proof fn lemma_split_no_sep(s: Seq<char>, c: char)
    ensures
        forall|i: int|
            0 <= i < split(s, Sep::Ch(c)).len() ==> !(#[trigger] split(s, Sep::Ch(c))[i]).contains(c),
    decreases s.len(),
{
    lemma_split_len(s, Sep::Ch(c));
    if s.len() > 0 {
        let t = s.drop_last();
        lemma_split_no_sep(t, c);
        lemma_split_len(t, Sep::Ch(c));
        let p = split(t, Sep::Ch(c));
        if s.last() != c {
            let q = p.update(p.len() - 1, p.last().push(s.last()));
            assert forall|i: int| 0 <= i < q.len() implies !(#[trigger] q[i]).contains(c) by {
                if i == p.len() - 1 {
                    if q[i].contains(c) {
                        let j = choose|j: int| 0 <= j < q[i].len() && q[i][j] == c;
                        if j < p.last().len() {
                            assert(p[i][j] == c);
                        }
                    }
                }
            }
        }
    }
}

/// The first piece of a split is a prefix of the string, followed by a
/// separator when it is shorter than the string.
pub proof fn lemma_split_first(s: Seq<char>, c: char)
    ensures
        split(s, Sep::Ch(c)).len() >= 1,
        starts_with(s, split(s, Sep::Ch(c))[0]),
        split(s, Sep::Ch(c))[0].len() < s.len() ==> s[split(s, Sep::Ch(c))[0].len() as int]
            == c,
        split(s, Sep::Ch(c)).len() > 1 ==> split(s, Sep::Ch(c))[0].len() < s.len(),
    decreases s.len(),
{
    lemma_split_len(s, Sep::Ch(c));
    if s.len() > 0 {
        let t = s.drop_last();
        lemma_split_first(t, c);
        lemma_split_len(t, Sep::Ch(c));
        let p = split(t, Sep::Ch(c));
        let q = split(s, Sep::Ch(c));
        assert(s.last() == s[s.len() - 1]);
        assert(forall|i: int| 0 <= i < t.len() ==> s[i] == t[i]);
        if s.last() == c {
            assert(q == p.push(Seq::<char>::empty()));
            assert(q[0] == p[0]);
            assert(s.subrange(0, p[0].len() as int) =~= t.subrange(0, p[0].len() as int));
        } else if p.len() == 1 {
            lemma_join_split(t, c);
            assert(p[0] == t);
            assert(q == p.update(0, p[0].push(s.last())));
            assert(q[0] =~= s);
            assert(s.subrange(0, s.len() as int) =~= s);
        } else {
            assert(q == p.update(p.len() - 1, p.last().push(s.last())));
            assert(q[0] == p[0]);
            assert(s.subrange(0, p[0].len() as int) =~= t.subrange(0, p[0].len() as int));
        }
    } else {
        assert(s.subrange(0, 0) =~= Seq::<char>::empty());
    }
}

/// A join of non-empty pieces starts with the first piece's first character
/// and ends with the last piece's last character.
pub proof fn lemma_join_ends(ps: Seq<Seq<char>>, sep: Seq<char>)
    requires
        ps.len() >= 1,
        forall|i: int| 0 <= i < ps.len() ==> (#[trigger] ps[i]).len() > 0,
    ensures
        join(ps, sep).len() > 0,
        join(ps, sep)[0] == ps[0][0],
        join(ps, sep).last() == ps.last().last(),
    decreases ps.len(),
{
    if ps.len() > 1 {
        let q = ps.drop_last();
        lemma_join_ends(q, sep);
        assert(ps.last() == ps[ps.len() - 1]);
    }
}

/// A join holds no character that neither the pieces nor the separator
/// hold.
pub proof fn lemma_join_no_char(ps: Seq<Seq<char>>, sep: Seq<char>, c: char)
    requires
        !sep.contains(c),
        forall|i: int| 0 <= i < ps.len() ==> !(#[trigger] ps[i]).contains(c),
    ensures
        !join(ps, sep).contains(c),
    decreases ps.len(),
{
    if ps.len() > 1 {
        let q = ps.drop_last();
        lemma_join_no_char(q, sep, c);
        assert(!ps.last().contains(c)) by {
            assert(ps.last() == ps[ps.len() - 1]);
        }
        let j = join(q, sep) + sep + ps.last();
        if j.contains(c) {
            let k = choose|k: int| 0 <= k < j.len() && j[k] == c;
            if k < join(q, sep).len() {
                assert(join(q, sep)[k] == c);
            } else if k < join(q, sep).len() + sep.len() {
                assert(sep[k - join(q, sep).len()] == c);
            } else {
                assert(ps.last()[k - join(q, sep).len() - sep.len()] == c);
            }
        }
    } else if ps.len() == 1 {
        assert(!ps[0].contains(c));
    }
}

} // verus!

verus! {

/// Every character of `s` satisfies `p`.
pub open spec fn all_chars(s: Seq<char>, p: spec_fn(char) -> bool) -> bool {
    forall|i: int| 0 <= i < s.len() ==> #[trigger] p(s[i])
}

/// The pieces of a split hold only characters of the string that are not
/// the separator: when every character is the separator or satisfies `p`,
/// every piece's characters satisfy `p`.
pub proof fn lemma_split_all(s: Seq<char>, c: char, p: spec_fn(char) -> bool)
    requires
        forall|i: int| 0 <= i < s.len() ==> s[i] == c || #[trigger] p(s[i]),
    ensures
        forall|k: int|
            0 <= k < split(s, Sep::Ch(c)).len() ==> all_chars(#[trigger] split(s, Sep::Ch(c))[k], p),
    decreases s.len(),
{
    lemma_split_len(s, Sep::Ch(c));
    if s.len() > 0 {
        let t = s.drop_last();
        assert forall|i: int| 0 <= i < t.len() implies t[i] == c || #[trigger] p(t[i]) by {
            assert(t[i] == s[i]);
        }
        lemma_split_all(t, c, p);
        lemma_split_len(t, Sep::Ch(c));
        let q = split(t, Sep::Ch(c));
        if s.last() != c {
            assert(p(s[s.len() - 1]));
            let r = q.update(q.len() - 1, q.last().push(s.last()));
            assert forall|k: int| 0 <= k < r.len() implies all_chars(#[trigger] r[k], p) by {
                if k == q.len() - 1 {
                    assert forall|j: int| 0 <= j < r[k].len() implies #[trigger] p(r[k][j]) by {
                        if j < q.last().len() {
                            assert(all_chars(q[k], p));
                            assert(r[k][j] == q[k][j]);
                        }
                    }
                } else {
                    assert(all_chars(q[k], p));
                }
            }
        } else {
            let r = q.push(Seq::<char>::empty());
            assert forall|k: int| 0 <= k < r.len() implies all_chars(#[trigger] r[k], p) by {
                if k < q.len() {
                    assert(all_chars(q[k], p));
                }
            }
        }
    }
}

/// The kept pieces are among the pieces: what holds of every piece holds
/// of every kept one, and each is non-empty.
pub proof fn lemma_nonempty_all_chars(ps: Seq<Seq<char>>, p: spec_fn(char) -> bool)
    requires
        forall|k: int| 0 <= k < ps.len() ==> all_chars(#[trigger] ps[k], p),
    ensures
        forall|k: int| 0 <= k < nonempty(ps).len() ==> all_chars(#[trigger] nonempty(ps)[k], p)
            && nonempty(ps)[k].len() > 0,
    decreases ps.len(),
{
    if ps.len() > 0 {
        let q = ps.drop_last();
        assert forall|k: int| 0 <= k < q.len() implies all_chars(#[trigger] q[k], p) by {
            assert(q[k] == ps[k]);
        }
        lemma_nonempty_all_chars(q, p);
        assert(all_chars(ps[ps.len() - 1], p));
        assert(ps.last() == ps[ps.len() - 1]);
        if ps.last().len() > 0 {
            let r = nonempty(q).push(ps.last());
            assert(nonempty(ps) == r);
            assert forall|k: int| 0 <= k < r.len() implies all_chars(#[trigger] r[k], p) && r[k].len() > 0 by {
                if k < r.len() - 1 {
                    assert(r[k] == nonempty(q)[k]);
                }
            }
        }
    }
}

/// `c` appears in `s` only strictly inside, each time between two other
/// characters: never first, never last, never twice in a row.
pub open spec fn separated(s: Seq<char>, c: char) -> bool {
    forall|i: int|
        0 <= i < s.len() && #[trigger] s[i] == c ==> 0 < i && i + 1 < s.len() && s[i + 1] != c
            && s[i - 1] != c
}

/// Non-empty pieces without `c`, joined by `c`, are separated by it.
pub proof fn lemma_join_separated(ps: Seq<Seq<char>>, c: char)
    requires
        forall|k: int| 0 <= k < ps.len() ==> (#[trigger] ps[k]).len() > 0 && !ps[k].contains(c),
    ensures
        separated(join(ps, seq![c]), c),
    decreases ps.len(),
{
    if ps.len() == 1 {
        assert forall|i: int| 0 <= i < ps[0].len() && #[trigger] ps[0][i] == c implies false by {
            assert(ps[0].contains(c));
        }
    } else if ps.len() > 1 {
        let q = ps.drop_last();
        assert forall|k: int| 0 <= k < q.len() implies (#[trigger] q[k]).len() > 0 && !q[k].contains(c) by {
            assert(q[k] == ps[k]);
        }
        lemma_join_separated(q, c);
        lemma_join_ends(q, seq![c]);
        let a = join(q, seq![c]);
        let l = ps[ps.len() - 1];
        let j = a + seq![c] + l;
        assert(j == join(ps, seq![c]));
        assert(a.last() == q.last().last());
        assert(a.last() != c) by {
            let ql = q[q.len() - 1];
            if ql.last() == c {
                assert(ql.contains(c));
            }
        }
        assert(l[0] != c) by {
            if l[0] == c {
                assert(l.contains(c));
            }
        }
        assert forall|i: int| 0 <= i < j.len() && #[trigger] j[i] == c implies 0 < i && i + 1 < j.len()
            && j[i + 1] != c && j[i - 1] != c by {
            if i < a.len() {
                assert(a[i] == c);
                if i + 1 < a.len() {
                    assert(j[i + 1] == a[i + 1]);
                }
                assert(j[i - 1] == a[i - 1]);
            } else if i == a.len() {
                assert(j[i + 1] == l[0]);
                assert(j[i - 1] == a.last());
            } else {
                assert(l[i - a.len() - 1] == c);
                assert(l.contains(c));
            }
        }
    }
}

/// A join by `c` of pieces whose characters satisfy `p` holds only `c` and
/// characters satisfying `p`.
pub proof fn lemma_join_all_chars(ps: Seq<Seq<char>>, c: char, p: spec_fn(char) -> bool)
    requires
        forall|k: int| 0 <= k < ps.len() ==> all_chars(#[trigger] ps[k], p),
    ensures
        forall|i: int|
            0 <= i < join(ps, seq![c]).len() ==> #[trigger] join(ps, seq![c])[i] == c || p(
                join(ps, seq![c])[i],
            ),
    decreases ps.len(),
{
    if ps.len() == 1 {
        assert(all_chars(ps[0], p));
    } else if ps.len() > 1 {
        let q = ps.drop_last();
        assert forall|k: int| 0 <= k < q.len() implies all_chars(#[trigger] q[k], p) by {
            assert(q[k] == ps[k]);
        }
        lemma_join_all_chars(q, c, p);
        let a = join(q, seq![c]);
        let l = ps[ps.len() - 1];
        assert(all_chars(l, p));
        let j = a + seq![c] + l;
        assert(j == join(ps, seq![c]));
        assert forall|i: int| 0 <= i < j.len() implies #[trigger] j[i] == c || p(j[i]) by {
            if i < a.len() {
                assert(j[i] == a[i]);
            } else if i > a.len() {
                assert(j[i] == l[i - a.len() - 1]);
            }
        }
    }
}

} // verus!

verus! {

// ---------------------------------------------------------------------------
// Integers in text
// ---------------------------------------------------------------------------

/// Whether `s` is one or more ASCII digits.
pub open spec fn all_digits(s: Seq<char>) -> bool {
    s.len() > 0 && forall|i: int| 0 <= i < s.len() ==> '0' <= #[trigger] s[i] <= '9'
}

/// The number that a run of ASCII digits writes in base ten.
pub open spec fn digits_value(s: Seq<char>) -> nat
    decreases s.len(),
{
    if s.len() == 0 {
        0
    } else {
        digits_value(s.drop_last()) * 10 + ((s.last() as int) - ('0' as int)) as nat
    }
}

/// The integer that `s` writes, as `str::parse::<i64>` reads it before the
/// range check: an optional `+` or `-`, then one or more ASCII digits, and
/// nothing else.
pub open spec fn int_text(s: Seq<char>) -> Option<int> {
    if s.len() > 0 && (s[0] == '+' || s[0] == '-') {
        if all_digits(s.drop_first()) {
            if s[0] == '-' {
                Some(-(digits_value(s.drop_first()) as int))
            } else {
                Some(digits_value(s.drop_first()) as int)
            }
        } else {
            None
        }
    } else if all_digits(s) {
        Some(digits_value(s) as int)
    } else {
        None
    }
}

/// What `str::parse::<i64>` gives: the integer `s` writes, when it is one
/// and fits in an `i64`.
pub open spec fn parse_i64_spec(s: Seq<char>) -> Option<i64> {
    match int_text(s) {
        Some(v) => if i64::MIN <= v <= i64::MAX {
            Some(v as i64)
        } else {
            None
        },
        None => None,
    }
}

/// A longer run of digits is worth at least as much as its start.
proof fn lemma_digits_value_grows(s: Seq<char>, i: int, j: int)
    requires
        0 <= i <= j <= s.len(),
        forall|k: int| 0 <= k < s.len() ==> '0' <= #[trigger] s[k] <= '9',
    ensures
        digits_value(s.take(i)) <= digits_value(s.take(j)),
    decreases j - i,
{
    if i < j {
        lemma_digits_value_grows(s, i, j - 1);
        assert(s.take(j).drop_last() =~= s.take(j - 1));
    }
}

/// Reads an `i64` written in base ten (see [`parse_i64_spec`]).
pub fn parse_i64(text: &str) -> (r: Option<i64>)
    ensures
        r == parse_i64_spec(text@),
{
    let s = chars_of(text);
    let n = s.len();
    let mut start: usize = 0;
    let mut negative = false;
    if n > 0 && (s[0] == '+' || s[0] == '-') {
        negative = s[0] == '-';
        start = 1;
    }
    let ghost d = s@.skip(start as int);
    if start == 1 {
        assert(d =~= s@.drop_first());
    } else {
        assert(d =~= s@);
    }
    if start == n {
        assert(!all_digits(d));
        return None;
    }
    let mut v: i128 = 0;
    let mut i: usize = start;
    while i < n
        invariant
            start <= i <= n,
            n == s@.len(),
            s@ == text@,
            d == s@.skip(start as int),
            start == 0 || start == 1,
            start == 1 <==> (n > 0 && (s@[0] == '+' || s@[0] == '-')),
            start == 1 ==> d == s@.drop_first(),
            start == 0 ==> d == s@,
            negative == (start == 1 && s@[0] == '-'),
            forall|k: int| start <= k < i ==> '0' <= #[trigger] s@[k] <= '9',
            v == digits_value(d.take(i - start)),
            0 <= v <= 9223372036854775808,
        decreases n - i,
    {
        let c = s[i];
        if !('0' <= c && c <= '9') {
            assert(d[i - start] == c);
            assert(!all_digits(d));
            return None;
        }
        assert(d.take(i - start + 1).drop_last() =~= d.take(i - start));
        assert(d.take(i - start + 1).last() == c);
        v = v * 10 + ((c as u32) - ('0' as u32)) as i128;
        i += 1;
        if v > 9223372036854775808 {
            proof {
                if all_digits(d) {
                    lemma_digits_value_grows(d, i - start, d.len() as int);
                    assert(d.take(d.len() as int) =~= d);
                }
            }
            return None;
        }
    }
    assert(d.take(n - start) =~= d);
    assert(all_digits(d));
    if start == 0 {
        assert(d =~= s@);
    }
    if negative {
        Some((0 - v) as i64)
    } else if v <= 9223372036854775807 {
        Some(v as i64)
    } else {
        None
    }
}

} // verus!
