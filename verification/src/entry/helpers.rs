//! Filename and title rules for entries: slugs, filename styles, portable
//! filenames, and the key that identifies an attachment reference.

use vstd::prelude::*;
use crate::link_parser::{canonical_spec, parse_link, parse_link_spec, to_canonical};
use crate::text::{
    chars_of, clone_chars, ends_with, extend_chars, has_suffix, is_alphanumeric, is_ws,
    is_whitespace, join, join_chars, keep_nonempty, nonempty, slice_chars, split, split_chars,
    string_of, to_lowercase, to_uppercase, trim, trim_chars, unicode_alphanumeric,
    unicode_char_uppercase, unicode_lowercase, unicode_uppercase, char_to_uppercase, v1, v3,
    views, lemma_views_push, owned, Sep, separated, lemma_split_all, lemma_nonempty_all_chars,
    lemma_join_separated, lemma_join_all_chars, all_chars,
};
use crate::workspace::FilenameStyle;

verus! {

// ---------------------------------------------------------------------------
// Character classes
// ---------------------------------------------------------------------------

/// A control character (U+0000 to U+001F, and U+007F).
pub open spec fn is_control_spec(c: char) -> bool {
    c <= '\x1F' || c == '\x7F'
}

/// One of the nine characters that filesystems refuse in names.
pub open spec fn is_illegal_spec(c: char) -> bool {
    c == '/' || c == '\\' || c == ':' || c == '*' || c == '?' || c == '"' || c == '<' || c
        == '>' || c == '|'
}

/// A character that is not portable in filenames.
pub open spec fn is_non_portable_spec(c: char) -> bool {
    is_illegal_spec(c) || is_control_spec(c)
}

/// A character not allowed at the start or end of a filename stem.
pub open spec fn is_boundary_spec(c: char) -> bool {
    c == '.' || c == '~' || c == ' ' || c == '\t'
}

/// Check if a character is a non-portable control character.
pub fn is_control_char(c: char) -> (b: bool)
    ensures
        b == is_control_spec(c),
{
    c <= '\x1F' || c == '\x7F'
}

/// Whether `c` is one of the characters filesystems refuse.
fn is_illegal_char(c: char) -> (b: bool)
    ensures
        b == is_illegal_spec(c),
{
    c == '/' || c == '\\' || c == ':' || c == '*' || c == '?' || c == '"' || c == '<' || c == '>'
        || c == '|'
}

/// Check if a character is non-portable in filenames: a refused symbol or a
/// control character.
pub fn is_non_portable_char(c: char) -> (b: bool)
    ensures
        b == is_non_portable_spec(c),
{
    is_illegal_char(c) || is_control_char(c)
}

/// Whether `c` may not open or close a filename stem.
fn is_boundary_char(c: char) -> (b: bool)
    ensures
        b == is_boundary_spec(c),
{
    c == '.' || c == '~' || c == ' ' || c == '\t'
}

// ---------------------------------------------------------------------------
// Specification
// ---------------------------------------------------------------------------

/// `_` and `-` read as spaces.
pub open spec fn space_of(c: char) -> char {
    if c == '_' || c == '-' {
        ' '
    } else {
        c
    }
}

/// A word with its first character upper-cased (Unicode).
pub open spec fn capitalize_spec(w: Seq<char>) -> Seq<char> {
    if w.len() == 0 {
        w
    } else {
        unicode_char_uppercase(w[0]) + w.drop_first()
    }
}

/// The title made from a filename: words split at whitespace, `-` and `_`,
/// each capitalized, joined by single spaces.
pub open spec fn prettify_spec(f: Seq<char>) -> Seq<char> {
    title_words(f.map_values(|c: char| space_of(c)))
}

/// The words of `s` (split at whitespace), each capitalized, joined by
/// single spaces.
pub open spec fn title_words(s: Seq<char>) -> Seq<char> {
    join(nonempty(split(s, Sep::Ws)).map_values(|w: Seq<char>| capitalize_spec(w)), seq![' '])
}

/// Characters that are not alphanumeric read as `sep`.
pub open spec fn alnum_or(s: Seq<char>, sep: char) -> Seq<char> {
    s.map_values(|c: char| if unicode_alphanumeric(c) { c } else { sep })
}

/// The words of `s` (runs of alphanumeric characters) joined by `sep`.
pub open spec fn words_joined(s: Seq<char>, sep: char) -> Seq<char> {
    join(nonempty(split(alnum_or(s, sep), Sep::Ch(sep))), seq![sep])
}

/// The slug of a string: its lower-case words joined by `-`.
pub open spec fn slug_spec(s: Seq<char>) -> Seq<char> {
    words_joined(unicode_lowercase(s), '-')
}

/// The `.md` extension.
pub open spec fn md_ext() -> Seq<char> {
    seq!['.', 'm', 'd']
}

/// The portable characters of `s`, in order.
pub open spec fn portable_only(s: Seq<char>) -> Seq<char>
    decreases s.len(),
{
    if s.len() == 0 {
        s
    } else if is_non_portable_spec(s.last()) {
        portable_only(s.drop_last())
    } else {
        portable_only(s.drop_last()).push(s.last())
    }
}

/// The stem made for a title in a filename style.
pub open spec fn style_spec(title: Seq<char>, style: FilenameStyle) -> Seq<char> {
    match style {
        FilenameStyle::Preserve => {
            let t = trim(portable_only(title));
            if t.len() == 0 {
                seq!['U', 'n', 't', 'i', 't', 'l', 'e', 'd']
            } else {
                t
            }
        },
        FilenameStyle::KebabCase => slug_spec(title),
        FilenameStyle::SnakeCase => {
            let w = words_joined(unicode_lowercase(title), '_');
            if w.len() == 0 {
                seq!['u', 'n', 't', 'i', 't', 'l', 'e', 'd']
            } else {
                w
            }
        },
        FilenameStyle::ScreamingSnakeCase => {
            let w = words_joined(unicode_uppercase(title), '_');
            if w.len() == 0 {
                seq!['U', 'N', 'T', 'I', 'T', 'L', 'E', 'D']
            } else {
                w
            }
        },
    }
}

/// `s` without a trailing `.md`.
pub open spec fn md_stem(s: Seq<char>) -> Seq<char> {
    if ends_with(s, md_ext()) {
        s.subrange(0, s.len() - 3)
    } else {
        s
    }
}

/// `s` without boundary characters at its start.
pub open spec fn trim_start_boundary(s: Seq<char>) -> Seq<char>
    decreases s.len(),
{
    if s.len() > 0 && is_boundary_spec(s[0]) {
        trim_start_boundary(s.drop_first())
    } else {
        s
    }
}

/// `s` without boundary characters at its end.
pub open spec fn trim_end_boundary(s: Seq<char>) -> Seq<char>
    decreases s.len(),
{
    if s.len() > 0 && is_boundary_spec(s.last()) {
        trim_end_boundary(s.drop_last())
    } else {
        s
    }
}

/// The portable filename made from `f`.
pub open spec fn sanitize_spec(f: Seq<char>) -> Seq<char> {
    let ext = if ends_with(f, md_ext()) {
        md_ext()
    } else {
        Seq::empty()
    };
    let t = trim_end_boundary(trim_start_boundary(portable_only(md_stem(f))));
    if t.len() == 0 {
        seq!['U', 'n', 't', 'i', 't', 'l', 'e', 'd'] + ext
    } else {
        t + ext
    }
}

/// The upper-case hexadecimal digit for `d` (below 16).
pub open spec fn hex_digit(d: nat) -> char {
    if d < 10 {
        (('0' as nat) + d) as char
    } else {
        (('A' as nat) + (d - 10)) as char
    }
}

/// The upper-case hexadecimal digits of `n`, most significant first.
pub open spec fn hex_of(n: nat) -> Seq<char>
    decreases n,
{
    if n < 16 {
        seq![hex_digit(n)]
    } else {
        hex_of(n / 16).push(hex_digit(n % 16))
    }
}

/// The hexadecimal digits of `n`, padded with `0` to at least four.
pub open spec fn hex4(n: nat) -> Seq<char> {
    let h = hex_of(n);
    if h.len() < 4 {
        Seq::new((4 - h.len()) as nat, |i: int| '0') + h
    } else {
        h
    }
}

/// The first position in `s` holding a non-portable character.
pub open spec fn first_non_portable(s: Seq<char>) -> Option<nat>
    decreases s.len(),
{
    if s.len() == 0 {
        None
    } else {
        match first_non_portable(s.drop_last()) {
            Some(i) => Some(i),
            None => if is_non_portable_spec(s.last()) {
                Some((s.len() - 1) as nat)
            } else {
                None
            },
        }
    }
}

/// `'c'` quoted.
pub open spec fn quoted(c: char) -> Seq<char> {
    seq!['\'', c, '\'']
}

/// The reason [`has_non_portable_chars`] gives for a filename, if any.
pub open spec fn non_portable_reason(f: Seq<char>) -> Option<Seq<char>> {
    let stem = md_stem(f);
    match first_non_portable(stem) {
        Some(i) => {
            let c = stem[i as int];
            if is_illegal_spec(c) {
                Some(seq!['c', 'o', 'n', 't', 'a', 'i', 'n', 's', ' '] + quoted(c))
            } else {
                Some(
                    seq![
                        'c', 'o', 'n', 't', 'a', 'i', 'n', 's', ' ', 'c', 'o', 'n', 't', 'r', 'o',
                        'l', ' ', 'c', 'h', 'a', 'r', 'a', 'c', 't', 'e', 'r', ' ', 'U', '+',
                    ] + hex4((c as u32) as nat),
                )
            }
        },
        None => if stem.len() > 0 && is_boundary_spec(stem[0]) {
            Some(seq!['s', 't', 'a', 'r', 't', 's', ' ', 'w', 'i', 't', 'h', ' '] + quoted(stem[0]))
        } else if stem.len() > 0 && is_boundary_spec(stem.last()) {
            Some(seq!['e', 'n', 'd', 's', ' ', 'w', 'i', 't', 'h', ' '] + quoted(stem.last()))
        } else {
            None
        },
    }
}

// ---------------------------------------------------------------------------
// Implementation
// ---------------------------------------------------------------------------

/// The words of `s` (runs of alphanumeric characters) joined by `sep`.
pub(crate) fn words_joined_exec(s: &Vec<char>, sep: char) -> (r: Vec<char>)
    ensures
        r@ == words_joined(s@, sep),
{
    let mut mapped: Vec<char> = Vec::new();
    let mut i: usize = 0;
    while i < s.len()
        invariant
            i <= s.len(),
            mapped@ == alnum_or(s@.subrange(0, i as int), sep),
        decreases s.len() - i,
    {
        let c = s[i];
        let m = if is_alphanumeric(c) {
            c
        } else {
            sep
        };
        mapped.push(m);
        i += 1;
        assert(mapped@ =~= alnum_or(s@.subrange(0, i as int), sep));
    }
    assert(s@.subrange(0, s.len() as int) =~= s@);
    let parts = keep_nonempty(split_chars(&mapped, Sep::Ch(sep)));
    join_chars(&parts, &v1(sep))
}

/// Convert a filename to a prettier title: words split at whitespace, `-`
/// and `_`, each capitalized, joined by single spaces.
pub fn prettify_filename(filename: &str) -> (r: String)
    ensures
        r@ == prettify_spec(filename@),
{
    let f = chars_of(filename);
    let mut spaced: Vec<char> = Vec::new();
    let mut i: usize = 0;
    while i < f.len()
        invariant
            i <= f.len(),
            spaced@ == f@.subrange(0, i as int).map_values(|c: char| space_of(c)),
        decreases f.len() - i,
    {
        let c = f[i];
        spaced.push(if c == '_' || c == '-' {
            ' '
        } else {
            c
        });
        i += 1;
        assert(spaced@ =~= f@.subrange(0, i as int).map_values(|c: char| space_of(c)));
    }
    assert(f@.subrange(0, f.len() as int) =~= f@);
    title_words_exec(&spaced)
}

/// The words of `s`, each capitalized, joined by single spaces (see
/// [`title_words`]).
pub fn title_words_exec(spaced: &Vec<char>) -> (r: String)
    ensures
        r@ == title_words(spaced@),
{
    let words = keep_nonempty(split_chars(&spaced, Sep::Ws));
    let ghost w = views(words@);
    let mut caps: Vec<Vec<char>> = Vec::new();
    let mut k: usize = 0;
    while k < words.len()
        invariant
            k <= words.len(),
            w == views(words@),
            views(caps@) == w.subrange(0, k as int).map_values(|x: Seq<char>| capitalize_spec(x)),
        decreases words.len() - k,
    {
        let word = &words[k];
        assert(word@ == w[k as int]);
        let mut cw: Vec<char> = Vec::new();
        if word.len() > 0 {
            cw = char_to_uppercase(word[0]);
            let rest = slice_chars(word, 1, word.len());
            extend_chars(&mut cw, &rest);
        }
        assert(cw@ =~= capitalize_spec(word@));
        let ghost pre = caps@;
        caps.push(cw);
        proof {
            lemma_views_push(pre, cw);
        }
        k += 1;
        assert(views(caps@) =~= w.subrange(0, k as int).map_values(
            |x: Seq<char>| capitalize_spec(x),
        ));
    }
    assert(w.subrange(0, words.len() as int) =~= w);
    string_of(&join_chars(&caps, &v1(' ')))
}

/// Slugify a string: lower case, runs of non-alphanumeric characters become
/// a single `-`, with none at either end.
pub fn slugify(s: &str) -> (r: String)
    ensures
        r@ == slug_spec(s@),
{
    let lower = to_lowercase(s);
    let l = chars_of(lower.as_str());
    string_of(&words_joined_exec(&l, '-'))
}

/// Convert a title to a kebab-case filename with `.md` extension; an empty
/// slug gives `untitled.md`.
pub fn slugify_title(title: &str) -> (r: String)
    ensures
        r@ == (if slug_spec(title@).len() == 0 {
            seq!['u', 'n', 't', 'i', 't', 'l', 'e', 'd'] + md_ext()
        } else {
            slug_spec(title@) + md_ext()
        }),
{
    let slug = slugify(title);
    let mut out = chars_of(slug.as_str());
    if out.len() == 0 {
        out = {
            proof {
                reveal_strlit("untitled");
            }
            chars_of("untitled")
        };
    }
    extend_chars(&mut out, &v3('.', 'm', 'd'));
    string_of(&out)
}

/// The portable characters of `s`, in order.
fn portable_only_exec(s: &Vec<char>) -> (r: Vec<char>)
    ensures
        r@ == portable_only(s@),
{
    let mut r: Vec<char> = Vec::new();
    let mut i: usize = 0;
    while i < s.len()
        invariant
            i <= s.len(),
            r@ == portable_only(s@.subrange(0, i as int)),
        decreases s.len() - i,
    {
        assert(s@.subrange(0, i + 1).drop_last() =~= s@.subrange(0, i as int));
        if !is_non_portable_char(s[i]) {
            r.push(s[i]);
        }
        i += 1;
    }
    assert(s@.subrange(0, s.len() as int) =~= s@);
    r
}

/// Apply a filename style to a title, returning the filename stem (without
/// extension).
pub fn apply_filename_style(title: &str, style: &FilenameStyle) -> (r: String)
    ensures
        r@ == style_spec(title@, *style),
{
    match style {
        FilenameStyle::Preserve => {
            let t = chars_of(title);
            let cleaned = portable_only_exec(&t);
            let trimmed = trim_chars(&cleaned);
            if trimmed.len() == 0 {
                proof {
                    reveal_strlit("Untitled");
                }
                owned("Untitled")
            } else {
                string_of(&trimmed)
            }
        },
        FilenameStyle::KebabCase => slugify(title),
        FilenameStyle::SnakeCase => {
            let lower = to_lowercase(title);
            let w = words_joined_exec(&chars_of(lower.as_str()), '_');
            if w.len() == 0 {
                proof {
                    reveal_strlit("untitled");
                }
                owned("untitled")
            } else {
                string_of(&w)
            }
        },
        FilenameStyle::ScreamingSnakeCase => {
            let upper = to_uppercase(title);
            let w = words_joined_exec(&chars_of(upper.as_str()), '_');
            if w.len() == 0 {
                proof {
                    reveal_strlit("UNTITLED");
                }
                owned("UNTITLED")
            } else {
                string_of(&w)
            }
        },
    }
}

/// Convert a title to a filename with `.md` extension in the given style.
pub fn slugify_title_with_style(title: &str, style: &FilenameStyle) -> (r: String)
    ensures
        r@ == style_spec(title@, *style) + md_ext(),
{
    let stem = apply_filename_style(title, style);
    let mut out = chars_of(stem.as_str());
    extend_chars(&mut out, &v3('.', 'm', 'd'));
    string_of(&out)
}

/// The stem of a filename without a trailing `.md`.
fn md_stem_exec(f: &Vec<char>) -> (r: Vec<char>)
    ensures
        r@ == md_stem(f@),
{
    if has_suffix(f, &v3('.', 'm', 'd')) {
        slice_chars(f, 0, f.len() - 3)
    } else {
        clone_chars(f)
    }
}

/// The hexadecimal digit for `d`.
fn hex_digit_exec(d: u32) -> (c: char)
    requires
        d < 16,
    ensures
        c == hex_digit(d as nat),
{
    if d < 10 {
        let b: u8 = (48 + d) as u8;
        b as char
    } else {
        let b: u8 = (65 + (d - 10)) as u8;
        b as char
    }
}

/// The hexadecimal digits of `n`, most significant first.
fn hex_exec(n: u32) -> (r: Vec<char>)
    ensures
        r@ == hex_of(n as nat),
    decreases n,
{
    if n < 16 {
        v1(hex_digit_exec(n))
    } else {
        let mut r = hex_exec(n / 16);
        r.push(hex_digit_exec(n % 16));
        r
    }
}

/// The hexadecimal digits of `n`, padded with `0` to at least four.
fn hex4_exec(n: u32) -> (r: Vec<char>)
    ensures
        r@ == hex4(n as nat),
{
    let h = hex_exec(n);
    if h.len() < 4 {
        let mut r: Vec<char> = Vec::new();
        while r.len() < 4 - h.len()
            invariant
                h@ == hex_of(n as nat),
                h.len() < 4,
                r.len() <= 4 - h.len(),
                forall|i: int| 0 <= i < r.len() ==> r@[i] == '0',
            decreases 4 - h.len() - r.len(),
        {
            r.push('0');
        }
        extend_chars(&mut r, &h);
        assert(r@ =~= Seq::new((4 - h@.len()) as nat, |i: int| '0') + h@);
        r
    } else {
        h
    }
}

/// Check if a filename contains non-portable characters. Returns a reason
/// (`contains '?'`, `contains control character U+001F`, `starts with '.'`,
/// `ends with ' '`) or `None` if the filename is portable. A trailing `.md`
/// is not part of what is checked.
pub fn has_non_portable_chars(filename: &str) -> (r: Option<String>)
    ensures
        match r {
            Some(m) => non_portable_reason(filename@) == Some(m@),
            None => non_portable_reason(filename@) is None,
        },
{
    let f = chars_of(filename);
    let stem = md_stem_exec(&f);
    let mut i: usize = 0;
    assert(stem@.subrange(0, 0) =~= Seq::<char>::empty());
    while i < stem.len()
        invariant
            i <= stem.len(),
            stem@ == md_stem(filename@),
            first_non_portable(stem@.subrange(0, i as int)) is None,
        decreases stem.len() - i,
    {
        let c = stem[i];
        assert(stem@.subrange(0, i + 1).drop_last() =~= stem@.subrange(0, i as int));
        assert(stem@.subrange(0, i + 1).last() == c);
        if is_non_portable_char(c) {
            assert(first_non_portable(stem@.subrange(0, i + 1)) == Some(i as nat));
            proof {
                lemma_first_non_portable_prefix(stem@, (i + 1) as nat);
            }
            assert(first_non_portable(stem@) == Some(i as nat));
            if is_illegal_char(c) {
                let mut m = {
                    proof {
                        reveal_strlit("contains ");
                    }
                    chars_of("contains ")
                };
                m.push('\'');
                m.push(c);
                m.push('\'');
                assert(m@ =~= seq!['c', 'o', 'n', 't', 'a', 'i', 'n', 's', ' '] + quoted(c));
                return Some(string_of(&m));
            } else {
                let mut m = {
                    proof {
                        reveal_strlit("contains control character U+");
                    }
                    chars_of("contains control character U+")
                };
                let code = c as u32;
                extend_chars(&mut m, &hex4_exec(code));
                return Some(string_of(&m));
            }
        }
        i += 1;
    }
    assert(stem@.subrange(0, stem.len() as int) =~= stem@);
    let n = stem.len();
    if n > 0 && is_boundary_char(stem[0]) {
        let mut m = {
            proof {
                reveal_strlit("starts with ");
            }
            chars_of("starts with ")
        };
        m.push('\'');
        m.push(stem[0]);
        m.push('\'');
        return Some(string_of(&m));
    }
    if n > 0 && is_boundary_char(stem[n - 1]) {
        let mut m = {
            proof {
                reveal_strlit("ends with ");
            }
            chars_of("ends with ")
        };
        m.push('\'');
        m.push(stem[n - 1]);
        m.push('\'');
        return Some(string_of(&m));
    }
    None
}

/// Where the first non-portable character stands is decided by a prefix
/// that holds it.
proof fn lemma_first_non_portable_prefix(s: Seq<char>, k: nat)
    requires
        k <= s.len(),
        first_non_portable(s.subrange(0, k as int)) is Some,
    ensures
        first_non_portable(s) == first_non_portable(s.subrange(0, k as int)),
    decreases s.len() - k,
{
    if k < s.len() {
        assert(s.subrange(0, k + 1int).drop_last() =~= s.subrange(0, k as int));
        lemma_first_non_portable_prefix(s, k + 1);
    } else {
        assert(s.subrange(0, k as int) =~= s);
    }
}

/// Sanitize a filename by removing non-portable characters: the refused
/// symbols and control characters are dropped, `.`, `~` and whitespace are
/// trimmed from the ends of the stem, a `.md` extension is kept, and an
/// empty stem becomes `Untitled`.
pub fn sanitize_filename(filename: &str) -> (r: String)
    ensures
        r@ == sanitize_spec(filename@),
{
    let f = chars_of(filename);
    let has_ext = has_suffix(&f, &v3('.', 'm', 'd'));
    let stem = md_stem_exec(&f);
    let cleaned = portable_only_exec(&stem);
    let mut a: usize = 0;
    assert(cleaned@.subrange(0, cleaned@.len() as int) =~= cleaned@);
    while a < cleaned.len() && is_boundary_char(cleaned[a])
        invariant
            a <= cleaned.len(),
            trim_start_boundary(cleaned@) == trim_start_boundary(
                cleaned@.subrange(a as int, cleaned@.len() as int),
            ),
        decreases cleaned.len() - a,
    {
        assert(cleaned@.subrange(a as int, cleaned@.len() as int).drop_first() =~= cleaned@.subrange(
            a + 1,
            cleaned@.len() as int,
        ));
        a += 1;
    }
    let front = slice_chars(&cleaned, a, cleaned.len());
    assert(cleaned@.subrange(0, cleaned@.len() as int) =~= cleaned@);
    let mut b: usize = front.len();
    assert(front@.subrange(0, front@.len() as int) =~= front@);
    while b > 0 && is_boundary_char(front[b - 1])
        invariant
            b <= front.len(),
            trim_end_boundary(front@) == trim_end_boundary(front@.subrange(0, b as int)),
        decreases b,
    {
        assert(front@.subrange(0, b as int).drop_last() =~= front@.subrange(0, b - 1));
        b -= 1;
    }
    let trimmed = slice_chars(&front, 0, b);
    let mut out = if trimmed.len() == 0 {
        proof {
            reveal_strlit("Untitled");
        }
        chars_of("Untitled")
    } else {
        trimmed
    };
    if has_ext {
        extend_chars(&mut out, &v3('.', 'm', 'd'));
    } else {
        assert(out@ + Seq::<char>::empty() =~= out@);
    }
    string_of(&out)
}

/// Whether a link target is written in angle brackets (`<path>`).
pub open spec fn is_angled(p: Seq<char>) -> bool {
    p.len() >= 2 && p[0] == '<' && p[p.len() - 1] == '>'
}

/// The link an attachment reference names: the parsed link, or, when its
/// target is in angle brackets, the target inside them read as a link.
pub open spec fn attachment_link(raw_link: Seq<char>) -> crate::link_parser::LinkView {
    let l = parse_link_spec(raw_link);
    if is_angled(l.path) {
        parse_link_spec(l.path.subrange(1, l.path.len() - 1))
    } else {
        l
    }
}

/// The key under which an attachment reference is deduplicated: the
/// canonical path of the link it names (angle brackets around the target
/// taken off) without one trailing `.md`.
pub open spec fn dedup_key_spec(raw_link: Seq<char>, from_path: Seq<char>) -> Seq<char> {
    md_stem(canonical_spec(attachment_link(raw_link), from_path))
}

/// A dedup key for an attachment reference: the canonical path of the link
/// it names (a target in angle brackets read without them), without one
/// trailing `.md`, so an attachment note (`file.pdf.md`) and the binary it
/// wraps (`file.pdf`) share a key.
pub fn attachment_dedup_key(raw_link: &str, from_path: &str) -> (r: String)
    ensures
        r@ == dedup_key_spec(raw_link@, from_path@),
{
    let first = parse_link(raw_link);
    let p = chars_of(first.path.as_str());
    let parsed = if p.len() >= 2 && p[0] == '<' && p[p.len() - 1] == '>' {
        parse_link(string_of(&slice_chars(&p, 1, p.len() - 1)).as_str())
    } else {
        first
    };
    let canonical = to_canonical(&parsed, from_path);
    let c = chars_of(canonical.as_str());
    string_of(&md_stem_exec(&c))
}

} // verus!

verus! {

/// The pieces laid end to end.
pub open spec fn flat(ps: Seq<Seq<char>>) -> Seq<char>
    decreases ps.len(),
{
    if ps.len() == 0 {
        Seq::empty()
    } else {
        flat(ps.drop_last()) + ps.last()
    }
}

/// Filtering out a character a text lacks leaves it as it is.
proof fn lemma_filter_ne_absent(t: Seq<char>, sep: char)
    requires
        !t.contains(sep),
    ensures
        t.filter(|c: char| c != sep) == t,
    decreases t.len(),
{
    reveal(Seq::filter);
    if t.len() > 0 {
        assert(!t.drop_last().contains(sep)) by {
            if t.drop_last().contains(sep) {
                let j = choose|j: int| 0 <= j < t.drop_last().len() && t.drop_last()[j] == sep;
                assert(t[j] == sep);
            }
        }
        lemma_filter_ne_absent(t.drop_last(), sep);
        assert(t.last() == t[t.len() - 1]);
        assert(t.drop_last().push(t.last()) =~= t);
    }
}

/// Joining pieces that lack the separator, then dropping the separator,
/// lays the pieces end to end.
proof fn lemma_join_filter(ps: Seq<Seq<char>>, sep: char)
    requires
        forall|i: int| 0 <= i < ps.len() ==> !(#[trigger] ps[i]).contains(sep),
    ensures
        join(ps, seq![sep]).filter(|c: char| c != sep) == flat(ps),
    decreases ps.len(),
{
    reveal(Seq::filter);
    if ps.len() == 0 {
        assert(join(ps, seq![sep]) == Seq::<char>::empty());
        assert(Seq::<char>::empty().filter(|c: char| c != sep) =~= Seq::<char>::empty());
    } else if ps.len() == 1 {
        lemma_filter_ne_absent(ps[0], sep);
        assert(ps.drop_last() =~= Seq::<Seq<char>>::empty());
        assert(flat(Seq::<Seq<char>>::empty()) == Seq::<char>::empty());
        assert(ps.last() == ps[0]);
        assert(flat(ps) == flat(ps.drop_last()) + ps.last());
        assert(Seq::<char>::empty() + ps.last() =~= ps[0]);
        assert(join(ps, seq![sep]) == ps[0]);
    } else if ps.len() > 1 {
        let q = ps.drop_last();
        assert forall|i: int| 0 <= i < q.len() implies !(#[trigger] q[i]).contains(sep) by {
            assert(q[i] == ps[i]);
        }
        lemma_join_filter(q, sep);
        assert(ps.last() == ps[ps.len() - 1]);
        lemma_filter_ne_absent(ps.last(), sep);
        let a = join(q, seq![sep]);
        Seq::filter_distributes_over_add(a + seq![sep], ps.last(), |c: char| c != sep);
        Seq::filter_distributes_over_add(a, seq![sep], |c: char| c != sep);
        let one = seq![sep];
        assert(one.drop_last() =~= Seq::<char>::empty());
        assert(Seq::<char>::empty().filter(|c: char| c != sep) =~= Seq::<char>::empty());
        assert(one.last() == sep);
        assert(one.filter(|c: char| c != sep) =~= Seq::<char>::empty());
        assert(join(ps, seq![sep]) == a + seq![sep] + ps.last());
        assert(flat(ps) == flat(q) + ps.last());
        assert(flat(q) + Seq::<char>::empty() =~= flat(q));
    }
}

/// Dropping empty pieces changes nothing laid end to end.
proof fn lemma_flat_nonempty(ps: Seq<Seq<char>>)
    ensures
        flat(nonempty(ps)) == flat(ps),
    decreases ps.len(),
{
    if ps.len() > 0 {
        lemma_flat_nonempty(ps.drop_last());
        if ps.last().len() == 0 {
            assert(flat(ps.drop_last()) + ps.last() =~= flat(ps.drop_last()));
        } else {
            assert(nonempty(ps).drop_last() =~= nonempty(ps.drop_last()));
        }
    }
}

/// The pieces of a split laid end to end are the text without its
/// separators.
proof fn lemma_flat_split(t: Seq<char>, sep: char)
    ensures
        flat(split(t, Sep::Ch(sep))) == t.filter(|c: char| c != sep),
    decreases t.len(),
{
    reveal(Seq::filter);
    crate::text::lemma_split_len(t, Sep::Ch(sep));
    if t.len() == 0 {
        let e = seq![Seq::<char>::empty()];
        assert(e.drop_last() =~= Seq::<Seq<char>>::empty());
        assert(flat(Seq::<Seq<char>>::empty()) == Seq::<char>::empty());
        assert(flat(e) == flat(e.drop_last()) + e.last());
        assert(Seq::<char>::empty() + Seq::<char>::empty() =~= Seq::<char>::empty());
        assert(t.filter(|c: char| c != sep) == t);
        assert(t =~= Seq::<char>::empty());
    } else {
        let u = t.drop_last();
        lemma_flat_split(u, sep);
        crate::text::lemma_split_len(u, Sep::Ch(sep));
        let p = split(u, Sep::Ch(sep));
        assert(t.filter(|c: char| c != sep) == (if t.last() != sep {
            u.filter(|c: char| c != sep).push(t.last())
        } else {
            u.filter(|c: char| c != sep)
        }));
        if t.last() == sep {
            let q = p.push(Seq::<char>::empty());
            assert(split(t, Sep::Ch(sep)) == q);
            assert(q.drop_last() =~= p);
            assert(flat(p) + Seq::<char>::empty() =~= flat(p));
        } else {
            assert(split(t, Sep::Ch(sep)) == p.update(p.len() - 1, p.last().push(t.last())));
            let q = p.update(p.len() - 1, p.last().push(t.last()));
            assert(q.drop_last() =~= p.drop_last());
            assert(q.last() == p.last().push(t.last()));
            assert(flat(p) == flat(p.drop_last()) + p.last());
            assert(flat(q) =~= flat(p).push(t.last()));
        }
    }
}

/// Reading non-alphanumerics as the separator, then dropping separators,
/// leaves the alphanumeric characters other than the separator.
proof fn lemma_alnum_or_filter(s: Seq<char>, sep: char)
    ensures
        alnum_or(s, sep).filter(|c: char| c != sep) == s.filter(
            |c: char| unicode_alphanumeric(c) && c != sep,
        ),
    decreases s.len(),
{
    reveal(Seq::filter);
    if s.len() > 0 {
        lemma_alnum_or_filter(s.drop_last(), sep);
        assert(alnum_or(s, sep).drop_last() =~= alnum_or(s.drop_last(), sep));
        assert(alnum_or(s, sep).last() == (if unicode_alphanumeric(s.last()) {
            s.last()
        } else {
            sep
        }));
    }
}

/// The words of a text joined by a separator keep every alphanumeric
/// character of the text, in order: dropping the separators from the
/// result gives exactly the alphanumeric characters (other than the
/// separator) of the text.
pub proof fn law_words_joined_keeps_alphanumerics(s: Seq<char>, sep: char)
    ensures
        words_joined(s, sep).filter(|c: char| c != sep) == s.filter(
            |c: char| unicode_alphanumeric(c) && c != sep,
        ),
{
    let t = alnum_or(s, sep);
    let ps = split(t, Sep::Ch(sep));
    crate::text::lemma_split_no_sep(t, sep);
    let q = nonempty(ps);
    let pn = |c: char| c != sep;
    lemma_split_all(t, sep, |c: char| true);
    lemma_nonempty_all_chars(ps, pn);
    assert forall|i: int| 0 <= i < ps.len() implies all_chars(#[trigger] ps[i], pn) by {
        assert forall|j: int| 0 <= j < ps[i].len() implies pn(#[trigger] ps[i][j]) by {
            if ps[i][j] == sep {
                assert(ps[i].contains(sep));
            }
        }
    }
    assert forall|i: int| 0 <= i < q.len() implies !(#[trigger] q[i]).contains(sep) by {
        assert(all_chars(q[i], pn));
        if q[i].contains(sep) {
            let j = choose|j: int| 0 <= j < q[i].len() && q[i][j] == sep;
            assert(pn(q[i][j]));
        }
    }
    lemma_join_filter(q, sep);
    lemma_flat_nonempty(ps);
    lemma_flat_split(t, sep);
    lemma_alnum_or_filter(s, sep);
}

/// A slug keeps every letter and digit of the lower-cased title, in order:
/// its characters other than `-` are exactly the alphanumeric characters
/// of the lower-cased input.
pub proof fn law_slug_keeps_alphanumerics(s: Seq<char>)
    ensures
        slug_spec(s).filter(|c: char| c != '-') == unicode_lowercase(s).filter(
            |c: char| unicode_alphanumeric(c) && c != '-',
        ),
{
    law_words_joined_keeps_alphanumerics(unicode_lowercase(s), '-');
}

/// A slug is lower-case words of letters and digits joined by single
/// dashes: every character is alphanumeric or `-`, and a `-` is never
/// first, never last and never doubled.
pub proof fn law_slug_shape(s: Seq<char>)
    ensures
        separated(slug_spec(s), '-'),
        forall|i: int|
            0 <= i < slug_spec(s).len() && slug_spec(s)[i] != '-' ==> unicode_alphanumeric(
                #[trigger] slug_spec(s)[i],
            ),
{
    let m = alnum_or(unicode_lowercase(s), '-');
    let p = |ch: char| unicode_alphanumeric(ch) && ch != '-';
    assert forall|i: int| 0 <= i < m.len() implies m[i] == '-' || #[trigger] p(m[i]) by {}
    lemma_split_all(m, '-', p);
    let pieces = nonempty(split(m, Sep::Ch('-')));
    lemma_nonempty_all_chars(split(m, Sep::Ch('-')), p);
    assert forall|k: int| 0 <= k < pieces.len() implies (#[trigger] pieces[k]).len() > 0
        && !pieces[k].contains('-') by {
        assert(all_chars(pieces[k], p));
        if pieces[k].contains('-') {
            let j = choose|j: int| 0 <= j < pieces[k].len() && pieces[k][j] == '-';
            assert(p(pieces[k][j]));
        }
    }
    lemma_join_separated(pieces, '-');
    lemma_join_all_chars(pieces, '-', p);
}

} // verus!

verus! {

/// The stem a sanitized filename keeps: the portable characters of the
/// original stem, boundary characters trimmed from both ends.
pub open spec fn sanitized_stem(f: Seq<char>) -> Seq<char> {
    trim_end_boundary(trim_start_boundary(portable_only(md_stem(f))))
}

/// The sanitized name before any extension: the kept stem, or `Untitled`.
pub open spec fn sanitized_name(f: Seq<char>) -> Seq<char> {
    if sanitized_stem(f).len() == 0 {
        seq!['U', 'n', 't', 'i', 't', 'l', 'e', 'd']
    } else {
        sanitized_stem(f)
    }
}

/// No character of `s` is non-portable.
pub open spec fn all_portable(s: Seq<char>) -> bool {
    forall|i: int| 0 <= i < s.len() ==> !is_non_portable_spec(#[trigger] s[i])
}

proof fn lemma_portable_only(s: Seq<char>)
    ensures
        all_portable(portable_only(s)),
    decreases s.len(),
{
    if s.len() > 0 {
        lemma_portable_only(s.drop_last());
    }
}

proof fn lemma_trim_start_boundary(s: Seq<char>)
    requires
        all_portable(s),
    ensures
        all_portable(trim_start_boundary(s)),
        trim_start_boundary(s).len() > 0 ==> !is_boundary_spec(trim_start_boundary(s)[0]),
    decreases s.len(),
{
    if s.len() > 0 && is_boundary_spec(s[0]) {
        let t = s.drop_first();
        assert forall|i: int| 0 <= i < t.len() implies !is_non_portable_spec(#[trigger] t[i]) by {
            assert(t[i] == s[i + 1]);
        }
        lemma_trim_start_boundary(t);
    }
}

proof fn lemma_trim_end_boundary(s: Seq<char>)
    requires
        all_portable(s),
        s.len() > 0 ==> !is_boundary_spec(s[0]),
    ensures
        all_portable(trim_end_boundary(s)),
        trim_end_boundary(s).len() > 0 ==> !is_boundary_spec(trim_end_boundary(s)[0])
            && !is_boundary_spec(trim_end_boundary(s).last()),
    decreases s.len(),
{
    if s.len() > 0 && is_boundary_spec(s.last()) {
        let t = s.drop_last();
        assert forall|i: int| 0 <= i < t.len() implies !is_non_portable_spec(#[trigger] t[i]) by {
            assert(t[i] == s[i]);
        }
        if t.len() > 0 {
            assert(t[0] == s[0]);
        }
        lemma_trim_end_boundary(t);
    }
}

proof fn lemma_first_non_portable_none(s: Seq<char>)
    requires
        all_portable(s),
    ensures
        first_non_portable(s) is None,
    decreases s.len(),
{
    if s.len() > 0 {
        let t = s.drop_last();
        assert forall|i: int| 0 <= i < t.len() implies !is_non_portable_spec(#[trigger] t[i]) by {
            assert(t[i] == s[i]);
        }
        lemma_first_non_portable_none(t);
        assert(!is_non_portable_spec(s[s.len() - 1]));
    }
}

/// A sanitized filename passes the portability check, except when the
/// original had no `.md` extension but the kept name ends with `.md` right
/// after a boundary character (such as `x .md?`, which sanitizes to
/// `x .md`, whose stem `x ` ends with a space).
pub proof fn law_sanitized_is_portable(f: Seq<char>)
    requires
        ends_with(f, md_ext()) || !ends_with(sanitized_name(f), md_ext()) || !is_boundary_spec(
            sanitized_name(f)[sanitized_name(f).len() - 4],
        ),
    ensures
        non_portable_reason(sanitize_spec(f)) is None,
{
    let po = portable_only(md_stem(f));
    lemma_portable_only(md_stem(f));
    lemma_trim_start_boundary(po);
    lemma_trim_end_boundary(trim_start_boundary(po));
    let u = sanitized_name(f);
    let untitled = seq!['U', 'n', 't', 'i', 't', 'l', 'e', 'd'];
    assert(all_portable(u) && u.len() > 0 && !is_boundary_spec(u[0]) && !is_boundary_spec(u.last())) by {
        if sanitized_stem(f).len() == 0 {
            assert(u == untitled);
            assert(u.last() == 'd');
        }
    }
    let r = sanitize_spec(f);
    if ends_with(f, md_ext()) {
        assert(r == u + md_ext());
        assert(r.subrange(r.len() - 3, r.len() as int) =~= md_ext());
        assert(ends_with(r, md_ext()));
        assert(md_stem(r) =~= u);
        lemma_first_non_portable_none(u);
    } else {
        assert(r =~= u);
        if ends_with(u, md_ext()) {
            let st = u.subrange(0, u.len() - 3);
            assert(md_stem(r) == st);
            assert(u[0] != '.');
            assert(st.len() > 0) by {
                if st.len() == 0 {
                    assert(u =~= md_ext());
                }
            }
            assert forall|i: int| 0 <= i < st.len() implies !is_non_portable_spec(#[trigger] st[i]) by {
                assert(st[i] == u[i]);
            }
            lemma_first_non_portable_none(st);
            assert(st[0] == u[0]);
            assert(st.last() == u[u.len() - 4]);
        } else {
            assert(md_stem(r) == u);
            lemma_first_non_portable_none(u);
        }
    }
}

} // verus!
