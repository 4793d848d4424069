//! Day One import: the text rules applied to Day One entries and their
//! media references.

use vstd::prelude::*;
use crate::text::{
    ascii_lower, chars_eq, chars_of, extend_chars, find, find_chars, has_prefix, index_of,
    lemma_find_from, lemma_rfind_char, rfind_char, rfind_char_exec, slice_chars, starts_with,
    string_of, to_ascii_lowercase, to_lowercase, trim, trim_chars, trim_start, trim_start_chars,
    unicode_lowercase, v1, v2, split, split_chars, views, Sep,
};
use crate::crdt::reading::{all_texts, rfc3339_millis, rfc3339_millis_of};
use crate::import::{ImportedAttachment, ImportedEntry};
use crate::yaml::Value;

verus! {

/// Location metadata of a Day One entry.
#[derive(Debug, Clone)]
pub struct DayOneLocation {
    pub locality_name: Option<String>,
    pub administrative_area: Option<String>,
    pub country: Option<String>,
}

/// A media reference (photo, video, audio or PDF) of a Day One entry.
#[derive(Debug, Clone)]
pub struct DayOneMedia {
    pub identifier: Option<String>,
    pub md5: Option<String>,
    pub filename: Option<String>,
    pub media_type: Option<String>,
}

/// The characters Day One escapes with a backslash.
pub open spec fn is_escapable(c: char) -> bool {
    c == '.' || c == '!' || c == '-' || c == '(' || c == ')' || c == '+' || c == '*' || c == '['
        || c == ']' || c == '#'
}

/// `s` with each backslash before an escapable character removed; other
/// backslashes stay.
pub open spec fn unescape_spec(s: Seq<char>) -> Seq<char>
    decreases s.len(),
{
    if s.len() == 0 {
        s
    } else if s[0] == '\\' && s.len() >= 2 && is_escapable(s[1]) {
        seq![s[1]] + unescape_spec(s.subrange(2, s.len() as int))
    } else {
        seq![s[0]] + unescape_spec(s.subrange(1, s.len() as int))
    }
}

/// Unescape Day One's markdown escape sequences: `\.` `\!` `\-` `\(` `\)`
/// `\+` `\*` `\[` `\]` `\#`.
pub fn unescape_dayone_markdown(text: &str) -> (r: String)
    ensures
        r@ == unescape_spec(text@),
{
    let s = chars_of(text);
    let mut out: Vec<char> = Vec::new();
    let mut i: usize = 0;
    assert(s@.subrange(0, s@.len() as int) =~= s@);
    while i < s.len()
        invariant
            i <= s.len(),
            out@ + unescape_spec(s@.subrange(i as int, s@.len() as int)) == unescape_spec(s@),
        decreases s.len() - i,
    {
        let ghost rest = s@.subrange(i as int, s@.len() as int);
        let c = s[i];
        if c == '\\' && i + 1 < s.len() && (s[i + 1] == '.' || s[i + 1] == '!' || s[i + 1] == '-'
            || s[i + 1] == '(' || s[i + 1] == ')' || s[i + 1] == '+' || s[i + 1] == '*' || s[i + 1]
            == '[' || s[i + 1] == ']' || s[i + 1] == '#') {
            assert(rest.subrange(2, rest.len() as int) =~= s@.subrange(i + 2, s@.len() as int));
            let ghost pre = out@;
            out.push(s[i + 1]);
            assert(out@ =~= pre + seq![s@[i + 1]]);
            i += 2;
        } else {
            assert(rest.subrange(1, rest.len() as int) =~= s@.subrange(i + 1, s@.len() as int));
            let ghost pre = out@;
            out.push(c);
            assert(out@ =~= pre + seq![c]);
            i += 1;
        }
    }
    assert(s@.subrange(i as int, s@.len() as int) =~= Seq::<char>::empty());
    assert(out@ + Seq::<char>::empty() =~= out@);
    string_of(&out)
}

/// A title that is empty counts as none.
pub open spec fn nonempty_title(t: Seq<char>) -> Option<Seq<char>> {
    if t.len() == 0 {
        None
    } else {
        Some(t)
    }
}

/// The title of the first `# heading` and the body after it: the heading
/// must open the text (after leading whitespace); the title is the rest of
/// its line trimmed (none if empty), the body what follows the line.
/// Without such a heading: no title and the text unchanged.
pub open spec fn title_body_spec(text: Seq<char>) -> (Option<Seq<char>>, Seq<char>) {
    let t = trim_start(text);
    if starts_with(t, seq!['#', ' ']) {
        let rest = t.subrange(2, t.len() as int);
        match index_of(rest, '\n') {
            Some(p) => (
                nonempty_title(trim(rest.subrange(0, p as int))),
                rest.subrange(p + 1int, rest.len() as int),
            ),
            None => (nonempty_title(trim(rest)), Seq::empty()),
        }
    } else {
        (None, text)
    }
}

/// Extract the title from the first `# heading` line and return it with
/// the remaining body (see [`title_body_spec`]).
pub fn extract_title_and_body(text: &str) -> (r: (Option<String>, String))
    ensures
        (match r.0 {
            Some(t) => Some(t@),
            None => None,
        }) == title_body_spec(text@).0,
        r.1@ == title_body_spec(text@).1,
{
    let s = chars_of(text);
    let t = trim_start_chars(&s);
    if !has_prefix(&t, &v2('#', ' ')) {
        return (None, text.to_string());
    }
    let rest = slice_chars(&t, 2, t.len());
    proof {
        lemma_find_from(rest@, seq!['\n'], 0);
    }
    match find_chars(&rest, &v1('\n')) {
        Some(p) => {
            let title = trim_chars(&slice_chars(&rest, 0, p));
            let body = string_of(&slice_chars(&rest, p + 1, rest.len()));
            if title.len() == 0 {
                (None, body)
            } else {
                (Some(string_of(&title)), body)
            }
        },
        None => {
            let title = trim_chars(&rest);
            if title.len() == 0 {
                (None, String::new())
            } else {
                (Some(string_of(&title)), String::new())
            }
        },
    }
}

/// The parts of a location that are present, in order: locality,
/// administrative area, country.
pub open spec fn location_parts(loc: DayOneLocation) -> Seq<Seq<char>> {
    part(loc.locality_name) + part(loc.administrative_area) + part(loc.country)
}

/// The string as a one-piece list when present.
pub open spec fn part(o: Option<String>) -> Seq<Seq<char>> {
    match o {
        Some(s) => seq![s@],
        None => Seq::empty(),
    }
}

/// Format a location as `City, State, Country`, leaving out missing parts;
/// `None` when all are missing.
pub fn format_location(loc: &DayOneLocation) -> (r: Option<String>)
    ensures
        match r {
            Some(s) => location_parts(*loc).len() > 0 && s@ == crate::text::join(
                location_parts(*loc),
                seq![',', ' '],
            ),
            None => location_parts(*loc).len() == 0,
        },
{
    let mut parts: Vec<Vec<char>> = Vec::new();
    let ghost a = part(loc.locality_name);
    let ghost b = part(loc.administrative_area);
    let ghost c = part(loc.country);
    match &loc.locality_name {
        Some(s) => parts.push(chars_of(s.as_str())),
        None => {},
    }
    assert(crate::text::views(parts@) =~= a);
    match &loc.administrative_area {
        Some(s) => parts.push(chars_of(s.as_str())),
        None => {},
    }
    assert(crate::text::views(parts@) =~= a + b);
    match &loc.country {
        Some(s) => parts.push(chars_of(s.as_str())),
        None => {},
    }
    assert(crate::text::views(parts@) =~= a + b + c);
    if parts.len() == 0 {
        None
    } else {
        Some(string_of(&crate::text::join_chars(&parts, &v2(',', ' '))))
    }
}

/// The MIME type for a file extension, compared in lower case.
pub open spec fn mime_spec(ext: Seq<char>) -> Seq<char> {
    let e = unicode_lowercase(ext);
    if e == "jpeg"@ || e == "jpg"@ {
        "image/jpeg"@
    } else if e == "png"@ {
        "image/png"@
    } else if e == "gif"@ {
        "image/gif"@
    } else if e == "heic"@ {
        "image/heic"@
    } else if e == "heif"@ {
        "image/heif"@
    } else if e == "tiff"@ || e == "tif"@ {
        "image/tiff"@
    } else if e == "webp"@ {
        "image/webp"@
    } else if e == "mov"@ {
        "video/quicktime"@
    } else if e == "mp4"@ {
        "video/mp4"@
    } else if e == "m4v"@ {
        "video/x-m4v"@
    } else if e == "m4a"@ {
        "audio/mp4"@
    } else if e == "mp3"@ {
        "audio/mpeg"@
    } else if e == "aac"@ {
        "audio/aac"@
    } else if e == "caf"@ {
        "audio/x-caf"@
    } else if e == "wav"@ {
        "audio/wav"@
    } else if e == "pdf"@ {
        "application/pdf"@
    } else {
        "application/octet-stream"@
    }
}

/// Whether `v` holds the characters of literal `l`.
fn is_lit(v: &Vec<char>, l: &str) -> (r: bool)
    ensures
        r == (v@ == l@),
{
    chars_eq(v, &chars_of(l))
}

/// Map a file extension to a MIME content type.
pub fn mime_from_extension(ext: &str) -> (r: &'static str)
    ensures
        r@ == mime_spec(ext@),
{
    let e = chars_of(to_lowercase(ext).as_str());
    if is_lit(&e, "jpeg") || is_lit(&e, "jpg") {
        "image/jpeg"
    } else if is_lit(&e, "png") {
        "image/png"
    } else if is_lit(&e, "gif") {
        "image/gif"
    } else if is_lit(&e, "heic") {
        "image/heic"
    } else if is_lit(&e, "heif") {
        "image/heif"
    } else if is_lit(&e, "tiff") || is_lit(&e, "tif") {
        "image/tiff"
    } else if is_lit(&e, "webp") {
        "image/webp"
    } else if is_lit(&e, "mov") {
        "video/quicktime"
    } else if is_lit(&e, "mp4") {
        "video/mp4"
    } else if is_lit(&e, "m4v") {
        "video/x-m4v"
    } else if is_lit(&e, "m4a") {
        "audio/mp4"
    } else if is_lit(&e, "mp3") {
        "audio/mpeg"
    } else if is_lit(&e, "aac") {
        "audio/aac"
    } else if is_lit(&e, "caf") {
        "audio/x-caf"
    } else if is_lit(&e, "wav") {
        "audio/wav"
    } else if is_lit(&e, "pdf") {
        "application/pdf"
    } else {
        "application/octet-stream"
    }
}

/// A filename without its last `.` extension (the whole name when it has
/// no `.`).
pub open spec fn file_stem_spec(name: Seq<char>) -> Seq<char> {
    match rfind_char(name, '.') {
        Some(k) => name.subrange(0, k as int),
        None => name,
    }
}

/// A filename without its last `.` extension.
pub fn file_stem(filename: &str) -> (r: String)
    ensures
        r@ == file_stem_spec(filename@),
{
    let f = chars_of(filename);
    proof {
        lemma_rfind_char(f@, '.');
    }
    match rfind_char_exec(&f, '.') {
        Some(k) => string_of(&slice_chars(&f, 0, k)),
        None => filename.to_string(),
    }
}

/// A media key compared loosely: trimmed, ASCII lower case.
pub fn normalize_media_key(value: &str) -> (r: String)
    ensures
        r@ == trim(value@).map_values(|c: char| ascii_lower(c)),
{
    let t = trim_chars(&chars_of(value));
    let mut out: Vec<char> = Vec::new();
    let mut i: usize = 0;
    while i < t.len()
        invariant
            i <= t.len(),
            out@ == t@.subrange(0, i as int).map_values(|c: char| ascii_lower(c)),
        decreases t.len() - i,
    {
        out.push(to_ascii_lowercase(t[i]));
        i += 1;
        assert(out@ =~= t@.subrange(0, i as int).map_values(|c: char| ascii_lower(c)));
    }
    assert(t@.subrange(0, t@.len() as int) =~= t@);
    string_of(&out)
}

/// The value when present and not empty.
pub open spec fn given(o: Option<String>) -> Option<Seq<char>> {
    match o {
        Some(s) => if s@.len() > 0 {
            Some(s@)
        } else {
            None
        },
        None => None,
    }
}

/// The filename a media item is saved under when none was found in the
/// archive: its own filename, else `<identifier>.<ext>`, else
/// `<md5>.<ext>`, else `media.<ext>`.
pub open spec fn fallback_name_spec(item: DayOneMedia, ext: Seq<char>) -> Seq<char> {
    match given(item.filename) {
        Some(f) => f,
        None => match given(item.identifier) {
            Some(id) => id + seq!['.'] + ext,
            None => match given(item.md5) {
                Some(m) => m + seq!['.'] + ext,
                None => "media."@ + ext,
            },
        },
    }
}

/// `Some` of the string when it is present and not empty.
fn given_exec(o: &Option<String>) -> (r: Option<Vec<char>>)
    ensures
        match r {
            Some(v) => given(*o) == Some(v@),
            None => given(*o) is None,
        },
{
    match o {
        Some(s) => {
            let v = chars_of(s.as_str());
            if v.len() > 0 {
                Some(v)
            } else {
                None
            }
        },
        None => None,
    }
}

/// The fallback filename of a media item (see [`fallback_name_spec`]).
pub fn fallback_media_filename(item: &DayOneMedia, ext: &str) -> (r: String)
    ensures
        r@ == fallback_name_spec(*item, ext@),
{
    match given_exec(&item.filename) {
        Some(f) => string_of(&f),
        None => {
            let mut base = match given_exec(&item.identifier) {
                Some(id) => id,
                None => match given_exec(&item.md5) {
                    Some(m) => m,
                    None => chars_of("media"),
                },
            };
            base.push('.');
            extend_chars(&mut base, &chars_of(ext));
            proof {
                reveal_strlit("media");
                reveal_strlit("media.");
            }
            string_of(&base)
        },
    }
}

/// The stems a media item may be referred to by in entry text, each once
/// and none empty: its identifier, its md5, the stem of its filename and
/// the stem of the filename it was resolved to, in that order.
pub open spec fn reference_stems_spec(item: DayOneMedia, resolved: Seq<char>) -> Seq<Seq<char>> {
    distinct_present(stem_candidates(item, resolved), 4)
}

/// The candidate stems of a media item, in order.
pub open spec fn stem_candidates(item: DayOneMedia, resolved: Seq<char>) -> Seq<Option<Seq<char>>> {
    seq![
        opt_view(item.identifier),
        opt_view(item.md5),
        match item.filename {
            Some(f) => Some(file_stem_spec(f@)),
            None => None,
        },
        Some(file_stem_spec(resolved)),
    ]
}

/// The optional string as characters.
pub open spec fn opt_view(o: Option<String>) -> Option<Seq<char>> {
    match o {
        Some(s) => Some(s@),
        None => None,
    }
}

/// The present, non-empty candidates among the first `n`, each once.
pub open spec fn distinct_present(cands: Seq<Option<Seq<char>>>, n: nat) -> Seq<Seq<char>>
    decreases n,
{
    if n == 0 {
        Seq::empty()
    } else {
        let prev = distinct_present(cands, (n - 1) as nat);
        match cands[n - 1] {
            Some(v) => if v.len() > 0 && !prev.contains(v) {
                prev.push(v)
            } else {
                prev
            },
            None => prev,
        }
    }
}

/// Appends `cand` when present, non-empty and not yet there.
fn push_stem(stems: &mut Vec<Vec<char>>, cand: Option<Vec<char>>)
    ensures
        crate::text::views(final(stems)@) == match cand {
            Some(v) => if v@.len() > 0 && !crate::text::views(old(stems)@).contains(v@) {
                crate::text::views(old(stems)@).push(v@)
            } else {
                crate::text::views(old(stems)@)
            },
            None => crate::text::views(old(stems)@),
        },
{
    match cand {
        Some(v) => {
            if v.len() == 0 {
                return;
            }
            let mut j: usize = 0;
            while j < stems.len()
                invariant
                    j <= stems.len(),
                    cand is Some && cand->0@ == v@,
                    stems@ == old(stems)@,
                    forall|k: int| 0 <= k < j ==> stems@[k]@ != v@,
                decreases stems.len() - j,
            {
                if chars_eq(&stems[j], &v) {
                    assert(crate::text::views(stems@)[j as int] == v@);
                    assert(crate::text::views(old(stems)@).contains(v@));
                    return;
                }
                j += 1;
            }
            assert(!crate::text::views(stems@).contains(v@));
            let ghost pre = stems@;
            stems.push(v);
            proof {
                crate::text::lemma_views_push(pre, v);
            }
        },
        None => {},
    }
}

/// The stems a media item may be referred to by (see
/// [`reference_stems_spec`]).
pub fn media_reference_stems(item: &DayOneMedia, resolved_filename: &str) -> (r: Vec<String>)
    ensures
        r@.map_values(|s: String| s@) == reference_stems_spec(*item, resolved_filename@),
{
    let ghost cands = stem_candidates(*item, resolved_filename@);
    let mut stems: Vec<Vec<char>> = Vec::new();
    assert(crate::text::views(stems@) =~= distinct_present(cands, 0));
    push_stem(&mut stems, match &item.identifier {
        Some(s) => Some(chars_of(s.as_str())),
        None => None,
    });
    assert(crate::text::views(stems@) == distinct_present(cands, 1));
    push_stem(&mut stems, match &item.md5 {
        Some(s) => Some(chars_of(s.as_str())),
        None => None,
    });
    assert(crate::text::views(stems@) == distinct_present(cands, 2));
    push_stem(&mut stems, match &item.filename {
        Some(f) => Some(chars_of(file_stem(f.as_str()).as_str())),
        None => None,
    });
    assert(crate::text::views(stems@) == distinct_present(cands, 3));
    push_stem(&mut stems, Some(chars_of(file_stem(resolved_filename).as_str())));
    assert(crate::text::views(stems@) == distinct_present(cands, 4));
    let mut out: Vec<String> = Vec::new();
    let mut i: usize = 0;
    while i < stems.len()
        invariant
            i <= stems.len(),
            out@.map_values(|s: String| s@) == crate::text::views(stems@).subrange(0, i as int),
        decreases stems.len() - i,
    {
        assert(crate::text::views(stems@)[i as int] == stems@[i as int]@);
        let ghost pre = out@;
        let w = string_of(&stems[i]);
        out.push(w);
        assert(out@.map_values(|s: String| s@) =~= pre.map_values(|s: String| s@).push(w@));
        i += 1;
        assert(out@.map_values(|s: String| s@) =~= crate::text::views(stems@).subrange(0, i as int));
    }
    assert(crate::text::views(stems@).subrange(0, stems@.len() as int) =~= crate::text::views(stems@));
    out
}

} // verus!

verus! {

/// Text without backslashes is left unchanged by unescaping.
pub proof fn law_unescape_plain_text(s: Seq<char>)
    requires
        !s.contains('\\'),
    ensures
        unescape_spec(s) == s,
    decreases s.len(),
{
    if s.len() > 0 {
        let rest = s.subrange(1, s.len() as int);
        assert forall|i: int| 0 <= i < rest.len() implies rest[i] != '\\' by {
            assert(s[i + 1] == rest[i]);
        }
        law_unescape_plain_text(rest);
        assert(s[0] != '\\') by {
            if s[0] == '\\' {
                assert(s.contains('\\'));
            }
        }
        assert(seq![s[0]] + rest =~= s);
    }
}

// ---------------------------------------------------------------------------
// Titles derived from the date and the first line
// ---------------------------------------------------------------------------

/// How many bytes `c` takes in UTF-8.
pub open spec fn utf8_len(c: char) -> nat {
    if (c as u32) < 0x80 {
        1
    } else if (c as u32) < 0x800 {
        2
    } else if (c as u32) < 0x10000 {
        3
    } else {
        4
    }
}

/// How many bytes `s` takes in UTF-8 (`str::len`).
pub open spec fn byte_len(s: Seq<char>) -> nat
    decreases s.len(),
{
    if s.len() == 0 {
        0
    } else {
        byte_len(s.drop_last()) + utf8_len(s.last())
    }
}

/// How many leading characters of `s` take exactly `n` bytes, if a
/// character boundary falls there.
pub open spec fn chars_in_bytes(s: Seq<char>, n: nat) -> Option<nat>
    decreases s.len(),
{
    if n == 0 {
        Some(0)
    } else if s.len() == 0 || utf8_len(s[0]) > n {
        None
    } else {
        match chars_in_bytes(s.drop_first(), (n - utf8_len(s[0])) as nat) {
            Some(k) => Some(k + 1),
            None => None,
        }
    }
}

/// The first line of `lines` that is not blank, trimmed; empty when there
/// is none.
pub open spec fn first_nonblank(lines: Seq<Seq<char>>) -> Seq<char>
    decreases lines.len(),
{
    if lines.len() == 0 {
        Seq::empty()
    } else if trim(lines[0]).len() > 0 {
        trim(lines[0])
    } else {
        first_nonblank(lines.drop_first())
    }
}

/// The first non-blank line of a body, trimmed.
pub open spec fn first_text_line(body: Seq<char>) -> Seq<char> {
    first_nonblank(split(body, Sep::Ch('\n')))
}

/// Whether a line can be shortened without cutting a character: it takes
/// at most 60 bytes, or a character boundary falls at byte 60.
pub open spec fn cuttable(line: Seq<char>) -> bool {
    byte_len(line) <= 60 || chars_in_bytes(line, 60) is Some
}

/// A line shortened to about 60 bytes: a longer one is cut at byte 60,
/// back to its last space when that space lies past byte 30, and `...`
/// appended.
pub open spec fn shortened(line: Seq<char>) -> Seq<char> {
    if byte_len(line) <= 60 {
        line
    } else {
        let cut = line.take(chars_in_bytes(line, 60)->0 as int);
        match rfind_char(cut, ' ') {
            Some(j) => if byte_len(cut.take(j as int)) > 30 {
                cut.take(j as int) + seq!['.', '.', '.']
            } else {
                cut + seq!['.', '.', '.']
            },
            None => cut + seq!['.', '.', '.'],
        }
    }
}

/// The UTC calendar day of an epoch-millisecond time as `YYYY-MM-DD`, when
/// the time is in the calendar's range (what `chrono` formats with
/// `%Y-%m-%d`).
pub uninterp spec fn utc_day_of(millis: i64) -> Option<Seq<char>>;

/// `chrono::DateTime::from_timestamp_millis(millis)` formatted with
/// `%Y-%m-%d`. Its answer is taken to be a function of `millis` alone,
/// named `utc_day_of`; the calendar arithmetic behind it is not stated.
#[verifier::external_body]
pub(crate) fn utc_day(millis: i64) -> (r: Option<String>)
    ensures
        opt_view(r) == utc_day_of(millis),
{
    match chrono::DateTime::from_timestamp_millis(millis) {
        Some(t) => Some(t.format("%Y-%m-%d").to_string()),
        None => None,
    }
}

/// The date part of a derived title: the UTC day, else `Undated`.
pub open spec fn date_part(date: Option<i64>) -> Seq<char> {
    match date {
        Some(ms) => match utc_day_of(ms) {
            Some(d) => d,
            None => "Undated"@,
        },
        None => "Undated"@,
    }
}

/// A title derived from the date and the first non-blank line of the body:
/// `YYYY-MM-DD <line>`, the line shortened to about 60 bytes; the date
/// alone when the body is blank.
pub open spec fn derived_title(date: Option<i64>, body: Seq<char>) -> Seq<char> {
    let line = first_text_line(body);
    if line.len() == 0 {
        date_part(date)
    } else {
        date_part(date) + seq![' '] + shortened(line)
    }
}

/// How many bytes `c` takes in UTF-8.
fn utf8_len_exec(c: char) -> (r: usize)
    ensures
        r == utf8_len(c),
{
    if (c as u32) < 0x80 {
        1
    } else if (c as u32) < 0x800 {
        2
    } else if (c as u32) < 0x10000 {
        3
    } else {
        4
    }
}

/// The prefix of `s` that takes `n` bytes: how many characters, once the
/// count reaches `n` (or the text ends or a character straddles `n`).
fn prefix_for_bytes(s: &Vec<char>, n: usize) -> (r: Option<usize>)
    ensures
        match r {
            Some(k) => chars_in_bytes(s@, n as nat) == Some(k as nat),
            None => chars_in_bytes(s@, n as nat) is None,
        },
{
    let mut i: usize = 0;
    let mut left: usize = n;
    assert(s@.skip(0) =~= s@);
    while left > 0
        invariant
            i <= s@.len(),
            left <= n,
            chars_in_bytes(s@, n as nat) == match chars_in_bytes(s@.skip(i as int), left as nat) {
                Some(k) => Some((k + i) as nat),
                None => None::<nat>,
            },
        decreases left,
    {
        if i == s.len() {
            return None;
        }
        let w = utf8_len_exec(s[i]);
        assert(s@.skip(i as int)[0] == s@[i as int]);
        if w > left {
            return None;
        }
        assert(s@.skip(i as int).drop_first() =~= s@.skip(i + 1));
        left = left - w;
        i += 1;
    }
    Some(i)
}

/// How many bytes `s` takes, capped: `None` past `cap`.
fn bytes_up_to(s: &Vec<char>, cap: usize) -> (r: Option<usize>)
    requires
        cap < usize::MAX - 4,
    ensures
        match r {
            Some(b) => b == byte_len(s@) && b <= cap,
            None => byte_len(s@) > cap,
        },
{
    let mut total: usize = 0;
    let mut i: usize = 0;
    assert(s@.take(0) =~= Seq::<char>::empty());
    while i < s.len()
        invariant
            i <= s@.len(),
            cap < usize::MAX - 4,
            total == byte_len(s@.take(i as int)),
            total <= cap,
        decreases s.len() - i,
    {
        assert(s@.take(i + 1).drop_last() =~= s@.take(i as int));
        total = total + utf8_len_exec(s[i]);
        i += 1;
        if total > cap {
            proof {
                lemma_byte_len_grows(s@, i as int, s@.len() as int);
                assert(s@.take(s@.len() as int) =~= s@);
            }
            return None;
        }
    }
    assert(s@.take(s@.len() as int) =~= s@);
    Some(total)
}

/// A longer prefix takes at least as many bytes.
proof fn lemma_byte_len_grows(s: Seq<char>, i: int, j: int)
    requires
        0 <= i <= j <= s.len(),
    ensures
        byte_len(s.take(i)) <= byte_len(s.take(j)),
    decreases j - i,
{
    if i < j {
        lemma_byte_len_grows(s, i, j - 1);
        assert(s.take(j).drop_last() =~= s.take(j - 1));
    }
}

/// A prefix found by byte count is no longer than the text.
proof fn lemma_chars_in_bytes_bound(s: Seq<char>, n: nat)
    ensures
        chars_in_bytes(s, n) matches Some(k) ==> k <= s.len(),
    decreases s.len(),
{
    if n > 0 && s.len() > 0 && utf8_len(s[0]) <= n {
        lemma_chars_in_bytes_bound(s.drop_first(), (n - utf8_len(s[0])) as nat);
    }
}

/// The first non-blank line of a body, trimmed.
fn first_text_line_exec(body: &str) -> (r: Vec<char>)
    ensures
        r@ == first_text_line(body@),
{
    let lines = split_chars(&chars_of(body), Sep::Ch('\n'));
    let ghost ls = views(lines@);
    let mut i: usize = 0;
    assert(ls.skip(0) =~= ls);
    while i < lines.len()
        invariant
            i <= lines@.len(),
            ls == views(lines@),
            ls == split(body@, Sep::Ch('\n')),
            first_nonblank(ls) == first_nonblank(ls.skip(i as int)),
        decreases lines.len() - i,
    {
        let t = trim_chars(&lines[i]);
        assert(ls.skip(i as int)[0] == lines@[i as int]@);
        if t.len() > 0 {
            return t;
        }
        assert(ls.skip(i as int).drop_first() =~= ls.skip(i + 1));
        i += 1;
    }
    Vec::new()
}

/// Derives a title from the date and the body (see [`derived_title`]).
pub fn derive_title(date: Option<i64>, body: &str) -> (r: String)
    requires
        cuttable(first_text_line(body@)),
    ensures
        r@ == derived_title(date, body@),
{
    let mut out: Vec<char> = match date {
        Some(ms) => match utc_day(ms) {
            Some(d) => chars_of(d.as_str()),
            None => chars_of("Undated"),
        },
        None => chars_of("Undated"),
    };
    let line = first_text_line_exec(body);
    if line.len() == 0 {
        return string_of(&out);
    }
    out.push(' ');
    match bytes_up_to(&line, 60) {
        Some(_) => extend_chars(&mut out, &line),
        None => {
            let k = prefix_for_bytes(&line, 60).unwrap();
            proof {
                lemma_chars_in_bytes_bound(line@, 60);
            }
            let cut = slice_chars(&line, 0, k);
            assert(cut@ =~= line@.take(k as int));
            proof {
                lemma_rfind_char(cut@, ' ');
            }
            match rfind_char_exec(&cut, ' ') {
                Some(j) => {
                    let head = slice_chars(&cut, 0, j);
                    assert(head@ =~= cut@.take(j as int));
                    match bytes_up_to(&head, 30) {
                        Some(_) => extend_chars(&mut out, &cut),
                        None => extend_chars(&mut out, &head),
                    }
                },
                None => extend_chars(&mut out, &cut),
            }
            out.push('.');
            out.push('.');
            out.push('.');
        },
    }
    let ghost want = derived_title(date, body@);
    assert(out@ =~= want);
    string_of(&out)
}

// ---------------------------------------------------------------------------
// Weather
// ---------------------------------------------------------------------------

/// Weather metadata of a Day One entry, the temperature already written as
/// text (whole degrees without a decimal, else with one).
#[derive(Debug, Clone)]
pub struct DayOneWeather {
    /// The conditions, e.g. `Sunny`.
    pub conditions_description: Option<String>,
    /// The temperature in degrees Celsius, as text.
    pub temperature_text: Option<String>,
}

/// `°C`.
pub open spec fn celsius() -> Seq<char> {
    seq!['\u{00B0}', 'C']
}

/// Weather as `Conditions, Temp°C`, leaving out what is missing; `None`
/// when both are.
pub open spec fn weather_text(w: DayOneWeather) -> Option<Seq<char>> {
    match (w.conditions_description, w.temperature_text) {
        (Some(c), Some(t)) => Some(c@ + seq![',', ' '] + t@ + celsius()),
        (Some(c), None) => Some(c@),
        (None, Some(t)) => Some(t@ + celsius()),
        (None, None) => None,
    }
}

/// Formats weather (see [`weather_text`]).
pub fn format_weather(weather: &DayOneWeather) -> (r: Option<String>)
    ensures
        opt_view(r) == weather_text(*weather),
{
    match (&weather.conditions_description, &weather.temperature_text) {
        (Some(c), Some(t)) => {
            let mut out = chars_of(c.as_str());
            out.push(',');
            out.push(' ');
            extend_chars(&mut out, &chars_of(t.as_str()));
            out.push('\u{00B0}');
            out.push('C');
            assert(out@ =~= c@ + seq![',', ' '] + t@ + celsius());
            Some(string_of(&out))
        },
        (Some(c), None) => Some(c.clone()),
        (None, Some(t)) => {
            let mut out = chars_of(t.as_str());
            out.push('\u{00B0}');
            out.push('C');
            assert(out@ =~= t@ + celsius());
            Some(string_of(&out))
        },
        (None, None) => None,
    }
}

// ---------------------------------------------------------------------------
// Entries
// ---------------------------------------------------------------------------

/// A single Day One journal entry.
pub struct DayOneEntry {
    /// The entry's identifier.
    pub uuid: Option<String>,
    /// Its text, in Day One's escaped markdown.
    pub text: Option<String>,
    /// When it was made, as RFC 3339 text.
    pub creation_date: Option<String>,
    /// Whether it is starred.
    pub starred: Option<bool>,
    /// Its tags.
    pub tags: Option<Vec<String>>,
    /// Where it was written.
    pub location: Option<DayOneLocation>,
    /// The weather then.
    pub weather: Option<DayOneWeather>,
    /// Photos.
    pub photos: Option<Vec<DayOneMedia>>,
    /// Videos.
    pub videos: Option<Vec<DayOneMedia>>,
    /// Audio recordings.
    pub audios: Option<Vec<DayOneMedia>>,
    /// PDF attachments.
    pub pdf_attachments: Option<Vec<DayOneMedia>>,
}

/// The items of an optional list.
pub open spec fn listed(o: Option<Vec<DayOneMedia>>) -> Seq<DayOneMedia> {
    match o {
        Some(v) => v@,
        None => Seq::empty(),
    }
}

/// Every media item of an entry: photos, videos, audios, then PDFs.
pub open spec fn media_of(e: DayOneEntry) -> Seq<DayOneMedia> {
    listed(e.photos) + listed(e.videos) + listed(e.audios) + listed(e.pdf_attachments)
}

/// The extension after a name's last `.`, else `bin`.
pub open spec fn ext_of(name: Seq<char>) -> Seq<char> {
    match rfind_char(name, '.') {
        Some(i) => name.skip(i + 1int),
        None => "bin"@,
    }
}

/// The extension a media item declares, else `bin`.
pub open spec fn declared_ext(item: DayOneMedia) -> Seq<char> {
    match item.media_type {
        Some(t) => t@,
        None => "bin"@,
    }
}

/// The filename a media item is saved under: the name it was found under,
/// else its fallback name.
pub open spec fn saved_name(item: DayOneMedia, found: Option<(String, Vec<u8>)>) -> Seq<char> {
    match found {
        Some(f) => f.0@,
        None => fallback_name_spec(item, declared_ext(item)),
    }
}

/// The MIME type a media item is saved with: from the found file's
/// extension, else from the declared one.
pub open spec fn saved_type(item: DayOneMedia, found: Option<(String, Vec<u8>)>) -> Seq<char> {
    match found {
        Some(f) => mime_spec(ext_of(f.0@)),
        None => mime_spec(declared_ext(item)),
    }
}

/// The bytes a media item is saved with: the found file's, else none.
pub open spec fn saved_data(found: Option<(String, Vec<u8>)>) -> Seq<u8> {
    match found {
        Some(f) => f.1@,
        None => Seq::empty(),
    }
}

/// The (stem, saved filename) references of the first `n` media items.
pub open spec fn moment_refs(
    items: Seq<DayOneMedia>,
    found: Seq<Option<(String, Vec<u8>)>>,
    n: nat,
) -> Seq<(Seq<char>, Seq<char>)>
    decreases n,
{
    if n == 0 {
        Seq::empty()
    } else {
        let name = saved_name(items[n - 1], found[n - 1]);
        moment_refs(items, found, (n - 1) as nat) + reference_stems_spec(items[n - 1], name).map_values(
            |s: Seq<char>| (s, name),
        )
    }
}

/// `body` with each `dayone-moment://<stem>` and `dayone-moment:/<stem>`
/// link replaced by `_attachments/<filename>`, reference by reference.
pub open spec fn relinked(body: Seq<char>, refs: Seq<(Seq<char>, Seq<char>)>) -> Seq<char>
    decreases refs.len(),
{
    if refs.len() == 0 {
        body
    } else {
        let b = relinked(body, refs.drop_last());
        let (stem, file) = refs.last();
        let to = "_attachments/"@ + file;
        crate::crdt::sync::replace_spec(
            crate::crdt::sync::replace_spec(b, "dayone-moment://"@ + stem, to),
            "dayone-moment:/"@ + stem,
            to,
        )
    }
}

/// A frontmatter value by its shape: one text, a list of texts, or a flag.
pub enum FieldText {
    /// A string.
    Text(Seq<char>),
    /// A list of strings.
    Texts(Seq<Seq<char>>),
    /// A boolean.
    Flag(bool),
}

/// What a value holds, by shape.
pub open spec fn field_text(v: Value) -> Option<FieldText> {
    match v {
        Value::String(s) => Some(FieldText::Text(s@)),
        Value::Bool(b) => Some(FieldText::Flag(b)),
        Value::Sequence(xs) => match all_texts(xs@) {
            Some(l) => Some(FieldText::Texts(l)),
            None => None,
        },
        _ => None,
    }
}

/// The frontmatter fields of an imported Day One entry, in order: `uuid`,
/// `tags` when there are any, `starred` when true, `location` and `weather`
/// when they format to something.
pub open spec fn dayone_fields(e: DayOneEntry) -> Seq<(Seq<char>, FieldText)> {
    let a = match e.uuid {
        Some(u) => seq![("uuid"@, FieldText::Text(u@))],
        None => Seq::empty(),
    };
    let b = match e.tags {
        Some(t) => if t@.len() > 0 {
            seq![("tags"@, FieldText::Texts(t@.map_values(|s: String| s@)))]
        } else {
            Seq::empty()
        },
        None => Seq::empty(),
    };
    let c = if e.starred == Some(true) {
        seq![("starred"@, FieldText::Flag(true))]
    } else {
        Seq::empty()
    };
    let d = match e.location {
        Some(l) => if location_parts(l).len() > 0 {
            seq![("location"@, FieldText::Text(crate::text::join(location_parts(l), seq![',', ' '])))]
        } else {
            Seq::empty()
        },
        None => Seq::empty(),
    };
    let w = match e.weather {
        Some(w) => match weather_text(w) {
            Some(x) => seq![("weather"@, FieldText::Text(x))],
            None => Seq::empty(),
        },
        None => Seq::empty(),
    };
    a + b + c + d + w
}

/// Whether the fields `md` hold what `want` describes, in order.
pub open spec fn fields_are(md: Seq<(String, Value)>, want: Seq<(Seq<char>, FieldText)>) -> bool {
    &&& md.len() == want.len()
    &&& forall|i: int|
        #![trigger md[i]]
        0 <= i < md.len() ==> md[i].0@ == want[i].0 && field_text(md[i].1) == Some(want[i].1)
}

/// The entry's text after unescaping.
pub open spec fn entry_text(e: DayOneEntry) -> Seq<char> {
    unescape_spec(
        match e.text {
            Some(t) => t@,
            None => Seq::empty(),
        },
    )
}

/// When the entry was made, in epoch milliseconds.
pub open spec fn entry_date(e: DayOneEntry) -> Option<i64> {
    match e.creation_date {
        Some(s) => rfc3339_millis_of(s@),
        None => None,
    }
}

/// Whether converting the entry cuts no character apart: a title derived
/// from the first line can be shortened at a character boundary.
pub open spec fn convertible(e: DayOneEntry) -> bool {
    title_body_spec(entry_text(e)).0 is None ==> cuttable(
        first_text_line(title_body_spec(entry_text(e)).1),
    )
}

/// What a media item is saved as: (filename, MIME type, bytes).
pub open spec fn saved_file(item: DayOneMedia, found: Option<(String, Vec<u8>)>) -> (
    Seq<char>,
    Seq<char>,
    Seq<u8>,
) {
    (saved_name(item, found), saved_type(item, found), saved_data(found))
}

/// What the first `n` media items are saved as.
pub open spec fn saved_files(
    items: Seq<DayOneMedia>,
    found: Seq<Option<(String, Vec<u8>)>>,
    n: nat,
) -> Seq<(Seq<char>, Seq<char>, Seq<u8>)>
    decreases n,
{
    if n == 0 {
        Seq::empty()
    } else {
        saved_files(items, found, (n - 1) as nat).push(saved_file(items[n - 1], found[n - 1]))
    }
}

/// Attachments as (filename, MIME type, bytes).
pub open spec fn attachment_files(v: Seq<ImportedAttachment>) -> Seq<(Seq<char>, Seq<char>, Seq<u8>)> {
    v.map_values(|a: ImportedAttachment| (a.filename@, a.content_type@, a.data@))
}

/// Pairs of strings as characters.
pub open spec fn pair_texts(v: Seq<(String, String)>) -> Seq<(Seq<char>, Seq<char>)> {
    v.map_values(|p: (String, String)| (p.0@, p.1@))
}

/// The extension after a name's last `.`, else `bin`.
fn ext_of_exec(name: &str) -> (r: String)
    ensures
        r@ == ext_of(name@),
{
    let n = chars_of(name);
    proof {
        lemma_rfind_char(n@, '.');
    }
    match rfind_char_exec(&n, '.') {
        Some(i) => {
            let e = slice_chars(&n, i + 1, n.len());
            assert(e@ =~= n@.skip(i + 1int));
            string_of(&e)
        },
        None => "bin".to_string(),
    }
}

/// Saves one media item: the attachment and the stems it is referred to by.
fn save_media(item: &DayOneMedia, found: &Option<(String, Vec<u8>)>) -> (r: (
    ImportedAttachment,
    Vec<String>,
))
    ensures
        (r.0.filename@, r.0.content_type@, r.0.data@) == saved_file(*item, *found),
        r.1@.map_values(|s: String| s@) == reference_stems_spec(*item, saved_name(*item, *found)),
{
    let ext = match &item.media_type {
        Some(t) => t.clone(),
        None => "bin".to_string(),
    };
    let att = match found {
        Some((name, data)) => ImportedAttachment {
            filename: name.clone(),
            content_type: mime_from_extension(ext_of_exec(name.as_str()).as_str()).to_string(),
            data: data.clone(),
        },
        None => ImportedAttachment {
            filename: fallback_media_filename(item, ext.as_str()),
            content_type: mime_from_extension(ext.as_str()).to_string(),
            data: Vec::new(),
        },
    };
    let stems = media_reference_stems(item, att.filename.as_str());
    (att, stems)
}

/// Saves each item of one media list, the items standing at `start` in
/// the entry's media.
fn save_list(
    items: &Option<Vec<DayOneMedia>>,
    found: &Vec<Option<(String, Vec<u8>)>>,
    start: usize,
    atts: &mut Vec<ImportedAttachment>,
    refs: &mut Vec<(String, String)>,
    Ghost(all): Ghost<Seq<DayOneMedia>>,
) -> (next: usize)
    requires
        start + listed(*items).len() <= found@.len(),
        all.len() == found@.len(),
        forall|j: int| 0 <= j < listed(*items).len() ==> all[start + j] == listed(*items)[j],
        attachment_files(old(atts)@) == saved_files(all, found@, start as nat),
        pair_texts(old(refs)@) == moment_refs(all, found@, start as nat),
    ensures
        next == start + listed(*items).len(),
        attachment_files(final(atts)@) == saved_files(all, found@, next as nat),
        pair_texts(final(refs)@) == moment_refs(all, found@, next as nat),
{
    match items {
        None => start,
        Some(v) => {
            let mut i: usize = 0;
            while i < v.len()
                invariant
                    i <= v@.len(),
                    *items == Some(*v),
                    start + v@.len() <= found@.len(),
                    found@.len() == found.len(),
                    all.len() == found@.len(),
                    forall|j: int| 0 <= j < v@.len() ==> all[start + j] == v@[j],
                    attachment_files(atts@) == saved_files(all, found@, (start + i) as nat),
                    pair_texts(refs@) == moment_refs(all, found@, (start + i) as nat),
                decreases v.len() - i,
            {
                let k = start + i;
                let ghost name = saved_name(all[k as int], found@[k as int]);
                assert(all[k as int] == v@[i as int]);
                let (att, stems) = save_media(&v[i], &found[k]);
                let fname = att.filename.clone();
                let ghost before_atts = attachment_files(atts@);
                atts.push(att);
                assert(attachment_files(atts@) =~= before_atts.push(
                    saved_file(all[k as int], found@[k as int]),
                ));
                let ghost before_refs = pair_texts(refs@);
                let ghost st = reference_stems_spec(all[k as int], name);
                let mut j: usize = 0;
                assert(before_refs + st.take(0).map_values(|s: Seq<char>| (s, name)) =~= before_refs);
                while j < stems.len()
                    invariant
                        j <= stems@.len(),
                        stems@.map_values(|s: String| s@) == st,
                        fname@ == name,
                        pair_texts(refs@) == before_refs + st.take(j as int).map_values(
                            |s: Seq<char>| (s, name),
                        ),
                    decreases stems.len() - j,
                {
                    let ghost pre = pair_texts(refs@);
                    assert(st[j as int] == stems@[j as int]@);
                    refs.push((stems[j].clone(), fname.clone()));
                    assert(st.take(j + 1).map_values(|s: Seq<char>| (s, name)) =~= st.take(
                        j as int,
                    ).map_values(|s: Seq<char>| (s, name)).push((st[j as int], name)));
                    assert(pair_texts(refs@) =~= pre.push((stems@[j as int]@, name)));
                    j += 1;
                }
                assert(st.take(stems@.len() as int) =~= st);
                i += 1;
            }
            start + v.len()
        },
    }
}

/// The frontmatter fields of an imported Day One entry (see
/// [`dayone_fields`]).
fn dayone_metadata(entry: &DayOneEntry) -> (r: Vec<(String, Value)>)
    ensures
        fields_are(r@, dayone_fields(*entry)),
{
    let mut metadata: Vec<(String, Value)> = Vec::new();
    match &entry.uuid {
        Some(u) => metadata.push(("uuid".to_string(), Value::String(u.clone()))),
        None => {},
    }
    match &entry.tags {
        Some(tags) => if tags.len() > 0 {
            let mut items: Vec<Value> = Vec::new();
            let mut i: usize = 0;
            while i < tags.len()
                invariant
                    i <= tags@.len(),
                    all_texts(items@) == Some(tags@.take(i as int).map_values(|s: String| s@)),
                decreases tags.len() - i,
            {
                let ghost pre = items@;
                items.push(Value::String(tags[i].clone()));
                assert(items@.drop_last() =~= pre);
                assert(tags@.take(i + 1).map_values(|s: String| s@) =~= tags@.take(i as int).map_values(
                    |s: String| s@,
                ).push(tags@[i as int]@));
                i += 1;
            }
            assert(tags@.take(tags@.len() as int) =~= tags@);
            metadata.push(("tags".to_string(), Value::Sequence(items)));
        },
        None => {},
    }
    if entry.starred == Some(true) {
        metadata.push(("starred".to_string(), Value::Bool(true)));
    }
    match &entry.location {
        Some(l) => match format_location(l) {
            Some(x) => metadata.push(("location".to_string(), Value::String(x))),
            None => {},
        },
        None => {},
    }
    match &entry.weather {
        Some(w) => match format_weather(w) {
            Some(x) => metadata.push(("weather".to_string(), Value::String(x))),
            None => {},
        },
        None => {},
    }
    proof {
        reveal_strlit("uuid");
        reveal_strlit("tags");
        reveal_strlit("starred");
        reveal_strlit("location");
        reveal_strlit("weather");
    }
    metadata
}

/// Points the moment links of `body` at the saved attachments (see
/// [`relinked`]).
fn relink_body(body0: &str, refs: &Vec<(String, String)>) -> (r: String)
    ensures
        r@ == relinked(body0@, pair_texts(refs@)),
{
    let ghost rs = pair_texts(refs@);
    let mut body = chars_of(body0);
    let long = chars_of("dayone-moment://");
    let short = chars_of("dayone-moment:/");
    let att_dir = chars_of("_attachments/");
    let mut k: usize = 0;
    assert(rs.take(0) =~= Seq::<(Seq<char>, Seq<char>)>::empty());
    proof {
        reveal_strlit("dayone-moment://");
        reveal_strlit("dayone-moment:/");
    }
    while k < refs.len()
        invariant
            k <= refs@.len(),
            rs == pair_texts(refs@),
            long@ == "dayone-moment://"@,
            short@ == "dayone-moment:/"@,
            long@.len() > 0,
            short@.len() > 0,
            att_dir@ == "_attachments/"@,
            body@ == relinked(body0@, rs.take(k as int)),
        decreases refs.len() - k,
    {
        let mut to = att_dir.clone();
        extend_chars(&mut to, &chars_of(refs[k].1.as_str()));
        let mut p1 = long.clone();
        extend_chars(&mut p1, &chars_of(refs[k].0.as_str()));
        let mut p2 = short.clone();
        extend_chars(&mut p2, &chars_of(refs[k].0.as_str()));
        let b1 = crate::crdt::sync::replace_all(&body, &p1, &to);
        body = crate::crdt::sync::replace_all(&b1, &p2, &to);
        assert(rs.take(k + 1).drop_last() =~= rs.take(k as int));
        assert(rs[k as int] == (refs@[k as int].0@, refs@[k as int].1@));
        k += 1;
    }
    assert(rs.take(refs@.len() as int) =~= rs);
    string_of(&body)
}

/// Saves every media item of an entry: the attachments and the (stem,
/// filename) references.
fn save_all_media(entry: &DayOneEntry, found: &Vec<Option<(String, Vec<u8>)>>) -> (r: (
    Vec<ImportedAttachment>,
    Vec<(String, String)>,
))
    requires
        found@.len() == media_of(*entry).len(),
    ensures
        attachment_files(r.0@) == saved_files(media_of(*entry), found@, media_of(*entry).len()),
        pair_texts(r.1@) == moment_refs(media_of(*entry), found@, media_of(*entry).len()),
{
    let ghost all = media_of(*entry);
    let ghost a = listed(entry.photos);
    let ghost b = listed(entry.videos);
    let ghost c = listed(entry.audios);
    let ghost d = listed(entry.pdf_attachments);
    let mut atts: Vec<ImportedAttachment> = Vec::new();
    let mut refs: Vec<(String, String)> = Vec::new();
    assert(attachment_files(atts@) =~= saved_files(all, found@, 0));
    assert(pair_texts(refs@) =~= moment_refs(all, found@, 0));
    assert(forall|j: int| 0 <= j < a.len() ==> all[j] == a[j]);
    let n1 = save_list(&entry.photos, found, 0, &mut atts, &mut refs, Ghost(all));
    assert(forall|j: int| 0 <= j < b.len() ==> all[n1 + j] == b[j]);
    let n2 = save_list(&entry.videos, found, n1, &mut atts, &mut refs, Ghost(all));
    assert(forall|j: int| 0 <= j < c.len() ==> all[n2 + j] == c[j]);
    let n3 = save_list(&entry.audios, found, n2, &mut atts, &mut refs, Ghost(all));
    assert(forall|j: int| 0 <= j < d.len() ==> all[n3 + j] == d[j]);
    let n4 = save_list(&entry.pdf_attachments, found, n3, &mut atts, &mut refs, Ghost(all));
    (atts, refs)
}

/// Converts a Day One entry, given what was found for each of its media
/// items (photos, videos, audios, then PDFs; `None` where nothing was
/// found): the title is the entry's heading, else one derived from the date
/// and first line; the body has its moment links pointed at the saved
/// attachments.
pub fn convert_entry(entry: DayOneEntry, found: Vec<Option<(String, Vec<u8>)>>) -> (r: Result<
    ImportedEntry,
    String,
>)
    requires
        found@.len() == media_of(entry).len(),
        convertible(entry),
    ensures
        r matches Ok(ie) && {
            let (heading, body) = title_body_spec(entry_text(entry));
            &&& ie.title@ == match heading {
                Some(t) => t,
                None => derived_title(entry_date(entry), body),
            }
            &&& ie.date == entry_date(entry)
            &&& ie.body@ == relinked(
                body,
                moment_refs(media_of(entry), found@, media_of(entry).len()),
            )
            &&& fields_are(ie.metadata@, dayone_fields(entry))
            &&& attachment_files(ie.attachments@) == saved_files(
                media_of(entry),
                found@,
                media_of(entry).len(),
            )
        },
{
    let raw = match &entry.text {
        Some(t) => t.clone(),
        None => String::new(),
    };
    let unescaped = unescape_dayone_markdown(raw.as_str());
    let (heading, body0) = extract_title_and_body(unescaped.as_str());
    let date = match &entry.creation_date {
        Some(s) => rfc3339_millis(s.as_str()),
        None => None,
    };
    let title = match heading {
        Some(t) => t,
        None => derive_title(date, body0.as_str()),
    };
    let metadata = dayone_metadata(&entry);
    let (attachments, refs) = save_all_media(&entry, &found);
    let body = relink_body(body0.as_str(), &refs);
    Ok(ImportedEntry { title, date, body, metadata, attachments })
}

/// Whether converting the entry cuts no character apart (see
/// [`convertible`]).
pub fn is_convertible(entry: &DayOneEntry) -> (r: bool)
    ensures
        r == convertible(*entry),
{
    let raw = match &entry.text {
        Some(t) => t.clone(),
        None => String::new(),
    };
    let unescaped = unescape_dayone_markdown(raw.as_str());
    let (heading, body) = extract_title_and_body(unescaped.as_str());
    if heading.is_some() {
        return true;
    }
    let line = first_text_line_exec(body.as_str());
    match bytes_up_to(&line, 60) {
        Some(_) => true,
        None => prefix_for_bytes(&line, 60).is_some(),
    }
}

} // verus!
