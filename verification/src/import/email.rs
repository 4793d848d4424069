//! Email import: a message's MIME tree read into an imported entry, its
//! text body and its attachments, and the parameters of MIME header values.

use vstd::prelude::*;
use mailparse::MailHeaderMap;
use crate::text::{
    chars_of, extend_chars, find, find_chars, has_prefix, index_of, slice_chars, starts_with, string_of,
    to_lowercase, trim, trim_chars, unicode_lowercase, v1, lemma_find_from,
};
use crate::yaml::emit::{digit_char, digits};
use crate::yaml::Value;
use crate::import::{ImportedAttachment, ImportedEntry};
use crate::import::hierarchy::opt_text;

verus! {

/// The value of parameter `name` in a header value such as
/// `attachment; filename="foo.pdf"`: found (case-insensitively) as
/// `name=`, then either the quoted text after it or the trimmed text up to
/// the next `;`. `None` when the parameter is missing or its quote is not
/// closed.
pub open spec fn param_spec(h: Seq<char>, name: Seq<char>) -> Option<Seq<char>> {
    let pat = name + seq!['='];
    match find(unicode_lowercase(h), pat) {
        None => None,
        Some(idx) => if idx + pat.len() > h.len() {
            None
        } else {
            let rest = trim(h.subrange((idx + pat.len()) as int, h.len() as int));
            if rest.len() > 0 && rest[0] == '"' {
                match index_of(rest.drop_first(), '"') {
                    Some(e) => Some(rest.subrange(1, (1 + e) as int)),
                    None => None,
                }
            } else {
                let end = match index_of(rest, ';') {
                    Some(e) => e as int,
                    None => rest.len() as int,
                };
                Some(trim(rest.subrange(0, end)))
            }
        },
    }
}

/// Extract a named parameter value from a header like
/// `attachment; filename="foo.pdf"` (see [`param_spec`]).
pub fn extract_param(header_value: &str, param_name: &str) -> (r: Option<String>)
    ensures
        match r {
            Some(v) => param_spec(header_value@, param_name@) == Some(v@),
            None => param_spec(header_value@, param_name@) is None,
        },
{
    let h = chars_of(header_value);
    let lowered = to_lowercase(header_value);
    let lower = chars_of(lowered.as_str());
    assert(lower@ == unicode_lowercase(header_value@));
    let mut pat = chars_of(param_name);
    pat.push('=');
    assert(pat@ =~= param_name@ + seq!['=']);
    proof {
        lemma_find_from(lower@, pat@, 0);
    }
    let lower_len = lower.len();
    let found = find_chars(&lower, &pat);
    assert(found matches Some(i) ==> find(lower@, pat@) == Some(i as nat));
    let idx = match found {
        Some(i) => i,
        None => {
            return None;
        },
    };
    if pat.len() > h.len() || idx > h.len() - pat.len() {
        return None;
    }
    let rest = trim_chars(&slice_chars(&h, idx + pat.len(), h.len()));
    assert(find(unicode_lowercase(header_value@), param_name@ + seq!['=']) == Some(idx as nat));
    assert(rest@ == trim(header_value@.subrange((idx + pat.len()) as int, header_value@.len() as int)));
    if rest.len() > 0 && rest[0] == '"' {
        let after = slice_chars(&rest, 1, rest.len());
        assert(after@ =~= rest@.drop_first());
        proof {
            lemma_find_from(after@, seq!['"'], 0);
        }
        match find_chars(&after, &v1('"')) {
            Some(e) => Some(string_of(&slice_chars(&rest, 1, 1 + e))),
            None => None,
        }
    } else {
        proof {
            lemma_find_from(rest@, seq![';'], 0);
        }
        let end = match find_chars(&rest, &v1(';')) {
            Some(e) => e,
            None => rest.len(),
        };
        Some(string_of(&trim_chars(&slice_chars(&rest, 0, end))))
    }
}


// ---------------------------------------------------------------------------
// The message as mailparse reads it
// ---------------------------------------------------------------------------

/// Why `mailparse::parse_mail` cannot parse the bytes, as text; nothing when
/// it can.
pub uninterp spec fn mail_parse_error_of(bytes: Seq<u8>) -> Option<Seq<char>>;

/// `mailparse::parse_mail` on the bytes: its error as text, or nothing when
/// the message parses. Taken to be a function of the bytes alone, named
/// `mail_parse_error_of`; the message grammar is not stated.
#[verifier::external_body]
fn mail_parse_error(bytes: &[u8]) -> (r: Option<String>)
    ensures
        opt_text(r) == mail_parse_error_of(bytes@),
{
    mailparse::parse_mail(bytes).err().map(|e| e.to_string())
}

/// The value of the first header named `key` (case-insensitively) of the
/// part at `path` (subpart indexes from the top) of the parsed message.
pub uninterp spec fn mail_header_of(bytes: Seq<u8>, path: Seq<usize>, key: Seq<char>) -> Option<Seq<char>>;

/// `MailHeaderMap::get_first_value` on the headers of the part at `path` of
/// the message `mailparse::parse_mail` reads from the bytes (nothing when
/// it does not parse or there is no such part). Named `mail_header_of`.
#[verifier::external_body]
fn mail_header(bytes: &[u8], path: &Vec<usize>, key: &str) -> (r: Option<String>)
    ensures
        opt_text(r) == mail_header_of(bytes@, path@, key@),
{
    let parsed = mailparse::parse_mail(bytes).ok()?;
    let mut p = &parsed;
    for i in path.iter() {
        p = p.subparts.get(*i)?;
    }
    p.headers.get_first_value(key)
}

/// The MIME type `mailparse` read for the part at `path`.
pub uninterp spec fn mail_mime_of(bytes: Seq<u8>, path: Seq<usize>) -> Seq<char>;

/// The `ctype.mimetype` of the part at `path` of the parsed message (empty
/// when there is no such part). Named `mail_mime_of`.
#[verifier::external_body]
fn mail_mime(bytes: &[u8], path: &Vec<usize>) -> (r: String)
    ensures
        r@ == mail_mime_of(bytes@, path@),
{
    let parsed = match mailparse::parse_mail(bytes) {
        Ok(m) => m,
        Err(_) => return String::new(),
    };
    let mut p = &parsed;
    for i in path.iter() {
        match p.subparts.get(*i) {
            Some(q) => p = q,
            None => return String::new(),
        }
    }
    p.ctype.mimetype.clone()
}

/// The body of the part at `path` decoded as text, or the error as text.
pub uninterp spec fn mail_text_of(bytes: Seq<u8>, path: Seq<usize>) -> Result<Seq<char>, Seq<char>>;

/// `ParsedMail::get_body` on the part at `path` of the parsed message (an
/// error when there is no such part). Named `mail_text_of`.
#[verifier::external_body]
fn mail_text(bytes: &[u8], path: &Vec<usize>) -> (r: Result<String, String>)
    ensures
        text_result(r) == mail_text_of(bytes@, path@),
{
    let parsed = mailparse::parse_mail(bytes).map_err(|e| e.to_string())?;
    let mut p = &parsed;
    for i in path.iter() {
        p = p.subparts.get(*i).ok_or_else(String::new)?;
    }
    p.get_body().map_err(|e| e.to_string())
}

/// The body of the part at `path` decoded as bytes, or the error as text.
pub uninterp spec fn mail_data_of(bytes: Seq<u8>, path: Seq<usize>) -> Result<Seq<u8>, Seq<char>>;

/// `ParsedMail::get_body_raw` on the part at `path` of the parsed message
/// (an error when there is no such part). Named `mail_data_of`.
#[verifier::external_body]
fn mail_data(bytes: &[u8], path: &Vec<usize>) -> (r: Result<Vec<u8>, String>)
    ensures
        data_result(r) == mail_data_of(bytes@, path@),
{
    let parsed = mailparse::parse_mail(bytes).map_err(|e| e.to_string())?;
    let mut p = &parsed;
    for i in path.iter() {
        p = p.subparts.get(*i).ok_or_else(String::new)?;
    }
    p.get_body_raw().map_err(|e| e.to_string())
}

/// How many subparts `mailparse` found in the part at `path`.
pub uninterp spec fn mail_subpart_count_of(bytes: Seq<u8>, path: Seq<usize>) -> usize;

/// The length of `subparts` of the part at `path` of the parsed message (0
/// when there is no such part). Named `mail_subpart_count_of`.
#[verifier::external_body]
fn mail_subpart_count(bytes: &[u8], path: &Vec<usize>) -> (r: usize)
    ensures
        r == mail_subpart_count_of(bytes@, path@),
{
    let parsed = match mailparse::parse_mail(bytes) {
        Ok(m) => m,
        Err(_) => return 0,
    };
    let mut p = &parsed;
    for i in path.iter() {
        match p.subparts.get(*i) {
            Some(q) => p = q,
            None => return 0,
        }
    }
    p.subparts.len()
}

/// A decoded text body, or its error, as text.
pub open spec fn text_result(r: Result<String, String>) -> Result<Seq<char>, Seq<char>> {
    match r {
        Ok(t) => Ok(t@),
        Err(e) => Err(e@),
    }
}

/// A decoded byte body, or its error, as plain values.
pub open spec fn data_result(r: Result<Vec<u8>, String>) -> Result<Seq<u8>, Seq<char>> {
    match r {
        Ok(d) => Ok(d@),
        Err(e) => Err(e@),
    }
}

/// The epoch seconds `mailparse::dateparse` reads from a `Date` header, when
/// it can read one.
pub uninterp spec fn mail_date_secs_of(text: Seq<char>) -> Option<i64>;

/// `mailparse::dateparse`: the epoch seconds of an RFC 2822 date. Its
/// answer is taken to be a function of the text alone, named
/// `mail_date_secs_of`; the date grammar behind it is not stated.
#[verifier::external_body]
fn mail_date_secs(text: &str) -> (r: Option<i64>)
    ensures
        r == mail_date_secs_of(text@),
{
    mailparse::dateparse(text).ok()
}

/// Whether `chrono` can represent a time `secs` seconds from the epoch: its
/// dates run from January 1, 262144 BCE to December 31, 262142 CE, which
/// is from -8334601228800 to 8210266876799 seconds.
pub open spec fn chrono_secs_in_range(secs: i64) -> bool {
    -8_334_601_228_800 <= secs <= 8_210_266_876_799
}

/// The instant `secs` seconds from the epoch in milliseconds, when
/// `chrono` can represent it (see [`chrono_secs_in_range`]), as
/// `DateTime::from_timestamp(secs, 0)` read back with `timestamp_millis`
/// gives it.
fn secs_to_millis(secs: i64) -> (r: Option<i64>)
    ensures
        r is Some == chrono_secs_in_range(secs),
        r matches Some(ms) ==> ms == secs * 1000,
{
    if -8_334_601_228_800 <= secs && secs <= 8_210_266_876_799 {
        Some(secs * 1000)
    } else {
        None
    }
}

/// The Markdown `html_to_markdown_rs::convert` makes of some HTML, when it
/// makes any.
pub uninterp spec fn html_markdown_of(html: Seq<char>) -> Option<Seq<char>>;

/// `html_to_markdown_rs::convert` with default options: the converted text,
/// or nothing when the conversion fails or yields no text. Its answer is
/// taken to be a function of the HTML alone, named `html_markdown_of`; the
/// conversion itself is not stated.
#[verifier::external_body]
fn html_markdown(html: &str) -> (r: Option<String>)
    ensures
        match r {
            Some(t) => html_markdown_of(html@) == Some(t@),
            None => html_markdown_of(html@) is None,
        },
{
    html_to_markdown_rs::convert(html, None).ok().and_then(|c| c.content)
}

// ---------------------------------------------------------------------------
// The message as plain values
// ---------------------------------------------------------------------------

/// A MIME part: its MIME type, its `Content-Disposition` and `Content-Type`
/// header values, its body decoded as text and as bytes (or why not), and
/// its subparts.
pub struct MailPart {
    pub mimetype: String,
    pub disposition: Option<String>,
    pub content_type: Option<String>,
    pub text: Result<String, String>,
    pub data: Result<Vec<u8>, String>,
    pub subparts: Vec<MailPart>,
}

/// A message: the headers the import reads, and its MIME tree.
pub struct MailMessage {
    pub subject: Option<String>,
    pub from: Option<String>,
    pub to: Option<String>,
    pub cc: Option<String>,
    pub date: Option<String>,
    pub root: MailPart,
}

/// How deep a MIME tree is read; `mailparse` nests at most 100 levels.
pub const MAX_DEPTH: u32 = 128;

/// Whether `p` holds the part at `path` of the message in `bytes` as
/// `mailparse` reads it, its subparts read `depth` levels further down.
pub open spec fn part_read(p: MailPart, bytes: Seq<u8>, path: Seq<usize>, depth: nat) -> bool
    decreases depth, 0nat, 0nat,
{
    &&& p.mimetype@ == mail_mime_of(bytes, path)
    &&& opt_text(p.disposition) == mail_header_of(bytes, path, "Content-Disposition"@)
    &&& opt_text(p.content_type) == mail_header_of(bytes, path, "Content-Type"@)
    &&& text_result(p.text) == mail_text_of(bytes, path)
    &&& data_result(p.data) == mail_data_of(bytes, path)
    &&& if depth == 0 {
        p.subparts@.len() == 0
    } else {
        &&& p.subparts@.len() == mail_subpart_count_of(bytes, path)
        &&& parts_read(p.subparts@, bytes, path, (depth - 1) as nat, p.subparts@.len())
    }
}

/// Whether the first `k` of `ps` hold the subparts of the part at `path`,
/// each read `depth` levels further down.
pub open spec fn parts_read(ps: Seq<MailPart>, bytes: Seq<u8>, path: Seq<usize>, depth: nat, k: nat) -> bool
    decreases depth, 1nat, k,
{
    if k == 0 {
        true
    } else {
        parts_read(ps, bytes, path, depth, (k - 1) as nat) && part_read(
            ps[k - 1],
            bytes,
            path.push((k - 1) as usize),
            depth,
        )
    }
}

/// Whether `m` holds the message in `bytes` as `mailparse` reads it.
pub open spec fn message_read(m: MailMessage, bytes: Seq<u8>) -> bool {
    &&& opt_text(m.subject) == mail_header_of(bytes, Seq::empty(), "Subject"@)
    &&& opt_text(m.from) == mail_header_of(bytes, Seq::empty(), "From"@)
    &&& opt_text(m.to) == mail_header_of(bytes, Seq::empty(), "To"@)
    &&& opt_text(m.cc) == mail_header_of(bytes, Seq::empty(), "Cc"@)
    &&& opt_text(m.date) == mail_header_of(bytes, Seq::empty(), "Date"@)
    &&& part_read(m.root, bytes, Seq::empty(), MAX_DEPTH as nat)
}

/// Reading subparts depends only on the parts read so far.
proof fn lemma_parts_read_prefix(a: Seq<MailPart>, b: Seq<MailPart>, bytes: Seq<u8>, path: Seq<usize>, depth: nat, k: nat)
    requires
        k <= a.len(),
        k <= b.len(),
        forall|j: int| 0 <= j < k ==> a[j] == b[j],
    ensures
        parts_read(a, bytes, path, depth, k) == parts_read(b, bytes, path, depth, k),
    decreases k,
{
    if k > 0 {
        lemma_parts_read_prefix(a, b, bytes, path, depth, (k - 1) as nat);
    }
}

/// One more subpart read extends what was read.
proof fn lemma_parts_read_extend(s0: Seq<MailPart>, s1: Seq<MailPart>, bytes: Seq<u8>, path: Seq<usize>, depth: nat, k: nat)
    requires
        s0.len() == k,
        s1.len() == k + 1,
        forall|j: int| 0 <= j < k ==> s1[j] == s0[j],
        parts_read(s0, bytes, path, depth, k),
        part_read(s1[k as int], bytes, path.push(k as usize), depth),
    ensures
        parts_read(s1, bytes, path, depth, k + 1),
{
    lemma_parts_read_prefix(s0, s1, bytes, path, depth, k);
}

/// `path` with `i` appended.
fn child_path(path: &Vec<usize>, i: usize) -> (r: Vec<usize>)
    ensures
        r@ == path@.push(i),
{
    let mut out: Vec<usize> = Vec::new();
    let mut j: usize = 0;
    while j < path.len()
        invariant
            j <= path@.len(),
            out@ == path@.take(j as int),
        decreases path.len() - j,
    {
        out.push(path[j]);
        j += 1;
        assert(out@ =~= path@.take(j as int));
    }
    assert(path@.take(path@.len() as int) =~= path@);
    out.push(i);
    out
}

/// The part at `path` of the message in `bytes`, read `depth` levels down:
/// at depth 0 its subparts are not read.
fn part_of(bytes: &[u8], path: &Vec<usize>, depth: u32) -> (r: MailPart)
    ensures
        part_read(r, bytes@, path@, depth as nat),
    decreases depth,
{
    let mut subs: Vec<MailPart> = Vec::new();
    if depth > 0 {
        let n = mail_subpart_count(bytes, path);
        let mut i: usize = 0;
        while i < n
            invariant
                depth > 0,
                i <= n,
                n == mail_subpart_count_of(bytes@, path@),
                subs@.len() == i,
                parts_read(subs@, bytes@, path@, (depth - 1) as nat, i as nat),
            decreases n - i,
        {
            let cp = child_path(path, i);
            let ghost s0 = subs@;
            let child = part_of(bytes, &cp, depth - 1);
            subs.push(child);
            proof {
                lemma_parts_read_extend(s0, subs@, bytes@, path@, (depth - 1) as nat, i as nat);
            }
            i += 1;
        }
    }
    let ghost sv = subs@;
    assert(depth > 0 ==> sv.len() == mail_subpart_count_of(bytes@, path@));
    let r = MailPart {
        mimetype: mail_mime(bytes, path),
        disposition: mail_header(bytes, path, "Content-Disposition"),
        content_type: mail_header(bytes, path, "Content-Type"),
        text: mail_text(bytes, path),
        data: mail_data(bytes, path),
        subparts: subs,
    };
    assert(r.subparts@ == sv);
    r
}

/// The message in `bytes` as plain values.
fn message_of(bytes: &[u8]) -> (r: MailMessage)
    ensures
        message_read(r, bytes@),
{
    let top: Vec<usize> = Vec::new();
    assert(top@ =~= Seq::<usize>::empty());
    MailMessage {
        subject: mail_header(bytes, &top, "Subject"),
        from: mail_header(bytes, &top, "From"),
        to: mail_header(bytes, &top, "To"),
        cc: mail_header(bytes, &top, "Cc"),
        date: mail_header(bytes, &top, "Date"),
        root: part_of(bytes, &top, MAX_DEPTH),
    }
}

// ---------------------------------------------------------------------------
// Reading the MIME tree
// ---------------------------------------------------------------------------

/// The parts of a MIME tree that hold content, depth first: a part without
/// subparts is one; a container holds those of its subparts in order.
pub open spec fn leaves(p: MailPart) -> Seq<MailPart>
    decreases p, 1nat,
{
    if p.subparts@.len() == 0 {
        seq![p]
    } else {
        leaves_of(p.subparts@)
    }
}

/// The content parts of a list of MIME trees, in order.
pub open spec fn leaves_of(ps: Seq<MailPart>) -> Seq<MailPart>
    decreases ps, 0nat,
{
    if ps.len() == 0 {
        Seq::empty()
    } else {
        leaves(ps[0]) + leaves_of(ps.subrange(1, ps.len() as int))
    }
}

/// What reading the parts gathers: the first `text/plain` body, the first
/// `text/html` body, and the attachments as (filename, content type, bytes).
pub struct Gathered {
    pub plain: Option<Seq<char>>,
    pub html: Option<Seq<char>>,
    pub attachments: Seq<(Seq<char>, Seq<char>, Seq<u8>)>,
}

/// The text of an optional header value; empty when it is missing.
pub open spec fn or_empty(o: Option<String>) -> Seq<char> {
    match o {
        Some(s) => s@,
        None => Seq::empty(),
    }
}

/// Whether a part is read as an attachment: its disposition starts with
/// `attachment`, or its type is neither `text/…` nor `multipart/…`.
pub open spec fn is_attachment_part(p: MailPart) -> bool {
    let ct = unicode_lowercase(p.mimetype@);
    starts_with(unicode_lowercase(or_empty(p.disposition)), "attachment"@) || (!starts_with(ct, "text/"@)
        && !starts_with(ct, "multipart/"@))
}

/// The filename of the `n`-th attachment (from 0): the `filename` parameter
/// of its disposition, else the `name` parameter of its content type, else
/// `attachment-<n+1>`.
pub open spec fn attachment_name(p: MailPart, n: nat) -> Seq<char> {
    let from_disposition = match p.disposition {
        Some(d) => param_spec(d@, "filename"@),
        None => None,
    };
    let from_type = match p.content_type {
        Some(c) => param_spec(c@, "name"@),
        None => None,
    };
    match from_disposition {
        Some(f) => f,
        None => match from_type {
            Some(f) => f,
            None => "attachment-"@ + digits(n + 1),
        },
    }
}

/// Reading one content part: an attachment with bytes is added, an empty
/// one skipped; a text part fills the first plain or HTML body not yet
/// found. A body that does not decode ends the reading with an error.
pub open spec fn read_part(p: MailPart, g: Gathered) -> Result<Gathered, Seq<char>> {
    let ct = unicode_lowercase(p.mimetype@);
    if is_attachment_part(p) {
        match p.data {
            Err(e) => Err("Failed to decode attachment: "@ + e@),
            Ok(d) => if d@.len() == 0 {
                Ok(g)
            } else {
                Ok(
                    Gathered {
                        attachments: g.attachments.push((attachment_name(p, g.attachments.len()), ct, d@)),
                        ..g
                    },
                )
            },
        }
    } else {
        match p.text {
            Err(e) => Err("Failed to decode body: "@ + e@),
            Ok(b) => if ct == "text/plain"@ && g.plain is None {
                Ok(Gathered { plain: Some(b@), ..g })
            } else if ct == "text/html"@ && g.html is None {
                Ok(Gathered { html: Some(b@), ..g })
            } else {
                Ok(g)
            },
        }
    }
}

/// Reading content parts in order, from what was gathered before.
pub open spec fn read_parts(ps: Seq<MailPart>, g: Gathered) -> Result<Gathered, Seq<char>>
    decreases ps.len(),
{
    if ps.len() == 0 {
        Ok(g)
    } else {
        match read_part(ps[0], g) {
            Err(e) => Err(e),
            Ok(g2) => read_parts(ps.drop_first(), g2),
        }
    }
}

/// Reading two runs of parts is reading the first, then the second.
pub proof fn lemma_read_parts_append(a: Seq<MailPart>, b: Seq<MailPart>, g: Gathered)
    ensures
        read_parts(a + b, g) == (match read_parts(a, g) {
            Err(e) => Err(e),
            Ok(g2) => read_parts(b, g2),
        }),
    decreases a.len(),
{
    if a.len() > 0 {
        assert((a + b).drop_first() =~= a.drop_first() + b);
        assert((a + b)[0] == a[0]);
        match read_part(a[0], g) {
            Err(_) => {},
            Ok(g2) => lemma_read_parts_append(a.drop_first(), b, g2),
        }
    }
}

/// The content parts of a list grow by those of one more tree.
pub proof fn lemma_leaves_of_push(ps: Seq<MailPart>, p: MailPart)
    ensures
        leaves_of(ps.push(p)) == leaves_of(ps) + leaves(p),
    decreases ps.len(),
{
    let q = ps.push(p);
    assert(q[0] == (if ps.len() == 0 { p } else { ps[0] }));
    if ps.len() == 0 {
        let e = Seq::<MailPart>::empty();
        assert(q.subrange(1, q.len() as int) =~= e);
        assert(leaves_of(e) == e);
        assert(leaves(p) + e =~= leaves(p));
        assert(leaves_of(ps) == e);
        assert(e + leaves(p) =~= leaves(p));
    } else {
        let rest = ps.subrange(1, ps.len() as int);
        assert(q.subrange(1, q.len() as int) =~= rest.push(p));
        lemma_leaves_of_push(rest, p);
        assert(leaves(ps[0]) + (leaves_of(rest) + leaves(p)) =~= (leaves(ps[0]) + leaves_of(rest)) + leaves(p));
    }
}

/// The content parts of two lists are those of the first, then those of
/// the second.
pub proof fn lemma_leaves_of_append(a: Seq<MailPart>, b: Seq<MailPart>)
    ensures
        leaves_of(a + b) == leaves_of(a) + leaves_of(b),
    decreases b.len(),
{
    if b.len() == 0 {
        assert(a + b =~= a);
        assert(leaves_of(b) == Seq::<MailPart>::empty());
        assert(leaves_of(a) + leaves_of(b) =~= leaves_of(a));
    } else {
        let b1 = b.drop_last();
        let x = b.last();
        assert(b =~= b1.push(x));
        assert(a + b =~= (a + b1).push(x));
        lemma_leaves_of_append(a, b1);
        lemma_leaves_of_push(a + b1, x);
        lemma_leaves_of_push(b1, x);
        assert(leaves_of(a) + leaves_of(b1) + leaves(x) =~= leaves_of(a) + (leaves_of(b1) + leaves(x)));
    }
}

/// What reading has gathered so far.
struct Gather {
    plain: Option<String>,
    html: Option<String>,
    attachments: Vec<ImportedAttachment>,
}

/// Attachments as (filename, content type, bytes).
pub open spec fn attachment_views(atts: Seq<ImportedAttachment>) -> Seq<(Seq<char>, Seq<char>, Seq<u8>)> {
    atts.map_values(|a: ImportedAttachment| (a.filename@, a.content_type@, a.data@))
}

impl Gather {
    /// What has been gathered.
    spec fn gathered(&self) -> Gathered {
        Gathered { plain: opt_text(self.plain), html: opt_text(self.html), attachments: attachment_views(self.attachments@) }
    }
}

/// The decimal digits of `n`.
fn digits_wide(n: u128) -> (r: Vec<char>)
    ensures
        r@ == digits(n as nat),
    decreases n,
{
    let d: u8 = (n % 10) as u8;
    let c = (48u8 + d) as char;
    if n < 10 {
        v1(c)
    } else {
        let mut r = digits_wide(n / 10);
        r.push(c);
        r
    }
}

/// The filename of the `n`-th attachment (see [`attachment_name`]).
fn attachment_name_exec(p: &MailPart, n: usize) -> (r: String)
    ensures
        r@ == attachment_name(*p, n as nat),
{
    match &p.disposition {
        Some(d) => match extract_param(d.as_str(), "filename") {
            Some(f) => {
                return f;
            },
            None => {},
        },
        None => {},
    }
    match &p.content_type {
        Some(c) => match extract_param(c.as_str(), "name") {
            Some(f) => {
                return f;
            },
            None => {},
        },
        None => {},
    }
    let mut out = chars_of("attachment-");
    extend_chars(&mut out, &digits_wide(n as u128 + 1));
    string_of(&out)
}

/// `prefix` followed by `e`.
fn prefixed(prefix: &str, e: &str) -> (r: String)
    ensures
        r@ == prefix@ + e@,
{
    let mut out = chars_of(prefix);
    extend_chars(&mut out, &chars_of(e));
    string_of(&out)
}

/// Reads one content part (see [`read_part`]).
fn read_part_exec(p: MailPart, g: &mut Gather) -> (r: Result<(), String>)
    ensures
        match read_part(p, old(g).gathered()) {
            Ok(g2) => r is Ok && final(g).gathered() == g2,
            Err(e) => r matches Err(x) && x@ == e,
        },
{
    let ct = to_lowercase(p.mimetype.as_str());
    let ctc = chars_of(ct.as_str());
    let disp = match &p.disposition {
        Some(d) => to_lowercase(d.as_str()),
        None => to_lowercase(""),
    };
    proof {
        reveal_strlit("");
        assert(or_empty(None) =~= ""@);
    }
    let attachment = has_prefix(&chars_of(disp.as_str()), &chars_of("attachment")) || (!has_prefix(
        &ctc,
        &chars_of("text/"),
    ) && !has_prefix(&ctc, &chars_of("multipart/")));
    assert(attachment == is_attachment_part(p));
    if attachment {
        let name = attachment_name_exec(&p, g.attachments.len());
        match p.data {
            Err(e) => Err(prefixed("Failed to decode attachment: ", e.as_str())),
            Ok(d) => {
                if d.len() > 0 {
                    let ghost a0 = g.attachments@;
                    g.attachments.push(ImportedAttachment { filename: name, content_type: ct, data: d });
                    assert(attachment_views(g.attachments@) =~= attachment_views(a0).push(
                        (name@, ct@, d@),
                    ));
                }
                Ok(())
            },
        }
    } else {
        match p.text {
            Err(e) => Err(prefixed("Failed to decode body: ", e.as_str())),
            Ok(b) => {
                let is_plain = crate::text::chars_eq(&ctc, &chars_of("text/plain"));
                let is_html = crate::text::chars_eq(&ctc, &chars_of("text/html"));
                if is_plain && g.plain.is_none() {
                    g.plain = Some(b);
                } else if is_html && g.html.is_none() {
                    g.html = Some(b);
                }
                Ok(())
            },
        }
    }
}

/// Reads the content parts of a MIME tree, depth first.
fn read_tree(p: MailPart, g: &mut Gather) -> (r: Result<(), String>)
    ensures
        match read_parts(leaves(p), old(g).gathered()) {
            Ok(g2) => r is Ok && final(g).gathered() == g2,
            Err(e) => r matches Err(x) && x@ == e,
        },
    decreases p,
{
    if p.subparts.len() == 0 {
        let ghost g0 = g.gathered();
        proof {
            reveal_with_fuel(read_parts, 2);
            assert(leaves(p) =~= seq![p]);
            assert(seq![p].drop_first() =~= Seq::<MailPart>::empty());
        }
        return read_part_exec(p, g);
    }
    let ghost g0 = g.gathered();
    let ghost subs = p.subparts@;
    let ghost whole = p;
    assert(leaves(whole) == leaves_of(subs));
    assert(subs.len() == p.subparts.len());
    let MailPart { subparts, .. } = p;
    let mut rest = subparts;
    let mut i: usize = 0;
    assert(subs.take(0) =~= Seq::<MailPart>::empty());
    assert(rest@ =~= subs.subrange(0, subs.len() as int));
    while rest.len() > 0
        invariant
            i <= subs.len(),
            rest@ == subs.subrange(i as int, subs.len() as int),
            subs == whole.subparts@,
            whole == p,
            leaves(whole) == leaves_of(subs),
            g0 == old(g).gathered(),
            i + rest@.len() == subs.len(),
            subs.len() <= usize::MAX,
            read_parts(leaves_of(subs.take(i as int)), g0) == Ok::<Gathered, Seq<char>>(g.gathered()),
        decreases rest.len(),
    {
        let ghost gi = g.gathered();
        let c = rest.remove(0);
        assert(c == subs[i as int]);
        proof {
            assert(decreases_to!(whole => whole.subparts));
            assert(decreases_to!(whole.subparts => whole.subparts@));
            assert(decreases_to!(whole.subparts@ => whole.subparts@[i as int]));
            assert(decreases_to!(whole => c));
        }
        proof {
            assert(subs.take(i + 1) =~= subs.take(i as int).push(c));
            lemma_leaves_of_push(subs.take(i as int), c);
            lemma_read_parts_append(leaves_of(subs.take(i as int)), leaves(c), g0);
        }
        match read_tree(c, g) {
            Err(e) => {
                proof {
                    assert(read_parts(leaves(c), gi) == Err::<Gathered, Seq<char>>(e@));
                    assert(read_parts(leaves_of(subs.take(i + 1)), g0) == Err::<Gathered, Seq<char>>(e@));
                    assert(subs =~= subs.take(i + 1) + subs.skip(i + 1));
                    lemma_leaves_of_append(subs.take(i + 1), subs.skip(i + 1));
                    lemma_read_parts_append(leaves_of(subs.take(i + 1)), leaves_of(subs.skip(i + 1)), g0);
                    assert(read_parts(leaves_of(subs), g0) == Err::<Gathered, Seq<char>>(e@));
                }
                return Err(e);
            },
            Ok(()) => {},
        }
        i += 1;
    }
    assert(subs.take(i as int) =~= subs);
    Ok(())
}

// ---------------------------------------------------------------------------
// The entry a message becomes
// ---------------------------------------------------------------------------

/// The title of a message: its subject, or `Untitled Email` when it has
/// none or only whitespace.
pub open spec fn mail_title(subject: Option<String>) -> Seq<char> {
    if trim(or_empty(subject)).len() == 0 {
        "Untitled Email"@
    } else {
        or_empty(subject)
    }
}

/// The time of a message in epoch milliseconds: its `Date` header read as
/// RFC 2822, when that reads and is in `chrono`'s range.
pub open spec fn mail_date(date: Option<String>) -> Option<i64> {
    match date {
        Some(d) => match mail_date_secs_of(d@) {
            Some(secs) => if chrono_secs_in_range(secs) {
                Some((secs * 1000) as i64)
            } else {
                None
            },
            None => None,
        },
        None => None,
    }
}

/// The header fields a message's entry records, in order: `from`, `to` and
/// `cc`, each when the message has it.
pub open spec fn header_fields(m: MailMessage) -> Seq<(Seq<char>, Seq<char>)> {
    let a = match m.from {
        Some(v) => seq![("from"@, v@)],
        None => Seq::empty(),
    };
    let b = match m.to {
        Some(v) => a.push(("to"@, v@)),
        None => a,
    };
    match m.cc {
        Some(v) => b.push(("cc"@, v@)),
        None => b,
    }
}

/// Whether `md` holds the fields `fs` as string values, in order.
pub open spec fn fields_are(md: Seq<(String, Value)>, fs: Seq<(Seq<char>, Seq<char>)>) -> bool {
    &&& md.len() == fs.len()
    &&& forall|i: int|
        0 <= i < md.len() ==> #[trigger] md[i].0@ == fs[i].0 && (md[i].1 matches Value::String(v) && v@ == fs[i].1)
}

/// The body of an entry: the first plain-text part; else the first HTML
/// part converted to Markdown (the HTML itself when it does not convert);
/// else nothing.
pub open spec fn mail_body(g: Gathered) -> Seq<char> {
    match g.plain {
        Some(t) => t,
        None => match g.html {
            Some(h) => match html_markdown_of(h) {
                Some(md) => md,
                None => h,
            },
            None => Seq::empty(),
        },
    }
}

/// Nothing gathered yet.
pub open spec fn nothing_gathered() -> Gathered {
    Gathered { plain: None, html: None, attachments: Seq::empty() }
}

/// Whether `r` is what message `m` becomes: its parts read in order (the
/// first one that does not decode gives the error), its title, date, header
/// fields, body and attachments.
pub open spec fn message_entry(m: MailMessage, r: Result<ImportedEntry, String>) -> bool {
    match read_parts(leaves(m.root), nothing_gathered()) {
        Err(e) => r matches Err(x) && x@ == e,
        Ok(g) => match r {
            Ok(en) => {
                &&& en.title@ == mail_title(m.subject)
                &&& en.date == mail_date(m.date)
                &&& fields_are(en.metadata@, header_fields(m))
                &&& en.body@ == mail_body(g)
                &&& attachment_views(en.attachments@) == g.attachments
            },
            Err(_) => false,
        },
    }
}

/// Adds `key: value` for a header the message has.
fn push_field(md: &mut Vec<(String, Value)>, key: &str, value: Option<String>)
    ensures
        match value {
            Some(v) => final(md)@.len() == old(md)@.len() + 1 && final(md)@.drop_last() == old(md)@ && final(md)@.last().0@
                == key@ && (final(md)@.last().1 matches Value::String(s) && s@ == v@),
            None => final(md)@ == old(md)@,
        },
{
    match value {
        Some(v) => {
            let ghost m0 = md@;
            md.push((key.to_string(), Value::String(v)));
            assert(md@.drop_last() =~= m0);
        },
        None => {},
    }
}

/// The entry a message becomes (see [`message_entry`]).
pub fn entry_from_message(m: MailMessage) -> (r: Result<ImportedEntry, String>)
    ensures
        message_entry(m, r),
{
    let ghost gm = m;
    let MailMessage { subject, from, to, cc, date, root } = m;
    let mut g = Gather { plain: None, html: None, attachments: Vec::new() };
    assert(g.gathered() =~= nothing_gathered()) by {
        assert(attachment_views(g.attachments@) =~= Seq::empty());
    }
    match read_tree(root, &mut g) {
        Err(e) => {
            return Err(e);
        },
        Ok(()) => {},
    }
    let title = match subject {
        Some(s) => {
            if trim_chars(&chars_of(s.as_str())).len() == 0 {
                "Untitled Email".to_string()
            } else {
                s
            }
        },
        None => {
            proof {
                reveal_strlit("Untitled Email");
            }
            "Untitled Email".to_string()
        },
    };
    proof {
        let e = Seq::<char>::empty();
        assert(trim(e) =~= e) by {
            assert(crate::text::trim_start(e) =~= e);
        }
    }
    let when = match date {
        Some(d) => match mail_date_secs(d.as_str()) {
            Some(secs) => secs_to_millis(secs),
            None => None,
        },
        None => None,
    };
    let mut metadata: Vec<(String, Value)> = Vec::new();
    push_field(&mut metadata, "from", from);
    push_field(&mut metadata, "to", to);
    push_field(&mut metadata, "cc", cc);
    proof {
        let fs = header_fields(gm);
        assert(metadata@.len() == fs.len());
        assert forall|i: int| 0 <= i < metadata@.len() implies #[trigger] metadata@[i].0@ == fs[i].0 && (
        metadata@[i].1 matches Value::String(v) && v@ == fs[i].1) by {
            let m3 = metadata@;
            if gm.cc is Some && i == m3.len() - 1 {
            } else if gm.cc is Some {
                assert(m3[i] == m3.drop_last()[i]);
            }
        }
    }
    let Gather { plain, html, attachments } = g;
    let body = match plain {
        Some(t) => t,
        None => match html {
            Some(h) => match html_markdown(h.as_str()) {
                Some(md) => md,
                None => h,
            },
            None => String::new(),
        },
    };
    Ok(ImportedEntry { title, date: when, body, metadata, attachments })
}

/// Parses a single `.eml` message into an entry: an error when `mailparse`
/// cannot parse the bytes, else the message it reads made into an entry as
/// [`entry_from_message`] says.
pub fn parse_eml(bytes: &[u8]) -> (r: Result<ImportedEntry, String>)
    ensures
        match mail_parse_error_of(bytes@) {
            Some(e) => r matches Err(x) && x@ == "Failed to parse email: "@ + e,
            None => exists|m: MailMessage| #[trigger] message_read(m, bytes@) && message_entry(m, r),
        },
{
    match mail_parse_error(bytes) {
        Some(e) => Err(prefixed("Failed to parse email: ", e.as_str())),
        None => {
            let m = message_of(bytes);
            let ghost gm = m;
            let r = entry_from_message(m);
            assert(message_read(gm, bytes@) && message_entry(gm, r));
            r
        },
    }
}

/// A content part whose `Content-Disposition` starts with `attachment`
/// (in any case) is gathered as an attachment whenever it has bytes,
/// whatever its MIME type: one attachment is added, holding those bytes,
/// its lower-cased MIME type and its name, and neither body is touched.
pub proof fn law_attachment_disposition_is_gathered(p: MailPart, g: Gathered)
    requires
        starts_with(unicode_lowercase(or_empty(p.disposition)), "attachment"@),
        p.data matches Ok(d) && d@.len() > 0,
    ensures
        read_part(p, g) matches Ok(g2) && g2.attachments == g.attachments.push(
            (attachment_name(p, g.attachments.len()), unicode_lowercase(p.mimetype@), p.data->Ok_0@),
        ) && g2.plain == g.plain && g2.html == g.html,
{
}

/// A content part of a type other than `text/…` or `multipart/…` is
/// gathered as an attachment whenever it has bytes, whatever its
/// disposition.
pub proof fn law_non_text_part_is_gathered(p: MailPart, g: Gathered)
    requires
        !starts_with(unicode_lowercase(p.mimetype@), "text/"@),
        !starts_with(unicode_lowercase(p.mimetype@), "multipart/"@),
        p.data matches Ok(d) && d@.len() > 0,
    ensures
        read_part(p, g) matches Ok(g2) && g2.attachments == g.attachments.push(
            (attachment_name(p, g.attachments.len()), unicode_lowercase(p.mimetype@), p.data->Ok_0@),
        ) && g2.plain == g.plain && g2.html == g.html,
{
}

/// An inline `text/plain` or `text/html` content part is a body, never an
/// attachment: the first part of each kind gives that body, a later one of
/// the same kind is passed over, and the attachments stay as they were.
pub proof fn law_inline_text_part_is_body(p: MailPart, g: Gathered)
    requires
        !starts_with(unicode_lowercase(or_empty(p.disposition)), "attachment"@),
        unicode_lowercase(p.mimetype@) == "text/plain"@ || unicode_lowercase(p.mimetype@) == "text/html"@,
        p.text is Ok,
    ensures
        read_part(p, g) matches Ok(g2) && g2.attachments == g.attachments && (if unicode_lowercase(p.mimetype@)
            == "text/plain"@ {
            g2.html == g.html && g2.plain == (if g.plain is None {
                Some(p.text->Ok_0@)
            } else {
                g.plain
            })
        } else {
            g2.plain == g.plain && g2.html == (if g.html is None {
                Some(p.text->Ok_0@)
            } else {
                g.html
            })
        }),
{
    let ct = unicode_lowercase(p.mimetype@);
    reveal_strlit("text/plain");
    reveal_strlit("text/html");
    reveal_strlit("text/");
    reveal_strlit("multipart/");
    assert(ct.subrange(0, 5) =~= "text/"@);
    assert(!starts_with(ct, "multipart/"@)) by {
        if ct.len() >= 10 {
            assert(ct.subrange(0, 10)[0] != "multipart/"@[0]);
        }
    }
}

/// Reading more parts only adds to what was gathered: the attachments
/// gathered before stay first, in order, and a body once found is kept.
pub proof fn law_gathering_only_grows(ps: Seq<MailPart>, g: Gathered)
    ensures
        read_parts(ps, g) matches Ok(g2) ==> g.attachments.len() <= g2.attachments.len()
            && g2.attachments.subrange(0, g.attachments.len() as int) == g.attachments && (g.plain is Some
            ==> g2.plain == g.plain) && (g.html is Some ==> g2.html == g.html),
    decreases ps.len(),
{
    if ps.len() > 0 {
        if let Ok(g1) = read_part(ps[0], g) {
            law_gathering_only_grows(ps.drop_first(), g1);
            if let Ok(g2) = read_parts(ps, g) {
                assert(g1.attachments.subrange(0, g.attachments.len() as int) =~= g.attachments);
                assert(g2.attachments.subrange(0, g.attachments.len() as int) =~= g1.attachments.subrange(
                    0,
                    g1.attachments.len() as int,
                ).subrange(0, g.attachments.len() as int));
            }
        }
    } else {
        assert(g.attachments.subrange(0, g.attachments.len() as int) =~= g.attachments);
    }
}

} // verus!
