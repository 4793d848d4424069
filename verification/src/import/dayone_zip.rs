//! Day One ZIP exports: the journal file at the root of the archive, the
//! index of its media files by identifier, and the media each entry's
//! items resolve to.

use vstd::prelude::*;
use std::io::Read;
use crate::import::dayone::{file_stem, file_stem_spec, listed, media_of, normalize_media_key, DayOneEntry, DayOneMedia};
use crate::import::directory::{file_name, get, get_exec, last_segment, path_pairs, put, put_exec};
use crate::text::{
    ascii_lower, chars_of, contains_char, ends_with, extend_chars, has_prefix, has_suffix, slice_chars,
    starts_with, string_of, trim,
};

verus! {

// ---------------------------------------------------------------------------
// The archive as `zip` reads it
// ---------------------------------------------------------------------------

/// The entries `zip` lists in an archive, in order: each entry's name and
/// whether it is a folder, or nothing when the entry cannot be read; the
/// error's text when the archive does not open.
pub uninterp spec fn zip_listing_of(bytes: Seq<u8>) -> Result<Seq<Option<(Seq<char>, bool)>>, Seq<char>>;

/// `zip::ZipArchive::new` on the bytes, then `by_index_raw` with `name`
/// and `is_dir` for each entry. Its answer is taken to be a function of the
/// bytes alone, named `zip_listing_of`; the ZIP format is not stated.
#[verifier::external_body]
fn zip_listing(bytes: &[u8]) -> (r: Result<Vec<Option<(String, bool)>>, String>)
    ensures
        match r {
            Ok(v) => zip_listing_of(bytes@) == Ok::<Seq<Option<(Seq<char>, bool)>>, Seq<char>>(listing_view(v@)),
            Err(e) => zip_listing_of(bytes@) == Err::<Seq<Option<(Seq<char>, bool)>>, Seq<char>>(e@),
        },
{
    let mut archive = zip::ZipArchive::new(std::io::Cursor::new(bytes)).map_err(|e| e.to_string())?;
    let mut out = Vec::new();
    for i in 0..archive.len() {
        out.push(match archive.by_index_raw(i) {
            Ok(f) => f.name().ok().map(|n| (n.to_string(), f.is_dir())),
            Err(_) => None,
        });
    }
    Ok(out)
}

/// The bytes of the archive's entry at `index`, or the error's text, marked
/// `true` when the entry could not be opened and `false` when its data
/// could not be read.
pub uninterp spec fn zip_entry_data_of(bytes: Seq<u8>, index: usize) -> Result<Seq<u8>, (bool, Seq<char>)>;

/// `zip::ZipArchive::by_index` then `read_to_end`. Its answer is taken to
/// be a function of the bytes and the index, named `zip_entry_data_of`.
#[verifier::external_body]
fn zip_entry_data(bytes: &[u8], index: usize) -> (r: Result<Vec<u8>, (bool, String)>)
    ensures
        match r {
            Ok(d) => zip_entry_data_of(bytes@, index) == Ok::<Seq<u8>, (bool, Seq<char>)>(d@),
            Err((opened, e)) => zip_entry_data_of(bytes@, index) == Err::<Seq<u8>, (bool, Seq<char>)>((opened, e@)),
        },
{
    let mut archive = zip::ZipArchive::new(std::io::Cursor::new(bytes)).map_err(|e| (true, e.to_string()))?;
    let mut entry = archive.by_index(index).map_err(|e| (true, e.to_string()))?;
    let mut buf = Vec::new();
    entry.read_to_end(&mut buf).map_err(|e| (false, e.to_string()))?;
    Ok(buf)
}

/// The bytes of the archive's entry named `name`, when it can be read.
pub uninterp spec fn zip_member_of(bytes: Seq<u8>, name: Seq<char>) -> Option<Seq<u8>>;

/// `zip::ZipArchive::by_name` then `read_to_end`. Its answer is taken to be
/// a function of the bytes and the name, named `zip_member_of`.
#[verifier::external_body]
fn zip_member(bytes: &[u8], name: &str) -> (r: Option<Vec<u8>>)
    ensures
        match r {
            Some(d) => zip_member_of(bytes@, name@) == Some(d@),
            None => zip_member_of(bytes@, name@) is None,
        },
{
    let mut archive = zip::ZipArchive::new(std::io::Cursor::new(bytes)).ok()?;
    let mut entry = archive.by_name(name).ok()?;
    let mut buf = Vec::new();
    entry.read_to_end(&mut buf).ok()?;
    Some(buf)
}

/// A listing as text.
pub open spec fn listing_view(v: Seq<Option<(String, bool)>>) -> Seq<Option<(Seq<char>, bool)>> {
    v.map_values(
        |e: Option<(String, bool)>|
            match e {
                Some((n, d)) => Some((n@, d)),
                None => None,
            },
    )
}

// ---------------------------------------------------------------------------
// The journal and the media index
// ---------------------------------------------------------------------------

/// Whether an archive entry is a `.json` file at the root.
pub open spec fn is_root_json(name: Seq<char>) -> bool {
    !name.contains('/') && ends_with(name, ".json"@)
}

/// A name with every trailing `.json` removed.
pub open spec fn strip_json(name: Seq<char>) -> Seq<char>
    decreases name.len(),
{
    if ends_with(name, ".json"@) && ".json"@.len() > 0 {
        strip_json(name.subrange(0, name.len() - ".json"@.len()))
    } else {
        name
    }
}

/// Where the first root-level `.json` file stands in a listing.
pub open spec fn root_json_at(l: Seq<Option<(Seq<char>, bool)>>) -> Option<int>
    decreases l.len(),
{
    if l.len() == 0 {
        None
    } else if l[0] matches Some((n, _)) && is_root_json(n) {
        Some(0)
    } else {
        match root_json_at(l.drop_first()) {
            Some(i) => Some(i + 1),
            None => None,
        }
    }
}

/// Where the first root-level `.json` file stands, one stands.
proof fn lemma_root_json_at(l: Seq<Option<(Seq<char>, bool)>>)
    ensures
        root_json_at(l) matches Some(i) ==> 0 <= i < l.len() && (l[i] matches Some((n, _)) && is_root_json(n)),
    decreases l.len(),
{
    if l.len() > 0 {
        lemma_root_json_at(l.drop_first());
    }
}

/// Whether an archive entry lies in one of Day One's media folders.
pub open spec fn in_media_dir(name: Seq<char>) -> bool {
    starts_with(name, "photos/"@) || starts_with(name, "videos/"@) || starts_with(name, "audios/"@)
        || starts_with(name, "pdfs/"@)
}

/// A media key compared loosely: trimmed, ASCII lower case.
pub open spec fn loose_key(s: Seq<char>) -> Seq<char> {
    trim(s).map_values(|c: char| ascii_lower(c))
}

/// The key a media file is found by: its filename's stem, compared loosely.
pub open spec fn media_key(name: Seq<char>) -> Seq<char> {
    loose_key(file_stem_spec(last_segment(name)))
}

/// The media files of a listing by key: each file in a media folder, under
/// its key; a later file with the same key replaces an earlier one.
pub open spec fn media_index_of(l: Seq<Option<(Seq<char>, bool)>>) -> Seq<(Seq<char>, Seq<char>)>
    decreases l.len(),
{
    if l.len() == 0 {
        Seq::empty()
    } else {
        let prev = media_index_of(l.drop_last());
        match l.last() {
            Some((n, is_dir)) => if !is_dir && in_media_dir(n) {
                put(prev, media_key(n), n)
            } else {
                prev
            },
            None => prev,
        }
    }
}

/// Whether `name` ends with `.json`.
fn ends_with_json(name: &Vec<char>) -> (r: bool)
    ensures
        r == ends_with(name@, ".json"@),
{
    has_suffix(name, &chars_of(".json"))
}

/// A name with every trailing `.json` removed.
fn strip_json_exec(name: &str) -> (r: String)
    ensures
        r@ == strip_json(name@),
{
    let mut n = chars_of(name);
    proof {
        reveal_strlit(".json");
    }
    while ends_with_json(&n)
        invariant
            strip_json(n@) == strip_json(name@),
            ".json"@.len() == 5,
        decreases n.len(),
    {
        n = slice_chars(&n, 0, n.len() - 5);
    }
    string_of(&n)
}

/// Where the first root-level `.json` file stands in a listing.
fn root_json_exec(l: &Vec<Option<(String, bool)>>) -> (r: Option<usize>)
    ensures
        match r {
            Some(i) => root_json_at(listing_view(l@)) == Some(i as int) && i < l@.len(),
            None => root_json_at(listing_view(l@)) is None,
        },
{
    let ghost lv = listing_view(l@);
    let mut i: usize = 0;
    assert(lv.skip(0) =~= lv);
    while i < l.len()
        invariant
            i <= l@.len(),
            lv == listing_view(l@),
            root_json_at(lv) == (match root_json_at(lv.skip(i as int)) {
                Some(j) => Some(j + i),
                None => None,
            }),
        decreases l.len() - i,
    {
        let ghost rest = lv.skip(i as int);
        assert(rest.drop_first() =~= lv.skip(i + 1));
        assert(rest[0] == lv[i as int]);
        match &l[i] {
            Some((n, _)) => {
                let c = chars_of(n.as_str());
                if !contains_char(&c, '/') && ends_with_json(&c) {
                    return Some(i);
                }
            },
            None => {},
        }
        i += 1;
    }
    None
}

/// Whether an archive entry lies in one of Day One's media folders.
fn in_media_dir_exec(name: &str) -> (r: bool)
    ensures
        r == in_media_dir(name@),
{
    let c = chars_of(name);
    has_prefix(&c, &chars_of("photos/")) || has_prefix(&c, &chars_of("videos/")) || has_prefix(
        &c,
        &chars_of("audios/"),
    ) || has_prefix(&c, &chars_of("pdfs/"))
}

/// The key a media file is found by.
fn media_key_exec(name: &str) -> (r: String)
    ensures
        r@ == media_key(name@),
{
    normalize_media_key(file_stem(file_name(name).as_str()).as_str())
}

/// The media files of a listing by key (see [`media_index_of`]).
fn media_index(l: &Vec<Option<(String, bool)>>) -> (r: Vec<(String, String)>)
    ensures
        path_pairs(r@) == media_index_of(listing_view(l@)),
{
    let ghost lv = listing_view(l@);
    let mut out: Vec<(String, String)> = Vec::new();
    let mut i: usize = 0;
    assert(lv.take(0) =~= Seq::<Option<(Seq<char>, bool)>>::empty());
    while i < l.len()
        invariant
            i <= l@.len(),
            lv == listing_view(l@),
            path_pairs(out@) == media_index_of(lv.take(i as int)),
        decreases l.len() - i,
    {
        assert(lv.take(i + 1).drop_last() =~= lv.take(i as int));
        assert(lv.take(i + 1).last() == lv[i as int]);
        match &l[i] {
            Some((n, is_dir)) => {
                if !*is_dir && in_media_dir_exec(n.as_str()) {
                    put_exec(&mut out, media_key_exec(n.as_str()), n.clone());
                }
            },
            None => {},
        }
        i += 1;
    }
    assert(lv.take(l@.len() as int) =~= lv);
    out
}

// ---------------------------------------------------------------------------
// Resolving media
// ---------------------------------------------------------------------------

/// The keys a media item is looked up by, in order: its identifier, its
/// MD5, the stem of its filename, each when it is there and not empty.
pub open spec fn lookup_keys(item: DayOneMedia) -> Seq<Seq<char>> {
    let a = match item.identifier {
        Some(x) => if x@.len() > 0 {
            seq![x@]
        } else {
            Seq::empty()
        },
        None => Seq::empty(),
    };
    let b = match item.md5 {
        Some(x) => if x@.len() > 0 {
            a.push(x@)
        } else {
            a
        },
        None => a,
    };
    match item.filename {
        Some(f) => if file_stem_spec(f@).len() > 0 {
            b.push(file_stem_spec(f@))
        } else {
            b
        },
        None => b,
    }
}

/// The media file the first of `keys` that finds a readable file resolves
/// to: its filename and bytes.
pub open spec fn resolve_keys(bytes: Seq<u8>, index: Seq<(Seq<char>, Seq<char>)>, keys: Seq<Seq<char>>) -> Option<
    (Seq<char>, Seq<u8>),
>
    decreases keys.len(),
{
    if keys.len() == 0 {
        None
    } else {
        match get(index, loose_key(keys[0])) {
            Some(p) => match zip_member_of(bytes, p) {
                Some(d) => Some((last_segment(p), d)),
                None => resolve_keys(bytes, index, keys.drop_first()),
            },
            None => resolve_keys(bytes, index, keys.drop_first()),
        }
    }
}

/// A resolved media file as text and bytes.
pub open spec fn found_view(f: Option<(String, Vec<u8>)>) -> Option<(Seq<char>, Seq<u8>)> {
    match f {
        Some((n, d)) => Some((n@, d@)),
        None => None,
    }
}

/// The keys a media item is looked up by.
fn lookup_keys_exec(item: &DayOneMedia) -> (r: Vec<String>)
    ensures
        r@.map_values(|s: String| s@) == lookup_keys(*item),
{
    let mut out: Vec<String> = Vec::new();
    match &item.identifier {
        Some(x) => {
            if chars_of(x.as_str()).len() > 0 {
                out.push(x.clone());
            }
        },
        None => {},
    }
    let ghost a = out@.map_values(|s: String| s@);
    match &item.md5 {
        Some(x) => {
            if chars_of(x.as_str()).len() > 0 {
                out.push(x.clone());
                assert(out@.map_values(|s: String| s@) =~= a.push(x@));
            }
        },
        None => {},
    }
    let ghost b = out@.map_values(|s: String| s@);
    match &item.filename {
        Some(f) => {
            let st = file_stem(f.as_str());
            if chars_of(st.as_str()).len() > 0 {
                out.push(st);
                assert(out@.map_values(|s: String| s@) =~= b.push(file_stem_spec(f@)));
            }
        },
        None => {},
    }
    assert(out@.map_values(|s: String| s@) =~= lookup_keys(*item));
    out
}

/// The media file an item resolves to in the archive (see
/// [`resolve_keys`]).
pub fn resolve_media(bytes: &[u8], index: &Vec<(String, String)>, item: &DayOneMedia) -> (r: Option<(String, Vec<u8>)>)
    ensures
        found_view(r) == resolve_keys(bytes@, path_pairs(index@), lookup_keys(*item)),
{
    let keys = lookup_keys_exec(item);
    let ghost ks = lookup_keys(*item);
    let mut i: usize = 0;
    assert(ks.skip(0) =~= ks);
    while i < keys.len()
        invariant
            i <= keys@.len(),
            keys@.map_values(|s: String| s@) == ks,
            ks == lookup_keys(*item),
            resolve_keys(bytes@, path_pairs(index@), ks) == resolve_keys(bytes@, path_pairs(index@), ks.skip(i as int)),
        decreases keys.len() - i,
    {
        let ghost rest = ks.skip(i as int);
        assert(rest[0] == keys@[i as int]@);
        assert(rest.drop_first() =~= ks.skip(i + 1));
        let k = normalize_media_key(keys[i].as_str());
        match get_exec(index, k.as_str()) {
            Some(p) => match zip_member(bytes, p.as_str()) {
                Some(d) => {
                    assert(k@ == loose_key(rest[0]));
                    assert(resolve_keys(bytes@, path_pairs(index@), rest) == Some((last_segment(p@), d@)));
                    let name = file_name(p.as_str());
                    let ghost dv = d@;
                    let res = Some((name, d));
                    assert(found_view(res) == Some((last_segment(p@), dv)));
                    return res;
                },
                None => {},
            },
            None => {},
        }
        i += 1;
    }
    None
}

/// Appends what each item of a media list resolves to.
fn resolve_list(
    bytes: &[u8],
    index: &Vec<(String, String)>,
    list: &Option<Vec<DayOneMedia>>,
    out: &mut Vec<Option<(String, Vec<u8>)>>,
)
    ensures
        final(out)@.len() == old(out)@.len() + listed(*list).len(),
        forall|j: int| 0 <= j < old(out)@.len() ==> #[trigger] final(out)@[j] == old(out)@[j],
        forall|j: int|
            0 <= j < listed(*list).len() ==> found_view(#[trigger] final(out)@[old(out)@.len() + j])
                == resolve_keys(bytes@, path_pairs(index@), lookup_keys(listed(*list)[j])),
{
    match list {
        Some(items) => {
            let ghost o0 = out@;
            let mut i: usize = 0;
            while i < items.len()
                invariant
                    i <= items@.len(),
                    out@.len() == o0.len() + i,
                    forall|j: int| 0 <= j < o0.len() ==> #[trigger] out@[j] == o0[j],
                    forall|j: int|
                        0 <= j < i ==> found_view(#[trigger] out@[o0.len() + j]) == resolve_keys(
                            bytes@,
                            path_pairs(index@),
                            lookup_keys(items@[j]),
                        ),
                decreases items.len() - i,
            {
                out.push(resolve_media(bytes, index, &items[i]));
                i += 1;
            }
        },
        None => {},
    }
}

/// What each media item of an entry (photos, videos, audios, then PDFs)
/// resolves to in the archive.
pub fn resolve_entry_media(bytes: &[u8], index: &Vec<(String, String)>, entry: &DayOneEntry) -> (r: Vec<
    Option<(String, Vec<u8>)>,
>)
    ensures
        r@.len() == media_of(*entry).len(),
        forall|i: int|
            0 <= i < r@.len() ==> found_view(#[trigger] r@[i]) == resolve_keys(
                bytes@,
                path_pairs(index@),
                lookup_keys(media_of(*entry)[i]),
            ),
{
    let mut out: Vec<Option<(String, Vec<u8>)>> = Vec::new();
    resolve_list(bytes, index, &entry.photos, &mut out);
    let ghost o1 = out@;
    resolve_list(bytes, index, &entry.videos, &mut out);
    let ghost o2 = out@;
    resolve_list(bytes, index, &entry.audios, &mut out);
    let ghost o3 = out@;
    resolve_list(bytes, index, &entry.pdf_attachments, &mut out);
    proof {
        let (p, v, a, d) = (listed(entry.photos), listed(entry.videos), listed(entry.audios), listed(entry.pdf_attachments));
        let all = media_of(*entry);
        assert(all == p + v + a + d);
        assert forall|i: int| 0 <= i < out@.len() implies found_view(#[trigger] out@[i]) == resolve_keys(
            bytes@,
            path_pairs(index@),
            lookup_keys(all[i]),
        ) by {
            let ix = path_pairs(index@);
            if i < p.len() {
                assert(all[i] == p[i]);
                assert(o1[i] == o2[i] && o2[i] == o3[i] && o3[i] == out@[i]);
                assert(found_view(o1[0 + i]) == resolve_keys(bytes@, ix, lookup_keys(p[i])));
            } else if i < p.len() + v.len() {
                assert(all[i] == v[i - p.len()]);
                let j = i - p.len();
                assert(o2[o1.len() + j] == o3[i] && o3[i] == out@[i]);
                assert(found_view(o2[o1.len() + j]) == resolve_keys(bytes@, ix, lookup_keys(v[j])));
            } else if i < p.len() + v.len() + a.len() {
                assert(all[i] == a[i - p.len() - v.len()]);
                let j = i - p.len() - v.len();
                assert(o3[o2.len() + j] == out@[i]);
                assert(found_view(o3[o2.len() + j]) == resolve_keys(bytes@, ix, lookup_keys(a[j])));
            } else {
                assert(all[i] == d[i - p.len() - v.len() - a.len()]);
                let j = i - p.len() - v.len() - a.len();
                assert(out@[o3.len() + j] == out@[i]);
                assert(found_view(out@[o3.len() + j]) == resolve_keys(bytes@, ix, lookup_keys(d[j])));
            }
        }
    }
    out
}

// ---------------------------------------------------------------------------
// Opening an export
// ---------------------------------------------------------------------------

/// A Day One ZIP export opened: the journal's name (its file's name without
/// `.json`), the journal's JSON, and the media files by key.
pub struct DayOneZip {
    pub journal_name: Option<String>,
    pub journal_json: Vec<u8>,
    pub media_index: Vec<(String, String)>,
}

/// Whether `r` is what opening the export `bytes` gives: the archive's
/// first root-level `.json` file and its media index, or the error on the
/// way.
pub open spec fn opened_as(bytes: Seq<u8>, r: Result<DayOneZip, String>) -> bool {
    match zip_listing_of(bytes) {
        Err(e) => r matches Err(x) && x@ == "Failed to open ZIP archive: "@ + e,
        Ok(l) => match root_json_at(l) {
            None => r matches Err(x) && x@ == "ZIP archive does not contain a .json file at the root level"@,
            Some(i) => match zip_entry_data_of(bytes, i as usize) {
                Err((true, e)) => r matches Err(x) && x@ == "Failed to read JSON file from ZIP: "@ + e,
                Err((false, e)) => r matches Err(x) && x@ == "Failed to read JSON file: "@ + e,
                Ok(d) => r matches Ok(z) && {
                    &&& z.journal_json@ == d
                    &&& z.journal_name matches Some(n) && (l[i] matches Some((name, _)) && n@ == strip_json(name))
                    &&& path_pairs(z.media_index@) == media_index_of(l)
                },
            },
        },
    }
}

/// `prefix` followed by `e`.
fn prefixed(prefix: &str, e: &str) -> (r: String)
    ensures
        r@ == prefix@ + e@,
{
    let mut out = chars_of(prefix);
    extend_chars(&mut out, &chars_of(e));
    string_of(&out)
}

/// Opens a Day One ZIP export (see [`opened_as`]).
pub fn open_dayone_zip(bytes: &[u8]) -> (r: Result<DayOneZip, String>)
    ensures
        opened_as(bytes@, r),
{
    let listing = match zip_listing(bytes) {
        Ok(l) => l,
        Err(e) => {
            return Err(prefixed("Failed to open ZIP archive: ", e.as_str()));
        },
    };
    let i = match root_json_exec(&listing) {
        Some(i) => i,
        None => {
            return Err("ZIP archive does not contain a .json file at the root level".to_string());
        },
    };
    let ghost l = listing_view(listing@);
    proof {
        lemma_root_json_at(l);
    }
    assert(l[i as int] == (match listing@[i as int] {
        Some((n, d)) => Some((n@, d)),
        None => None,
    }));
    let name = match &listing[i] {
        Some((n, _)) => strip_json_exec(n.as_str()),
        None => String::new(),
    };
    let json = match zip_entry_data(bytes, i) {
        Ok(d) => d,
        Err((true, e)) => {
            return Err(prefixed("Failed to read JSON file from ZIP: ", e.as_str()));
        },
        Err((false, e)) => {
            return Err(prefixed("Failed to read JSON file: ", e.as_str()));
        },
    };
    let media_index = media_index(&listing);
    let r = Ok(DayOneZip { journal_name: Some(name), journal_json: json, media_index });
    proof {
        assert(zip_listing_of(bytes@) == Ok::<Seq<Option<(Seq<char>, bool)>>, Seq<char>>(l));
        assert(root_json_at(l) == Some(i as int));
        assert(zip_entry_data_of(bytes@, i) == Ok::<Seq<u8>, (bool, Seq<char>)>(json@));
        assert(l[i as int] matches Some((nm, _)) && name@ == strip_json(nm));
    }
    r
}

/// Whether an export is a ZIP archive: it starts with the bytes `PK`.
pub fn looks_like_zip(bytes: &[u8]) -> (r: bool)
    ensures
        r == (bytes@.len() >= 2 && bytes@[0] == 0x50 && bytes@[1] == 0x4B),
{
    bytes.len() >= 2 && bytes[0] == 0x50 && bytes[1] == 0x4B
}

} // verus!
