//! Filesystem decorators and the naming rules the workspace keeps for
//! files on disk.

use vstd::prelude::*;
use sha2::Digest;
use crate::text::{chars_of, ends_with, has_suffix, string_of, v3};

pub mod async_fs;
pub mod crdt_fs;

verus! {

/// Whether `p` is the name of a temporary file of the safe-write process:
/// it ends with `.tmp`, `.bak` or `.swap`.
pub open spec fn is_temp_spec(p: Seq<char>) -> bool {
    ends_with(p, ".tmp"@) || ends_with(p, ".bak"@) || ends_with(p, ".swap"@)
}

/// Whether the path refers to a temporary file created by the metadata
/// writer's safe-write process (`.tmp`, `.bak`, `.swap`). Such files are
/// left out of workspace trees and sync.
pub fn is_temp_file(path: &str) -> (r: bool)
    ensures
        r == is_temp_spec(path@),
{
    let p = chars_of(path);
    has_suffix(&p, &chars_of(".tmp")) || has_suffix(&p, &chars_of(".bak")) || has_suffix(
        &p,
        &chars_of(".swap"),
    )
}

/// The temporary file a safe write first writes for `path`: `path.tmp`.
pub fn temp_path_for(path: &str) -> (r: String)
    ensures
        r@ == path@ + ".tmp"@,
{
    let mut out = chars_of(path);
    crate::text::extend_chars(&mut out, &chars_of(".tmp"));
    string_of(&out)
}

/// The backup a safe write keeps of `path` while it replaces it:
/// `path.bak`.
pub fn backup_path_for(path: &str) -> (r: String)
    ensures
        r@ == path@ + ".bak"@,
{
    let mut out = chars_of(path);
    crate::text::extend_chars(&mut out, &chars_of(".bak"));
    string_of(&out)
}

/// The temporary and backup files of a safe write are recognised as
/// temporary files, whatever path they are made for.
pub proof fn law_safe_write_names_are_temp(path: Seq<char>)
    ensures
        is_temp_spec(path + ".tmp"@),
        is_temp_spec(path + ".bak"@),
{
    reveal_strlit(".tmp");
    reveal_strlit(".bak");
    let t = path + ".tmp"@;
    let b = path + ".bak"@;
    assert(t.subrange(t.len() - 4, t.len() as int) =~= ".tmp"@);
    assert(b.subrange(b.len() - 4, b.len() as int) =~= ".bak"@);
}

/// The SHA-256 digest of some bytes.
pub uninterp spec fn sha256_of(bytes: Seq<u8>) -> Seq<u8>;

/// `sha2::Sha256::digest`: the SHA-256 digest of the bytes, 32 bytes long.
/// The digest is named `sha256_of` of the bytes; the hash function itself
/// is not stated.
#[verifier::external_body]
fn sha256_digest(bytes: &[u8]) -> (d: Vec<u8>)
    ensures
        d@ == sha256_of(bytes@),
        d@.len() == 32,
{
    sha2::Sha256::digest(bytes).to_vec()
}

/// The lower-case hexadecimal digit for `d` (below 16).
pub open spec fn hex_digit_lower(d: nat) -> char {
    if d < 10 {
        (('0' as nat) + d) as char
    } else {
        (('a' as nat) + d - 10) as char
    }
}

/// Bytes as lower-case hexadecimal, two digits per byte.
pub open spec fn hex_lower(bs: Seq<u8>) -> Seq<char>
    decreases bs.len(),
{
    if bs.len() == 0 {
        Seq::empty()
    } else {
        hex_lower(bs.drop_last()) + seq![
            hex_digit_lower((bs.last() / 16) as nat),
            hex_digit_lower((bs.last() % 16) as nat),
        ]
    }
}

/// The digit character for `d` (below 16).
fn hex_char(d: u8) -> (c: char)
    requires
        d < 16,
    ensures
        c == hex_digit_lower(d as nat),
{
    if d < 10 {
        (48u8 + d) as char
    } else {
        (87u8 + d) as char
    }
}

/// The SHA-256 hash of some bytes as lower-case hexadecimal, 64 digits (the
/// hash of a file's content).
pub fn sha256_hex(bytes: &[u8]) -> (r: String)
    ensures
        r@ == hex_lower(sha256_of(bytes@)),
        r@.len() == 64,
{
    let d = sha256_digest(bytes);
    let mut out: Vec<char> = Vec::new();
    let mut i: usize = 0;
    while i < d.len()
        invariant
            i <= d@.len(),
            out@ == hex_lower(d@.take(i as int)),
            out@.len() == 2 * i,
        decreases d.len() - i,
    {
        assert(d@.take(i + 1).drop_last() =~= d@.take(i as int));
        let b = d[i];
        out.push(hex_char(b / 16));
        out.push(hex_char(b % 16));
        i += 1;
    }
    assert(d@.take(d@.len() as int) =~= d@);
    string_of(&out)
}

} // verus!
