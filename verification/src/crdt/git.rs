//! Settings of the git history of a workspace.

use vstd::prelude::*;
use crate::text::owned;
use crate::crdt::materialize::{export_path, export_path_exec};
use crate::crdt::sanity::{body_key, lookup, lookup_exec, BodyDocs, WorkspaceListing};
use crate::text::{chars_of, extend_chars, string_of};

verus! {

/// Options for a workspace commit.
#[derive(Debug, Clone)]
pub struct CommitOptions {
    /// Commit message; a timestamp message is generated when absent.
    pub message: Option<String>,
    /// Author name for the commit.
    pub author_name: String,
    /// Author email for the commit.
    pub author_email: String,
    /// Number of CRDT updates to keep after compaction (0 = compact all).
    pub keep_updates: usize,
    /// Whether to skip validation before committing.
    pub skip_validation: bool,
}

impl Default for CommitOptions {
    /// No message, author `Diaryx <noreply@diaryx.app>`, compact all,
    /// validate.
    fn default() -> (r: Self)
        ensures
            r.message is None,
            r.author_name@ == "Diaryx"@,
            r.author_email@ == "noreply@diaryx.app"@,
            r.keep_updates == 0,
            !r.skip_validation,
    {
        CommitOptions {
            message: None,
            author_name: owned("Diaryx"),
            author_email: owned("noreply@diaryx.app"),
            keep_updates: 0,
            skip_validation: false,
        }
    }
}

/// Whether to create a standard or bare repository.
#[derive(Debug, Clone, Copy, PartialEq, Eq, Structural)]
pub enum RepoKind {
    /// Standard repository with a working directory (CLI workspaces).
    Standard,
    /// Bare repository without a working directory (server-side storage).
    Bare,
}

/// The body documents that compacting a workspace compacts, from the first
/// `n` listed files: for each file that is not deleted and has a path (its
/// key when that is a path, else its resolved path), the body key
/// `body:<workspace>/<path>` when a body document is stored under it.
pub open spec fn compaction_targets_spec(
    listing: WorkspaceListing,
    docs: Seq<(String, String)>,
    workspace_id: Seq<char>,
    n: nat,
) -> Seq<Seq<char>>
    decreases n,
{
    if n == 0 {
        Seq::empty()
    } else {
        let r = compaction_targets_spec(listing, docs, workspace_id, (n - 1) as nat);
        let (key, meta) = listing.files@[n - 1];
        if meta.deleted {
            r
        } else {
            match export_path(key@, listing) {
                Some(p) => if lookup(docs, body_key(workspace_id, p)) is Some {
                    r.push(body_key(workspace_id, p))
                } else {
                    r
                },
                None => r,
            }
        }
    }
}

/// The body documents to compact after a commit, in listing order (see
/// [`compaction_targets_spec`]); the workspace document itself is always
/// compacted as well.
pub fn compaction_targets(listing: &WorkspaceListing, bodies: &BodyDocs, workspace_id: &str) -> (r: Vec<
    String,
>)
    ensures
        r@.map_values(|s: String| s@) == compaction_targets_spec(
            *listing,
            bodies.docs@,
            workspace_id@,
            listing.files@.len(),
        ),
{
    let mut out: Vec<String> = Vec::new();
    let mut i: usize = 0;
    while i < listing.files.len()
        invariant
            i <= listing.files.len(),
            out@.map_values(|s: String| s@) == compaction_targets_spec(
                *listing,
                bodies.docs@,
                workspace_id@,
                i as nat,
            ),
        decreases listing.files.len() - i,
    {
        let ghost before = out@;
        if !listing.files[i].1.deleted {
            match export_path_exec(listing.files[i].0.as_str(), listing) {
                Some(p) => {
                    let mut bk = chars_of("body:");
                    extend_chars(&mut bk, &chars_of(workspace_id));
                    extend_chars(&mut bk, &chars_of("/"));
                    extend_chars(&mut bk, &chars_of(p.as_str()));
                    assert(bk@ == body_key(workspace_id@, p@));
                    if lookup_exec(&bodies.docs, &bk).is_some() {
                        out.push(string_of(&bk));
                        assert(out@.map_values(|s: String| s@) =~= before.map_values(|s: String| s@).push(bk@));
                    }
                },
                None => {},
            }
        }
        i += 1;
    }
    out
}

} // verus!
