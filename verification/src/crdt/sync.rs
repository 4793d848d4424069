//! Sync client settings, the records of handled sync messages, and the
//! reconnection rules of the persistent sync loop.

use vstd::prelude::*;
use crate::text::{chars_eq, chars_of, extend_chars, has_prefix, slice_chars, starts_with, string_of};

verus! {

/// Reconnection configuration.
#[derive(Debug, Clone)]
pub struct ReconnectConfig {
    /// Whether to reconnect automatically on disconnect.
    pub enabled: bool,
    /// Maximum number of reconnection attempts (0 = no limit).
    pub max_attempts: u32,
    /// Base of the exponential backoff, in seconds.
    pub base_delay_secs: u64,
    /// Longest backoff delay, in seconds.
    pub max_delay_secs: u64,
}

impl Default for ReconnectConfig {
    /// Enabled, at most 10 attempts, delays `2^attempt` seconds up to 32.
    fn default() -> (r: Self)
        ensures
            r.enabled,
            r.max_attempts == 10,
            r.base_delay_secs == 2,
            r.max_delay_secs == 32,
    {
        ReconnectConfig { enabled: true, max_attempts: 10, base_delay_secs: 2, max_delay_secs: 32 }
    }
}

/// Configuration for the sync client.
#[derive(Debug, Clone)]
pub struct SyncClientConfig {
    /// Base server URL (e.g. `https://sync.diaryx.org`).
    pub server_url: String,
    /// Workspace ID to sync.
    pub workspace_id: String,
    /// Authentication token (session token or share token).
    pub auth_token: Option<String>,
    /// Reconnection configuration.
    pub reconnect: ReconnectConfig,
}

/// Statistics from a one-shot sync operation.
#[derive(Debug, Default)]
pub struct SyncStats {
    /// Number of items pushed to the server.
    pub pushed: usize,
    /// Number of items pulled from the server.
    pub pulled: usize,
}

/// Result of handling a sync message.
#[derive(Debug)]
pub struct SyncMessageResult {
    /// Response bytes to send back to the server, if any.
    pub response: Option<Vec<u8>>,
    /// Paths of the files this message changed.
    pub changed_files: Vec<String>,
    /// Whether the initial sync is now complete.
    pub sync_complete: bool,
}

/// Result of handling a body sync message.
#[derive(Debug)]
pub struct BodySyncResult {
    /// Response bytes to send back to the server, if any.
    pub response: Option<Vec<u8>>,
    /// The new content if it changed.
    pub content: Option<String>,
    /// Whether this is an echo of our own update.
    pub is_echo: bool,
}

/// Events fed into a sync session from the platform layer.
#[derive(Debug)]
pub enum IncomingEvent {
    /// The WebSocket connected.
    Connected,
    /// A binary WebSocket message arrived.
    BinaryMessage(Vec<u8>),
    /// A text (JSON control) message arrived.
    TextMessage(String),
    /// A snapshot was downloaded and imported by the platform layer.
    SnapshotImported,
    /// The WebSocket disconnected.
    Disconnected,
    /// A local CRDT update to send to the server.
    LocalUpdate {
        /// The document ID (e.g. `workspace:xxx` or `body:xxx/path`).
        doc_id: String,
        /// The raw sync message bytes.
        data: Vec<u8>,
    },
}

// ---------------------------------------------------------------------------
// Handling a body message
// ---------------------------------------------------------------------------

/// What a body sync message led to, once its updates were applied.
#[derive(Debug, Clone)]
pub struct BodyOutcome {
    /// The body text changed.
    pub changed: bool,
    /// The new text is the one last sent from here: an echo of a local
    /// update.
    pub is_echo: bool,
    /// The new body is written to disk.
    pub write: bool,
    /// The new body, reported when it changed and is no echo.
    pub content: Option<String>,
}

/// What follows from a body message that turned the body `before` into
/// `after`: it changed when the texts differ; it is an echo when it
/// changed into `last_sent`, the text last sent for this document; it is
/// written to disk when writing is on and it changed without being an echo,
/// and the new content is reported in exactly that last case.
pub fn body_outcome(before: &str, after: &str, last_sent: Option<&str>, write_to_disk: bool) -> (o:
    BodyOutcome)
    ensures
        o.changed == (before@ != after@),
        o.is_echo == (o.changed && (last_sent matches Some(t) && t@ == after@)),
        o.write == (write_to_disk && o.changed && !o.is_echo),
        match o.content {
            Some(c) => o.changed && !o.is_echo && c@ == after@,
            None => !(o.changed && !o.is_echo),
        },
{
    let a = chars_of(after);
    let changed = !chars_eq(&chars_of(before), &a);
    let is_echo = changed && match last_sent {
        Some(t) => chars_eq(&chars_of(t), &a),
        None => false,
    };
    let fresh = changed && !is_echo;
    BodyOutcome {
        changed,
        is_echo,
        write: write_to_disk && fresh,
        content: if fresh {
            Some(after.to_string())
        } else {
            None
        },
    }
}

// ---------------------------------------------------------------------------
// Actions of a sync session
// ---------------------------------------------------------------------------

/// The events for the UI that routing a sync message emits.
#[derive(Debug, Clone)]
pub enum SyncEvent {
    /// Workspace metadata changed these files.
    FilesChanged {
        /// The paths of the changed files.
        files: Vec<String>,
    },
    /// The body of this file changed.
    BodyChanged {
        /// The path of the file.
        file_path: String,
    },
}

/// Actions a sync session hands the platform layer to execute.
#[derive(Debug, Clone)]
pub enum SessionAction {
    /// Send binary data over the WebSocket.
    SendBinary(Vec<u8>),
    /// Send text data over the WebSocket.
    SendText(String),
    /// Download a workspace snapshot, then report it imported.
    DownloadSnapshot {
        /// The workspace to download.
        workspace_id: String,
    },
    /// Emit an event to the UI.
    Emit(SyncEvent),
}

/// The actions that follow a handled body message, before the session's
/// own bookkeeping: the framed response is sent when there is one, and a
/// body change is reported for `path` when new content came that is no
/// echo.
pub fn body_result_actions(framed_response: Option<Vec<u8>>, path: &str, r: &BodySyncResult) -> (a:
    Vec<SessionAction>)
    ensures
        a@.len() == (if framed_response is Some {
            1int
        } else {
            0
        }) + (if r.content is Some && !r.is_echo {
            1int
        } else {
            0
        }),
        framed_response matches Some(f) ==> (a@[0] matches SessionAction::SendBinary(d) && d@ == f@),
        (r.content is Some && !r.is_echo) ==> (a@.last() matches SessionAction::Emit(
            SyncEvent::BodyChanged { file_path },
        ) && file_path@ == path@),
{
    let mut a: Vec<SessionAction> = Vec::new();
    match framed_response {
        Some(f) => a.push(SessionAction::SendBinary(f)),
        None => {},
    }
    if r.content.is_some() && !r.is_echo {
        a.push(SessionAction::Emit(SyncEvent::BodyChanged { file_path: path.to_string() }));
    }
    a
}

/// The actions that follow a handled workspace message, before the
/// session's own bookkeeping: the framed response is sent when there is
/// one, and the changed files are reported when there are any. The flag
/// says whether the initial sync completed, which makes the metadata ready.
pub fn workspace_result_actions(framed_response: Option<Vec<u8>>, r: &SyncMessageResult) -> (out: (
    Vec<SessionAction>,
    bool,
))
    ensures
        out.1 == r.sync_complete,
        out.0@.len() == (if framed_response is Some {
            1int
        } else {
            0
        }) + (if r.changed_files@.len() > 0 {
            1int
        } else {
            0
        }),
        framed_response matches Some(f) ==> (out.0@[0] matches SessionAction::SendBinary(d) && d@ == f@),
        r.changed_files@.len() > 0 ==> (out.0@.last() matches SessionAction::Emit(
            SyncEvent::FilesChanged { files },
        ) && files@ == r.changed_files@),
{
    let mut a: Vec<SessionAction> = Vec::new();
    match framed_response {
        Some(f) => a.push(SessionAction::SendBinary(f)),
        None => {},
    }
    if r.changed_files.len() > 0 {
        a.push(SessionAction::Emit(SyncEvent::FilesChanged { files: r.changed_files.clone() }));
    }
    (a, r.sync_complete)
}

// ---------------------------------------------------------------------------
// One-shot sync
// ---------------------------------------------------------------------------

/// The document an incoming one-shot sync message belongs to.
#[derive(Debug, Clone)]
pub enum OneShotDoc {
    /// The workspace metadata document.
    Workspace,
    /// The body document of the file at this path.
    Body(String),
    /// A document of neither kind.
    Unknown,
}

/// How far a one-shot sync has come: whether the workspace document was
/// answered, which body documents were (each path once), and the counts
/// of messages sent and changes pulled.
#[derive(Debug, Clone)]
pub struct OneShotProgress {
    /// A workspace message was handled.
    pub workspace_handled: bool,
    /// The paths whose body messages were handled, each once.
    pub bodies_handled: Vec<String>,
    /// Messages sent to the server.
    pub pushed: usize,
    /// Changes pulled from the server.
    pub pulled: usize,
}

/// No path occurs twice.
pub open spec fn paths_distinct(v: Seq<String>) -> bool {
    forall|i: int, j: int| 0 <= i < j < v.len() ==> #[trigger] v[i]@ != #[trigger] v[j]@
}

/// Whether some entry of `v` is `p`.
pub open spec fn has_path(v: Seq<String>, p: Seq<char>) -> bool {
    exists|i: int| 0 <= i < v.len() && #[trigger] v[i]@ == p
}

/// How long a one-shot sync waits for the exchange to finish, in seconds:
/// ten, plus one for each hundred files, at most sixty.
pub fn one_shot_timeout_secs(file_count: usize) -> (r: u64)
    ensures
        r == if 10 + file_count / 100 < 60 {
            10 + file_count / 100
        } else {
            60
        },
{
    let extra = file_count / 100;
    if extra < 50 {
        (10 + extra) as u64
    } else {
        60
    }
}

impl OneShotProgress {
    /// Nothing handled, sent or pulled yet.
    pub fn new() -> (r: Self)
        ensures
            !r.workspace_handled,
            r.bodies_handled@.len() == 0,
            r.pushed == 0,
            r.pulled == 0,
    {
        OneShotProgress { workspace_handled: false, bodies_handled: Vec::new(), pushed: 0, pulled: 0 }
    }

    /// Records the document of a message that arrived: the workspace is
    /// marked handled, a body path is added unless it is there already.
    pub fn record(&mut self, doc: &OneShotDoc)
        requires
            paths_distinct(old(self).bodies_handled@),
        ensures
            paths_distinct(final(self).bodies_handled@),
            final(self).workspace_handled == (old(self).workspace_handled || doc is Workspace),
            final(self).bodies_handled@ == match doc {
                OneShotDoc::Body(p) => if has_path(old(self).bodies_handled@, p@) {
                    old(self).bodies_handled@
                } else {
                    old(self).bodies_handled@.push(*p)
                },
                _ => old(self).bodies_handled@,
            },
            final(self).pushed == old(self).pushed,
            final(self).pulled == old(self).pulled,
    {
        match doc {
            OneShotDoc::Workspace => {
                self.workspace_handled = true;
            },
            OneShotDoc::Body(p) => {
                let pc = chars_of(p.as_str());
                let mut i: usize = 0;
                let mut found = false;
                while i < self.bodies_handled.len()
                    invariant
                        i <= self.bodies_handled.len(),
                        pc@ == p@,
                        found == (exists|j: int| 0 <= j < i && #[trigger] self.bodies_handled@[j]@ == p@),
                    decreases self.bodies_handled.len() - i,
                {
                    if chars_eq(&chars_of(self.bodies_handled[i].as_str()), &pc) {
                        found = true;
                    }
                    i += 1;
                }
                if !found {
                    let ghost before = self.bodies_handled@;
                    self.bodies_handled.push(p.clone());
                    proof {
                        assert(self.bodies_handled@ == before.push(*p));
                        assert forall|a: int, b: int|
                            0 <= a < b < self.bodies_handled@.len() implies #[trigger] self.bodies_handled@[a]@
                            != #[trigger] self.bodies_handled@[b]@ by {
                            if b == before.len() {
                                assert(self.bodies_handled@[a] == before[a]);
                            } else {
                                assert(self.bodies_handled@[a] == before[a]);
                                assert(self.bodies_handled@[b] == before[b]);
                            }
                        }
                    }
                }
            },
            OneShotDoc::Unknown => {},
        }
    }

    /// Counts the messages a handled message led to sending and the
    /// changes it pulled.
    pub fn count(&mut self, sent: usize, pulled: usize)
        requires
            old(self).pushed + sent <= usize::MAX,
            old(self).pulled + pulled <= usize::MAX,
        ensures
            final(self).pushed == old(self).pushed + sent,
            final(self).pulled == old(self).pulled + pulled,
            final(self).workspace_handled == old(self).workspace_handled,
            final(self).bodies_handled == old(self).bodies_handled,
    {
        self.pushed = self.pushed + sent;
        self.pulled = self.pulled + pulled;
    }

    /// The exchange is complete: the workspace was answered and at least as
    /// many body paths as there are files.
    pub fn is_done(&self, file_count: usize) -> (r: bool)
        ensures
            r == (self.workspace_handled && self.bodies_handled@.len() >= file_count),
    {
        self.workspace_handled && self.bodies_handled.len() >= file_count
    }
}

// ---------------------------------------------------------------------------
// Reconnection
// ---------------------------------------------------------------------------

/// What the persistent sync loop does before a connection attempt.
#[derive(Debug, Clone, Copy, PartialEq, Eq, Structural)]
pub enum ReconnectStep {
    /// The attempt limit is reached: stop.
    GiveUp,
    /// Connect right away (first attempt).
    Connect,
    /// Wait this many seconds, then connect.
    WaitThenConnect(u64),
}

/// `b` to the power `e`.
pub open spec fn pow(b: int, e: nat) -> int
    decreases e,
{
    if e == 0 {
        1
    } else {
        b * pow(b, (e - 1) as nat)
    }
}

/// The backoff delay for an attempt: `base^attempt`, capped at `max`.
pub open spec fn backoff_spec(base: u64, attempt: u32, max: u64) -> int {
    let p = pow(base as int, attempt as nat);
    if p < max {
        p
    } else {
        max as int
    }
}

/// What to do before connection attempt number `attempt` (0 for the first
/// connection, counting failed or dropped connections since the last
/// success): give up when a limit is set and reached, connect at once on
/// the first attempt, else wait the backoff delay.
pub open spec fn step_spec(rc: ReconnectConfig, attempt: u32) -> ReconnectStep {
    if rc.max_attempts > 0 && attempt >= rc.max_attempts {
        ReconnectStep::GiveUp
    } else if attempt == 0 {
        ReconnectStep::Connect
    } else {
        ReconnectStep::WaitThenConnect(backoff_spec(rc.base_delay_secs, attempt, rc.max_delay_secs) as u64)
    }
}

/// Powers of a base of at least one do not decrease.
proof fn lemma_pow_mono(b: int, i: nat, j: nat)
    requires
        b >= 1,
        i <= j,
    ensures
        pow(b, i) <= pow(b, j),
        pow(b, i) >= 1,
    decreases j - i,
{
    if i < j {
        lemma_pow_mono(b, i, (j - 1) as nat);
        lemma_pow_one(b, (j - 1) as nat);
        assert(pow(b, j) == b * pow(b, (j - 1) as nat));
        assert(b * pow(b, (j - 1) as nat) >= pow(b, (j - 1) as nat)) by (nonlinear_arith)
            requires
                b >= 1,
                pow(b, (j - 1) as nat) >= 1,
        ;
    } else {
        lemma_pow_one(b, i);
    }
}

/// Powers of a base of at least one are at least one.
proof fn lemma_pow_one(b: int, i: nat)
    requires
        b >= 1,
    ensures
        pow(b, i) >= 1,
    decreases i,
{
    if i > 0 {
        lemma_pow_one(b, (i - 1) as nat);
        assert(b * pow(b, (i - 1) as nat) >= 1) by (nonlinear_arith)
            requires
                b >= 1,
                pow(b, (i - 1) as nat) >= 1,
        ;
    }
}

/// The backoff delay `min(base^attempt, max)`, computed without overflow.
pub fn backoff_delay(base: u64, attempt: u32, max: u64) -> (d: u64)
    ensures
        d == backoff_spec(base, attempt, max),
{
    let mut acc: u64 = 1;
    let mut i: u32 = 0;
    if max == 0 {
        assert(pow(base as int, attempt as nat) >= 0) by {
            if base >= 1 {
                lemma_pow_one(base as int, attempt as nat);
            } else {
                lemma_pow_zero_base(attempt as nat);
            }
        }
        return 0;
    }
    while i < attempt
        invariant
            i <= attempt,
            acc == pow(base as int, i as nat),
            acc <= max,
        decreases attempt - i,
    {
        assert(pow(base as int, (i + 1) as nat) == base * pow(base as int, i as nat));
        assert(acc * base == base * acc) by (nonlinear_arith);
        match acc.checked_mul(base) {
            Some(next) => {
                assert(next == pow(base as int, (i + 1) as nat));
                if next > max {
                    proof {
                        assert(base >= 1) by (nonlinear_arith)
                            requires
                                next == acc * base,
                                next > max,
                                acc <= max,
                        ;
                        lemma_pow_mono(base as int, (i + 1) as nat, attempt as nat);
                    }
                    return max;
                }
                acc = next;
            },
            None => {
                proof {
                    assert(base >= 1) by (nonlinear_arith)
                        requires
                            acc * base > u64::MAX,
                            acc <= max,
                    ;
                    assert(pow(base as int, (i + 1) as nat) > max);
                    lemma_pow_mono(base as int, (i + 1) as nat, attempt as nat);
                }
                return max;
            },
        }
        i += 1;
    }
    acc
}

/// `0^i` is 0 for `i > 0` and 1 for `i == 0`.
proof fn lemma_pow_zero_base(i: nat)
    ensures
        pow(0, i) == if i == 0 {
            1int
        } else {
            0int
        },
    decreases i,
{
    if i > 0 {
        lemma_pow_zero_base((i - 1) as nat);
    }
}

/// What to do before connection attempt number `attempt` (see
/// [`step_spec`]).
pub fn reconnect_step(rc: &ReconnectConfig, attempt: u32) -> (r: ReconnectStep)
    ensures
        r == step_spec(*rc, attempt),
{
    if rc.max_attempts > 0 && attempt >= rc.max_attempts {
        ReconnectStep::GiveUp
    } else if attempt == 0 {
        ReconnectStep::Connect
    } else {
        ReconnectStep::WaitThenConnect(backoff_delay(rc.base_delay_secs, attempt, rc.max_delay_secs))
    }
}

/// The attempt count after a connection attempt: back to 0 on success,
/// one more on failure.
pub fn attempt_after_connect(attempt: u32, connected: bool) -> (r: u32)
    ensures
        r == if connected {
            0
        } else if attempt < u32::MAX {
            attempt + 1
        } else {
            attempt as int
        },
{
    if connected {
        0
    } else {
        attempt.saturating_add(1)
    }
}

// ---------------------------------------------------------------------------
// Server URL
// ---------------------------------------------------------------------------

/// `s` with every occurrence of `from` (left to right, not overlapping)
/// replaced by `to`, as `str::replace` does.
pub open spec fn replace_spec(s: Seq<char>, from: Seq<char>, to: Seq<char>) -> Seq<char>
    decreases s.len(),
{
    if s.len() == 0 || from.len() == 0 {
        s
    } else if starts_with(s, from) {
        to + replace_spec(s.subrange(from.len() as int, s.len() as int), from, to)
    } else {
        seq![s[0]] + replace_spec(s.subrange(1, s.len() as int), from, to)
    }
}

/// Replace every occurrence of `from` (non-empty) by `to`.
pub fn replace_all(s: &Vec<char>, from: &Vec<char>, to: &Vec<char>) -> (r: Vec<char>)
    requires
        from@.len() > 0,
    ensures
        r@ == replace_spec(s@, from@, to@),
{
    let mut out: Vec<char> = Vec::new();
    let mut i: usize = 0;
    assert(s@.subrange(0, s@.len() as int) =~= s@);
    while i < s.len()
        invariant
            i <= s.len(),
            from@.len() > 0,
            out@ + replace_spec(s@.subrange(i as int, s@.len() as int), from@, to@) == replace_spec(
                s@,
                from@,
                to@,
            ),
        decreases s.len() - i,
    {
        let rest = slice_chars(s, i, s.len());
        if has_prefix(&rest, from) {
            assert(rest@.subrange(from@.len() as int, rest@.len() as int) =~= s@.subrange(
                i + from@.len(),
                s@.len() as int,
            ));
            let ghost pre = out@;
            extend_chars(&mut out, to);
            assert(out@ + replace_spec(s@.subrange(i + from@.len(), s@.len() as int), from@, to@)
                =~= pre + replace_spec(rest@, from@, to@));
            i += from.len();
        } else {
            assert(rest@.subrange(1, rest@.len() as int) =~= s@.subrange(i + 1, s@.len() as int));
            let ghost pre = out@;
            out.push(s[i]);
            assert(out@ + replace_spec(s@.subrange(i + 1, s@.len() as int), from@, to@) =~= pre
                + replace_spec(rest@, from@, to@));
            i += 1;
        }
    }
    assert(s@.subrange(i as int, s@.len() as int) =~= Seq::<char>::empty());
    assert(out@ + Seq::<char>::empty() =~= out@);
    out
}

/// The WebSocket URL of the sync server: `https://` becomes `wss://` and
/// `http://` becomes `ws://` (every occurrence), then `/sync2`, with
/// `?token=` and the token when there is one.
pub open spec fn ws_url_spec(server: Seq<char>, token: Option<Seq<char>>) -> Seq<char> {
    let ws = replace_spec(replace_spec(server, "https://"@, "wss://"@), "http://"@, "ws://"@);
    match token {
        Some(t) => ws + "/sync2?token="@ + t,
        None => ws + "/sync2"@,
    }
}

/// The WebSocket URL the sync client connects to (see [`ws_url_spec`]).
pub fn sync_ws_url(config: &SyncClientConfig) -> (r: String)
    ensures
        r@ == ws_url_spec(
            config.server_url@,
            match config.auth_token {
                Some(t) => Some(t@),
                None => None,
            },
        ),
{
    let https = chars_of("https://");
    let http = chars_of("http://");
    proof {
        reveal_strlit("https://");
        reveal_strlit("http://");
    }
    let a = replace_all(&chars_of(config.server_url.as_str()), &https, &chars_of("wss://"));
    let mut ws = replace_all(&a, &http, &chars_of("ws://"));
    match &config.auth_token {
        Some(t) => {
            extend_chars(&mut ws, &chars_of("/sync2?token="));
            extend_chars(&mut ws, &chars_of(t.as_str()));
        },
        None => {
            extend_chars(&mut ws, &chars_of("/sync2"));
        },
    }
    string_of(&ws)
}

} // verus!

verus! {

/// The backoff delay never exceeds the maximum, and with a base of at
/// least one it does not shrink from one attempt to the next.
pub proof fn law_backoff_bounded_and_growing(base: u64, attempt: u32, max: u64)
    requires
        attempt < u32::MAX,
    ensures
        backoff_spec(base, attempt, max) <= max,
        base >= 1 ==> backoff_spec(base, attempt, max) <= backoff_spec(
            base,
            (attempt + 1) as u32,
            max,
        ),
{
    if base >= 1 {
        lemma_pow_mono(base as int, attempt as nat, (attempt + 1) as nat);
    }
}

} // verus!
