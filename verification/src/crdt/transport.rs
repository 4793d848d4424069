//! Settings of a sync connection and the status a connection reports.

use vstd::prelude::*;
use crate::text::{chars_of, contains_char, extend_chars, string_of};

verus! {

/// Configuration for a sync connection.
#[derive(Debug, Clone)]
pub struct SyncConfig {
    /// WebSocket server URL (e.g. `wss://sync.diaryx.org/sync`).
    pub server_url: String,
    /// Document/workspace ID for the sync session.
    pub doc_id: String,
    /// Optional authentication token.
    pub auth_token: Option<String>,
    /// Whether this is a multiplexed body connection (rather than metadata).
    pub multiplexed: bool,
    /// Whether to write synced changes to disk.
    pub write_to_disk: bool,
}

/// The optional token as characters.
pub open spec fn token_view(t: Option<String>) -> Option<Seq<char>> {
    match t {
        Some(s) => Some(s@),
        None => None,
    }
}

/// The WebSocket URL for a connection: the server URL, then `doc` (opening
/// the query with `?` unless the URL already has one), then
/// `multiplexed=true` for body connections and the token when there is one.
pub open spec fn url_spec(
    server: Seq<char>,
    doc: Seq<char>,
    multiplexed: bool,
    token: Option<Seq<char>>,
) -> Seq<char> {
    let with_doc = server + (if server.contains('?') {
        "&doc="@
    } else {
        "?doc="@
    }) + doc;
    let with_mux = if multiplexed {
        with_doc + "&multiplexed=true"@
    } else {
        with_doc
    };
    match token {
        Some(t) => with_mux + "&token="@ + t,
        None => with_mux,
    }
}

impl SyncConfig {
    /// A configuration for metadata sync: not multiplexed, writing to disk,
    /// without a token.
    pub fn metadata(server_url: String, doc_id: String) -> (r: Self)
        ensures
            r.server_url == server_url,
            r.doc_id == doc_id,
            r.auth_token is None,
            !r.multiplexed,
            r.write_to_disk,
    {
        SyncConfig {
            server_url,
            doc_id,
            auth_token: None,
            multiplexed: false,
            write_to_disk: true,
        }
    }

    /// A configuration for multiplexed body sync, writing to disk, without a
    /// token.
    pub fn body(server_url: String, doc_id: String) -> (r: Self)
        ensures
            r.server_url == server_url,
            r.doc_id == doc_id,
            r.auth_token is None,
            r.multiplexed,
            r.write_to_disk,
    {
        SyncConfig {
            server_url,
            doc_id,
            auth_token: None,
            multiplexed: true,
            write_to_disk: true,
        }
    }

    /// The same configuration with the authentication token set.
    pub fn with_auth(self, token: String) -> (r: Self)
        ensures
            r == (SyncConfig { auth_token: Some(token), ..self }),
    {
        let mut c = self;
        c.auth_token = Some(token);
        c
    }

    /// The same configuration with `write_to_disk` set.
    pub fn with_write_to_disk(self, write: bool) -> (r: Self)
        ensures
            r == (SyncConfig { write_to_disk: write, ..self }),
    {
        let mut c = self;
        c.write_to_disk = write;
        c
    }

    /// The WebSocket URL with its query parameters.
    pub fn build_url(&self) -> (r: String)
        ensures
            r@ == url_spec(
                self.server_url@,
                self.doc_id@,
                self.multiplexed,
                token_view(self.auth_token),
            ),
    {
        let mut url = chars_of(self.server_url.as_str());
        if contains_char(&url, '?') {
            extend_chars(&mut url, &chars_of("&doc="));
        } else {
            extend_chars(&mut url, &chars_of("?doc="));
        }
        extend_chars(&mut url, &chars_of(self.doc_id.as_str()));
        if self.multiplexed {
            extend_chars(&mut url, &chars_of("&multiplexed=true"));
        }
        match &self.auth_token {
            Some(token) => {
                extend_chars(&mut url, &chars_of("&token="));
                extend_chars(&mut url, &chars_of(token.as_str()));
            },
            None => {},
        }
        string_of(&url)
    }
}

/// Status of a sync connection.
#[derive(Debug, Clone, PartialEq)]
pub enum ConnectionStatus {
    /// Not connected to the server.
    Disconnected,
    /// Currently connecting to the server.
    Connecting,
    /// Connected and ready for sync.
    Connected,
    /// Performing the initial sync handshake.
    Syncing {
        /// Number of files synced so far.
        completed: usize,
        /// Total number of files to sync.
        total: usize,
    },
    /// Initial sync complete, watching for changes.
    Synced,
    /// Reconnecting after a disconnection.
    Reconnecting {
        /// Current reconnection attempt number.
        attempt: u32,
    },
    /// A connection error occurred.
    Error {
        /// What went wrong.
        message: String,
    },
}

} // verus!
