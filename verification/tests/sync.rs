use diaryx_core::crdt::sync::{body_result_actions, workspace_result_actions, BodySyncResult, SessionAction, SyncEvent, SyncMessageResult};
use diaryx_core::crdt::sync::body_outcome;
use diaryx_core::crdt::sync::{one_shot_timeout_secs, OneShotDoc, OneShotProgress};
use diaryx_core::crdt::git::{CommitOptions, RepoKind};
use diaryx_core::crdt::sync::{
    attempt_after_connect, backoff_delay, reconnect_step, sync_ws_url, IncomingEvent,
    ReconnectConfig, ReconnectStep, SyncClientConfig, SyncStats,
};

fn client(url: &str, token: Option<&str>) -> SyncClientConfig {
    SyncClientConfig {
        server_url: url.to_string(),
        workspace_id: "ws".to_string(),
        auth_token: token.map(String::from),
        reconnect: ReconnectConfig::default(),
    }
}

#[test]
fn test_reconnect_defaults_and_steps() {
    let rc = ReconnectConfig::default();
    assert!(rc.enabled);
    assert_eq!(reconnect_step(&rc, 0), ReconnectStep::Connect);
    assert_eq!(reconnect_step(&rc, 1), ReconnectStep::WaitThenConnect(2));
    assert_eq!(reconnect_step(&rc, 3), ReconnectStep::WaitThenConnect(8));
    assert_eq!(reconnect_step(&rc, 6), ReconnectStep::WaitThenConnect(32));
    assert_eq!(reconnect_step(&rc, 10), ReconnectStep::GiveUp);
    let unlimited = ReconnectConfig { max_attempts: 0, ..ReconnectConfig::default() };
    assert_eq!(reconnect_step(&unlimited, 100), ReconnectStep::WaitThenConnect(32));
}

#[test]
fn test_backoff_delay() {
    assert_eq!(backoff_delay(2, 0, 32), 1);
    assert_eq!(backoff_delay(2, 5, 32), 32);
    assert_eq!(backoff_delay(3, 2, 100), 9);
    assert_eq!(backoff_delay(10, 40, u64::MAX), u64::MAX);
    assert_eq!(backoff_delay(0, 3, 5), 0);
    assert_eq!(backoff_delay(7, 0, 0), 0);
    assert_eq!(attempt_after_connect(4, true), 0);
    assert_eq!(attempt_after_connect(4, false), 5);
    assert_eq!(attempt_after_connect(u32::MAX, false), u32::MAX);
}

#[test]
fn test_sync_ws_url() {
    assert_eq!(sync_ws_url(&client("https://sync.diaryx.org", None)), "wss://sync.diaryx.org/sync2");
    assert_eq!(
        sync_ws_url(&client("http://localhost:3030", Some("tok"))),
        "ws://localhost:3030/sync2?token=tok"
    );
}

#[test]
fn test_sync_records() {
    let stats = SyncStats::default();
    assert_eq!(stats.pushed + stats.pulled, 0);
    let ev = IncomingEvent::LocalUpdate { doc_id: "body:x/a.md".to_string(), data: vec![1] };
    assert!(matches!(ev, IncomingEvent::LocalUpdate { .. }));
    let opts = CommitOptions::default();
    assert_eq!(opts.author_name, "Diaryx");
    assert_eq!(opts.author_email, "noreply@diaryx.app");
    assert_eq!(opts.keep_updates, 0);
    assert!(opts.message.is_none() && !opts.skip_validation);
    assert_ne!(RepoKind::Standard, RepoKind::Bare);
}

#[test]
fn body_outcome_detects_changes_and_echoes() {
    let o = body_outcome("same", "same", None, true);
    assert!(!o.changed && !o.is_echo && !o.write && o.content.is_none());
    let o = body_outcome("old", "new", None, true);
    assert!(o.changed && !o.is_echo && o.write);
    assert_eq!(o.content, Some("new".to_string()));
    let o = body_outcome("old", "new", Some("new"), true);
    assert!(o.changed && o.is_echo && !o.write && o.content.is_none());
    let o = body_outcome("old", "new", Some("other"), false);
    assert!(o.changed && !o.is_echo && !o.write);
    assert_eq!(o.content, Some("new".to_string()));
}

#[test]
fn one_shot_progress_tracks_documents_and_completion() {
    assert_eq!(one_shot_timeout_secs(0), 10);
    assert_eq!(one_shot_timeout_secs(250), 12);
    assert_eq!(one_shot_timeout_secs(100_000), 60);
    let mut p = OneShotProgress::new();
    assert!(!p.is_done(0));
    p.record(&OneShotDoc::Body("a.md".to_string()));
    p.record(&OneShotDoc::Body("a.md".to_string()));
    p.record(&OneShotDoc::Unknown);
    assert_eq!(p.bodies_handled, vec!["a.md".to_string()]);
    assert!(!p.is_done(1));
    p.record(&OneShotDoc::Workspace);
    assert!(p.is_done(1));
    assert!(!p.is_done(2));
    p.count(2, 3);
    p.count(1, 0);
    assert_eq!((p.pushed, p.pulled), (3, 3));
}

#[test]
fn session_actions_after_handled_messages() {
    let r = BodySyncResult { response: Some(vec![1]), content: Some("new".to_string()), is_echo: false };
    let a = body_result_actions(Some(vec![9, 1]), "notes/a.md", &r);
    assert_eq!(a.len(), 2);
    assert!(matches!(&a[0], SessionAction::SendBinary(d) if d == &vec![9, 1]));
    assert!(matches!(&a[1], SessionAction::Emit(SyncEvent::BodyChanged { file_path }) if file_path == "notes/a.md"));
    let echo = BodySyncResult { response: None, content: Some("new".to_string()), is_echo: true };
    assert!(body_result_actions(None, "notes/a.md", &echo).is_empty());
    let w = SyncMessageResult { response: None, changed_files: vec!["a.md".to_string()], sync_complete: true };
    let (a, ready) = workspace_result_actions(None, &w);
    assert!(ready);
    assert_eq!(a.len(), 1);
    assert!(matches!(&a[0], SessionAction::Emit(SyncEvent::FilesChanged { files }) if files == &vec!["a.md".to_string()]));
    let quiet = SyncMessageResult { response: None, changed_files: vec![], sync_complete: false };
    let (a, ready) = workspace_result_actions(Some(vec![3]), &quiet);
    assert!(!ready);
    assert_eq!(a.len(), 1);
}
