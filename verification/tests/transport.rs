use diaryx_core::crdt::transport::{ConnectionStatus, SyncConfig};

#[test]
fn test_sync_config_metadata() {
    let config = SyncConfig::metadata(
        "wss://sync.example.com/sync".to_string(),
        "workspace123".to_string(),
    );

    assert_eq!(config.server_url, "wss://sync.example.com/sync");
    assert_eq!(config.doc_id, "workspace123");
    assert!(!config.multiplexed);
    assert!(config.write_to_disk);
    assert!(config.auth_token.is_none());
}

#[test]
fn test_sync_config_body() {
    let config = SyncConfig::body(
        "wss://sync.example.com/sync".to_string(),
        "workspace123".to_string(),
    );

    assert!(config.multiplexed);
}

#[test]
fn test_sync_config_with_auth() {
    let config = SyncConfig::metadata(
        "wss://sync.example.com/sync".to_string(),
        "workspace123".to_string(),
    )
    .with_auth("token123".to_string());

    assert_eq!(config.auth_token, Some("token123".to_string()));
}

#[test]
fn test_build_url_metadata() {
    let config = SyncConfig::metadata(
        "wss://sync.example.com/sync".to_string(),
        "workspace123".to_string(),
    );

    let url = config.build_url();
    assert_eq!(url, "wss://sync.example.com/sync?doc=workspace123");
}

#[test]
fn test_build_url_body() {
    let config = SyncConfig::body(
        "wss://sync.example.com/sync".to_string(),
        "workspace123".to_string(),
    );

    let url = config.build_url();
    assert!(url.contains("doc=workspace123"));
    assert!(url.contains("multiplexed=true"));
}

#[test]
fn test_build_url_with_auth() {
    let config = SyncConfig::metadata(
        "wss://sync.example.com/sync".to_string(),
        "workspace123".to_string(),
    )
    .with_auth("mytoken".to_string());

    let url = config.build_url();
    assert!(url.contains("token=mytoken"));
}

#[test]
fn test_build_url_existing_query_params() {
    let config = SyncConfig::metadata(
        "wss://sync.example.com/sync?version=1".to_string(),
        "workspace123".to_string(),
    );

    let url = config.build_url();
    assert!(url.contains("version=1"));
    assert!(url.contains("&doc=workspace123"));
}

#[test]
fn test_connection_status_variants() {
    let status = ConnectionStatus::Disconnected;
    assert_eq!(status, ConnectionStatus::Disconnected);

    let status = ConnectionStatus::Syncing {
        completed: 5,
        total: 10,
    };
    assert_eq!(
        status,
        ConnectionStatus::Syncing {
            completed: 5,
            total: 10
        }
    );

    let status = ConnectionStatus::Error {
        message: "timeout".to_string(),
    };
    assert_eq!(
        status,
        ConnectionStatus::Error {
            message: "timeout".to_string()
        }
    );
}

#[test]
fn test_build_url_body_with_auth_order() {
    let config = SyncConfig::body("wss://s/x?v=2".to_string(), "d".to_string())
        .with_auth("t".to_string());
    assert_eq!(config.build_url(), "wss://s/x?v=2&doc=d&multiplexed=true&token=t");
}

#[test]
fn test_with_write_to_disk() {
    let config = SyncConfig::metadata("a".to_string(), "b".to_string()).with_write_to_disk(false);
    assert!(!config.write_to_disk);
    assert_eq!(config.server_url, "a");
    assert_eq!(config.doc_id, "b");
}
