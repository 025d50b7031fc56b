use meshshare::chat::ChatService;
use meshshare::device::{Device, DeviceInfo};
use meshshare::error::{backoff_for_attempt, DeskShareError, RecoveryStrategy};

#[test]
fn test_error_recovery_strategy() {
    let error = DeskShareError::PeerUnavailable;
    match error.recovery_strategy() {
        RecoveryStrategy::Retry { max_attempts, .. } => {
            assert_eq!(max_attempts, 3);
        }
        _ => panic!("Expected retry strategy"),
    }
}

#[test]
fn test_user_message() {
    let error = DeskShareError::ManifestNotFound;
    let message = error.user_message();
    assert!(message.contains("not found"));
    assert_eq!(DeskShareError::Cancelled.user_message(), "cancelled");
}

#[test]
fn test_terminal_errors_fail() {
    assert_eq!(
        DeskShareError::IntegrityCheckFailed.recovery_strategy(),
        RecoveryStrategy::Fail
    );
    assert_eq!(DeskShareError::ManifestNotFound.recovery_strategy(), RecoveryStrategy::Fail);
    assert_eq!(DeskShareError::ChunkNotFound.recovery_strategy(), RecoveryStrategy::Fallback);
}

#[test]
fn test_backoff_doubles() {
    assert_eq!(backoff_for_attempt(1000, 0), 1000);
    assert_eq!(backoff_for_attempt(1000, 1), 2000);
    assert_eq!(backoff_for_attempt(1000, 2), 4000);
    assert_eq!(backoff_for_attempt(1000, 3), 8000);
    assert_eq!(backoff_for_attempt(u64::MAX, 1), u64::MAX);
    assert_eq!(backoff_for_attempt(u64::MAX / 2 + 1, 1), u64::MAX);
    assert_eq!(backoff_for_attempt(0, 5), 0);
}

#[test]
fn test_device_lifecycle() {
    let mut device = Device::new(
        "Test Device".to_string(),
        "192.168.1.100".to_string(),
        8080,
        "2026-01-28T16:00:00Z".to_string(),
    );
    assert!(device.is_online);
    assert_eq!(device.port, 8080);

    device.mark_offline();
    assert!(!device.is_online);
    assert_eq!(device.name, "Test Device");
    assert_eq!(device.ip, "192.168.1.100");

    device.update_last_seen("2026-01-28T16:05:00Z".to_string());
    assert!(device.is_online);
    assert_eq!(device.last_seen, "2026-01-28T16:05:00Z");
}

#[test]
fn test_device_staleness() {
    let info = DeviceInfo {
        name: "d".to_string(),
        ip: "10.0.0.1".to_string(),
        port: 9,
        services: vec!["files".to_string()],
        last_seen: 1000,
    };
    assert!(!info.is_stale(1000, 60));
    assert!(!info.is_stale(1060, 60));
    assert!(info.is_stale(1061, 60));
}

#[test]
fn test_chat_log() {
    let mut chat = ChatService::new("local".to_string());
    assert!(chat.get_messages().is_empty());

    let sent = chat.send_message(
        "m1".to_string(),
        "hello".to_string(),
        Some("remote".to_string()),
        42,
    );
    assert_eq!(sent.from, "local");
    assert_eq!(sent.content, "hello");
    assert_eq!(sent.timestamp, 42);

    chat.send_message("m2".to_string(), "again".to_string(), None, 43);

    let log = chat.get_messages();
    assert_eq!(log.len(), 2);
    assert_eq!(log[0].id, "m1");
    assert_eq!(log[0].to, Some("remote".to_string()));
    assert_eq!(log[1].id, "m2");
    assert_eq!(log[1].to, None);
}
