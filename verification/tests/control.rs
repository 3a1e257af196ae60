use archive_sync::control::{start_archive_sync, stop_archive_sync, ArchiveSyncState, Start};

fn start(state: &mut ArchiveSyncState<u32>, identity: &str, relay: &str, task: u32) -> Start<u32> {
    start_archive_sync(state, Ok(identity.to_string()), relay.to_string(), task).unwrap()
}

#[test]
fn starting_again_for_the_same_scope_is_a_no_op() {
    let mut state: ArchiveSyncState<u32> = Default::default();
    assert!(matches!(start(&mut state, "me", "wss://a", 1), Start::Launch { replaced: None }));
    assert!(matches!(start(&mut state, "me", "wss://a", 2), Start::AlreadyRunning));
    assert_eq!(state.notify_subscriptions_changed(), Some(&1));
}

#[test]
fn another_identity_or_relay_replaces_the_task() {
    let mut state: ArchiveSyncState<u32> = Default::default();
    start(&mut state, "me", "wss://a", 1);
    assert!(matches!(start(&mut state, "me", "wss://b", 2), Start::Launch { replaced: Some(1) }));
    assert!(matches!(start(&mut state, "you", "wss://b", 3), Start::Launch { replaced: Some(2) }));
    assert_eq!(state.running.unwrap().scope, ("you".to_string(), "wss://b".to_string()));
}

#[test]
fn stopping_hands_out_the_task_once() {
    let mut state: ArchiveSyncState<u32> = Default::default();
    assert_eq!(stop_archive_sync(&mut state), None);
    start(&mut state, "me", "wss://a", 1);
    assert_eq!(stop_archive_sync(&mut state), Some(1));
    assert_eq!(stop_archive_sync(&mut state), None);
    assert_eq!(state.notify_subscriptions_changed(), None);
    assert!(matches!(start(&mut state, "me", "wss://a", 2), Start::Launch { replaced: None }));
}

#[test]
fn a_missing_identity_is_reported_and_changes_nothing() {
    let mut state: ArchiveSyncState<u32> = Default::default();
    start(&mut state, "me", "wss://a", 1);
    let outcome = start_archive_sync(&mut state, Err("locked".to_string()), "wss://b".to_string(), 2);
    assert_eq!(outcome.unwrap_err(), "locked");
    assert_eq!(state.notify_subscriptions_changed(), Some(&1));
}
