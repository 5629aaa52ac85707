use dendrite_core::error::TrackError;
use dendrite_core::registry::SessionRegistry;
use dendrite_core::session::{CommitRef, SessionState};

const T0: i64 = 1_718_000_000_000;

#[test]
fn test_session_lifecycle() {
    let mut registry = SessionRegistry::new();
    let handle = registry.init_session();
    assert!(handle > 0);

    registry.record_keystroke(handle).unwrap();
    registry.record_file_edit(handle, "test.rs".to_string(), "rust".to_string()).unwrap();

    let stats = registry.end_session(handle).unwrap();
    assert_eq!(stats.commit_count, 0);
    assert_eq!(stats.primary_language, Some("rust".to_string()));
}

#[test]
fn greeting_names_the_library() {
    assert_eq!(dendrite_core::greet(), "Hello from Dendrite Core!");
}

#[test]
fn handles_count_up_from_one() {
    let mut registry = SessionRegistry::new();
    assert_eq!(registry.next_id, 1);
    assert_eq!(registry.init_session_at(T0), 1);
    assert_eq!(registry.init_session_at(T0 + 1), 2);
    assert_eq!(registry.init_session(), 3);
    assert_eq!(registry.next_id, 4);
    assert_eq!(registry.sessions.len(), 3);
    assert_eq!(registry.get_session(2).unwrap().id, 2);
    assert_eq!(registry.get_session(2).unwrap().started_at, T0 + 1);
}

#[test]
fn registries_are_independent() {
    let mut one = SessionRegistry::new();
    let mut other = SessionRegistry::new();
    let handle = one.init_session_at(T0);
    assert_eq!(other.record_keystroke_at(handle, T0 + 1), Err(TrackError::NotFound));
    assert_eq!(other.init_session_at(T0), 1);
    one.record_keystroke_at(handle, T0 + 1).unwrap();
    assert_eq!(one.get_session(handle).unwrap().keystroke_count, 1);
    assert_eq!(other.get_session(handle).unwrap().keystroke_count, 0);
}

#[test]
fn unknown_handle_is_not_found_and_changes_nothing() {
    let mut registry = SessionRegistry::new();
    let handle = registry.init_session_at(T0);
    let missing = handle + 10;
    assert_eq!(registry.record_keystroke_at(missing, T0), Err(TrackError::NotFound));
    assert_eq!(registry.record_keystroke(missing), Err(TrackError::NotFound));
    assert_eq!(
        registry.record_file_edit_at(missing, "a".to_string(), "rust".to_string(), T0),
        Err(TrackError::NotFound)
    );
    assert_eq!(
        registry.record_file_edit(missing, "a".to_string(), "rust".to_string()),
        Err(TrackError::NotFound)
    );
    assert_eq!(registry.mark_idle_at(missing, T0), Err(TrackError::NotFound));
    assert_eq!(registry.mark_idle(missing), Err(TrackError::NotFound));
    assert_eq!(registry.resume_from_idle_at(missing, T0), Err(TrackError::NotFound));
    assert_eq!(registry.resume_from_idle(missing), Err(TrackError::NotFound));
    assert_eq!(registry.pause(missing), Err(TrackError::NotFound));
    assert_eq!(registry.resume_at(missing, T0), Err(TrackError::NotFound));
    assert_eq!(registry.resume(missing), Err(TrackError::NotFound));
    let commit = CommitRef::new("abc".to_string(), "m".to_string(), T0, vec![]);
    assert_eq!(registry.add_commit_to_session(missing, commit), Err(TrackError::NotFound));
    assert!(matches!(registry.end_session_at(missing, T0), Err(TrackError::NotFound)));
    assert!(matches!(registry.end_session(missing), Err(TrackError::NotFound)));
    assert!(matches!(registry.get_active_session_stats_at(missing, T0), Err(TrackError::NotFound)));
    assert!(matches!(registry.get_active_session_stats(missing), Err(TrackError::NotFound)));
    assert!(matches!(registry.get_session(missing), Err(TrackError::NotFound)));
    assert_eq!(registry.sessions.len(), 1);
    assert_eq!(registry.next_id, 2);
    assert_eq!(registry.get_session(handle).unwrap().keystroke_count, 0);
}

#[test]
fn operations_reach_the_session_under_the_handle() {
    let mut registry = SessionRegistry::new();
    let first = registry.init_session_at(T0);
    let second = registry.init_session_at(T0);

    registry.record_keystroke_at(first, T0 + 100).unwrap();
    registry.record_keystroke_at(first, T0 + 200).unwrap();
    registry.record_file_edit_at(second, "a.rs".to_string(), "rust".to_string(), T0 + 50).unwrap();
    registry.mark_idle_at(second, T0 + 60).unwrap();
    assert_eq!(registry.get_session(second).unwrap().state, SessionState::Idle);
    registry.resume_from_idle_at(second, T0 + 2060).unwrap();
    registry.pause(first).unwrap();
    assert_eq!(registry.get_session(first).unwrap().state, SessionState::Paused);
    registry.resume_at(first, T0 + 900).unwrap();
    let commit = CommitRef::new("abcdef123".to_string(), "m".to_string(), T0, vec![]);
    registry.add_commit_to_session(first, commit).unwrap();

    let one = registry.get_session(first).unwrap();
    assert_eq!(one.keystroke_count, 2);
    assert_eq!(one.active_time_ms, 200);
    assert_eq!(one.state, SessionState::Active);
    assert_eq!(one.last_activity, T0 + 900);
    assert_eq!(one.commits.len(), 1);
    assert!(one.files_edited.is_empty());

    let two = registry.get_session(second).unwrap();
    assert_eq!(two.keystroke_count, 0);
    assert_eq!(two.files_edited, vec!["a.rs".to_string()]);
    assert_eq!(two.idle_periods.len(), 1);
    assert_eq!(two.idle_periods[0].duration_ms, 2000);
    assert_eq!(two.state, SessionState::Active);
}

#[test]
fn end_session_returns_the_figures_and_keeps_the_session() {
    let mut registry = SessionRegistry::new();
    let handle = registry.init_session_at(T0);
    registry.record_file_edit_at(handle, "a.rs".to_string(), "rust".to_string(), T0 + 500).unwrap();
    let live = registry.get_active_session_stats_at(handle, T0 + 700).unwrap();
    assert_eq!(live.total_duration_ms, 700);
    assert_eq!(live.active_time_ms, 500);

    let stats = registry.end_session_at(handle, T0 + 3000).unwrap();
    assert_eq!(stats.total_duration_ms, 3000);
    assert_eq!(stats.active_time_ms, 500);
    assert_eq!(stats.primary_language, Some("rust".to_string()));
    assert_eq!(stats.commit_count, 0);

    let session = registry.get_session(handle).unwrap();
    assert_eq!(session.state, SessionState::Ended);
    assert_eq!(session.ended_at, Some(T0 + 3000));

    let after = registry.get_active_session_stats_at(handle, T0 + 99_000).unwrap();
    assert_eq!(after.total_duration_ms, 3000);
    let now = registry.get_active_session_stats(handle).unwrap();
    assert_eq!(now.total_duration_ms, 3000);
}

#[test]
fn ended_session_refuses_changes_through_the_registry() {
    let mut registry = SessionRegistry::new();
    let handle = registry.init_session_at(T0);
    registry.end_session_at(handle, T0 + 10).unwrap();
    assert_eq!(registry.record_keystroke_at(handle, T0 + 20), Err(TrackError::InvalidTransition));
    assert_eq!(registry.mark_idle_at(handle, T0 + 20), Err(TrackError::InvalidTransition));
    assert_eq!(registry.pause(handle), Err(TrackError::InvalidTransition));
    assert!(matches!(
        registry.end_session_at(handle, T0 + 20),
        Err(TrackError::InvalidTransition)
    ));
    let session = registry.get_session(handle).unwrap();
    assert_eq!(session.ended_at, Some(T0 + 10));
    assert_eq!(session.keystroke_count, 0);
}
