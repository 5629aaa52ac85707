use dendrite_core::error::TrackError;
use dendrite_core::languages::LanguageTimes;
use dendrite_core::session::{CommitRef, IdlePeriod, Session, SessionState};
use dendrite_core::storage::SessionStats;

const T0: i64 = 1_718_000_000_000;

fn commit(hash: &str) -> CommitRef {
    CommitRef::new(hash.to_string(), "message".to_string(), T0, vec!["src/main.rs".to_string()])
}

#[test]
fn test_new_session() {
    let session = Session::new(1);
    assert_eq!(session.id, 1);
    assert_eq!(session.state, SessionState::Active);
    assert_eq!(session.keystroke_count, 0);
}

#[test]
fn test_record_keystroke() {
    let mut session = Session::new(1);
    session.record_keystroke().unwrap();
    assert_eq!(session.keystroke_count, 1);
}

#[test]
fn test_idle_flow() {
    let mut session = Session::new(1);
    session.mark_idle().unwrap();
    assert_eq!(session.state, SessionState::Idle);

    session.resume_from_idle().unwrap();
    assert_eq!(session.state, SessionState::Active);
    assert_eq!(session.idle_periods.len(), 1);
}

#[test]
fn test_session_end() {
    let mut session = Session::new(1);
    session.end().unwrap();
    assert_eq!(session.state, SessionState::Ended);
    assert!(session.ended_at.is_some());
}

#[test]
fn default_state_is_active() {
    assert_eq!(SessionState::default(), SessionState::Active);
}

#[test]
fn new_session_at_starts_empty() {
    let session = Session::new_at(7, T0);
    assert_eq!(session.id, 7);
    assert_eq!(session.started_at, T0);
    assert_eq!(session.ended_at, None);
    assert_eq!(session.active_time_ms, 0);
    assert_eq!(session.keystroke_count, 0);
    assert!(session.files_edited.is_empty());
    assert!(session.languages.entries.is_empty());
    assert!(session.idle_periods.is_empty());
    assert!(session.commits.is_empty());
    assert_eq!(session.state, SessionState::Active);
    assert_eq!(session.last_activity, T0);
    assert!(session.current_idle.is_none());
    assert!(session.is_wf());
}

#[test]
fn keystroke_within_gap_counts_as_active_time() {
    let mut session = Session::new_at(1, T0);
    assert_eq!(session.record_keystroke_at(T0 + 1200), Ok(()));
    assert_eq!(session.record_keystroke_at(T0 + 1500), Ok(()));
    assert_eq!(session.keystroke_count, 2);
    assert_eq!(session.active_time_ms, 1500);
    assert_eq!(session.last_activity, T0 + 1500);
}

#[test]
fn gap_just_under_the_limit_counts() {
    let mut session = Session::new_at(1, T0);
    session.record_keystroke_at(T0 + 4999).unwrap();
    assert_eq!(session.active_time_ms, 4999);
}

#[test]
fn gap_at_the_limit_does_not_count() {
    let mut session = Session::new_at(1, T0);
    session.record_keystroke_at(T0 + 5000).unwrap();
    assert_eq!(session.active_time_ms, 0);
    assert_eq!(session.keystroke_count, 1);
    assert_eq!(session.last_activity, T0 + 5000);
    session.record_keystroke_at(T0 + 5010).unwrap();
    assert_eq!(session.active_time_ms, 10);
}

#[test]
fn clock_running_backward_counts_nothing() {
    let mut session = Session::new_at(1, T0);
    session.record_keystroke_at(T0 - 100).unwrap();
    assert_eq!(session.active_time_ms, 0);
    assert_eq!(session.last_activity, T0 - 100);
}

#[test]
fn keystroke_while_idle_counts_the_key_but_no_time() {
    let mut session = Session::new_at(1, T0);
    session.mark_idle_at(T0 + 10).unwrap();
    session.record_keystroke_at(T0 + 20).unwrap();
    assert_eq!(session.keystroke_count, 1);
    assert_eq!(session.active_time_ms, 0);
    assert_eq!(session.last_activity, T0);
    assert_eq!(session.state, SessionState::Idle);
}

#[test]
fn file_edit_lists_each_file_once_and_credits_the_language() {
    let mut session = Session::new_at(1, T0);
    session.record_file_edit_at("a.rs".to_string(), "rust".to_string(), T0 + 100).unwrap();
    session.record_file_edit_at("a.rs".to_string(), "rust".to_string(), T0 + 200).unwrap();
    session.record_file_edit_at("b.ts".to_string(), "typescript".to_string(), T0 + 300).unwrap();
    assert_eq!(session.files_edited, vec!["a.rs".to_string(), "b.ts".to_string()]);
    assert_eq!(session.languages.get(&"rust".to_string()), Some(2000));
    assert_eq!(session.languages.get(&"typescript".to_string()), Some(1000));
    assert_eq!(session.active_time_ms, 300);
    assert_eq!(session.keystroke_count, 0);
    assert!(session.is_wf());
}

#[test]
fn ten_keystrokes_three_edits_primary_is_rust() {
    let mut session = Session::new_at(1, T0);
    for i in 1..=10 {
        session.record_keystroke_at(T0 + i * 100).unwrap();
    }
    session.record_file_edit_at("a.rs".to_string(), "rust".to_string(), T0 + 1100).unwrap();
    session.record_file_edit_at("b.rs".to_string(), "rust".to_string(), T0 + 1200).unwrap();
    session.record_file_edit_at("c.ts".to_string(), "typescript".to_string(), T0 + 1300).unwrap();
    session.end_at(T0 + 2000).unwrap();

    assert_eq!(session.keystroke_count, 10);
    assert_eq!(session.languages.get(&"rust".to_string()), Some(2000));
    assert_eq!(session.languages.get(&"typescript".to_string()), Some(1000));
    assert_eq!(session.primary_language(), Some("rust".to_string()));

    let stats = SessionStats::from_session_at(&session, T0 + 9000);
    assert_eq!(stats.primary_language, Some("rust".to_string()));
    assert_eq!(stats.commit_count, 0);
    assert_eq!(stats.total_duration_ms, 2000);
    assert_eq!(stats.active_time_ms, 1300);
}

#[test]
fn idle_for_two_seconds_logs_one_period_of_2000_ms() {
    let mut session = Session::new_at(1, T0);
    session.mark_idle_at(T0).unwrap();
    session.resume_from_idle_at(T0 + 2000).unwrap();
    assert_eq!(session.idle_periods.len(), 1);
    assert_eq!(session.idle_periods[0].duration_ms, 2000);
    assert_eq!(session.idle_periods[0].started_at, T0);
    assert_eq!(session.idle_periods[0].ended_at, Some(T0 + 2000));
}

#[test]
fn idle_then_resume_earns_no_active_time() {
    let mut session = Session::new_at(1, T0);
    session.record_keystroke_at(T0 + 1000).unwrap();
    let active_before = session.active_time_ms;
    session.mark_idle_at(T0 + 1500).unwrap();
    assert_eq!(session.state, SessionState::Idle);
    assert_eq!(session.current_idle.unwrap().started_at, T0 + 1500);
    assert_eq!(session.current_idle.unwrap().ended_at, None);
    assert_eq!(session.current_idle.unwrap().duration_ms, 0);
    session.resume_from_idle_at(T0 + 1800).unwrap();
    assert_eq!(session.state, SessionState::Active);
    assert!(session.current_idle.is_none());
    assert_eq!(session.active_time_ms, active_before);
    assert_eq!(session.idle_periods.len(), 1);
    assert_eq!(session.idle_periods[0].duration_ms, 300);
    assert_eq!(session.last_activity, T0 + 1800);
    session.record_keystroke_at(T0 + 1900).unwrap();
    assert_eq!(session.active_time_ms, active_before + 100);
}

#[test]
fn mark_idle_is_a_no_op_unless_active() {
    let mut session = Session::new_at(1, T0);
    session.pause().unwrap();
    assert_eq!(session.mark_idle_at(T0 + 5), Ok(()));
    assert_eq!(session.state, SessionState::Paused);
    assert!(session.current_idle.is_none());

    let mut idle = Session::new_at(2, T0);
    idle.mark_idle_at(T0 + 5).unwrap();
    idle.mark_idle_at(T0 + 50).unwrap();
    assert_eq!(idle.current_idle.unwrap().started_at, T0 + 5);
}

#[test]
fn resume_from_idle_is_a_no_op_unless_idle() {
    let mut session = Session::new_at(1, T0);
    assert_eq!(session.resume_from_idle_at(T0 + 5), Ok(()));
    assert_eq!(session.state, SessionState::Active);
    assert!(session.idle_periods.is_empty());
    assert_eq!(session.last_activity, T0);
}

#[test]
fn pause_and_resume_record_no_interval() {
    let mut session = Session::new_at(1, T0);
    assert_eq!(session.pause(), Ok(()));
    assert_eq!(session.state, SessionState::Paused);
    session.record_keystroke_at(T0 + 100).unwrap();
    assert_eq!(session.active_time_ms, 0);
    assert_eq!(session.resume_at(T0 + 60_000), Ok(()));
    assert_eq!(session.state, SessionState::Active);
    assert_eq!(session.last_activity, T0 + 60_000);
    assert!(session.idle_periods.is_empty());
    session.record_keystroke_at(T0 + 60_250).unwrap();
    assert_eq!(session.active_time_ms, 250);
}

#[test]
fn resume_is_a_no_op_unless_paused() {
    let mut session = Session::new_at(1, T0);
    assert_eq!(session.resume_at(T0 + 700), Ok(()));
    assert_eq!(session.state, SessionState::Active);
    assert_eq!(session.last_activity, T0);
}

#[test]
fn end_closes_an_open_idle_period() {
    let mut session = Session::new_at(1, T0);
    session.mark_idle_at(T0 + 100).unwrap();
    assert_eq!(session.end_at(T0 + 700), Ok(()));
    assert_eq!(session.state, SessionState::Ended);
    assert_eq!(session.ended_at, Some(T0 + 700));
    assert!(session.current_idle.is_none());
    assert_eq!(session.idle_periods.len(), 1);
    assert_eq!(session.idle_periods[0].duration_ms, 600);
    assert_eq!(session.idle_periods[0].ended_at, Some(T0 + 700));
    assert!(session.is_wf());
}

#[test]
fn terminal_duration_is_end_minus_start() {
    let mut session = Session::new_at(1, T0);
    session.end_at(T0 + 123_456).unwrap();
    assert_eq!(session.total_duration_ms_at(T0 + 999_999), 123_456);
    assert_eq!(session.total_duration_ms_at(0), 123_456);
    assert_eq!(session.total_duration_ms(), 123_456);
}

#[test]
fn live_duration_follows_the_clock() {
    let session = Session::new_at(1, T0);
    assert_eq!(session.total_duration_ms_at(T0 + 10), 10);
    assert_eq!(session.total_duration_ms_at(T0 + 5000), 5000);
    assert_eq!(session.total_duration_ms_at(T0 - 5000), 0);
}

#[test]
fn ended_session_refuses_every_change() {
    let mut session = Session::new_at(1, T0);
    session.record_file_edit_at("a.rs".to_string(), "rust".to_string(), T0 + 10).unwrap();
    session.end_at(T0 + 100).unwrap();

    assert_eq!(session.record_keystroke_at(T0 + 200), Err(TrackError::InvalidTransition));
    assert_eq!(
        session.record_file_edit_at("b.rs".to_string(), "go".to_string(), T0 + 200),
        Err(TrackError::InvalidTransition)
    );
    assert_eq!(session.mark_idle_at(T0 + 200), Err(TrackError::InvalidTransition));
    assert_eq!(session.resume_from_idle_at(T0 + 200), Err(TrackError::InvalidTransition));
    assert_eq!(session.pause(), Err(TrackError::InvalidTransition));
    assert_eq!(session.resume_at(T0 + 200), Err(TrackError::InvalidTransition));
    assert_eq!(session.end_at(T0 + 200), Err(TrackError::InvalidTransition));
    assert_eq!(session.add_commit(commit("abc")), Err(TrackError::InvalidTransition));

    assert_eq!(session.state, SessionState::Ended);
    assert_eq!(session.ended_at, Some(T0 + 100));
    assert_eq!(session.keystroke_count, 0);
    assert_eq!(session.files_edited.len(), 1);
    assert_eq!(session.languages.entries.len(), 1);
    assert!(session.commits.is_empty());
    assert_eq!(session.active_time_ms, 10);
}

#[test]
fn add_commit_appends_in_order() {
    let mut session = Session::new_at(1, T0);
    assert_eq!(session.add_commit(commit("1111111aaaa")), Ok(()));
    session.pause().unwrap();
    assert_eq!(session.add_commit(commit("2222222bbbb")), Ok(()));
    assert_eq!(session.commits.len(), 2);
    assert_eq!(session.commits[0].hash, "1111111aaaa");
    assert_eq!(session.commits[1].hash, "2222222bbbb");
}

#[test]
fn short_hash_is_the_first_seven_characters() {
    assert_eq!(commit("abcdef1234567890").short_hash, "abcdef1");
    assert_eq!(commit("abcdefg").short_hash, "abcdefg");
    assert_eq!(commit("abc").short_hash, "abc");
    assert_eq!(commit("").short_hash, "");
    assert_eq!(commit("\u{00e9}\u{00e9}\u{00e9}\u{00e9}\u{00e9}\u{00e9}\u{00e9}\u{00e9}").short_hash.chars().count(), 7);
}

#[test]
fn commit_keeps_its_parts() {
    let made = CommitRef::new(
        "abcdef1234567890".to_string(),
        "Initial commit".to_string(),
        42,
        vec!["a".to_string(), "b".to_string()],
    );
    assert_eq!(made.hash, "abcdef1234567890");
    assert_eq!(made.message, "Initial commit");
    assert_eq!(made.timestamp, 42);
    assert_eq!(made.files_changed, vec!["a".to_string(), "b".to_string()]);
    let copy = made.clone();
    assert_eq!(copy.hash, made.hash);
    assert_eq!(copy.short_hash, made.short_hash);
    assert_eq!(copy.files_changed, made.files_changed);
}

#[test]
fn idle_period_opens_and_closes() {
    let mut period = IdlePeriod::new(1000);
    assert_eq!(period.started_at, 1000);
    assert_eq!(period.ended_at, None);
    assert_eq!(period.duration_ms, 0);
    period.end(4500);
    assert_eq!(period.started_at, 1000);
    assert_eq!(period.ended_at, Some(4500));
    assert_eq!(period.duration_ms, 3500);
}

#[test]
fn idle_period_closed_before_it_opened_has_no_duration() {
    let mut period = IdlePeriod::new(1000);
    period.end(400);
    assert_eq!(period.ended_at, Some(400));
    assert_eq!(period.duration_ms, 0);
}

#[test]
fn from_persisted_rebuilds_the_state() {
    let mut languages = LanguageTimes::new();
    languages.credit("rust".to_string(), 5000);
    let ended = Session::from_persisted(
        3,
        T0,
        Some(T0 + 100),
        50,
        4,
        vec!["a.rs".to_string()],
        languages.clone(),
        vec![],
        vec![commit("abc")],
    )
    .unwrap();
    assert_eq!(ended.state, SessionState::Ended);
    assert_eq!(ended.id, 3);
    assert_eq!(ended.keystroke_count, 4);
    assert_eq!(ended.active_time_ms, 50);
    assert_eq!(ended.commits.len(), 1);
    assert_eq!(ended.last_activity, 0);
    assert!(ended.current_idle.is_none());
    assert!(ended.is_wf());

    let live =
        Session::from_persisted(4, T0, None, 0, 0, vec![], LanguageTimes::new(), vec![], vec![])
            .unwrap();
    assert_eq!(live.state, SessionState::Active);
    assert!(live.is_wf());
}

#[test]
fn from_persisted_rejects_a_file_listed_twice() {
    let outcome = Session::from_persisted(
        3,
        T0,
        None,
        0,
        0,
        vec!["a.rs".to_string(), "a.rs".to_string()],
        LanguageTimes::new(),
        vec![],
        vec![],
    );
    assert!(matches!(outcome, Err(TrackError::Deserialization)));
}

#[test]
fn from_persisted_rejects_a_language_listed_twice() {
    let mut languages = LanguageTimes::new();
    languages.credit("rust".to_string(), 1);
    let copy = languages.entries[0].clone();
    languages.entries.push(copy);
    let outcome =
        Session::from_persisted(3, T0, None, 0, 0, vec![], languages, vec![], vec![]);
    assert!(matches!(outcome, Err(TrackError::Deserialization)));
}

#[test]
fn inconsistent_session_is_not_well_formed() {
    let mut session = Session::new_at(1, T0);
    session.state = SessionState::Ended;
    assert!(!session.is_wf());
    let mut other = Session::new_at(1, T0);
    other.state = SessionState::Idle;
    assert!(!other.is_wf());
}

#[test]
fn clone_copies_everything() {
    let mut session = Session::new_at(9, T0);
    session.record_file_edit_at("a.rs".to_string(), "rust".to_string(), T0 + 10).unwrap();
    session.add_commit(commit("abcdef123")).unwrap();
    session.mark_idle_at(T0 + 20).unwrap();
    let copy = session.clone();
    assert_eq!(copy.id, 9);
    assert_eq!(copy.files_edited, session.files_edited);
    assert_eq!(copy.languages.get(&"rust".to_string()), Some(1000));
    assert_eq!(copy.commits.len(), 1);
    assert_eq!(copy.state, SessionState::Idle);
    assert_eq!(copy.current_idle.unwrap().started_at, T0 + 20);
    assert_eq!(copy.active_time_ms, session.active_time_ms);
}

#[test]
fn error_descriptions_differ() {
    let texts = [
        TrackError::Deserialization.describe(),
        TrackError::NotFound.describe(),
        TrackError::InvalidTransition.describe(),
    ];
    assert!(!texts[0].is_empty());
    assert_ne!(texts[0], texts[1]);
    assert_ne!(texts[1], texts[2]);
    assert_ne!(texts[0], texts[2]);
}

#[test]
fn fresh_session_has_room_for_everything() {
    let session = Session::new_at(1, T0);
    assert!(session.fits_keystroke());
    assert!(session.fits_file_edit(&"a.rs".to_string(), &"rust".to_string()));
    assert!(session.fits_commit());
}

#[test]
fn full_counters_have_no_room() {
    let mut session = Session::new_at(1, T0);
    session.keystroke_count = u32::MAX;
    assert!(!session.fits_keystroke());
    assert!(session.fits_file_edit(&"a.rs".to_string(), &"rust".to_string()));

    let mut session = Session::new_at(1, T0);
    session.active_time_ms = u64::MAX - 4998;
    assert!(!session.fits_keystroke());
    assert!(!session.fits_file_edit(&"a.rs".to_string(), &"rust".to_string()));
    session.active_time_ms = u64::MAX - 4999;
    assert!(session.fits_keystroke());
    assert!(session.fits_file_edit(&"a.rs".to_string(), &"rust".to_string()));

    session.languages.credit("rust".to_string(), u64::MAX - 999);
    assert!(!session.fits_file_edit(&"a.rs".to_string(), &"rust".to_string()));
    assert!(session.fits_file_edit(&"a.go".to_string(), &"go".to_string()));
}

#[test]
fn session_that_is_not_active_earns_nothing_and_so_always_has_room_for_time() {
    let mut session = Session::new_at(1, T0);
    session.active_time_ms = u64::MAX;
    assert!(!session.fits_keystroke());
    session.pause().unwrap();
    assert!(session.fits_keystroke());
    session.record_keystroke_at(T0 + 10).unwrap();
    assert_eq!(session.active_time_ms, u64::MAX);
}

#[test]
fn ended_session_has_room_because_it_refuses() {
    let mut session = Session::new_at(1, T0);
    session.keystroke_count = u32::MAX;
    session.end_at(T0 + 1).unwrap();
    assert!(session.fits_keystroke());
    assert!(session.fits_file_edit(&"a.rs".to_string(), &"rust".to_string()));
    assert!(session.fits_commit());
    assert_eq!(session.record_keystroke(), Err(TrackError::InvalidTransition));
    assert_eq!(session.keystroke_count, u32::MAX);
}

#[test]
fn activity_clock_near_the_end_of_time_earns_less() {
    let mut session = Session::new_at(1, i64::MAX - 10);
    session.active_time_ms = u64::MAX - 10;
    assert!(session.fits_keystroke());
    session.record_keystroke_at(i64::MAX).unwrap();
    assert_eq!(session.active_time_ms, u64::MAX);
}
