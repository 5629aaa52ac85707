use chrono::{NaiveDate, TimeZone, Utc};
use dendrite_core::clock::day_number;
use dendrite_core::error::TrackError;
use dendrite_core::session::{CommitRef, Session};
use dendrite_core::storage::{
    DailyAggregate, GrowthProfile, LifetimeStats, SessionStats, StoredSession,
};

fn at(year: i32, month: u32, day: u32, hour: u32) -> i64 {
    Utc.with_ymd_and_hms(year, month, day, hour, 0, 0).unwrap().timestamp_millis()
}

fn epoch_day(year: i32, month: u32, day: u32) -> i64 {
    let epoch = NaiveDate::from_ymd_opt(1970, 1, 1).unwrap();
    NaiveDate::from_ymd_opt(year, month, day).unwrap().signed_duration_since(epoch).num_days()
}

fn finished(id: u64, start: i64, keystrokes: u32, files: &[(&str, &str)], commits: u32) -> Session {
    let mut session = Session::new_at(id, start);
    for i in 0..keystrokes {
        session.record_keystroke_at(start + 100 * (i as i64 + 1)).unwrap();
    }
    let mut now = start + 100 * keystrokes as i64;
    for (file, language) in files {
        now += 100;
        session.record_file_edit_at(file.to_string(), language.to_string(), now).unwrap();
    }
    for i in 0..commits {
        let hash = format!("{:07}abcdef", i);
        session
            .add_commit(CommitRef::new(hash, "work".to_string(), now, vec!["a.rs".to_string()]))
            .unwrap();
    }
    session.end_at(now + 1000).unwrap();
    session
}

fn empty_profile() -> GrowthProfile {
    GrowthProfile::with_identity("profile".to_string(), at(2024, 6, 1, 0))
}

#[test]
fn test_new_profile() {
    let profile = GrowthProfile::new();
    assert!(!profile.id.is_empty());
    assert_eq!(profile.sessions.len(), 0);
    assert_eq!(profile.lifetime_stats.total_sessions, 0);
}

#[test]
fn test_add_session() {
    let mut profile = GrowthProfile::new();
    let session = Session::new(1);
    profile.add_session(session);

    assert_eq!(profile.sessions.len(), 1);
    assert_eq!(profile.lifetime_stats.total_sessions, 1);
    assert_eq!(profile.daily_aggregates.len(), 1);
}

#[test]
fn test_json_serialization() {
    let profile = GrowthProfile::new();
    let restored = GrowthProfile::from_persisted(
        profile.id.clone(),
        profile.created_at,
        profile.sessions.clone(),
        profile.daily_aggregates.clone(),
        profile.lifetime_stats.clone(),
    )
    .unwrap();
    assert_eq!(profile.id, restored.id);
}

#[test]
fn test_profile_creation() {
    let profile = GrowthProfile::default();
    assert!(!profile.id.is_empty());
    assert!(profile.is_wf());
}

#[test]
fn new_profiles_get_identifiers_of_36_characters_that_differ() {
    let one = GrowthProfile::new();
    let other = GrowthProfile::new();
    assert_eq!(one.id.chars().count(), 36);
    assert_eq!(other.id.chars().count(), 36);
    assert_ne!(one.id, other.id);
    assert!(one.daily_aggregates.is_empty());
    assert_eq!(one.lifetime_stats.current_streak, 0);
    assert_eq!(one.lifetime_stats.longest_streak, 0);
}

#[test]
fn with_identity_keeps_what_it_is_given() {
    let profile = GrowthProfile::with_identity("abc".to_string(), 77);
    assert_eq!(profile.id, "abc");
    assert_eq!(profile.created_at, 77);
    assert!(profile.sessions.is_empty());
    assert!(profile.daily_aggregates.is_empty());
    assert_eq!(profile.lifetime_stats.total_time_ms, 0);
    assert_eq!(profile.lifetime_stats.total_keystrokes, 0);
    assert_eq!(profile.lifetime_stats.total_commits, 0);
    assert!(profile.lifetime_stats.languages.entries.is_empty());
}

#[test]
fn three_consecutive_days_ending_today_make_a_streak_of_three() {
    let mut profile = empty_profile();
    profile.add_session_at(finished(1, at(2024, 6, 8, 10), 1, &[], 0), at(2024, 6, 8, 11));
    profile.add_session_at(finished(2, at(2024, 6, 9, 10), 1, &[], 0), at(2024, 6, 9, 11));
    profile.add_session_at(finished(3, at(2024, 6, 10, 10), 1, &[], 0), at(2024, 6, 10, 11));
    assert_eq!(profile.lifetime_stats.current_streak, 3);
    assert_eq!(profile.lifetime_stats.longest_streak, 3);
    assert_eq!(profile.get_current_streak(), 3);
    assert_eq!(profile.get_longest_streak(), 3);
    assert_eq!(profile.daily_aggregates.len(), 3);
}

#[test]
fn last_activity_five_days_ago_is_no_current_streak() {
    let mut profile = empty_profile();
    profile.add_session_at(finished(1, at(2024, 6, 5, 10), 1, &[], 0), at(2024, 6, 10, 11));
    assert_eq!(profile.lifetime_stats.current_streak, 0);
    assert_eq!(profile.lifetime_stats.longest_streak, 1);
    assert_eq!(profile.daily_aggregates.len(), 1);
}

#[test]
fn two_days_five_apart_make_no_streak_of_two() {
    let mut profile = empty_profile();
    profile.add_session_at(finished(1, at(2024, 6, 5, 10), 1, &[], 0), at(2024, 6, 5, 11));
    profile.add_session_at(finished(2, at(2024, 6, 10, 10), 1, &[], 0), at(2024, 6, 10, 12));
    assert_eq!(profile.lifetime_stats.longest_streak, 1);
    assert_eq!(profile.lifetime_stats.current_streak, 1);
    assert_eq!(profile.daily_aggregates.len(), 2);

    let mut reversed = empty_profile();
    reversed.add_session_at(finished(2, at(2024, 6, 10, 10), 1, &[], 0), at(2024, 6, 10, 12));
    reversed.add_session_at(finished(1, at(2024, 6, 5, 10), 1, &[], 0), at(2024, 6, 10, 13));
    assert_eq!(reversed.lifetime_stats.longest_streak, 1);
    assert_eq!(reversed.lifetime_stats.current_streak, 1);
}

#[test]
fn streak_is_the_same_in_whatever_order_the_sessions_come() {
    let days = [8u32, 9, 10, 3, 4, 5, 6];
    let today = at(2024, 6, 10, 20);
    let mut forward = empty_profile();
    for (i, day) in days.iter().enumerate() {
        forward.add_session_at(finished(i as u64, at(2024, 6, *day, 9), 1, &[], 0), today);
    }
    let mut backward = empty_profile();
    for (i, day) in days.iter().rev().enumerate() {
        backward.add_session_at(finished(i as u64, at(2024, 6, *day, 9), 1, &[], 0), today);
    }
    assert_eq!(forward.lifetime_stats.current_streak, 3);
    assert_eq!(forward.lifetime_stats.longest_streak, 4);
    assert_eq!(backward.lifetime_stats.current_streak, 3);
    assert_eq!(backward.lifetime_stats.longest_streak, 4);
}

#[test]
fn add_session_counts_one_session_and_its_keystrokes() {
    let mut profile = empty_profile();
    profile.add_session_at(finished(1, at(2024, 6, 8, 10), 10, &[], 0), at(2024, 6, 8, 11));
    assert_eq!(profile.lifetime_stats.total_sessions, 1);
    assert_eq!(profile.lifetime_stats.total_keystrokes, 10);
    profile.add_session_at(finished(2, at(2024, 6, 8, 12), 32, &[], 0), at(2024, 6, 8, 13));
    assert_eq!(profile.lifetime_stats.total_sessions, 2);
    assert_eq!(profile.lifetime_stats.total_keystrokes, 42);
    profile.add_session_at(finished(3, at(2024, 6, 9, 12), 0, &[], 0), at(2024, 6, 9, 13));
    assert_eq!(profile.lifetime_stats.total_sessions, 3);
    assert_eq!(profile.lifetime_stats.total_keystrokes, 42);
}

#[test]
fn sessions_of_one_day_share_one_rollup() {
    let mut profile = empty_profile();
    let files = [("a.rs", "rust")];
    profile.add_session_at(finished(1, at(2024, 6, 8, 1), 5, &files, 1), at(2024, 6, 8, 2));
    profile.add_session_at(finished(2, at(2024, 6, 8, 23), 7, &files, 2), at(2024, 6, 9, 0));
    profile.add_session_at(finished(3, at(2024, 6, 9, 0), 1, &[], 0), at(2024, 6, 9, 1));
    assert_eq!(profile.daily_aggregates.len(), 2);
    let first = &profile.daily_aggregates[0];
    assert_eq!(first.date, epoch_day(2024, 6, 8));
    assert_eq!(first.sessions_count, 2);
    assert_eq!(first.total_keystrokes, 12);
    assert_eq!(first.commits_count, 3);
    assert_eq!(first.total_time_ms, 600 + 800);
    assert_eq!(first.languages.get(&"rust".to_string()), Some(2000));
    let second = &profile.daily_aggregates[1];
    assert_eq!(second.date, epoch_day(2024, 6, 9));
    assert_eq!(second.sessions_count, 1);
    assert!(profile.is_wf());
}

#[test]
fn files_are_counted_per_session_not_per_day() {
    let mut profile = empty_profile();
    let files = [("a.rs", "rust"), ("a.rs", "rust"), ("b.rs", "rust")];
    profile.add_session_at(finished(1, at(2024, 6, 8, 1), 0, &files, 0), at(2024, 6, 8, 2));
    assert_eq!(profile.daily_aggregates[0].files_count, 2);
    profile.add_session_at(finished(2, at(2024, 6, 8, 3), 0, &files, 0), at(2024, 6, 8, 4));
    assert_eq!(profile.daily_aggregates[0].files_count, 4);
}

#[test]
fn merging_a_session_twice_counts_it_twice() {
    let mut profile = empty_profile();
    let session = finished(1, at(2024, 6, 8, 1), 5, &[("a.rs", "rust")], 1);
    profile.add_session_at(session.clone(), at(2024, 6, 8, 2));
    profile.add_session_at(session, at(2024, 6, 8, 2));
    assert_eq!(profile.sessions.len(), 2);
    assert_eq!(profile.lifetime_stats.total_sessions, 2);
    assert_eq!(profile.lifetime_stats.total_keystrokes, 10);
    assert_eq!(profile.lifetime_stats.total_commits, 2);
    assert_eq!(profile.lifetime_stats.languages.get(&"rust".to_string()), Some(2000));
    assert_eq!(profile.daily_aggregates.len(), 1);
    assert_eq!(profile.daily_aggregates[0].sessions_count, 2);
}

#[test]
fn totals_equal_a_reading_of_the_whole_log() {
    let mut profile = empty_profile();
    let plan: [(u32, u32, &[(&str, &str)], u32); 4] = [
        (3, 4, &[("a.rs", "rust")], 1),
        (3, 6, &[("b.ts", "typescript"), ("c.rs", "rust")], 0),
        (5, 1, &[], 2),
        (4, 0, &[("d.go", "go")], 0),
    ];
    for (i, (day, keys, files, commits)) in plan.iter().enumerate() {
        let session = finished(i as u64, at(2024, 6, *day, 8), *keys, files, *commits);
        profile.add_session_at(session, at(2024, 6, 5, 20));
    }
    let log = &profile.sessions;
    let stats = &profile.lifetime_stats;
    assert_eq!(stats.total_sessions as usize, log.len());
    assert_eq!(stats.total_keystrokes, log.iter().map(|s| s.session.keystroke_count as u64).sum());
    assert_eq!(stats.total_time_ms, log.iter().map(|s| s.session.active_time_ms).sum());
    assert_eq!(stats.total_commits as usize, log.iter().map(|s| s.session.commits.len()).sum());
    assert_eq!(stats.languages.get(&"rust".to_string()), Some(2000));
    assert_eq!(stats.languages.get(&"typescript".to_string()), Some(1000));
    assert_eq!(stats.languages.get(&"go".to_string()), Some(1000));
    for daily in &profile.daily_aggregates {
        let of_day: Vec<_> =
            log.iter().filter(|s| day_number(s.session.started_at) == daily.date).collect();
        assert_eq!(daily.sessions_count as usize, of_day.len());
        let keys: u32 = of_day.iter().map(|s| s.session.keystroke_count).sum();
        assert_eq!(daily.total_keystrokes, keys);
    }
    assert_eq!(stats.current_streak, 3);
    assert_eq!(stats.longest_streak, 3);
    assert_eq!(profile.get_profile_stats().total_sessions, 4);
}

#[test]
fn stored_session_freezes_the_figures() {
    let session = finished(1, at(2024, 6, 8, 1), 3, &[("a.rs", "rust")], 2);
    let start = session.started_at;
    let end = session.ended_at.unwrap();
    let stored = StoredSession::new_at(session, end + 1_000_000);
    assert_eq!(stored.computed_stats.total_duration_ms, (end - start) as u64);
    assert_eq!(stored.computed_stats.commit_count, 2);
    assert_eq!(stored.computed_stats.primary_language, Some("rust".to_string()));
    assert_eq!(stored.computed_stats.active_time_ms, stored.session.active_time_ms);
    let now = StoredSession::new(stored.session.clone());
    assert_eq!(now.computed_stats.total_duration_ms, (end - start) as u64);
}

#[test]
fn stats_of_a_live_session_are_seen_at_the_given_instant() {
    let session = Session::new_at(1, 1000);
    let stats = SessionStats::from_session_at(&session, 4000);
    assert_eq!(stats.total_duration_ms, 3000);
    assert_eq!(stats.active_time_ms, 0);
    assert_eq!(stats.primary_language, None);
    assert_eq!(stats.commit_count, 0);
    let later = SessionStats::from_session(&session);
    assert!(later.total_duration_ms > 3000);
}

#[test]
fn daily_aggregate_starts_empty_and_adds_up() {
    let mut daily = DailyAggregate::new(19_882);
    assert_eq!(daily.date, 19_882);
    assert_eq!(daily.total_time_ms, 0);
    assert_eq!(daily.total_keystrokes, 0);
    assert_eq!(daily.files_count, 0);
    assert_eq!(daily.sessions_count, 0);
    assert_eq!(daily.commits_count, 0);
    assert!(daily.languages.entries.is_empty());
    let session = finished(1, at(2024, 6, 8, 1), 3, &[("a.rs", "rust"), ("b.rs", "rust")], 2);
    daily.add_session(&session);
    assert_eq!(daily.date, 19_882);
    assert_eq!(daily.sessions_count, 1);
    assert_eq!(daily.total_keystrokes, 3);
    assert_eq!(daily.files_count, 2);
    assert_eq!(daily.commits_count, 2);
    assert_eq!(daily.total_time_ms, 500);
    assert_eq!(daily.languages.get(&"rust".to_string()), Some(2000));
}

#[test]
fn lifetime_stats_add_up_and_leave_the_streak() {
    let mut stats = LifetimeStats::default();
    stats.current_streak = 4;
    stats.longest_streak = 9;
    let session = finished(1, at(2024, 6, 8, 1), 3, &[("a.rs", "rust")], 2);
    stats.update_from_session(&session);
    assert_eq!(stats.total_sessions, 1);
    assert_eq!(stats.total_keystrokes, 3);
    assert_eq!(stats.total_commits, 2);
    assert_eq!(stats.total_time_ms, 400);
    assert_eq!(stats.languages.get(&"rust".to_string()), Some(1000));
    assert_eq!(stats.current_streak, 4);
    assert_eq!(stats.longest_streak, 9);
}

#[test]
fn recalculate_streaks_reads_all_rollups() {
    let mut stats = LifetimeStats::default();
    stats.current_streak = 40;
    stats.longest_streak = 90;
    let rollups =
        vec![DailyAggregate::new(12), DailyAggregate::new(10), DailyAggregate::new(11)];
    stats.recalculate_streaks_at(&rollups, 13);
    assert_eq!(stats.current_streak, 3);
    assert_eq!(stats.longest_streak, 3);
    stats.recalculate_streaks_at(&rollups, 14);
    assert_eq!(stats.current_streak, 0);
    assert_eq!(stats.longest_streak, 3);
    stats.recalculate_streaks_at(&[], 14);
    assert_eq!(stats.current_streak, 0);
    assert_eq!(stats.longest_streak, 0);
    stats.recalculate_streaks(&rollups);
    assert_eq!(stats.current_streak, 0);
    assert_eq!(stats.longest_streak, 3);
}

#[test]
fn from_persisted_accepts_a_profile_that_was_built_by_merging() {
    let mut profile = empty_profile();
    profile.add_session_at(finished(1, at(2024, 6, 8, 1), 3, &[("a.rs", "rust")], 0), at(2024, 6, 8, 2));
    let rebuilt = GrowthProfile::from_persisted(
        profile.id.clone(),
        profile.created_at,
        profile.sessions.clone(),
        profile.daily_aggregates.clone(),
        profile.lifetime_stats.clone(),
    )
    .unwrap();
    assert_eq!(rebuilt.id, profile.id);
    assert_eq!(rebuilt.sessions.len(), 1);
    assert_eq!(rebuilt.daily_aggregates.len(), 1);
    assert_eq!(rebuilt.lifetime_stats.total_keystrokes, 3);
}

#[test]
fn from_persisted_rejects_two_rollups_for_one_day() {
    let outcome = GrowthProfile::from_persisted(
        "p".to_string(),
        0,
        vec![],
        vec![DailyAggregate::new(5), DailyAggregate::new(6), DailyAggregate::new(5)],
        LifetimeStats::default(),
    );
    assert!(matches!(outcome, Err(TrackError::Deserialization)));
}

#[test]
fn position_of_date_finds_the_rollup() {
    let mut profile = empty_profile();
    profile.add_session_at(finished(1, at(2024, 6, 8, 1), 0, &[], 0), at(2024, 6, 8, 2));
    profile.add_session_at(finished(2, at(2024, 6, 9, 1), 0, &[], 0), at(2024, 6, 9, 2));
    assert_eq!(profile.position_of_date(epoch_day(2024, 6, 8)), Some(0));
    assert_eq!(profile.position_of_date(epoch_day(2024, 6, 9)), Some(1));
    assert_eq!(profile.position_of_date(epoch_day(2024, 6, 10)), None);
}

#[test]
fn profile_says_whether_a_session_fits() {
    let mut profile = empty_profile();
    let session = finished(1, at(2024, 6, 8, 1), 3, &[("a.rs", "rust")], 1);
    assert!(profile.fits_session(&session));
    profile.add_session_at(session.clone(), at(2024, 6, 8, 2));
    assert!(profile.fits_session(&session));

    profile.lifetime_stats.total_sessions = u32::MAX;
    assert!(!profile.fits_session(&session));
    profile.lifetime_stats.total_sessions = 1;

    profile.daily_aggregates[0].total_keystrokes = u32::MAX - 2;
    assert!(!profile.fits_session(&session));
    let other_day = finished(2, at(2024, 6, 9, 1), 3, &[("a.rs", "rust")], 1);
    assert!(profile.fits_session(&other_day));
    profile.daily_aggregates[0].total_keystrokes = u32::MAX - 3;
    assert!(profile.fits_session(&session));

    profile.lifetime_stats.languages.credit("rust".to_string(), u64::MAX - 1999);
    assert!(!profile.fits_session(&session));
    assert!(!profile.lifetime_stats.fits_session(&session));
    assert!(profile.daily_aggregates[0].fits_session(&session));
}
