use dendrite_core::git::{
    create_commit_ref, files_in_common, get_commit_correlations, get_commit_correlations_at,
};
use dendrite_core::session::Session;
use dendrite_core::storage::GrowthProfile;

fn strings(list: &[&str]) -> Vec<String> {
    list.iter().map(|s| s.to_string()).collect()
}

#[test]
fn test_create_commit_ref() {
    let commit = create_commit_ref(
        "abcdef1234567890".to_string(),
        "Initial commit".to_string(),
        chrono::Utc::now().timestamp_millis(),
        vec!["src/main.rs".to_string()],
    );

    assert_eq!(commit.hash, "abcdef1234567890");
    assert_eq!(commit.short_hash, "abcdef1");
    assert_eq!(commit.message, "Initial commit");
}

#[test]
fn test_commit_correlations() {
    let mut profile = GrowthProfile::new();
    let mut session = Session::new(1);

    session.record_file_edit("src/main.rs".to_string(), "rust".to_string()).unwrap();

    let commit = create_commit_ref(
        "abc123".to_string(),
        "Test".to_string(),
        chrono::Utc::now().timestamp_millis(),
        vec!["src/main.rs".to_string()],
    );

    session.add_commit(commit).unwrap();
    profile.add_session(session);

    let correlations = get_commit_correlations(&profile);
    assert_eq!(correlations.len(), 1);
    assert_eq!(correlations[0].files_in_common.len(), 1);
}

#[test]
fn files_in_common_keeps_the_order_of_the_session() {
    let edited = strings(&["c.rs", "a.rs", "d.rs", "b.rs"]);
    let changed = strings(&["a.rs", "b.rs", "c.rs", "z.rs"]);
    assert_eq!(files_in_common(&edited, &changed), strings(&["c.rs", "a.rs", "b.rs"]));
    assert_eq!(files_in_common(&edited, &vec![]), Vec::<String>::new());
    assert_eq!(files_in_common(&vec![], &changed), Vec::<String>::new());
}

#[test]
fn correlations_follow_the_log_and_the_commits() {
    let mut profile = GrowthProfile::with_identity("p".to_string(), 0);

    let mut first = Session::new_at(11, 1_000);
    first.record_file_edit_at("a.rs".to_string(), "rust".to_string(), 1_100).unwrap();
    first.record_file_edit_at("b.rs".to_string(), "rust".to_string(), 1_200).unwrap();
    first
        .add_commit(create_commit_ref("1111111111".to_string(), "one".to_string(), 1_300, strings(&["b.rs", "x.rs"])))
        .unwrap();
    first
        .add_commit(create_commit_ref("2222222222".to_string(), "two".to_string(), 1_400, strings(&["y.rs"])))
        .unwrap();
    first.end_at(6_000).unwrap();

    let without = Session::new_at(12, 7_000);

    let mut live = Session::new_at(13, 8_000);
    live.record_file_edit_at("c.rs".to_string(), "rust".to_string(), 8_100).unwrap();
    live.add_commit(create_commit_ref("3333333333".to_string(), "three".to_string(), 8_200, strings(&["c.rs", "a.rs"])))
        .unwrap();

    profile.add_session_at(first, 6_500);
    profile.add_session_at(without, 7_500);
    profile.add_session_at(live, 8_500);

    let correlations = get_commit_correlations_at(&profile, 10_000);
    assert_eq!(correlations.len(), 3);

    assert_eq!(correlations[0].commit.hash, "1111111111");
    assert_eq!(correlations[0].commit.short_hash, "1111111");
    assert_eq!(correlations[0].commit.message, "one");
    assert_eq!(correlations[0].commit.timestamp, 1_300);
    assert_eq!(correlations[0].commit.files_changed, strings(&["b.rs", "x.rs"]));
    assert_eq!(correlations[0].session_id, 11);
    assert_eq!(correlations[0].session_duration_ms, 5_000);
    assert_eq!(correlations[0].files_in_common, strings(&["b.rs"]));

    assert_eq!(correlations[1].commit.hash, "2222222222");
    assert_eq!(correlations[1].session_id, 11);
    assert_eq!(correlations[1].session_duration_ms, 5_000);
    assert!(correlations[1].files_in_common.is_empty());

    assert_eq!(correlations[2].commit.hash, "3333333333");
    assert_eq!(correlations[2].session_id, 13);
    assert_eq!(correlations[2].session_duration_ms, 2_000);
    assert_eq!(correlations[2].files_in_common, strings(&["c.rs"]));
}

#[test]
fn profile_without_commits_has_no_correlations() {
    let mut profile = GrowthProfile::with_identity("p".to_string(), 0);
    profile.add_session_at(Session::new_at(1, 10), 20);
    assert!(get_commit_correlations_at(&profile, 30).is_empty());
}
