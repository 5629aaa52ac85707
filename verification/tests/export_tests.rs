use dendrite_core::export::{
    decimal, generate_badge_svg, generate_badge_url, select_for_export, ExportFormat,
    ExportOptions,
};
use dendrite_core::session::{CommitRef, Session};
use dendrite_core::storage::GrowthProfile;

fn profile_with_streak(streak: u32) -> GrowthProfile {
    let mut profile = GrowthProfile::with_identity("p".to_string(), 0);
    profile.lifetime_stats.current_streak = streak;
    profile
}

fn session(id: u64, start: i64) -> Session {
    let mut session = Session::new_at(id, start);
    session.record_file_edit_at("a.rs".to_string(), "rust".to_string(), start + 10).unwrap();
    session
        .add_commit(CommitRef::new("abcdef123".to_string(), "m".to_string(), start, vec![]))
        .unwrap();
    session.end_at(start + 100).unwrap();
    session
}

fn sample_profile() -> GrowthProfile {
    let mut profile = GrowthProfile::with_identity("p".to_string(), 5);
    for (id, start) in [(1u64, 1_000i64), (2, 2_000), (3, 3_000), (4, 4_000)] {
        profile.add_session_at(session(id, start), start + 200);
    }
    profile
}

#[test]
fn test_export_json() {
    let profile = GrowthProfile::new();
    let options = ExportOptions::default();
    let selection = select_for_export(&profile, &options);
    assert_eq!(selection.id, profile.id);
    assert_eq!(selection.created_at, profile.created_at);
}

#[test]
fn test_generate_badge_url() {
    let profile = GrowthProfile::new();
    let url = generate_badge_url(&profile);
    assert!(url.starts_with("https://img.shields.io"));
}

#[test]
fn badge_url_names_the_streak() {
    assert_eq!(
        generate_badge_url(&profile_with_streak(0)),
        "https://img.shields.io/badge/streak-0_days-brightgreen"
    );
    assert_eq!(
        generate_badge_url(&profile_with_streak(17)),
        "https://img.shields.io/badge/streak-17_days-brightgreen"
    );
    assert_eq!(
        generate_badge_url(&profile_with_streak(u32::MAX)),
        "https://img.shields.io/badge/streak-4294967295_days-brightgreen"
    );
}

#[test]
fn decimal_writes_numbers_as_the_standard_library_does() {
    for n in [0u32, 1, 9, 10, 11, 99, 100, 101, 1000, 12345, 1_000_000, 4_294_967_295] {
        assert_eq!(decimal(n), n.to_string());
    }
    for n in 0..2000u32 {
        assert_eq!(decimal(n), n.to_string());
    }
}

#[test]
fn badge_svg_shows_the_streak_twice() {
    for streak in [0u32, 7, 365] {
        let label = "streak";
        let value = format!("{} days", streak);
        let expected = format!(
            "<svg xmlns=\"http://www.w3.org/2000/svg\" width=\"120\" height=\"20\">\n\
              <linearGradient id=\"b\" x2=\"0\" y2=\"100%\">\n\
                <stop offset=\"0\" stop-color=\"#bbb\" stop-opacity=\".1\"/>\n\
                <stop offset=\"1\" stop-opacity=\".1\"/>\n\
              </linearGradient>\n\
              <rect rx=\"3\" width=\"120\" height=\"20\" fill=\"#555\"/>\n\
              <rect rx=\"3\" x=\"50\" width=\"70\" height=\"20\" fill=\"#4c1\"/>\n\
              <path fill=\"#4c1\" d=\"M50 0h4v20h-4z\"/>\n\
              <rect rx=\"3\" width=\"120\" height=\"20\" fill=\"url(#b)\"/>\n\
              <g fill=\"#fff\" text-anchor=\"middle\" font-family=\"DejaVu Sans,Verdana,Geneva,sans-serif\" font-size=\"11\">\n\
                <text x=\"25\" y=\"15\" fill=\"#010101\" fill-opacity=\".3\">{}</text>\n\
                <text x=\"25\" y=\"14\">{}</text>\n\
                <text x=\"85\" y=\"15\" fill=\"#010101\" fill-opacity=\".3\">{}</text>\n\
                <text x=\"85\" y=\"14\">{}</text>\n\
              </g>\n\
            </svg>",
            label, label, value, value
        );
        assert_eq!(generate_badge_svg(&profile_with_streak(streak)), expected);
    }
}

#[test]
fn default_options_export_everything_as_json() {
    let options = ExportOptions::default();
    assert_eq!(options.format, ExportFormat::Json);
    assert_eq!(options.date_range, None);
    assert!(options.include_commits);
    assert!(options.include_files);
}

#[test]
fn default_selection_is_the_whole_profile() {
    let profile = sample_profile();
    let selection = select_for_export(&profile, &ExportOptions::default());
    assert_eq!(selection.id, profile.id);
    assert_eq!(selection.created_at, profile.created_at);
    assert_eq!(selection.sessions.len(), 4);
    for (copy, source) in selection.sessions.iter().zip(profile.sessions.iter()) {
        assert_eq!(copy.session.id, source.session.id);
        assert_eq!(copy.session.commits.len(), 1);
        assert_eq!(copy.session.files_edited, source.session.files_edited);
        assert_eq!(copy.computed_stats.total_duration_ms, source.computed_stats.total_duration_ms);
    }
    assert_eq!(selection.daily_aggregates.len(), profile.daily_aggregates.len());
    assert_eq!(selection.lifetime_stats.total_sessions, 4);
}

#[test]
fn selection_by_range_keeps_both_ends() {
    let profile = sample_profile();
    let options = ExportOptions {
        format: ExportFormat::Json,
        date_range: Some((2_000, 3_000)),
        include_commits: true,
        include_files: true,
    };
    let selection = select_for_export(&profile, &options);
    let ids: Vec<u64> = selection.sessions.iter().map(|s| s.session.id).collect();
    assert_eq!(ids, vec![2, 3]);
    assert_eq!(selection.lifetime_stats.total_sessions, 4);
    assert_eq!(selection.daily_aggregates.len(), 1);
    assert_eq!(selection.daily_aggregates[0].sessions_count, 4);
}

#[test]
fn selection_with_an_empty_range_has_no_sessions() {
    let profile = sample_profile();
    let options = ExportOptions {
        format: ExportFormat::Markdown,
        date_range: Some((3_000, 2_000)),
        include_commits: true,
        include_files: true,
    };
    assert!(select_for_export(&profile, &options).sessions.is_empty());
}

#[test]
fn selection_drops_commits_and_files_on_request() {
    let profile = sample_profile();
    let no_commits = ExportOptions {
        format: ExportFormat::Json,
        date_range: None,
        include_commits: false,
        include_files: true,
    };
    let selection = select_for_export(&profile, &no_commits);
    assert_eq!(selection.sessions.len(), 4);
    for stored in &selection.sessions {
        assert!(stored.session.commits.is_empty());
        assert_eq!(stored.session.files_edited.len(), 1);
        assert_eq!(stored.computed_stats.commit_count, 1);
    }
    let no_files = ExportOptions {
        format: ExportFormat::Json,
        date_range: None,
        include_commits: true,
        include_files: false,
    };
    let selection = select_for_export(&profile, &no_files);
    for stored in &selection.sessions {
        assert_eq!(stored.session.commits.len(), 1);
        assert!(stored.session.files_edited.is_empty());
        assert_eq!(stored.session.languages.get(&"rust".to_string()), Some(1000));
    }
    assert_eq!(profile.sessions[0].session.commits.len(), 1);
    assert_eq!(profile.sessions[0].session.files_edited.len(), 1);
}
