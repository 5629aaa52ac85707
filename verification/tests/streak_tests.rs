use dendrite_core::streak::{compute_streaks, sorted_days};

#[test]
fn no_days_no_streak() {
    assert_eq!(compute_streaks(&vec![], 100), (0, 0));
}

#[test]
fn single_day_today() {
    assert_eq!(compute_streaks(&vec![100], 100), (1, 1));
}

#[test]
fn single_day_yesterday_still_counts() {
    assert_eq!(compute_streaks(&vec![99], 100), (1, 1));
}

#[test]
fn single_day_two_days_ago_does_not_count() {
    assert_eq!(compute_streaks(&vec![98], 100), (0, 1));
}

#[test]
fn consecutive_days_ending_today() {
    assert_eq!(compute_streaks(&vec![98, 99, 100], 100), (3, 3));
    assert_eq!(compute_streaks(&vec![91, 92, 93, 94, 95, 96, 97, 98, 99, 100], 100), (10, 10));
}

#[test]
fn order_of_days_is_irrelevant() {
    let expected = compute_streaks(&vec![95, 96, 98, 99, 100], 100);
    assert_eq!(expected, (3, 3));
    assert_eq!(compute_streaks(&vec![100, 95, 99, 96, 98], 100), expected);
    assert_eq!(compute_streaks(&vec![98, 100, 96, 99, 95], 100), expected);
}

#[test]
fn repeated_days_count_once() {
    assert_eq!(compute_streaks(&vec![98, 99, 99, 100, 100, 100], 100), (3, 3));
    assert_eq!(compute_streaks(&vec![5, 5, 5], 5), (1, 1));
}

#[test]
fn gap_stops_the_current_streak() {
    assert_eq!(compute_streaks(&vec![90, 91, 92, 93, 99, 100], 100), (2, 4));
}

#[test]
fn longest_may_lie_in_the_past() {
    assert_eq!(compute_streaks(&vec![10, 11, 12, 13, 14, 50, 51], 100), (0, 5));
}

#[test]
fn most_recent_day_after_today_still_counts() {
    assert_eq!(compute_streaks(&vec![101, 102, 103], 100), (3, 3));
}

#[test]
fn current_never_exceeds_longest() {
    let lists: Vec<Vec<i64>> = vec![
        vec![1, 2, 3, 5, 6, 9],
        vec![9, 8, 7, 3, 2],
        vec![-3, -2, -1, 0, 1],
        vec![i64::MIN, i64::MAX],
    ];
    for list in lists {
        for today in [-3, 0, 1, 6, 9, 10] {
            let (current, longest) = compute_streaks(&list, today);
            assert!(current <= longest);
        }
    }
}

#[test]
fn extreme_days_do_not_join() {
    assert_eq!(compute_streaks(&vec![i64::MAX, i64::MIN], i64::MAX), (1, 1));
    assert_eq!(compute_streaks(&vec![i64::MAX - 1, i64::MAX], i64::MAX), (2, 2));
    assert_eq!(compute_streaks(&vec![i64::MIN, i64::MIN + 1], i64::MIN), (2, 2));
}

#[test]
fn negative_days_run_like_any_other() {
    assert_eq!(compute_streaks(&vec![-2, -1, 0, 1], 1), (4, 4));
}

#[test]
fn sorted_days_sorts_and_keeps_every_day() {
    assert_eq!(sorted_days(&vec![3, 1, 2, 1, -7]), vec![-7, 1, 1, 2, 3]);
    assert_eq!(sorted_days(&vec![]), Vec::<i64>::new());
}
