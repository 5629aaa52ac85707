//! The profile as a function of its history.
//!
//! The totals, the rollups and the streak of a profile are derived values.
//! This module says what they are derived from, and proves that merging
//! sessions one by one arrives at the same values as reading the whole log
//! and the whole set of days from scratch.

use vstd::prelude::*;
use crate::clock::day_of;
use crate::session::SessionModel;
use crate::storage::{
    active_days, dates_distinct, dates_of, has_date, lemma_merged_days, lemma_place_of_date,
    place_of_date, start_day, DailyAggregateModel, GrowthProfileModel, LifetimeStatsModel,
    StoredSessionModel,
};
use crate::streak::{current_streak, lemma_streaks_fit, longest_streak};

verus! {

/// The lifetime totals of a log, read from scratch. The streak is not a total
/// of the log and is left at zero here.
pub open spec fn totals_of(log: Seq<StoredSessionModel>) -> LifetimeStatsModel
    decreases log.len(),
{
    if log.len() == 0 {
        LifetimeStatsModel::zero()
    } else {
        totals_of(log.drop_last()).after_session(log.last().session)
    }
}

/// The rollup of the day `date`, read from scratch: the sessions of the log
/// that started on that day, merged in the order of the log.
pub open spec fn rollup_of(log: Seq<StoredSessionModel>, date: i64) -> DailyAggregateModel
    decreases log.len(),
{
    if log.len() == 0 {
        DailyAggregateModel::empty(date)
    } else if start_day(log.last().session) == date {
        rollup_of(log.drop_last(), date).after_session(log.last().session)
    } else {
        rollup_of(log.drop_last(), date)
    }
}

/// The days on which the sessions of a log started.
pub open spec fn days_of_log(log: Seq<StoredSessionModel>) -> Set<int> {
    Set::new(
        |day: int| exists|i: int| 0 <= i < log.len() && start_day((#[trigger] log[i]).session) == day,
    )
}

/// Two records of totals agree in everything but the streak.
pub open spec fn same_totals(a: LifetimeStatsModel, b: LifetimeStatsModel) -> bool {
    &&& a.total_time_ms == b.total_time_ms
    &&& a.total_keystrokes == b.total_keystrokes
    &&& a.total_sessions == b.total_sessions
    &&& a.total_commits == b.total_commits
    &&& a.languages == b.languages
}

/// The profile holds what its log says: the totals are those of the log,
/// every rollup is the rollup of its day, the days with a rollup are the days
/// on which a session started, and the longest streak is that of those days.
pub open spec fn consistent(profile: GrowthProfileModel) -> bool {
    &&& same_totals(profile.lifetime_stats, totals_of(profile.sessions))
    &&& forall|i: int|
        0 <= i < profile.daily_aggregates.len() ==> #[trigger] profile.daily_aggregates[i]
            == rollup_of(profile.sessions, profile.daily_aggregates[i].date)
    &&& active_days(profile.daily_aggregates) == days_of_log(profile.sessions)
    &&& profile.lifetime_stats.longest_streak == longest_streak(
        active_days(profile.daily_aggregates),
    )
}

/// The profile after a sequence of sessions was merged, the session at each
/// place at the instant at the same place.
pub open spec fn after_sessions(
    profile: GrowthProfileModel,
    sessions: Seq<SessionModel>,
    instants: Seq<i64>,
) -> GrowthProfileModel
    decreases sessions.len(),
{
    if sessions.len() == 0 || instants.len() != sessions.len() {
        profile
    } else {
        after_sessions(profile, sessions.drop_last(), instants.drop_last()).after_session(
            sessions.last(),
            instants.last(),
        )
    }
}

/// The days on which the sessions of a sequence started.
pub open spec fn start_days(sessions: Seq<SessionModel>) -> Set<int> {
    Set::new(
        |day: int| exists|i: int| 0 <= i < sessions.len() && start_day(#[trigger] sessions[i]) == day,
    )
}

/// A new profile is consistent with its empty log.
pub proof fn lemma_fresh_is_consistent(id: Seq<char>, created_at: i64)
    ensures
        consistent(GrowthProfileModel::fresh(id, created_at)),
        GrowthProfileModel::fresh(id, created_at).inv(),
{
    let profile = GrowthProfileModel::fresh(id, created_at);
    assert(active_days(profile.daily_aggregates) =~= Set::<int>::empty());
    assert(days_of_log(profile.sessions) =~= Set::<int>::empty());
}

/// Merging a session keeps a profile consistent: the values that were
/// updated in place are the values that a reading of the whole log gives.
pub proof fn lemma_merge_keeps_consistent(
    profile: GrowthProfileModel,
    session: SessionModel,
    now: i64,
)
    requires
        profile.inv(),
        consistent(profile),
        profile.after_session(session, now).daily_aggregates.len() <= u32::MAX,
    ensures
        consistent(profile.after_session(session, now)),
        profile.after_session(session, now).inv(),
{
    let after = profile.after_session(session, now);
    lemma_streaks_fit(dates_of(after.daily_aggregates), day_of(now));
    let date = start_day(session);
    let stored = StoredSessionModel::of(session, now);
    let log = after.sessions;
    lemma_merged_days(profile.daily_aggregates, session);
    assert(log.drop_last() =~= profile.sessions);
    assert(log.last() == stored);
    assert(totals_of(log) == totals_of(profile.sessions).after_session(session));
    assert forall|i: int| 0 <= i < after.daily_aggregates.len() implies #[trigger] after.daily_aggregates[i]
        == rollup_of(log, after.daily_aggregates[i].date) by {
        if has_date(profile.daily_aggregates, date) {
            let place = place_of_date(profile.daily_aggregates, date);
            if i == place {
            } else {
                assert(after.daily_aggregates[i] == profile.daily_aggregates[i]);
                if profile.daily_aggregates[i].date == date {
                    lemma_place_of_date(profile.daily_aggregates, i);
                }
            }
        } else {
            if i < profile.daily_aggregates.len() {
                assert(after.daily_aggregates[i] == profile.daily_aggregates[i]);
                assert(profile.daily_aggregates[i].date != date);
            } else {
                lemma_rollup_of_absent_day(profile, date);
            }
        }
    }
    assert forall|day: int| days_of_log(log).contains(day) <==> days_of_log(
        profile.sessions,
    ).insert(date as int).contains(day) by {
        if days_of_log(log).contains(day) {
            let k = choose|k: int|
                0 <= k < log.len() && start_day((#[trigger] log[k]).session) == day;
            if k < profile.sessions.len() {
                assert(profile.sessions[k] == log[k]);
            }
        }
        if days_of_log(profile.sessions).contains(day) {
            let k = choose|k: int|
                0 <= k < profile.sessions.len() && start_day(
                    (#[trigger] profile.sessions[k]).session,
                ) == day;
            assert(log[k] == profile.sessions[k]);
        }
        if day == date {
            assert(start_day(log[log.len() - 1].session) == day);
        }
    }
    assert(days_of_log(log) =~= days_of_log(profile.sessions).insert(date as int));
}

/// A day without a rollup in a consistent profile has an empty rollup in
/// the log: no session started on it.
proof fn lemma_rollup_of_absent_day(profile: GrowthProfileModel, date: i64)
    requires
        consistent(profile),
        !has_date(profile.daily_aggregates, date),
    ensures
        rollup_of(profile.sessions, date) == DailyAggregateModel::empty(date),
{
    assert(!active_days(profile.daily_aggregates).contains(date as int)) by {
        if active_days(profile.daily_aggregates).contains(date as int) {
            let k = choose|k: int|
                0 <= k < dates_of(profile.daily_aggregates).len() && #[trigger] dates_of(
                    profile.daily_aggregates,
                )[k] == date as int;
            assert(profile.daily_aggregates[k].date == date);
        }
    }
    lemma_rollup_without_sessions(profile.sessions, date);
}

/// The rollup of a day on which no session of the log started is empty.
proof fn lemma_rollup_without_sessions(log: Seq<StoredSessionModel>, date: i64)
    requires
        !days_of_log(log).contains(date as int),
    ensures
        rollup_of(log, date) == DailyAggregateModel::empty(date),
    decreases log.len(),
{
    if log.len() > 0 {
        let earlier = log.drop_last();
        assert(start_day(log[log.len() - 1].session) != date);
        assert(!days_of_log(earlier).contains(date as int)) by {
            if days_of_log(earlier).contains(date as int) {
                let k = choose|k: int|
                    0 <= k < earlier.len() && start_day((#[trigger] earlier[k]).session)
                        == date as int;
                assert(log[k] == earlier[k]);
            }
        }
        lemma_rollup_without_sessions(earlier, date);
    }
}

/// The streak after any sequence of merges is the streak of the whole set of
/// days, read from scratch as of the day of the last merge: the days that the
/// profile had, and the days on which the merged sessions started. Neither
/// the order of the merges nor the streak held before plays a part.
pub proof fn lemma_streak_is_recomputed(
    profile: GrowthProfileModel,
    sessions: Seq<SessionModel>,
    instants: Seq<i64>,
)
    requires
        dates_distinct(profile.daily_aggregates),
        sessions.len() == instants.len(),
        sessions.len() > 0,
        after_sessions(profile, sessions, instants).daily_aggregates.len() <= u32::MAX,
    ensures
        ({
            let after = after_sessions(profile, sessions, instants);
            let days = active_days(profile.daily_aggregates).union(start_days(sessions));
            &&& dates_distinct(after.daily_aggregates)
            &&& active_days(after.daily_aggregates) == days
            &&& after.lifetime_stats.current_streak == current_streak(
                days,
                day_of(instants.last()),
            )
            &&& after.lifetime_stats.longest_streak == longest_streak(days)
        }),
{
    lemma_days_after_sessions(profile, sessions, instants);
    let after = after_sessions(profile, sessions, instants);
    lemma_streaks_fit(dates_of(after.daily_aggregates), day_of(instants.last()));
}

/// The days of a profile after any sequence of merges are the days that it
/// had and the days on which the merged sessions started, each once.
pub proof fn lemma_days_after_sessions(
    profile: GrowthProfileModel,
    sessions: Seq<SessionModel>,
    instants: Seq<i64>,
)
    requires
        dates_distinct(profile.daily_aggregates),
        sessions.len() == instants.len(),
    ensures
        ({
            let after = after_sessions(profile, sessions, instants);
            let days = active_days(profile.daily_aggregates).union(start_days(sessions));
            &&& dates_distinct(after.daily_aggregates)
            &&& active_days(after.daily_aggregates) == days
            &&& after.daily_aggregates.len() >= profile.daily_aggregates.len()
        }),
    decreases sessions.len(),
{
    if sessions.len() == 0 {
        assert(start_days(sessions) =~= Set::<int>::empty());
        assert(active_days(profile.daily_aggregates).union(start_days(sessions)) =~= active_days(
            profile.daily_aggregates,
        ));
    } else {
        let earlier = after_sessions(profile, sessions.drop_last(), instants.drop_last());
        let earlier_days = active_days(profile.daily_aggregates).union(
            start_days(sessions.drop_last()),
        );
        lemma_days_after_sessions(profile, sessions.drop_last(), instants.drop_last());
        lemma_merged_days(earlier.daily_aggregates, sessions.last());
        let days = active_days(profile.daily_aggregates).union(start_days(sessions));
        assert forall|day: int| days.contains(day) <==> earlier_days.insert(
            start_day(sessions.last()) as int,
        ).contains(day) by {
            if start_days(sessions).contains(day) {
                let k = choose|k: int|
                    0 <= k < sessions.len() && start_day(#[trigger] sessions[k]) == day;
                if k < sessions.len() - 1 {
                    assert(sessions.drop_last()[k] == sessions[k]);
                }
            }
            if start_days(sessions.drop_last()).contains(day) {
                let k = choose|k: int|
                    0 <= k < sessions.drop_last().len() && start_day(
                        #[trigger] sessions.drop_last()[k],
                    ) == day;
                assert(sessions[k] == sessions.drop_last()[k]);
            }
            if day == start_day(sessions.last()) as int {
                assert(start_day(sessions[sessions.len() - 1]) == day);
            }
        }
        assert(days =~= earlier_days.insert(start_day(sessions.last()) as int));
    }
}

/// Merging the same sessions in another order ends with the same set of
/// days, and so with the same streak as of any given day.
pub proof fn lemma_merge_order_is_irrelevant(
    profile: GrowthProfileModel,
    first: Seq<SessionModel>,
    first_instants: Seq<i64>,
    second: Seq<SessionModel>,
    second_instants: Seq<i64>,
)
    requires
        dates_distinct(profile.daily_aggregates),
        first.len() == first_instants.len(),
        second.len() == second_instants.len(),
        first.len() > 0,
        second.len() > 0,
        start_days(first) == start_days(second),
        day_of(first_instants.last()) == day_of(second_instants.last()),
        after_sessions(profile, first, first_instants).daily_aggregates.len() <= u32::MAX,
        after_sessions(profile, second, second_instants).daily_aggregates.len() <= u32::MAX,
    ensures
        ({
            let one = after_sessions(profile, first, first_instants);
            let other = after_sessions(profile, second, second_instants);
            &&& active_days(one.daily_aggregates) == active_days(other.daily_aggregates)
            &&& one.lifetime_stats.current_streak == other.lifetime_stats.current_streak
            &&& one.lifetime_stats.longest_streak == other.lifetime_stats.longest_streak
        }),
{
    lemma_streak_is_recomputed(profile, first, first_instants);
    lemma_streak_is_recomputed(profile, second, second_instants);
}

} // verus!
