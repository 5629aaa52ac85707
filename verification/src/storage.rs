//! What is kept of finished sessions: a frozen summary of each, one rollup
//! per calendar day, and the lifetime totals with the activity streak.

use vstd::prelude::*;
use crate::clock::{day_number, day_of, now_millis};
use crate::error::TrackError;
use crate::languages::{primary_of, sum_fits, summed, LanguageTimes};
use crate::session::{Session, SessionModel};
use crate::streak::{compute_streaks, current_streak, day_set, longest_streak};
use crate::text::opt_chars;

verus! {

/// Figures computed from a session at one instant.
///
/// The share of the session that was active is the ratio of `active_time_ms`
/// to `total_duration_ms`; the two are kept as they are, so that nothing is
/// rounded here.
pub struct SessionStats {
    pub total_duration_ms: u64,
    pub active_time_ms: u64,
    pub primary_language: Option<String>,
    pub commit_count: u32,
}

/// What a [`SessionStats`] holds, as plain mathematical values.
pub struct SessionStatsModel {
    pub total_duration_ms: u64,
    pub active_time_ms: u64,
    pub primary_language: Option<Seq<char>>,
    pub commit_count: u32,
}

impl View for SessionStats {
    type V = SessionStatsModel;

    open spec fn view(&self) -> SessionStatsModel {
        SessionStatsModel {
            total_duration_ms: self.total_duration_ms,
            active_time_ms: self.active_time_ms,
            primary_language: opt_chars(self.primary_language),
            commit_count: self.commit_count,
        }
    }
}

impl SessionStatsModel {
    /// The figures of `session` as seen at `now`.
    pub open spec fn of(session: SessionModel, now: i64) -> SessionStatsModel {
        SessionStatsModel {
            total_duration_ms: session.total_duration_ms(now) as u64,
            active_time_ms: session.active_time_ms,
            primary_language: primary_of(session.languages),
            commit_count: session.commits.len() as u32,
        }
    }
}

impl Clone for SessionStats {
    fn clone(&self) -> (copy: Self)
        ensures
            copy@ == self@,
    {
        SessionStats {
            total_duration_ms: self.total_duration_ms,
            active_time_ms: self.active_time_ms,
            primary_language: match &self.primary_language {
                Some(name) => Some(name.clone()),
                None => None,
            },
            commit_count: self.commit_count,
        }
    }
}

impl SessionStats {
    /// The figures of `session` as seen at `now`.
    pub fn from_session_at(session: &Session, now: i64) -> (stats: Self)
        requires
            session.wf(),
        ensures
            stats@ == SessionStatsModel::of(session@, now),
    {
        SessionStats {
            total_duration_ms: session.total_duration_ms_at(now),
            active_time_ms: session.active_time_ms,
            primary_language: session.primary_language(),
            commit_count: session.commits.len() as u32,
        }
    }

    /// The figures of `session` as seen now.
    pub fn from_session(session: &Session) -> (stats: Self)
        requires
            session.wf(),
        ensures
            exists|now: i64| stats@ == SessionStatsModel::of(session@, now),
    {
        let now = now_millis();
        SessionStats::from_session_at(session, now)
    }
}

/// A finished session together with the figures it had when it was stored.
pub struct StoredSession {
    pub session: Session,
    pub computed_stats: SessionStats,
}

/// What a [`StoredSession`] holds, as plain mathematical values.
pub struct StoredSessionModel {
    pub session: SessionModel,
    pub computed_stats: SessionStatsModel,
}

impl View for StoredSession {
    type V = StoredSessionModel;

    open spec fn view(&self) -> StoredSessionModel {
        StoredSessionModel { session: self.session@, computed_stats: self.computed_stats@ }
    }
}

impl StoredSessionModel {
    /// `session` with its figures frozen at `now`.
    pub open spec fn of(session: SessionModel, now: i64) -> StoredSessionModel {
        StoredSessionModel { session, computed_stats: SessionStatsModel::of(session, now) }
    }
}

impl Clone for StoredSession {
    fn clone(&self) -> (copy: Self)
        ensures
            copy@ == self@,
            copy.session.wf() == self.session.wf(),
    {
        StoredSession { session: self.session.clone(), computed_stats: self.computed_stats.clone() }
    }
}

impl StoredSession {
    /// Stores `session` with its figures frozen at `now`.
    pub fn new_at(session: Session, now: i64) -> (stored: Self)
        requires
            session.wf(),
        ensures
            stored@ == StoredSessionModel::of(session@, now),
            stored.session == session,
    {
        let computed_stats = SessionStats::from_session_at(&session, now);
        StoredSession { session, computed_stats }
    }

    /// Stores `session` with its figures frozen now.
    pub fn new(session: Session) -> (stored: Self)
        requires
            session.wf(),
        ensures
            exists|now: i64| stored@ == StoredSessionModel::of(session@, now),
            stored.session == session,
    {
        let now = now_millis();
        StoredSession::new_at(session, now)
    }
}

/// The rollup of the sessions that started on one calendar day.
pub struct DailyAggregate {
    /// The day, counted from 1970-01-01.
    pub date: i64,
    pub total_time_ms: u64,
    pub total_keystrokes: u32,
    pub files_count: u32,
    pub sessions_count: u32,
    pub commits_count: u32,
    pub languages: LanguageTimes,
}

/// What a [`DailyAggregate`] holds, as plain mathematical values.
pub struct DailyAggregateModel {
    pub date: i64,
    pub total_time_ms: u64,
    pub total_keystrokes: u32,
    pub files_count: u32,
    pub sessions_count: u32,
    pub commits_count: u32,
    pub languages: Map<Seq<char>, u64>,
}

impl View for DailyAggregate {
    type V = DailyAggregateModel;

    open spec fn view(&self) -> DailyAggregateModel {
        DailyAggregateModel {
            date: self.date,
            total_time_ms: self.total_time_ms,
            total_keystrokes: self.total_keystrokes,
            files_count: self.files_count,
            sessions_count: self.sessions_count,
            commits_count: self.commits_count,
            languages: self.languages@,
        }
    }
}

impl DailyAggregateModel {
    /// The rollup of `date` before any session was merged into it.
    pub open spec fn empty(date: i64) -> DailyAggregateModel {
        DailyAggregateModel {
            date,
            total_time_ms: 0,
            total_keystrokes: 0,
            files_count: 0,
            sessions_count: 0,
            commits_count: 0,
            languages: Map::empty(),
        }
    }

    /// Merging `session` overflows none of the counters.
    pub open spec fn session_fits(self, session: SessionModel) -> bool {
        &&& self.total_time_ms + session.active_time_ms <= u64::MAX
        &&& self.total_keystrokes + session.keystroke_count <= u32::MAX
        &&& self.files_count + session.files_edited.to_set().len() <= u32::MAX
        &&& self.sessions_count + 1 <= u32::MAX
        &&& self.commits_count + session.commits.len() <= u32::MAX
        &&& sum_fits(self.languages, session.languages)
    }

    /// The rollup after `session` was merged: every counter grows by what
    /// the session holds. The files counted are the distinct files of this
    /// session alone, whatever earlier sessions of the day have touched.
    pub open spec fn after_session(self, session: SessionModel) -> DailyAggregateModel {
        DailyAggregateModel {
            date: self.date,
            total_time_ms: (self.total_time_ms + session.active_time_ms) as u64,
            total_keystrokes: (self.total_keystrokes + session.keystroke_count) as u32,
            files_count: (self.files_count + session.files_edited.to_set().len()) as u32,
            sessions_count: (self.sessions_count + 1) as u32,
            commits_count: (self.commits_count + session.commits.len()) as u32,
            languages: summed(self.languages, session.languages),
        }
    }
}

impl Clone for DailyAggregate {
    fn clone(&self) -> (copy: Self)
        ensures
            copy@ == self@,
            copy.wf() == self.wf(),
    {
        DailyAggregate {
            date: self.date,
            total_time_ms: self.total_time_ms,
            total_keystrokes: self.total_keystrokes,
            files_count: self.files_count,
            sessions_count: self.sessions_count,
            commits_count: self.commits_count,
            languages: self.languages.clone(),
        }
    }
}

impl DailyAggregate {
    /// The language table is well formed.
    pub open spec fn wf(&self) -> bool {
        self.languages.wf()
    }

    /// The empty rollup of the day `date`.
    pub fn new(date: i64) -> (aggregate: Self)
        ensures
            aggregate.wf(),
            aggregate@ == DailyAggregateModel::empty(date),
    {
        DailyAggregate {
            date,
            total_time_ms: 0,
            total_keystrokes: 0,
            files_count: 0,
            sessions_count: 0,
            commits_count: 0,
            languages: LanguageTimes::new(),
        }
    }

    /// Decides [`DailyAggregateModel::session_fits`].
    pub fn fits_session(&self, session: &Session) -> (fits: bool)
        requires
            self.wf(),
            session.wf(),
        ensures
            fits == self@.session_fits(session@),
    {
        proof {
            session@.files_edited.unique_seq_to_set();
        }
        self.total_time_ms <= u64::MAX - session.active_time_ms && self.total_keystrokes
            <= u32::MAX - session.keystroke_count && self.files_count as u64
            + session.files_edited.len() as u64 <= u32::MAX as u64 && self.sessions_count
            < u32::MAX && self.commits_count as u64 + session.commits.len() as u64
            <= u32::MAX as u64 && self.languages.fits_sum(&session.languages)
    }

    /// Merges `session` into the rollup. Merging the same session twice
    /// counts it twice.
    pub fn add_session(&mut self, session: &Session)
        requires
            old(self).wf(),
            session.wf(),
            old(self)@.session_fits(session@),
        ensures
            final(self).wf(),
            final(self)@ == old(self)@.after_session(session@),
    {
        proof {
            session@.files_edited.unique_seq_to_set();
        }
        self.sessions_count = self.sessions_count + 1;
        self.total_time_ms = self.total_time_ms + session.active_time_ms;
        self.total_keystrokes = self.total_keystrokes + session.keystroke_count;
        self.commits_count = self.commits_count + session.commits.len() as u32;
        self.files_count = self.files_count + session.files_edited.len() as u32;
        self.languages.merge(&session.languages);
    }
}

/// Totals over every session ever merged, and the activity streak.
pub struct LifetimeStats {
    pub total_time_ms: u64,
    pub total_keystrokes: u64,
    pub total_sessions: u32,
    pub total_commits: u32,
    pub current_streak: u32,
    pub longest_streak: u32,
    pub languages: LanguageTimes,
}

/// What a [`LifetimeStats`] holds, as plain mathematical values.
pub struct LifetimeStatsModel {
    pub total_time_ms: u64,
    pub total_keystrokes: u64,
    pub total_sessions: u32,
    pub total_commits: u32,
    pub current_streak: u32,
    pub longest_streak: u32,
    pub languages: Map<Seq<char>, u64>,
}

impl View for LifetimeStats {
    type V = LifetimeStatsModel;

    open spec fn view(&self) -> LifetimeStatsModel {
        LifetimeStatsModel {
            total_time_ms: self.total_time_ms,
            total_keystrokes: self.total_keystrokes,
            total_sessions: self.total_sessions,
            total_commits: self.total_commits,
            current_streak: self.current_streak,
            longest_streak: self.longest_streak,
            languages: self.languages@,
        }
    }
}

impl LifetimeStatsModel {
    /// The totals before any session: all zero, and no language.
    pub open spec fn zero() -> LifetimeStatsModel {
        LifetimeStatsModel {
            total_time_ms: 0,
            total_keystrokes: 0,
            total_sessions: 0,
            total_commits: 0,
            current_streak: 0,
            longest_streak: 0,
            languages: Map::empty(),
        }
    }

    /// Adding `session` overflows none of the totals.
    pub open spec fn session_fits(self, session: SessionModel) -> bool {
        &&& self.total_time_ms + session.active_time_ms <= u64::MAX
        &&& self.total_keystrokes + session.keystroke_count <= u64::MAX
        &&& self.total_sessions + 1 <= u32::MAX
        &&& self.total_commits + session.commits.len() <= u32::MAX
        &&& sum_fits(self.languages, session.languages)
    }

    /// The totals after `session` was added. The streak is left as it was.
    pub open spec fn after_session(self, session: SessionModel) -> LifetimeStatsModel {
        LifetimeStatsModel {
            total_time_ms: (self.total_time_ms + session.active_time_ms) as u64,
            total_keystrokes: (self.total_keystrokes + session.keystroke_count) as u64,
            total_sessions: (self.total_sessions + 1) as u32,
            total_commits: (self.total_commits + session.commits.len()) as u32,
            languages: summed(self.languages, session.languages),
            ..self
        }
    }

    /// The totals with the streak as it stands on the day `today` for the
    /// set `days` of days with activity.
    pub open spec fn with_streaks(self, days: Set<int>, today: i64) -> LifetimeStatsModel {
        LifetimeStatsModel {
            current_streak: current_streak(days, today as int) as u32,
            longest_streak: longest_streak(days) as u32,
            ..self
        }
    }
}

/// The dates of a sequence of rollups, in their order.
pub open spec fn dates_in(aggregates: Seq<DailyAggregate>) -> Seq<i64> {
    Seq::new(aggregates.len(), |i: int| aggregates[i].date)
}

impl Default for LifetimeStats {
    fn default() -> (stats: Self)
        ensures
            stats.wf(),
            stats@ == LifetimeStatsModel::zero(),
    {
        LifetimeStats {
            total_time_ms: 0,
            total_keystrokes: 0,
            total_sessions: 0,
            total_commits: 0,
            current_streak: 0,
            longest_streak: 0,
            languages: LanguageTimes::new(),
        }
    }
}

impl Clone for LifetimeStats {
    fn clone(&self) -> (copy: Self)
        ensures
            copy@ == self@,
            copy.wf() == self.wf(),
    {
        LifetimeStats {
            total_time_ms: self.total_time_ms,
            total_keystrokes: self.total_keystrokes,
            total_sessions: self.total_sessions,
            total_commits: self.total_commits,
            current_streak: self.current_streak,
            longest_streak: self.longest_streak,
            languages: self.languages.clone(),
        }
    }
}

impl LifetimeStats {
    /// The language table is well formed.
    pub open spec fn wf(&self) -> bool {
        self.languages.wf()
    }

    /// Decides [`LifetimeStatsModel::session_fits`].
    pub fn fits_session(&self, session: &Session) -> (fits: bool)
        requires
            self.wf(),
            session.wf(),
        ensures
            fits == self@.session_fits(session@),
    {
        self.total_time_ms <= u64::MAX - session.active_time_ms && self.total_keystrokes
            <= u64::MAX - session.keystroke_count as u64 && self.total_sessions < u32::MAX
            && self.total_commits as u64 + session.commits.len() as u64 <= u32::MAX as u64
            && self.languages.fits_sum(&session.languages)
    }

    /// Adds the figures of `session` to the totals.
    pub fn update_from_session(&mut self, session: &Session)
        requires
            old(self).wf(),
            session.wf(),
            old(self)@.session_fits(session@),
        ensures
            final(self).wf(),
            final(self)@ == old(self)@.after_session(session@),
    {
        self.total_time_ms = self.total_time_ms + session.active_time_ms;
        self.total_keystrokes = self.total_keystrokes + session.keystroke_count as u64;
        self.total_sessions = self.total_sessions + 1;
        self.total_commits = self.total_commits + session.commits.len() as u32;
        self.languages.merge(&session.languages);
    }

    /// Sets the streak to what it is on the day `today`, given every day
    /// that has a rollup. Nothing is carried over from the streak held
    /// before: the whole set of days is read anew, in whatever order the
    /// rollups stand.
    pub fn recalculate_streaks_at(&mut self, daily_aggregates: &[DailyAggregate], today: i64)
        requires
            daily_aggregates@.len() <= u32::MAX,
        ensures
            final(self)@ == old(self)@.with_streaks(day_set(dates_in(daily_aggregates@)), today),
            final(self).current_streak == current_streak(
                day_set(dates_in(daily_aggregates@)),
                today as int,
            ),
            final(self).longest_streak == longest_streak(day_set(dates_in(daily_aggregates@))),
            final(self).current_streak <= final(self).longest_streak,
            final(self).languages == old(self).languages,
    {
        let mut dates: Vec<i64> = Vec::new();
        let mut i: usize = 0;
        while i < daily_aggregates.len()
            invariant
                i <= daily_aggregates@.len(),
                dates@ == dates_in(daily_aggregates@).take(i as int),
            decreases daily_aggregates@.len() - i,
        {
            dates.push(daily_aggregates[i].date);
            proof {
                assert(dates_in(daily_aggregates@).take(i + 1) =~= dates_in(
                    daily_aggregates@,
                ).take(i as int).push(daily_aggregates@[i as int].date));
            }
            i += 1;
        }
        proof {
            assert(dates_in(daily_aggregates@).take(i as int) =~= dates_in(daily_aggregates@));
        }
        let streaks = compute_streaks(&dates, today);
        self.current_streak = streaks.0;
        self.longest_streak = streaks.1;
    }

    /// Sets the streak to what it is today.
    pub fn recalculate_streaks(&mut self, daily_aggregates: &[DailyAggregate])
        requires
            daily_aggregates@.len() <= u32::MAX,
        ensures
            exists|today: i64|
                final(self)@ == old(self)@.with_streaks(
                    day_set(dates_in(daily_aggregates@)),
                    today,
                ),
            final(self).languages == old(self).languages,
    {
        let today = day_number(now_millis());
        self.recalculate_streaks_at(daily_aggregates, today);
    }
}

/// Everything known of one user's activity: the log of stored sessions, one
/// rollup for each day on which a session started, and the lifetime totals.
pub struct GrowthProfile {
    pub id: String,
    pub created_at: i64,
    pub sessions: Vec<StoredSession>,
    pub daily_aggregates: Vec<DailyAggregate>,
    pub lifetime_stats: LifetimeStats,
}

/// What a [`GrowthProfile`] holds, as plain mathematical values.
pub struct GrowthProfileModel {
    pub id: Seq<char>,
    pub created_at: i64,
    pub sessions: Seq<StoredSessionModel>,
    pub daily_aggregates: Seq<DailyAggregateModel>,
    pub lifetime_stats: LifetimeStatsModel,
}

/// The stored sessions of a list, each as its model.
pub open spec fn stored_models(list: Seq<StoredSession>) -> Seq<StoredSessionModel> {
    Seq::new(list.len(), |i: int| list[i]@)
}

/// The rollups of a list, each as its model.
pub open spec fn aggregate_models(list: Seq<DailyAggregate>) -> Seq<DailyAggregateModel> {
    Seq::new(list.len(), |i: int| list[i]@)
}

/// The dates of a sequence of rollups, in their order.
pub open spec fn dates_of(aggregates: Seq<DailyAggregateModel>) -> Seq<i64> {
    Seq::new(aggregates.len(), |i: int| aggregates[i].date)
}

/// The set of the days that have a rollup.
pub open spec fn active_days(aggregates: Seq<DailyAggregateModel>) -> Set<int> {
    day_set(dates_of(aggregates))
}

/// No two rollups are for the same day.
pub open spec fn dates_distinct(aggregates: Seq<DailyAggregateModel>) -> bool {
    forall|i: int, j: int|
        0 <= i < j < aggregates.len() ==> (#[trigger] aggregates[i]).date != (
        #[trigger] aggregates[j]).date
}

/// Some rollup is for the day `date`.
pub open spec fn has_date(aggregates: Seq<DailyAggregateModel>, date: i64) -> bool {
    exists|i: int| 0 <= i < aggregates.len() && (#[trigger] aggregates[i]).date == date
}

/// The place of a rollup for the day `date`, where there is one.
pub open spec fn place_of_date(aggregates: Seq<DailyAggregateModel>, date: i64) -> int {
    choose|i: int| 0 <= i < aggregates.len() && (#[trigger] aggregates[i]).date == date
}

/// The day on which `session` started.
pub open spec fn start_day(session: SessionModel) -> i64 {
    day_of(session.started_at) as i64
}

/// The rollups after `session` was merged: into the rollup of the day on
/// which it started if there is one, and into a new rollup at the end of the
/// sequence if there is none.
pub open spec fn merged_days(
    aggregates: Seq<DailyAggregateModel>,
    session: SessionModel,
) -> Seq<DailyAggregateModel> {
    let date = start_day(session);
    if has_date(aggregates, date) {
        let place = place_of_date(aggregates, date);
        aggregates.update(place, aggregates[place].after_session(session))
    } else {
        aggregates.push(DailyAggregateModel::empty(date).after_session(session))
    }
}

impl View for GrowthProfile {
    type V = GrowthProfileModel;

    open spec fn view(&self) -> GrowthProfileModel {
        GrowthProfileModel {
            id: self.id@,
            created_at: self.created_at,
            sessions: stored_models(self.sessions@),
            daily_aggregates: aggregate_models(self.daily_aggregates@),
            lifetime_stats: self.lifetime_stats@,
        }
    }
}

impl GrowthProfileModel {
    /// What holds of every profile: no two rollups are for the same day,
    /// and the rollups can be counted in 32 bits.
    pub open spec fn inv(self) -> bool {
        &&& dates_distinct(self.daily_aggregates)
        &&& self.daily_aggregates.len() <= u32::MAX
    }

    /// The profile `id`, created at `created_at`, before any session.
    pub open spec fn fresh(id: Seq<char>, created_at: i64) -> GrowthProfileModel {
        GrowthProfileModel {
            id,
            created_at,
            sessions: Seq::empty(),
            daily_aggregates: Seq::empty(),
            lifetime_stats: LifetimeStatsModel::zero(),
        }
    }

    /// Merging `session` overflows neither the lifetime totals, nor the
    /// rollup of its day, nor the count of rollups.
    pub open spec fn session_fits(self, session: SessionModel) -> bool {
        &&& self.lifetime_stats.session_fits(session)
        &&& if has_date(self.daily_aggregates, start_day(session)) {
            self.daily_aggregates[place_of_date(
                self.daily_aggregates,
                start_day(session),
            )].session_fits(session)
        } else {
            self.daily_aggregates.len() < u32::MAX
        }
    }

    /// The profile after `session` was merged at the instant `now`: the
    /// totals grow by the session, the rollup of its day takes it in, the
    /// streak is read anew from all days as of the day of `now`, and the
    /// session joins the log with its figures frozen at `now`.
    pub open spec fn after_session(self, session: SessionModel, now: i64) -> GrowthProfileModel {
        let days = merged_days(self.daily_aggregates, session);
        GrowthProfileModel {
            id: self.id,
            created_at: self.created_at,
            sessions: self.sessions.push(StoredSessionModel::of(session, now)),
            daily_aggregates: days,
            lifetime_stats: self.lifetime_stats.after_session(session).with_streaks(
                active_days(days),
                day_of(now) as i64,
            ),
        }
    }
}

/// A rollup's place is the only place with its date.
pub proof fn lemma_place_of_date(aggregates: Seq<DailyAggregateModel>, i: int)
    requires
        dates_distinct(aggregates),
        0 <= i < aggregates.len(),
    ensures
        has_date(aggregates, aggregates[i].date),
        place_of_date(aggregates, aggregates[i].date) == i,
{
    let date = aggregates[i].date;
    assert(has_date(aggregates, date));
    let place = place_of_date(aggregates, date);
    if place < i {
        assert(aggregates[place].date != aggregates[i].date);
    } else if i < place {
        assert(aggregates[i].date != aggregates[place].date);
    }
}

/// Merging a session keeps the days distinct and adds the day on which the
/// session started to the set of days, and nothing else.
pub proof fn lemma_merged_days(aggregates: Seq<DailyAggregateModel>, session: SessionModel)
    requires
        dates_distinct(aggregates),
    ensures
        dates_distinct(merged_days(aggregates, session)),
        active_days(merged_days(aggregates, session)) == active_days(aggregates).insert(
            start_day(session) as int,
        ),
        merged_days(aggregates, session).len() == aggregates.len() + (if has_date(
            aggregates,
            start_day(session),
        ) {
            0int
        } else {
            1int
        }),
{
    let date = start_day(session);
    let merged = merged_days(aggregates, session);
    let target = active_days(aggregates).insert(date as int);
    if has_date(aggregates, date) {
        let place = place_of_date(aggregates, date);
        assert forall|i: int, j: int| 0 <= i < j < merged.len() implies (#[trigger] merged[i]).date
            != (#[trigger] merged[j]).date by {
            assert(merged[i].date == aggregates[i].date);
            assert(merged[j].date == aggregates[j].date);
        }
        assert(dates_of(merged) =~= dates_of(aggregates));
        assert(dates_of(aggregates)[place] == date);
        assert(active_days(aggregates).contains(date as int));
        assert(active_days(merged) =~= target);
    } else {
        let last = aggregates.len() as int;
        assert forall|i: int, j: int| 0 <= i < j < merged.len() implies (#[trigger] merged[i]).date
            != (#[trigger] merged[j]).date by {
            assert(merged[i] == aggregates[i]);
            if j < last {
                assert(merged[j] == aggregates[j]);
            }
        }
        assert(dates_of(merged) =~= dates_of(aggregates).push(date));
        assert forall|day: int| active_days(merged).contains(day) <==> target.contains(day) by {
            if active_days(merged).contains(day) {
                let k = choose|k: int|
                    0 <= k < dates_of(merged).len() && #[trigger] dates_of(merged)[k] == day;
                if k < last {
                    assert(dates_of(aggregates)[k] == day);
                }
            }
            if active_days(aggregates).contains(day) {
                let k = choose|k: int|
                    0 <= k < dates_of(aggregates).len() && #[trigger] dates_of(aggregates)[k]
                        == day;
                assert(dates_of(merged)[k] == day);
            }
            if day == date {
                assert(dates_of(merged)[last] == day);
            }
        }
        assert(active_days(merged) =~= target);
    }
}

/// Asks `uuid::Uuid::new_v4` for a random identifier and hands back its
/// `to_string`: the hyphenated form, which is 36 characters long whatever
/// the identifier. Which identifier comes is not said. `new_v4` panics where
/// the operating system has no random bytes to give.
#[verifier::external_body]
fn fresh_identifier() -> (id: String)
    ensures
        id@.len() == 36,
{
    uuid::Uuid::new_v4().to_string()
}

impl GrowthProfile {
    /// The language tables are well formed and the model meets
    /// [`GrowthProfileModel::inv`].
    pub open spec fn wf(&self) -> bool {
        &&& self.lifetime_stats.wf()
        &&& forall|i: int|
            0 <= i < self.daily_aggregates@.len() ==> (#[trigger] self.daily_aggregates@[i]).wf()
        &&& self@.inv()
    }

    /// Decides [`GrowthProfile::wf`].
    pub fn is_wf(&self) -> (ok: bool)
        ensures
            ok == self.wf(),
    {
        if !self.lifetime_stats.languages.is_wf() || self.daily_aggregates.len()
            > u32::MAX as usize {
            return false;
        }
        let mut j: usize = 0;
        while j < self.daily_aggregates.len()
            invariant
                j <= self.daily_aggregates@.len(),
                forall|k: int| 0 <= k < j ==> (#[trigger] self.daily_aggregates@[k]).wf(),
                forall|a: int, b: int|
                    0 <= a < b < j ==> (#[trigger] self@.daily_aggregates[a]).date != (
                    #[trigger] self@.daily_aggregates[b]).date,
            decreases self.daily_aggregates@.len() - j,
        {
            if !self.daily_aggregates[j].languages.is_wf() {
                return false;
            }
            let mut i: usize = 0;
            while i < j
                invariant
                    i <= j < self.daily_aggregates@.len(),
                    forall|k: int|
                        0 <= k < i ==> (#[trigger] self@.daily_aggregates[k]).date
                            != self@.daily_aggregates[j as int].date,
                decreases j - i,
            {
                if self.daily_aggregates[i].date == self.daily_aggregates[j].date {
                    proof {
                        assert(self@.daily_aggregates[i as int].date
                            == self@.daily_aggregates[j as int].date);
                    }
                    return false;
                }
                i += 1;
            }
            j += 1;
        }
        true
    }

    /// The empty profile with the identifier `id`, created at `created_at`.
    pub fn with_identity(id: String, created_at: i64) -> (profile: Self)
        ensures
            profile.wf(),
            profile@ == GrowthProfileModel::fresh(id@, created_at),
    {
        let profile = GrowthProfile {
            id,
            created_at,
            sessions: Vec::new(),
            daily_aggregates: Vec::new(),
            lifetime_stats: LifetimeStats::default(),
        };
        proof {
            assert(profile@.sessions =~= Seq::<StoredSessionModel>::empty());
            assert(profile@.daily_aggregates =~= Seq::<DailyAggregateModel>::empty());
        }
        profile
    }

    /// An empty profile, created now, with a random identifier of its own.
    pub fn new() -> (profile: Self)
        ensures
            profile.wf(),
            profile@.id.len() == 36,
            exists|now: i64| profile@ == GrowthProfileModel::fresh(profile@.id, now),
    {
        let id = fresh_identifier();
        let now = now_millis();
        let profile = GrowthProfile::with_identity(id, now);
        proof {
            assert(profile@ == GrowthProfileModel::fresh(profile@.id, now));
        }
        profile
    }

    /// Rebuilds a profile from its persisted parts, or reports that they do
    /// not make one: two rollups for one day, a language listed twice in
    /// one table, or more rollups than 32 bits can count.
    pub fn from_persisted(
        id: String,
        created_at: i64,
        sessions: Vec<StoredSession>,
        daily_aggregates: Vec<DailyAggregate>,
        lifetime_stats: LifetimeStats,
    ) -> (outcome: Result<GrowthProfile, TrackError>)
        ensures
            match outcome {
                Ok(profile) => {
                    &&& profile.wf()
                    &&& profile.id == id
                    &&& profile.created_at == created_at
                    &&& profile.sessions == sessions
                    &&& profile.daily_aggregates == daily_aggregates
                    &&& profile.lifetime_stats == lifetime_stats
                },
                Err(error) => {
                    &&& error == TrackError::Deserialization
                    &&& !(GrowthProfile {
                        id,
                        created_at,
                        sessions,
                        daily_aggregates,
                        lifetime_stats,
                    }).wf()
                },
            },
    {
        let profile = GrowthProfile { id, created_at, sessions, daily_aggregates, lifetime_stats };
        if profile.is_wf() {
            Ok(profile)
        } else {
            Err(TrackError::Deserialization)
        }
    }

    /// Where the rollup of the day `date` stands, if there is one.
    pub fn position_of_date(&self, date: i64) -> (found: Option<usize>)
        ensures
            match found {
                Some(i) => i < self.daily_aggregates@.len() && self.daily_aggregates@[i as int].date
                    == date,
                None => !has_date(self@.daily_aggregates, date),
            },
    {
        let mut i: usize = 0;
        while i < self.daily_aggregates.len()
            invariant
                i <= self.daily_aggregates@.len(),
                forall|k: int| 0 <= k < i ==> (#[trigger] self@.daily_aggregates[k]).date != date,
            decreases self.daily_aggregates@.len() - i,
        {
            if self.daily_aggregates[i].date == date {
                return Some(i);
            }
            i += 1;
        }
        None
    }

    /// Decides [`GrowthProfileModel::session_fits`].
    pub fn fits_session(&self, session: &Session) -> (fits: bool)
        requires
            self.wf(),
            session.wf(),
        ensures
            fits == self@.session_fits(session@),
    {
        if !self.lifetime_stats.fits_session(session) {
            return false;
        }
        let date = day_number(session.started_at);
        match self.position_of_date(date) {
            Some(place) => {
                proof {
                    lemma_place_of_date(self@.daily_aggregates, place as int);
                }
                self.daily_aggregates[place].fits_session(session)
            },
            None => self.daily_aggregates.len() < u32::MAX as usize,
        }
    }

    /// Merges `session` into the profile at the instant `now`. The profile
    /// does not know one session from another: merging a session twice
    /// counts it twice.
    pub fn add_session_at(&mut self, session: Session, now: i64)
        requires
            old(self).wf(),
            session.wf(),
            old(self)@.session_fits(session@),
        ensures
            final(self).wf(),
            final(self)@ == old(self)@.after_session(session@, now),
            final(self)@.lifetime_stats.total_sessions == old(self)@.lifetime_stats.total_sessions
                + 1,
            final(self)@.lifetime_stats.total_keystrokes
                == old(self)@.lifetime_stats.total_keystrokes + session@.keystroke_count,
            active_days(final(self)@.daily_aggregates) == active_days(
                old(self)@.daily_aggregates,
            ).insert(start_day(session@) as int),
            final(self)@.lifetime_stats.current_streak == current_streak(
                active_days(final(self)@.daily_aggregates),
                day_of(now),
            ),
            final(self)@.lifetime_stats.longest_streak == longest_streak(
                active_days(final(self)@.daily_aggregates),
            ),
    {
        let ghost before = self@;
        let computed_stats = SessionStats::from_session_at(&session, now);
        self.lifetime_stats.update_from_session(&session);
        let date = day_number(session.started_at);
        proof {
            lemma_merged_days(before.daily_aggregates, session@);
        }
        match self.position_of_date(date) {
            Some(i) => {
                proof {
                    lemma_place_of_date(before.daily_aggregates, i as int);
                }
                let mut daily = self.daily_aggregates[i].clone();
                daily.add_session(&session);
                self.daily_aggregates.set(i, daily);
            },
            None => {
                let mut daily = DailyAggregate::new(date);
                proof {
                    session@.files_edited.unique_seq_to_set();
                }
                daily.add_session(&session);
                self.daily_aggregates.push(daily);
            },
        }
        proof {
            assert(self@.daily_aggregates =~= merged_days(before.daily_aggregates, session@));
            assert(dates_in(self.daily_aggregates@) =~= dates_of(self@.daily_aggregates));
        }
        let today = day_number(now);
        self.lifetime_stats.recalculate_streaks_at(self.daily_aggregates.as_slice(), today);
        proof {
            assert(stored_models(
                self.sessions@.push(StoredSession { session, computed_stats }),
            ) =~= stored_models(self.sessions@).push(StoredSessionModel::of(session@, now)));
        }
        self.sessions.push(StoredSession { session, computed_stats });
    }

    /// The lifetime totals.
    pub fn get_profile_stats(&self) -> (stats: &LifetimeStats)
        ensures
            *stats == self.lifetime_stats,
    {
        &self.lifetime_stats
    }

    /// The current streak, as it stood on the day of the last merge.
    pub fn get_current_streak(&self) -> (streak: u32)
        ensures
            streak == self.lifetime_stats.current_streak,
    {
        self.lifetime_stats.current_streak
    }

    /// The longest streak.
    pub fn get_longest_streak(&self) -> (streak: u32)
        ensures
            streak == self.lifetime_stats.longest_streak,
    {
        self.lifetime_stats.longest_streak
    }

    /// Merges `session` into the profile now.
    pub fn add_session(&mut self, session: Session)
        requires
            old(self).wf(),
            session.wf(),
            old(self)@.session_fits(session@),
        ensures
            final(self).wf(),
            exists|now: i64| final(self)@ == old(self)@.after_session(session@, now),
            final(self)@.lifetime_stats.total_sessions == old(self)@.lifetime_stats.total_sessions
                + 1,
            final(self)@.lifetime_stats.total_keystrokes
                == old(self)@.lifetime_stats.total_keystrokes + session@.keystroke_count,
            active_days(final(self)@.daily_aggregates) == active_days(
                old(self)@.daily_aggregates,
            ).insert(start_day(session@) as int),
    {
        let now = now_millis();
        self.add_session_at(session, now);
    }
}

impl Default for GrowthProfile {
    fn default() -> (profile: Self)
        ensures
            profile.wf(),
            profile@.id.len() == 36,
            exists|now: i64| profile@ == GrowthProfileModel::fresh(profile@.id, now),
    {
        GrowthProfile::new()
    }
}

} // verus!
