//! A session: one tracked period of editor activity, and its state machine.
//!
//! Every operation that depends on the time exists twice. The form whose name
//! ends in `_at` takes the instant as an argument and says exactly what the
//! session becomes. The form without it reads the clock and behaves as the
//! first does for the instant that was read.

use vstd::prelude::*;
use crate::clock::{elapsed_between, elapsed_ms, now_millis};
use crate::error::TrackError;
use crate::languages::{credited, is_primary, primary_of, time_in, LanguageTimes};
use crate::text::{
    all_distinct, clone_names, contains_name, leading, lemma_names_push, names, opt_chars, prefix,
};

verus! {

/// A gap between two recorded activities counts as active time only if it is
/// shorter than this many milliseconds.
pub const ACTIVITY_GAP_LIMIT_MS: u64 = 5000;

/// Every file edit credits this many milliseconds to the file's language.
pub const FILE_EDIT_CREDIT_MS: u64 = 1000;

/// The number of characters of a commit hash that its short form keeps.
pub const SHORT_HASH_CHARS: usize = 7;

/// Where a session stands in its life.
#[derive(Clone, Copy, Debug, PartialEq, Eq, Structural)]
pub enum SessionState {
    Active,
    Idle,
    Paused,
    Ended,
}

impl Default for SessionState {
    fn default() -> (state: Self)
        ensures
            state == SessionState::Active,
    {
        SessionState::Active
    }
}

/// A stretch of time during which a session was idle. It is open until it
/// is ended, and its duration is zero while it is open.
#[derive(Clone, Copy, Debug)]
pub struct IdlePeriod {
    pub started_at: i64,
    pub ended_at: Option<i64>,
    pub duration_ms: u64,
}

impl IdlePeriod {
    /// The open period that begins at `started_at`.
    pub open spec fn opened_at(started_at: i64) -> IdlePeriod {
        IdlePeriod { started_at, ended_at: None, duration_ms: 0 }
    }

    /// This period closed at `ended_at`, with the time between its two ends
    /// as its duration.
    pub open spec fn closed_at(self, ended_at: i64) -> IdlePeriod {
        IdlePeriod {
            started_at: self.started_at,
            ended_at: Some(ended_at),
            duration_ms: elapsed_ms(self.started_at, ended_at) as u64,
        }
    }

    /// Opens a period at `started_at`.
    pub fn new(started_at: i64) -> (period: Self)
        ensures
            period == IdlePeriod::opened_at(started_at),
    {
        IdlePeriod { started_at, ended_at: None, duration_ms: 0 }
    }

    /// Closes the period at `ended_at`.
    pub fn end(&mut self, ended_at: i64)
        ensures
            *final(self) == old(self).closed_at(ended_at),
    {
        self.ended_at = Some(ended_at);
        self.duration_ms = elapsed_between(self.started_at, ended_at);
    }
}

/// A reference to a commit made while a session ran.
pub struct CommitRef {
    pub hash: String,
    pub short_hash: String,
    pub message: String,
    pub timestamp: i64,
    pub files_changed: Vec<String>,
}

/// What a [`CommitRef`] holds, as plain mathematical values.
pub struct CommitRefModel {
    pub hash: Seq<char>,
    pub short_hash: Seq<char>,
    pub message: Seq<char>,
    pub timestamp: i64,
    pub files_changed: Seq<Seq<char>>,
}

impl View for CommitRef {
    type V = CommitRefModel;

    open spec fn view(&self) -> CommitRefModel {
        CommitRefModel {
            hash: self.hash@,
            short_hash: self.short_hash@,
            message: self.message@,
            timestamp: self.timestamp,
            files_changed: names(self.files_changed@),
        }
    }
}

impl CommitRefModel {
    /// The commit made of these parts: its short hash is the first seven
    /// characters of the hash, or the whole hash where that is shorter.
    pub open spec fn of(
        hash: Seq<char>,
        message: Seq<char>,
        timestamp: i64,
        files_changed: Seq<Seq<char>>,
    ) -> CommitRefModel {
        CommitRefModel { hash, short_hash: prefix(hash, 7), message, timestamp, files_changed }
    }
}

impl CommitRef {
    /// Builds a commit reference and derives its short hash.
    pub fn new(hash: String, message: String, timestamp: i64, files_changed: Vec<String>) -> (commit:
        Self)
        ensures
            commit@ == CommitRefModel::of(hash@, message@, timestamp, names(files_changed@)),
    {
        let short_hash = leading(&hash, SHORT_HASH_CHARS);
        CommitRef { hash, short_hash, message, timestamp, files_changed }
    }
}

impl Clone for CommitRef {
    fn clone(&self) -> (copy: Self)
        ensures
            copy@ == self@,
    {
        CommitRef {
            hash: self.hash.clone(),
            short_hash: self.short_hash.clone(),
            message: self.message.clone(),
            timestamp: self.timestamp,
            files_changed: clone_names(&self.files_changed),
        }
    }
}

/// The commits of a list, each as its model.
pub open spec fn commit_models(list: Seq<CommitRef>) -> Seq<CommitRefModel> {
    Seq::new(list.len(), |i: int| list[i]@)
}

/// A copy of a list of commits.
pub fn clone_commits(list: &Vec<CommitRef>) -> (copy: Vec<CommitRef>)
    ensures
        commit_models(copy@) == commit_models(list@),
{
    let mut copy: Vec<CommitRef> = Vec::new();
    let mut i: usize = 0;
    while i < list.len()
        invariant
            i <= list@.len(),
            copy@.len() == i,
            forall|k: int| 0 <= k < i ==> (#[trigger] copy@[k])@ == list@[k]@,
        decreases list@.len() - i,
    {
        copy.push(list[i].clone());
        i += 1;
    }
    proof {
        assert(commit_models(copy@) =~= commit_models(list@));
    }
    copy
}

/// A copy of a list of idle periods.
pub fn clone_idle_periods(list: &Vec<IdlePeriod>) -> (copy: Vec<IdlePeriod>)
    ensures
        copy@ == list@,
{
    let mut copy: Vec<IdlePeriod> = Vec::new();
    let mut i: usize = 0;
    while i < list.len()
        invariant
            i <= list@.len(),
            copy@ == list@.take(i as int),
        decreases list@.len() - i,
    {
        copy.push(list[i]);
        proof {
            assert(list@.take(i + 1) =~= list@.take(i as int).push(list@[i as int]));
        }
        i += 1;
    }
    proof {
        assert(list@.take(i as int) =~= list@);
    }
    copy
}

/// A tracked period of activity.
///
/// `state`, `last_activity` and `current_idle` are transient: they steer the
/// state machine and are not part of what is persisted.
pub struct Session {
    pub id: u64,
    pub started_at: i64,
    pub ended_at: Option<i64>,
    pub active_time_ms: u64,
    pub keystroke_count: u32,
    pub files_edited: Vec<String>,
    pub languages: LanguageTimes,
    pub idle_periods: Vec<IdlePeriod>,
    pub commits: Vec<CommitRef>,
    pub state: SessionState,
    pub last_activity: i64,
    pub current_idle: Option<IdlePeriod>,
}

/// What a [`Session`] holds, as plain mathematical values. The state machine
/// is defined on this model; the executable operations are proved to follow it.
pub struct SessionModel {
    pub id: u64,
    pub started_at: i64,
    pub ended_at: Option<i64>,
    pub active_time_ms: u64,
    pub keystroke_count: u32,
    pub files_edited: Seq<Seq<char>>,
    pub languages: Map<Seq<char>, u64>,
    pub idle_periods: Seq<IdlePeriod>,
    pub commits: Seq<CommitRefModel>,
    pub state: SessionState,
    pub last_activity: i64,
    pub current_idle: Option<IdlePeriod>,
}

impl View for Session {
    type V = SessionModel;

    open spec fn view(&self) -> SessionModel {
        SessionModel {
            id: self.id,
            started_at: self.started_at,
            ended_at: self.ended_at,
            active_time_ms: self.active_time_ms,
            keystroke_count: self.keystroke_count,
            files_edited: names(self.files_edited@),
            languages: self.languages@,
            idle_periods: self.idle_periods@,
            commits: commit_models(self.commits@),
            state: self.state,
            last_activity: self.last_activity,
            current_idle: self.current_idle,
        }
    }
}

impl SessionModel {
    /// What holds of every session at rest: it has an end time exactly when
    /// it has ended; an idle session has an open idle period and an ended one
    /// has none; no file is listed twice; and the numbers of files and of
    /// commits can be counted in 32 bits.
    pub open spec fn inv(self) -> bool {
        &&& self.ended_at is Some <==> self.state == SessionState::Ended
        &&& self.state == SessionState::Idle ==> self.current_idle is Some
        &&& self.state == SessionState::Ended ==> self.current_idle is None
        &&& self.files_edited.no_duplicates()
        &&& self.files_edited.len() <= u32::MAX
        &&& self.commits.len() <= u32::MAX
    }

    /// The session with identity `id` that starts at `now`: active, with
    /// nothing recorded.
    pub open spec fn fresh(id: u64, now: i64) -> SessionModel {
        SessionModel {
            id,
            started_at: now,
            ended_at: None,
            active_time_ms: 0,
            keystroke_count: 0,
            files_edited: Seq::empty(),
            languages: Map::empty(),
            idle_periods: Seq::empty(),
            commits: Seq::empty(),
            state: SessionState::Active,
            last_activity: now,
            current_idle: None,
        }
    }

    /// The session read back from its persisted fields. The transient part is
    /// rebuilt: the session has ended if it carries an end time and is active
    /// otherwise, no idle period is open, and the activity clock stands at
    /// the epoch.
    pub open spec fn restored(
        id: u64,
        started_at: i64,
        ended_at: Option<i64>,
        active_time_ms: u64,
        keystroke_count: u32,
        files_edited: Seq<Seq<char>>,
        languages: Map<Seq<char>, u64>,
        idle_periods: Seq<IdlePeriod>,
        commits: Seq<CommitRefModel>,
    ) -> SessionModel {
        SessionModel {
            id,
            started_at,
            ended_at,
            active_time_ms,
            keystroke_count,
            files_edited,
            languages,
            idle_periods,
            commits,
            state: if ended_at is Some {
                SessionState::Ended
            } else {
                SessionState::Active
            },
            last_activity: 0,
            current_idle: None,
        }
    }

    /// The active time that an activity at `now` earns: the time since the
    /// last activity if the session is active and that time is under the gap
    /// limit, and nothing otherwise.
    pub open spec fn activity_credit(self, now: i64) -> nat {
        if self.state == SessionState::Active && elapsed_ms(self.last_activity, now) < 5000 {
            elapsed_ms(self.last_activity, now)
        } else {
            0
        }
    }

    /// The most active time that one activity can earn the session, at
    /// whatever instant it comes.
    pub open spec fn largest_credit(self) -> nat {
        if self.state != SessionState::Active {
            0
        } else if i64::MAX - self.last_activity >= 4999 {
            4999
        } else {
            (i64::MAX - self.last_activity) as nat
        }
    }

    /// The session after an activity at `now` was noted: an active session
    /// gains [`Self::activity_credit`] and its activity clock moves to `now`;
    /// any other is unchanged.
    pub open spec fn with_activity(self, now: i64) -> SessionModel {
        if self.state == SessionState::Active {
            SessionModel {
                active_time_ms: (self.active_time_ms + self.activity_credit(now)) as u64,
                last_activity: now,
                ..self
            }
        } else {
            self
        }
    }

    /// The session with its open idle period, if any, closed at `now` and
    /// moved to the log.
    pub open spec fn with_idle_closed(self, now: i64) -> SessionModel {
        SessionModel {
            idle_periods: match self.current_idle {
                Some(period) => self.idle_periods.push(period.closed_at(now)),
                None => self.idle_periods,
            },
            current_idle: None,
            ..self
        }
    }

    /// A keystroke at `now` overflows neither the keystroke count nor the
    /// active time.
    pub open spec fn keystroke_fits(self, now: i64) -> bool {
        self.state != SessionState::Ended ==> {
            &&& self.keystroke_count < u32::MAX
            &&& self.active_time_ms + self.activity_credit(now) <= u64::MAX
        }
    }

    /// The session after a keystroke at `now`.
    pub open spec fn after_keystroke(self, now: i64) -> SessionModel {
        SessionModel {
            keystroke_count: (self.keystroke_count + 1) as u32,
            ..self
        }.with_activity(now)
    }

    /// An edit of `file` in `language` at `now` overflows neither the file
    /// list, the active time nor the language's time.
    pub open spec fn file_edit_fits(self, file: Seq<char>, language: Seq<char>, now: i64) -> bool {
        self.state != SessionState::Ended ==> {
            &&& !self.files_edited.contains(file) ==> self.files_edited.len() < u32::MAX
            &&& self.active_time_ms + self.activity_credit(now) <= u64::MAX
            &&& time_in(self.languages, language) + 1000 <= u64::MAX
        }
    }

    /// The session after an edit of `file` in `language` at `now`: the file
    /// joins the list unless it is there already, the activity is noted, and
    /// the language is credited one second.
    pub open spec fn after_file_edit(
        self,
        file: Seq<char>,
        language: Seq<char>,
        now: i64,
    ) -> SessionModel {
        SessionModel {
            files_edited: if self.files_edited.contains(file) {
                self.files_edited
            } else {
                self.files_edited.push(file)
            },
            languages: credited(self.languages, language, 1000),
            ..self
        }.with_activity(now)
    }

    /// The session after it was marked idle at `now`: an active session
    /// becomes idle and opens an idle period; any other is unchanged.
    pub open spec fn after_mark_idle(self, now: i64) -> SessionModel {
        if self.state == SessionState::Active {
            SessionModel {
                state: SessionState::Idle,
                current_idle: Some(IdlePeriod::opened_at(now)),
                ..self
            }
        } else {
            self
        }
    }

    /// The session after it resumed from idle at `now`: an idle session
    /// closes its idle period, logs it, becomes active and restarts its
    /// activity clock; any other is unchanged.
    pub open spec fn after_resume_from_idle(self, now: i64) -> SessionModel {
        if self.state == SessionState::Idle {
            SessionModel {
                state: SessionState::Active,
                last_activity: now,
                ..self.with_idle_closed(now)
            }
        } else {
            self
        }
    }

    /// The session after it was paused. No interval is recorded.
    pub open spec fn after_pause(self) -> SessionModel {
        SessionModel { state: SessionState::Paused, ..self }
    }

    /// The session after it resumed from a pause at `now`: a paused session
    /// becomes active and restarts its activity clock; any other is unchanged.
    pub open spec fn after_resume(self, now: i64) -> SessionModel {
        if self.state == SessionState::Paused {
            SessionModel { state: SessionState::Active, last_activity: now, ..self }
        } else {
            self
        }
    }

    /// The session after it ended at `now`: the end time is stamped, the
    /// state is terminal, and an idle period still open is closed and logged.
    pub open spec fn after_end(self, now: i64) -> SessionModel {
        SessionModel {
            ended_at: Some(now),
            state: SessionState::Ended,
            ..self.with_idle_closed(now)
        }
    }

    /// One more commit does not overflow the count of commits.
    pub open spec fn commit_fits(self) -> bool {
        self.state != SessionState::Ended ==> self.commits.len() < u32::MAX
    }

    /// The session after `commit` was attached.
    pub open spec fn after_commit(self, commit: CommitRefModel) -> SessionModel {
        SessionModel { commits: self.commits.push(commit), ..self }
    }

    /// How long the session has lasted, seen at `now`: from its start to its
    /// end if it has ended, and from its start to `now` otherwise.
    pub open spec fn total_duration_ms(self, now: i64) -> nat {
        match self.ended_at {
            Some(ended_at) => elapsed_ms(self.started_at, ended_at),
            None => elapsed_ms(self.started_at, now),
        }
    }
}

/// What a change of state owes its caller: a session that has ended refuses
/// the change and stays as it was; any other becomes `target`.
pub open spec fn stepped(
    before: SessionModel,
    after: SessionModel,
    outcome: Result<(), TrackError>,
    target: SessionModel,
) -> bool {
    if before.state == SessionState::Ended {
        outcome == Err::<(), TrackError>(TrackError::InvalidTransition) && after == before
    } else {
        outcome == Ok::<(), TrackError>(()) && after == target
    }
}

impl Clone for Session {
    fn clone(&self) -> (copy: Self)
        ensures
            copy@ == self@,
            copy.wf() == self.wf(),
    {
        Session {
            id: self.id,
            started_at: self.started_at,
            ended_at: self.ended_at,
            active_time_ms: self.active_time_ms,
            keystroke_count: self.keystroke_count,
            files_edited: clone_names(&self.files_edited),
            languages: self.languages.clone(),
            idle_periods: clone_idle_periods(&self.idle_periods),
            commits: clone_commits(&self.commits),
            state: self.state,
            last_activity: self.last_activity,
            current_idle: self.current_idle,
        }
    }
}

impl Session {
    /// The language table is well formed and the model meets
    /// [`SessionModel::inv`].
    pub open spec fn wf(&self) -> bool {
        self.languages.wf() && self@.inv()
    }

    /// Decides [`Session::wf`].
    pub fn is_wf(&self) -> (ok: bool)
        ensures
            ok == self.wf(),
    {
        let ended = self.state == SessionState::Ended;
        let idle = self.state == SessionState::Idle;
        self.languages.is_wf() && self.ended_at.is_some() == ended && (!idle
            || self.current_idle.is_some()) && (!ended || self.current_idle.is_none())
            && all_distinct(&self.files_edited) && self.files_edited.len() <= u32::MAX as usize
            && self.commits.len() <= u32::MAX as usize
    }

    /// Starts a session at the instant `now`.
    pub fn new_at(id: u64, now: i64) -> (session: Self)
        ensures
            session.wf(),
            session@ == SessionModel::fresh(id, now),
    {
        let session = Session {
            id,
            started_at: now,
            ended_at: None,
            active_time_ms: 0,
            keystroke_count: 0,
            files_edited: Vec::new(),
            languages: LanguageTimes::new(),
            idle_periods: Vec::new(),
            commits: Vec::new(),
            state: SessionState::Active,
            last_activity: now,
            current_idle: None,
        };
        proof {
            assert(session@.files_edited =~= Seq::<Seq<char>>::empty());
            assert(session@.commits =~= Seq::<CommitRefModel>::empty());
            assert(session@.idle_periods =~= Seq::<IdlePeriod>::empty());
        }
        session
    }

    /// Starts a session now.
    pub fn new(id: u64) -> (session: Self)
        ensures
            session.wf(),
            exists|now: i64| session@ == SessionModel::fresh(id, now),
    {
        let now = now_millis();
        Session::new_at(id, now)
    }

    /// Rebuilds a session from its persisted fields, or reports why they do
    /// not make one: a file listed twice, a language listed twice, or more
    /// files or commits than 32 bits can count.
    pub fn from_persisted(
        id: u64,
        started_at: i64,
        ended_at: Option<i64>,
        active_time_ms: u64,
        keystroke_count: u32,
        files_edited: Vec<String>,
        languages: LanguageTimes,
        idle_periods: Vec<IdlePeriod>,
        commits: Vec<CommitRef>,
    ) -> (outcome: Result<Session, TrackError>)
        ensures
            outcome is Ok <==> languages.wf() && SessionModel::restored(
                id,
                started_at,
                ended_at,
                active_time_ms,
                keystroke_count,
                names(files_edited@),
                languages@,
                idle_periods@,
                commit_models(commits@),
            ).inv(),
            match outcome {
                Ok(session) => session.wf() && session@ == SessionModel::restored(
                    id,
                    started_at,
                    ended_at,
                    active_time_ms,
                    keystroke_count,
                    names(files_edited@),
                    languages@,
                    idle_periods@,
                    commit_models(commits@),
                ),
                Err(error) => error == TrackError::Deserialization,
            },
    {
        if !languages.is_wf() || !all_distinct(&files_edited) || files_edited.len()
            > u32::MAX as usize || commits.len() > u32::MAX as usize {
            return Err(TrackError::Deserialization);
        }
        let state = if ended_at.is_some() {
            SessionState::Ended
        } else {
            SessionState::Active
        };
        Ok(
            Session {
                id,
                started_at,
                ended_at,
                active_time_ms,
                keystroke_count,
                files_edited,
                languages,
                idle_periods,
                commits,
                state,
                last_activity: 0,
                current_idle: None,
            },
        )
    }

    /// Notes an activity at `now`: see [`SessionModel::with_activity`].
    fn update_activity_time(&mut self, now: i64)
        requires
            old(self).active_time_ms + old(self)@.activity_credit(now) <= u64::MAX,
        ensures
            final(self)@ == old(self)@.with_activity(now),
            final(self).languages == old(self).languages,
            final(self).files_edited == old(self).files_edited,
            final(self).commits == old(self).commits,
    {
        if self.state == SessionState::Active {
            let delta = elapsed_between(self.last_activity, now);
            if delta < ACTIVITY_GAP_LIMIT_MS {
                self.active_time_ms = self.active_time_ms + delta;
            }
            self.last_activity = now;
        }
    }

    /// Closes the open idle period, if there is one, at `now` and logs it.
    fn close_idle(&mut self, now: i64)
        ensures
            final(self)@ == old(self)@.with_idle_closed(now),
            final(self).languages == old(self).languages,
            final(self).files_edited == old(self).files_edited,
            final(self).commits == old(self).commits,
    {
        match self.current_idle {
            Some(open) => {
                let mut period = open;
                period.end(now);
                self.idle_periods.push(period);
                self.current_idle = None;
            },
            None => {},
        }
    }

    /// Records a keystroke at `now`.
    pub fn record_keystroke_at(&mut self, now: i64) -> (outcome: Result<(), TrackError>)
        requires
            old(self).wf(),
            old(self)@.keystroke_fits(now),
        ensures
            final(self).wf(),
            stepped(old(self)@, final(self)@, outcome, old(self)@.after_keystroke(now)),
    {
        if self.state == SessionState::Ended {
            return Err(TrackError::InvalidTransition);
        }
        self.keystroke_count = self.keystroke_count + 1;
        self.update_activity_time(now);
        Ok(())
    }

    /// Records a keystroke now.
    pub fn record_keystroke(&mut self) -> (outcome: Result<(), TrackError>)
        requires
            old(self).wf(),
            forall|now: i64| old(self)@.keystroke_fits(now),
        ensures
            final(self).wf(),
            exists|now: i64|
                stepped(old(self)@, final(self)@, outcome, old(self)@.after_keystroke(now)),
    {
        let now = now_millis();
        self.record_keystroke_at(now)
    }

    /// Records an edit of `file_path`, written in `language`, at `now`.
    pub fn record_file_edit_at(&mut self, file_path: String, language: String, now: i64) -> (outcome:
        Result<(), TrackError>)
        requires
            old(self).wf(),
            old(self)@.file_edit_fits(file_path@, language@, now),
        ensures
            final(self).wf(),
            stepped(
                old(self)@,
                final(self)@,
                outcome,
                old(self)@.after_file_edit(file_path@, language@, now),
            ),
    {
        if self.state == SessionState::Ended {
            return Err(TrackError::InvalidTransition);
        }
        if !contains_name(&self.files_edited, &file_path) {
            proof {
                lemma_names_push(self.files_edited@, file_path);
            }
            self.files_edited.push(file_path);
        }
        self.update_activity_time(now);
        self.languages.credit(language, FILE_EDIT_CREDIT_MS);
        Ok(())
    }

    /// Records an edit of `file_path`, written in `language`, now.
    pub fn record_file_edit(&mut self, file_path: String, language: String) -> (outcome: Result<
        (),
        TrackError,
    >)
        requires
            old(self).wf(),
            forall|now: i64| old(self)@.file_edit_fits(file_path@, language@, now),
        ensures
            final(self).wf(),
            exists|now: i64|
                stepped(
                    old(self)@,
                    final(self)@,
                    outcome,
                    old(self)@.after_file_edit(file_path@, language@, now),
                ),
    {
        let now = now_millis();
        self.record_file_edit_at(file_path, language, now)
    }

    /// Marks the session idle at `now`.
    pub fn mark_idle_at(&mut self, now: i64) -> (outcome: Result<(), TrackError>)
        requires
            old(self).wf(),
        ensures
            final(self).wf(),
            stepped(old(self)@, final(self)@, outcome, old(self)@.after_mark_idle(now)),
    {
        if self.state == SessionState::Ended {
            return Err(TrackError::InvalidTransition);
        }
        if self.state == SessionState::Active {
            self.state = SessionState::Idle;
            self.current_idle = Some(IdlePeriod::new(now));
        }
        Ok(())
    }

    /// Marks the session idle now.
    pub fn mark_idle(&mut self) -> (outcome: Result<(), TrackError>)
        requires
            old(self).wf(),
        ensures
            final(self).wf(),
            exists|now: i64|
                stepped(old(self)@, final(self)@, outcome, old(self)@.after_mark_idle(now)),
    {
        let now = now_millis();
        self.mark_idle_at(now)
    }

    /// Resumes the session from idle at `now`.
    pub fn resume_from_idle_at(&mut self, now: i64) -> (outcome: Result<(), TrackError>)
        requires
            old(self).wf(),
        ensures
            final(self).wf(),
            stepped(old(self)@, final(self)@, outcome, old(self)@.after_resume_from_idle(now)),
    {
        if self.state == SessionState::Ended {
            return Err(TrackError::InvalidTransition);
        }
        if self.state == SessionState::Idle {
            self.close_idle(now);
            self.state = SessionState::Active;
            self.last_activity = now;
        }
        Ok(())
    }

    /// Resumes the session from idle now.
    pub fn resume_from_idle(&mut self) -> (outcome: Result<(), TrackError>)
        requires
            old(self).wf(),
        ensures
            final(self).wf(),
            exists|now: i64|
                stepped(
                    old(self)@,
                    final(self)@,
                    outcome,
                    old(self)@.after_resume_from_idle(now),
                ),
    {
        let now = now_millis();
        self.resume_from_idle_at(now)
    }

    /// Pauses the session.
    pub fn pause(&mut self) -> (outcome: Result<(), TrackError>)
        requires
            old(self).wf(),
        ensures
            final(self).wf(),
            stepped(old(self)@, final(self)@, outcome, old(self)@.after_pause()),
    {
        if self.state == SessionState::Ended {
            return Err(TrackError::InvalidTransition);
        }
        self.state = SessionState::Paused;
        Ok(())
    }

    /// Resumes a paused session at `now`.
    pub fn resume_at(&mut self, now: i64) -> (outcome: Result<(), TrackError>)
        requires
            old(self).wf(),
        ensures
            final(self).wf(),
            stepped(old(self)@, final(self)@, outcome, old(self)@.after_resume(now)),
    {
        if self.state == SessionState::Ended {
            return Err(TrackError::InvalidTransition);
        }
        if self.state == SessionState::Paused {
            self.state = SessionState::Active;
            self.last_activity = now;
        }
        Ok(())
    }

    /// Resumes a paused session now.
    pub fn resume(&mut self) -> (outcome: Result<(), TrackError>)
        requires
            old(self).wf(),
        ensures
            final(self).wf(),
            exists|now: i64|
                stepped(old(self)@, final(self)@, outcome, old(self)@.after_resume(now)),
    {
        let now = now_millis();
        self.resume_at(now)
    }

    /// Ends the session at `now`.
    pub fn end_at(&mut self, now: i64) -> (outcome: Result<(), TrackError>)
        requires
            old(self).wf(),
        ensures
            final(self).wf(),
            stepped(old(self)@, final(self)@, outcome, old(self)@.after_end(now)),
    {
        if self.state == SessionState::Ended {
            return Err(TrackError::InvalidTransition);
        }
        self.ended_at = Some(now);
        self.state = SessionState::Ended;
        self.close_idle(now);
        Ok(())
    }

    /// Ends the session now.
    pub fn end(&mut self) -> (outcome: Result<(), TrackError>)
        requires
            old(self).wf(),
        ensures
            final(self).wf(),
            exists|now: i64| stepped(old(self)@, final(self)@, outcome, old(self)@.after_end(now)),
    {
        let now = now_millis();
        self.end_at(now)
    }

    /// Attaches a commit to the session.
    pub fn add_commit(&mut self, commit: CommitRef) -> (outcome: Result<(), TrackError>)
        requires
            old(self).wf(),
            old(self)@.commit_fits(),
        ensures
            final(self).wf(),
            stepped(old(self)@, final(self)@, outcome, old(self)@.after_commit(commit@)),
    {
        if self.state == SessionState::Ended {
            return Err(TrackError::InvalidTransition);
        }
        proof {
            assert(commit_models(self.commits@.push(commit)) =~= commit_models(self.commits@).push(
                commit@,
            ));
        }
        self.commits.push(commit);
        Ok(())
    }

    /// Computes [`SessionModel::largest_credit`].
    fn largest_credit(&self) -> (credit: u64)
        ensures
            credit == self@.largest_credit(),
    {
        if self.state != SessionState::Active {
            0
        } else if self.last_activity <= i64::MAX - 4999 {
            4999
        } else {
            (i64::MAX - self.last_activity) as u64
        }
    }

    /// Whether a keystroke has room in the counters, at whatever instant it
    /// comes.
    pub fn fits_keystroke(&self) -> (fits: bool)
        ensures
            fits == (forall|now: i64| self@.keystroke_fits(now)),
    {
        if self.state == SessionState::Ended {
            return true;
        }
        let credit = self.largest_credit();
        let fits = self.keystroke_count < u32::MAX && self.active_time_ms <= u64::MAX - credit;
        proof {
            let peak = (self.last_activity + credit) as i64;
            lemma_largest_credit(self@, peak);
            if fits {
                assert forall|now: i64| self@.keystroke_fits(now) by {
                    lemma_largest_credit(self@, now);
                }
            } else {
                assert(!self@.keystroke_fits(peak));
            }
        }
        fits
    }

    /// Whether an edit of `file_path` in `language` has room in the counters,
    /// at whatever instant it comes.
    pub fn fits_file_edit(&self, file_path: &String, language: &String) -> (fits: bool)
        requires
            self.languages.wf(),
        ensures
            fits == (forall|now: i64| self@.file_edit_fits(file_path@, language@, now)),
    {
        if self.state == SessionState::Ended {
            return true;
        }
        let credit = self.largest_credit();
        let known = contains_name(&self.files_edited, file_path);
        let held: u64 = match self.languages.get(language) {
            Some(time) => time,
            None => 0,
        };
        let fits = (known || self.files_edited.len() < u32::MAX as usize) && self.active_time_ms
            <= u64::MAX - credit && held <= u64::MAX - FILE_EDIT_CREDIT_MS;
        proof {
            let peak = (self.last_activity + credit) as i64;
            lemma_largest_credit(self@, peak);
            if fits {
                assert forall|now: i64| self@.file_edit_fits(file_path@, language@, now) by {
                    lemma_largest_credit(self@, now);
                }
            } else {
                assert(!self@.file_edit_fits(file_path@, language@, peak));
            }
        }
        fits
    }

    /// Whether one more commit has room in the session.
    pub fn fits_commit(&self) -> (fits: bool)
        ensures
            fits == self@.commit_fits(),
    {
        self.state == SessionState::Ended || self.commits.len() < u32::MAX as usize
    }

    /// How long the session has lasted, seen at `now`.
    pub fn total_duration_ms_at(&self, now: i64) -> (duration: u64)
        ensures
            duration == self@.total_duration_ms(now),
    {
        match self.ended_at {
            Some(ended_at) => elapsed_between(self.started_at, ended_at),
            None => elapsed_between(self.started_at, now),
        }
    }

    /// How long the session has lasted. For a session that has not ended
    /// this is a live value: it grows from one call to the next.
    pub fn total_duration_ms(&self) -> (duration: u64)
        ensures
            exists|now: i64| duration == self@.total_duration_ms(now),
    {
        match self.ended_at {
            Some(ended_at) => {
                let duration = elapsed_between(self.started_at, ended_at);
                proof {
                    assert(duration == self@.total_duration_ms(0));
                }
                duration
            },
            None => {
                let now = now_millis();
                let duration = elapsed_between(self.started_at, now);
                proof {
                    assert(duration == self@.total_duration_ms(now));
                }
                duration
            },
        }
    }

    /// The language with the most time, ties going to the name that comes
    /// first; `None` where no language was recorded.
    pub fn primary_language(&self) -> (best: Option<String>)
        requires
            self.languages.wf(),
        ensures
            opt_chars(best) == primary_of(self@.languages),
            best is Some ==> is_primary(self@.languages, best->0@),
    {
        self.languages.primary()
    }
}

/// No activity earns more than [`SessionModel::largest_credit`], and an
/// activity that comes that long after the last one earns just that.
pub proof fn lemma_largest_credit(session: SessionModel, now: i64)
    ensures
        session.activity_credit(now) <= session.largest_credit(),
        session.activity_credit((session.last_activity + session.largest_credit()) as i64)
            == session.largest_credit(),
{
}

/// Marking an active session idle and resuming it logs exactly one idle
/// period, as long as the time between the two, and earns no active time.
pub proof fn lemma_idle_then_resume(session: SessionModel, idle_at: i64, resumed_at: i64)
    requires
        session.state == SessionState::Active,
        idle_at <= resumed_at,
    ensures
        ({
            let after = session.after_mark_idle(idle_at).after_resume_from_idle(resumed_at);
            &&& after.idle_periods == session.idle_periods.push(
                IdlePeriod {
                    started_at: idle_at,
                    ended_at: Some(resumed_at),
                    duration_ms: (resumed_at - idle_at) as u64,
                },
            )
            &&& after.active_time_ms == session.active_time_ms
            &&& after.state == SessionState::Active
            &&& after.current_idle is None
        }),
{
}

/// The duration of a session that has ended is the time from its start to
/// its end, at whatever instant it is asked for.
pub proof fn lemma_terminal_duration(session: SessionModel, now: i64)
    requires
        session.ended_at is Some,
        session.started_at <= session.ended_at->0,
    ensures
        session.total_duration_ms(now) == session.ended_at->0 - session.started_at,
{
}

/// Ending a session stamps the end time, and from then on the duration
/// stands still.
pub proof fn lemma_end_fixes_duration(session: SessionModel, ended_at: i64, now: i64)
    requires
        session.started_at <= ended_at,
    ensures
        session.after_end(ended_at).state == SessionState::Ended,
        session.after_end(ended_at).current_idle is None,
        session.after_end(ended_at).total_duration_ms(now) == ended_at - session.started_at,
{
}

/// Every change keeps the invariant of the session, as long as the counters
/// have room for it.
pub proof fn lemma_transitions_keep_inv(
    session: SessionModel,
    now: i64,
    file: Seq<char>,
    language: Seq<char>,
    commit: CommitRefModel,
)
    requires
        session.inv(),
        session.state != SessionState::Ended,
    ensures
        session.after_mark_idle(now).inv(),
        session.after_resume_from_idle(now).inv(),
        session.after_pause().inv(),
        session.after_resume(now).inv(),
        session.after_end(now).inv(),
        session.after_keystroke(now).inv(),
        session.file_edit_fits(file, language, now) ==> session.after_file_edit(
            file,
            language,
            now,
        ).inv(),
        session.commit_fits() ==> session.after_commit(commit).inv(),
{
    let edited = session.after_file_edit(file, language, now);
    if !session.files_edited.contains(file) {
        assert forall|i: int, j: int|
            0 <= i < edited.files_edited.len() && 0 <= j < edited.files_edited.len() && i
                != j implies edited.files_edited[i] != edited.files_edited[j] by {
            if i < session.files_edited.len() && j < session.files_edited.len() {
                assert(session.files_edited[i] != session.files_edited[j]);
            } else if i < session.files_edited.len() {
                assert(session.files_edited.contains(session.files_edited[i]));
            } else {
                assert(session.files_edited.contains(session.files_edited[j]));
            }
        }
    }
}

/// The active time never goes down, whatever happens to the session, as
/// long as it has room to go up.
pub proof fn lemma_active_time_never_decreases(
    session: SessionModel,
    now: i64,
    file: Seq<char>,
    language: Seq<char>,
    commit: CommitRefModel,
)
    requires
        session.active_time_ms + session.activity_credit(now) <= u64::MAX,
    ensures
        session.after_keystroke(now).active_time_ms >= session.active_time_ms,
        session.after_file_edit(file, language, now).active_time_ms >= session.active_time_ms,
        session.after_mark_idle(now).active_time_ms == session.active_time_ms,
        session.after_resume_from_idle(now).active_time_ms == session.active_time_ms,
        session.after_pause().active_time_ms == session.active_time_ms,
        session.after_resume(now).active_time_ms == session.active_time_ms,
        session.after_end(now).active_time_ms == session.active_time_ms,
        session.after_commit(commit).active_time_ms == session.active_time_ms,
{
}

/// The lists of a session only grow: what they held before a change they
/// hold after it, at the same places.
pub proof fn lemma_logs_only_grow(
    session: SessionModel,
    now: i64,
    file: Seq<char>,
    language: Seq<char>,
    commit: CommitRefModel,
)
    ensures
        session.files_edited.is_prefix_of(
            session.after_file_edit(file, language, now).files_edited,
        ),
        session.after_file_edit(file, language, now).files_edited.len()
            <= session.files_edited.len() + 1,
        session.commits.is_prefix_of(session.after_commit(commit).commits),
        session.idle_periods.is_prefix_of(session.after_resume_from_idle(now).idle_periods),
        session.idle_periods.is_prefix_of(session.after_end(now).idle_periods),
        session.after_keystroke(now).files_edited == session.files_edited,
        session.after_keystroke(now).commits == session.commits,
        session.after_keystroke(now).idle_periods == session.idle_periods,
        session.after_mark_idle(now).idle_periods == session.idle_periods,
{
}

/// Nothing leaves the terminal state: a session that has ended refuses
/// every change, and ending a session is the only way into that state.
pub proof fn lemma_ended_is_terminal(
    session: SessionModel,
    after: SessionModel,
    outcome: Result<(), TrackError>,
    target: SessionModel,
    now: i64,
)
    requires
        stepped(session, after, outcome, target),
    ensures
        session.state == SessionState::Ended ==> after == session && outcome is Err,
        session.state != SessionState::Ended ==> {
            &&& session.after_mark_idle(now).state != SessionState::Ended
            &&& session.after_resume_from_idle(now).state != SessionState::Ended
            &&& session.after_pause().state != SessionState::Ended
            &&& session.after_resume(now).state != SessionState::Ended
            &&& session.after_keystroke(now).state != SessionState::Ended
            &&& session.after_end(now).state == SessionState::Ended
        },
{
}

} // verus!
