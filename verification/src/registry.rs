//! The sessions that are being tracked, each under a handle of its own.
//!
//! A registry is a value that its caller owns: there is no hidden state, and
//! two registries know nothing of each other. An operation on a handle
//! that no session stands under changes nothing and reports `NotFound`.

use std::collections::HashMap;
use vstd::prelude::*;
use crate::clock::now_millis;
use crate::error::TrackError;
use crate::session::{stepped, CommitRef, Session, SessionModel, SessionState};
use crate::storage::{SessionStats, SessionStatsModel};

verus! {

/// Sessions by handle, and the handle that the next session will get.
pub struct SessionRegistry {
    pub sessions: HashMap<u64, Session>,
    pub next_id: u64,
}

/// What a [`SessionRegistry`] holds, as plain mathematical values.
pub struct RegistryModel {
    pub sessions: Map<u64, SessionModel>,
    pub next_id: u64,
}

/// The sessions of a map, each as its model.
pub open spec fn session_models(sessions: Map<u64, Session>) -> Map<u64, SessionModel> {
    Map::new(|handle: u64| sessions.contains_key(handle), |handle: u64| sessions[handle]@)
}

impl View for SessionRegistry {
    type V = RegistryModel;

    open spec fn view(&self) -> RegistryModel {
        RegistryModel { sessions: session_models(self.sessions@), next_id: self.next_id }
    }
}

impl RegistryModel {
    /// The registry with the session under `handle` replaced by `session`.
    pub open spec fn with_session(self, handle: u64, session: SessionModel) -> RegistryModel {
        RegistryModel { sessions: self.sessions.insert(handle, session), next_id: self.next_id }
    }

    /// The registry after a new session was started at `now`: it stands
    /// under the handle that was next, and the next handle is one higher.
    pub open spec fn after_init(self, now: i64) -> RegistryModel {
        RegistryModel {
            sessions: self.sessions.insert(self.next_id, SessionModel::fresh(self.next_id, now)),
            next_id: (self.next_id + 1) as u64,
        }
    }
}

/// What a change of the session under `handle` owes its caller. Without a
/// session under the handle nothing changes and `NotFound` comes back; a
/// session that has ended refuses with `InvalidTransition` and nothing
/// changes; any other session becomes `target`.
pub open spec fn routed(
    before: RegistryModel,
    after: RegistryModel,
    handle: u64,
    outcome: Result<(), TrackError>,
    target: SessionModel,
) -> bool {
    if !before.sessions.contains_key(handle) {
        outcome == Err::<(), TrackError>(TrackError::NotFound) && after == before
    } else if before.sessions[handle].state == SessionState::Ended {
        outcome == Err::<(), TrackError>(TrackError::InvalidTransition) && after == before
    } else {
        outcome == Ok::<(), TrackError>(()) && after == before.with_session(handle, target)
    }
}

/// What ending the session under `handle` at `now` owes its caller: as
/// [`routed`], and on success the figures of the ended session.
pub open spec fn ended(
    before: RegistryModel,
    after: RegistryModel,
    handle: u64,
    outcome: Result<SessionStats, TrackError>,
    now: i64,
) -> bool {
    if !before.sessions.contains_key(handle) {
        outcome == Err::<SessionStats, TrackError>(TrackError::NotFound) && after == before
    } else if before.sessions[handle].state == SessionState::Ended {
        outcome == Err::<SessionStats, TrackError>(TrackError::InvalidTransition) && after
            == before
    } else {
        let closed = before.sessions[handle].after_end(now);
        &&& outcome is Ok
        &&& outcome->Ok_0@ == SessionStatsModel::of(closed, now)
        &&& after == before.with_session(handle, closed)
    }
}

/// What asking for the figures of the session under `handle` at `now` owes
/// its caller.
pub open spec fn reported(
    registry: RegistryModel,
    handle: u64,
    outcome: Result<SessionStats, TrackError>,
    now: i64,
) -> bool {
    if !registry.sessions.contains_key(handle) {
        outcome == Err::<SessionStats, TrackError>(TrackError::NotFound)
    } else {
        outcome is Ok && outcome->Ok_0@ == SessionStatsModel::of(registry.sessions[handle], now)
    }
}

/// A change that a session made of itself is the change that the registry
/// owes for its handle.
pub proof fn lemma_routed(
    before: RegistryModel,
    after: RegistryModel,
    handle: u64,
    outcome: Result<(), TrackError>,
    changed: SessionModel,
    target: SessionModel,
)
    requires
        before.sessions.contains_key(handle),
        stepped(before.sessions[handle], changed, outcome, target),
        after.next_id == before.next_id,
        after.sessions == before.sessions.insert(handle, changed),
    ensures
        routed(before, after, handle, outcome, target),
{
    if before.sessions[handle].state == SessionState::Ended {
        assert(after.sessions =~= before.sessions);
    }
}

impl SessionRegistry {
    /// Every session is well formed and carries the handle it stands under
    /// as its identity, and every handle in use lies below the next one.
    pub open spec fn wf(&self) -> bool {
        forall|handle: u64| #[trigger]
            self.sessions@.contains_key(handle) ==> {
                &&& self.sessions@[handle].wf()
                &&& self.sessions@[handle].id == handle
                &&& handle < self.next_id
            }
    }

    /// An empty registry. Its first session will get the handle 1.
    pub fn new() -> (registry: Self)
        ensures
            registry.wf(),
            registry@ == (RegistryModel { sessions: Map::empty(), next_id: 1 }),
    {
        let registry = SessionRegistry { sessions: HashMap::new(), next_id: 1 };
        proof {
            assert(registry@.sessions =~= Map::<u64, SessionModel>::empty());
        }
        registry
    }

    /// Puts `session` back under `handle` after it was taken out.
    fn put_back(&mut self, handle: u64, session: Session)
        requires
            session.wf(),
            session.id == handle,
            handle < old(self).next_id,
            forall|other: u64| #[trigger]
                old(self).sessions@.contains_key(other) ==> {
                    &&& old(self).sessions@[other].wf()
                    &&& old(self).sessions@[other].id == other
                    &&& other < old(self).next_id
                },
        ensures
            final(self).wf(),
            final(self).next_id == old(self).next_id,
            final(self).sessions@ == old(self).sessions@.insert(handle, session),
            final(self)@.sessions == session_models(old(self).sessions@).insert(handle, session@),
    {
        broadcast use vstd::std_specs::hash::group_hash_axioms;

        self.sessions.insert(handle, session);
        proof {
            assert(self@.sessions =~= session_models(old(self).sessions@).insert(
                handle,
                session@,
            ));
        }
    }

    /// Takes the session under `handle` out of the registry, if there is one.
    fn take_out(&mut self, handle: u64) -> (taken: Option<Session>)
        requires
            old(self).wf(),
        ensures
            final(self).next_id == old(self).next_id,
            final(self).sessions@ == old(self).sessions@.remove(handle),
            forall|other: u64| #[trigger]
                final(self).sessions@.contains_key(other) ==> {
                    &&& final(self).sessions@[other].wf()
                    &&& final(self).sessions@[other].id == other
                    &&& other < final(self).next_id
                },
            match taken {
                Some(session) => {
                    &&& old(self).sessions@.contains_key(handle)
                    &&& session == old(self).sessions@[handle]
                    &&& session.wf()
                    &&& session.id == handle
                    &&& handle < old(self).next_id
                },
                None => !old(self).sessions@.contains_key(handle),
            },
    {
        broadcast use vstd::std_specs::hash::group_hash_axioms;

        self.sessions.remove(&handle)
    }

    /// Starts a session at the instant `now` and hands back its handle.
    pub fn init_session_at(&mut self, now: i64) -> (handle: u64)
        requires
            old(self).wf(),
            old(self).next_id < u64::MAX,
        ensures
            final(self).wf(),
            handle == old(self).next_id,
            final(self)@ == old(self)@.after_init(now),
    {
        broadcast use vstd::std_specs::hash::group_hash_axioms;

        let handle = self.next_id;
        self.next_id = self.next_id + 1;
        let session = Session::new_at(handle, now);
        self.sessions.insert(handle, session);
        proof {
            assert(self@.sessions =~= old(self)@.after_init(now).sessions);
        }
        handle
    }

    /// Starts a session now and hands back its handle.
    pub fn init_session(&mut self) -> (handle: u64)
        requires
            old(self).wf(),
            old(self).next_id < u64::MAX,
        ensures
            final(self).wf(),
            handle == old(self).next_id,
            exists|now: i64| final(self)@ == old(self)@.after_init(now),
    {
        let now = now_millis();
        self.init_session_at(now)
    }

    /// The session under `handle`.
    pub fn get_session(&self, handle: u64) -> (outcome: Result<&Session, TrackError>)
        ensures
            match outcome {
                Ok(session) => self.sessions@.contains_key(handle) && *session
                    == self.sessions@[handle],
                Err(error) => error == TrackError::NotFound && !self.sessions@.contains_key(
                    handle,
                ),
            },
    {
        broadcast use vstd::std_specs::hash::group_hash_axioms;

        match self.sessions.get(&handle) {
            Some(session) => Ok(session),
            None => Err(TrackError::NotFound),
        }
    }

    /// Records a keystroke in the session under `handle` at `now`.
    pub fn record_keystroke_at(&mut self, handle: u64, now: i64) -> (outcome: Result<
        (),
        TrackError,
    >)
        requires
            old(self).wf(),
            old(self)@.sessions.contains_key(handle) ==> old(self)@.sessions[handle].keystroke_fits(
                now,
            ),
        ensures
            final(self).wf(),
            routed(
                old(self)@,
                final(self)@,
                handle,
                outcome,
                old(self)@.sessions[handle].after_keystroke(now),
            ),
    {
        match self.take_out(handle) {
            None => {
                proof {
                    assert(self.sessions@ =~= old(self).sessions@);
                }
                Err(TrackError::NotFound)
            },
            Some(session) => {
                let mut session = session;
                let outcome = session.record_keystroke_at(now);
                self.put_back(handle, session);
                proof {
                    assert(self@.sessions =~= old(self)@.sessions.insert(handle, session@));
                    lemma_routed(old(self)@, self@, handle, outcome, session@, old(self)@.sessions[handle].after_keystroke(now));
                }
                outcome
            },
        }
    }

    /// Records a keystroke in the session under `handle` now.
    pub fn record_keystroke(&mut self, handle: u64) -> (outcome: Result<(), TrackError>)
        requires
            old(self).wf(),
            forall|now: i64|
                old(self)@.sessions.contains_key(handle) ==> #[trigger] old(
                    self,
                )@.sessions[handle].keystroke_fits(now),
        ensures
            final(self).wf(),
            exists|now: i64|
                routed(
                    old(self)@,
                    final(self)@,
                    handle,
                    outcome,
                    old(self)@.sessions[handle].after_keystroke(now),
                ),
    {
        let now = now_millis();
        self.record_keystroke_at(handle, now)
    }

    /// Records an edit of `file_path`, written in `language`, in the session
    /// under `handle` at `now`.
    pub fn record_file_edit_at(
        &mut self,
        handle: u64,
        file_path: String,
        language: String,
        now: i64,
    ) -> (outcome: Result<(), TrackError>)
        requires
            old(self).wf(),
            old(self)@.sessions.contains_key(handle) ==> old(self)@.sessions[handle].file_edit_fits(
                file_path@,
                language@,
                now,
            ),
        ensures
            final(self).wf(),
            routed(
                old(self)@,
                final(self)@,
                handle,
                outcome,
                old(self)@.sessions[handle].after_file_edit(file_path@, language@, now),
            ),
    {
        match self.take_out(handle) {
            None => {
                proof {
                    assert(self.sessions@ =~= old(self).sessions@);
                }
                Err(TrackError::NotFound)
            },
            Some(session) => {
                let mut session = session;
                let ghost target = old(self)@.sessions[handle].after_file_edit(
                    file_path@,
                    language@,
                    now,
                );
                let outcome = session.record_file_edit_at(file_path, language, now);
                self.put_back(handle, session);
                proof {
                    assert(self@.sessions =~= old(self)@.sessions.insert(handle, session@));
                    lemma_routed(old(self)@, self@, handle, outcome, session@, target);
                }
                outcome
            },
        }
    }

    /// Records an edit of `file_path`, written in `language`, in the session
    /// under `handle` now.
    pub fn record_file_edit(&mut self, handle: u64, file_path: String, language: String) -> (outcome:
        Result<(), TrackError>)
        requires
            old(self).wf(),
            forall|now: i64|
                old(self)@.sessions.contains_key(handle) ==> #[trigger] old(
                    self,
                )@.sessions[handle].file_edit_fits(file_path@, language@, now),
        ensures
            final(self).wf(),
            exists|now: i64|
                routed(
                    old(self)@,
                    final(self)@,
                    handle,
                    outcome,
                    old(self)@.sessions[handle].after_file_edit(file_path@, language@, now),
                ),
    {
        let now = now_millis();
        self.record_file_edit_at(handle, file_path, language, now)
    }

    /// Marks the session under `handle` idle at `now`.
    pub fn mark_idle_at(&mut self, handle: u64, now: i64) -> (outcome: Result<(), TrackError>)
        requires
            old(self).wf(),
        ensures
            final(self).wf(),
            routed(
                old(self)@,
                final(self)@,
                handle,
                outcome,
                old(self)@.sessions[handle].after_mark_idle(now),
            ),
    {
        match self.take_out(handle) {
            None => {
                proof {
                    assert(self.sessions@ =~= old(self).sessions@);
                }
                Err(TrackError::NotFound)
            },
            Some(session) => {
                let mut session = session;
                let outcome = session.mark_idle_at(now);
                self.put_back(handle, session);
                proof {
                    assert(self@.sessions =~= old(self)@.sessions.insert(handle, session@));
                    lemma_routed(old(self)@, self@, handle, outcome, session@, old(self)@.sessions[handle].after_mark_idle(now));
                }
                outcome
            },
        }
    }

    /// Marks the session under `handle` idle now.
    pub fn mark_idle(&mut self, handle: u64) -> (outcome: Result<(), TrackError>)
        requires
            old(self).wf(),
        ensures
            final(self).wf(),
            exists|now: i64|
                routed(
                    old(self)@,
                    final(self)@,
                    handle,
                    outcome,
                    old(self)@.sessions[handle].after_mark_idle(now),
                ),
    {
        let now = now_millis();
        self.mark_idle_at(handle, now)
    }

    /// Resumes the session under `handle` from idle at `now`.
    pub fn resume_from_idle_at(&mut self, handle: u64, now: i64) -> (outcome: Result<
        (),
        TrackError,
    >)
        requires
            old(self).wf(),
        ensures
            final(self).wf(),
            routed(
                old(self)@,
                final(self)@,
                handle,
                outcome,
                old(self)@.sessions[handle].after_resume_from_idle(now),
            ),
    {
        match self.take_out(handle) {
            None => {
                proof {
                    assert(self.sessions@ =~= old(self).sessions@);
                }
                Err(TrackError::NotFound)
            },
            Some(session) => {
                let mut session = session;
                let outcome = session.resume_from_idle_at(now);
                self.put_back(handle, session);
                proof {
                    assert(self@.sessions =~= old(self)@.sessions.insert(handle, session@));
                    lemma_routed(old(self)@, self@, handle, outcome, session@, old(self)@.sessions[handle].after_resume_from_idle(now));
                }
                outcome
            },
        }
    }

    /// Resumes the session under `handle` from idle now.
    pub fn resume_from_idle(&mut self, handle: u64) -> (outcome: Result<(), TrackError>)
        requires
            old(self).wf(),
        ensures
            final(self).wf(),
            exists|now: i64|
                routed(
                    old(self)@,
                    final(self)@,
                    handle,
                    outcome,
                    old(self)@.sessions[handle].after_resume_from_idle(now),
                ),
    {
        let now = now_millis();
        self.resume_from_idle_at(handle, now)
    }

    /// Pauses the session under `handle`.
    pub fn pause(&mut self, handle: u64) -> (outcome: Result<(), TrackError>)
        requires
            old(self).wf(),
        ensures
            final(self).wf(),
            routed(
                old(self)@,
                final(self)@,
                handle,
                outcome,
                old(self)@.sessions[handle].after_pause(),
            ),
    {
        match self.take_out(handle) {
            None => {
                proof {
                    assert(self.sessions@ =~= old(self).sessions@);
                }
                Err(TrackError::NotFound)
            },
            Some(session) => {
                let mut session = session;
                let outcome = session.pause();
                self.put_back(handle, session);
                proof {
                    assert(self@.sessions =~= old(self)@.sessions.insert(handle, session@));
                    lemma_routed(old(self)@, self@, handle, outcome, session@, old(self)@.sessions[handle].after_pause());
                }
                outcome
            },
        }
    }

    /// Resumes the paused session under `handle` at `now`.
    pub fn resume_at(&mut self, handle: u64, now: i64) -> (outcome: Result<(), TrackError>)
        requires
            old(self).wf(),
        ensures
            final(self).wf(),
            routed(
                old(self)@,
                final(self)@,
                handle,
                outcome,
                old(self)@.sessions[handle].after_resume(now),
            ),
    {
        match self.take_out(handle) {
            None => {
                proof {
                    assert(self.sessions@ =~= old(self).sessions@);
                }
                Err(TrackError::NotFound)
            },
            Some(session) => {
                let mut session = session;
                let outcome = session.resume_at(now);
                self.put_back(handle, session);
                proof {
                    assert(self@.sessions =~= old(self)@.sessions.insert(handle, session@));
                    lemma_routed(old(self)@, self@, handle, outcome, session@, old(self)@.sessions[handle].after_resume(now));
                }
                outcome
            },
        }
    }

    /// Resumes the paused session under `handle` now.
    pub fn resume(&mut self, handle: u64) -> (outcome: Result<(), TrackError>)
        requires
            old(self).wf(),
        ensures
            final(self).wf(),
            exists|now: i64|
                routed(
                    old(self)@,
                    final(self)@,
                    handle,
                    outcome,
                    old(self)@.sessions[handle].after_resume(now),
                ),
    {
        let now = now_millis();
        self.resume_at(handle, now)
    }

    /// Attaches `commit` to the session under `handle`.
    pub fn add_commit_to_session(&mut self, handle: u64, commit: CommitRef) -> (outcome: Result<
        (),
        TrackError,
    >)
        requires
            old(self).wf(),
            old(self)@.sessions.contains_key(handle) ==> old(self)@.sessions[handle].commit_fits(),
        ensures
            final(self).wf(),
            routed(
                old(self)@,
                final(self)@,
                handle,
                outcome,
                old(self)@.sessions[handle].after_commit(commit@),
            ),
    {
        match self.take_out(handle) {
            None => {
                proof {
                    assert(self.sessions@ =~= old(self).sessions@);
                }
                Err(TrackError::NotFound)
            },
            Some(session) => {
                let mut session = session;
                let ghost target = old(self)@.sessions[handle].after_commit(commit@);
                let outcome = session.add_commit(commit);
                self.put_back(handle, session);
                proof {
                    assert(self@.sessions =~= old(self)@.sessions.insert(handle, session@));
                    lemma_routed(old(self)@, self@, handle, outcome, session@, target);
                }
                outcome
            },
        }
    }

    /// Ends the session under `handle` at `now` and hands back its figures.
    /// The session stays in the registry.
    pub fn end_session_at(&mut self, handle: u64, now: i64) -> (outcome: Result<
        SessionStats,
        TrackError,
    >)
        requires
            old(self).wf(),
        ensures
            final(self).wf(),
            ended(old(self)@, final(self)@, handle, outcome, now),
    {
        match self.take_out(handle) {
            None => {
                proof {
                    assert(self.sessions@ =~= old(self).sessions@);
                }
                Err(TrackError::NotFound)
            },
            Some(session) => {
                let mut session = session;
                let outcome = session.end_at(now);
                let answer = match outcome {
                    Ok(()) => Ok(SessionStats::from_session_at(&session, now)),
                    Err(error) => Err(error),
                };
                self.put_back(handle, session);
                proof {
                    assert(self@.sessions =~= old(self)@.sessions.insert(handle, session@));
                    if old(self)@.sessions[handle].state == SessionState::Ended {
                        assert(self@.sessions =~= old(self)@.sessions);
                    }
                }
                answer
            },
        }
    }

    /// Ends the session under `handle` now and hands back its figures.
    pub fn end_session(&mut self, handle: u64) -> (outcome: Result<SessionStats, TrackError>)
        requires
            old(self).wf(),
        ensures
            final(self).wf(),
            exists|now: i64| ended(old(self)@, final(self)@, handle, outcome, now),
    {
        let now = now_millis();
        self.end_session_at(handle, now)
    }

    /// The figures of the session under `handle` as seen at `now`.
    pub fn get_active_session_stats_at(&self, handle: u64, now: i64) -> (outcome: Result<
        SessionStats,
        TrackError,
    >)
        requires
            self.wf(),
        ensures
            reported(self@, handle, outcome, now),
    {
        match self.get_session(handle) {
            Ok(session) => Ok(SessionStats::from_session_at(session, now)),
            Err(error) => Err(error),
        }
    }

    /// The figures of the session under `handle` as seen now.
    pub fn get_active_session_stats(&self, handle: u64) -> (outcome: Result<
        SessionStats,
        TrackError,
    >)
        requires
            self.wf(),
        ensures
            exists|now: i64| reported(self@, handle, outcome, now),
    {
        let now = now_millis();
        self.get_active_session_stats_at(handle, now)
    }
}

} // verus!
