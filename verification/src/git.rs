//! Commits set beside the sessions in which they were made.

use vstd::prelude::*;
use crate::clock::now_millis;
use crate::session::{CommitRef, CommitRefModel, Session, SessionModel};
use crate::storage::{GrowthProfile, StoredSessionModel};
use crate::text::{contains_name, names};

verus! {

/// A commit, the session it was made in, and the files that both touched.
pub struct CommitCorrelation {
    pub commit: CommitRef,
    pub session_id: u64,
    pub session_duration_ms: u64,
    pub files_in_common: Vec<String>,
}

/// What a [`CommitCorrelation`] holds, as plain mathematical values.
pub struct CommitCorrelationModel {
    pub commit: CommitRefModel,
    pub session_id: u64,
    pub session_duration_ms: u64,
    pub files_in_common: Seq<Seq<char>>,
}

impl View for CommitCorrelation {
    type V = CommitCorrelationModel;

    open spec fn view(&self) -> CommitCorrelationModel {
        CommitCorrelationModel {
            commit: self.commit@,
            session_id: self.session_id,
            session_duration_ms: self.session_duration_ms,
            files_in_common: names(self.files_in_common@),
        }
    }
}

/// The correlations of a list, each as its model.
pub open spec fn correlation_models(list: Seq<CommitCorrelation>) -> Seq<CommitCorrelationModel> {
    Seq::new(list.len(), |i: int| list[i]@)
}

/// The files of `edited` that `changed` names too, in the order of `edited`.
pub open spec fn common_files(edited: Seq<Seq<char>>, changed: Seq<Seq<char>>) -> Seq<Seq<char>>
    decreases edited.len(),
{
    if edited.len() == 0 {
        Seq::empty()
    } else if changed.contains(edited.last()) {
        common_files(edited.drop_last(), changed).push(edited.last())
    } else {
        common_files(edited.drop_last(), changed)
    }
}

/// The correlation of `commit` with the session it was made in, the
/// session's duration seen at `now`.
pub open spec fn correlation_of(
    session: SessionModel,
    commit: CommitRefModel,
    now: i64,
) -> CommitCorrelationModel {
    CommitCorrelationModel {
        commit,
        session_id: session.id,
        session_duration_ms: session.total_duration_ms(now) as u64,
        files_in_common: common_files(session.files_edited, commit.files_changed),
    }
}

/// The correlations of the commits of one session, in the order of its
/// commits.
pub open spec fn session_correlations(session: SessionModel, now: i64) -> Seq<
    CommitCorrelationModel,
> {
    Seq::new(session.commits.len(), |i: int| correlation_of(session, session.commits[i], now))
}

/// The correlations of every commit of a log: session by session in the
/// order of the log, and within a session commit by commit.
pub open spec fn correlations_of(log: Seq<StoredSessionModel>, now: i64) -> Seq<
    CommitCorrelationModel,
>
    decreases log.len(),
{
    if log.len() == 0 {
        Seq::empty()
    } else {
        correlations_of(log.drop_last(), now) + session_correlations(log.last().session, now)
    }
}

/// The files of `edited` that `changed` names too.
pub fn files_in_common(edited: &Vec<String>, changed: &Vec<String>) -> (common: Vec<String>)
    ensures
        names(common@) == common_files(names(edited@), names(changed@)),
{
    let mut common: Vec<String> = Vec::new();
    let mut i: usize = 0;
    proof {
        assert(names(edited@).take(0) =~= Seq::<Seq<char>>::empty());
        assert(names(common@) =~= Seq::<Seq<char>>::empty());
    }
    while i < edited.len()
        invariant
            i <= edited@.len(),
            names(common@) == common_files(names(edited@).take(i as int), names(changed@)),
        decreases edited@.len() - i,
    {
        proof {
            let cut = names(edited@).take(i + 1);
            assert(cut.drop_last() =~= names(edited@).take(i as int));
            assert(cut.last() == edited@[i as int]@);
        }
        if contains_name(changed, &edited[i]) {
            let ghost before = names(common@);
            common.push(edited[i].clone());
            proof {
                assert(names(common@) =~= before.push(edited@[i as int]@));
            }
        }
        i += 1;
    }
    proof {
        assert(names(edited@).take(i as int) =~= names(edited@));
    }
    common
}

/// Every commit of the profile with the session it was made in, the
/// durations of the sessions seen at `now`.
pub fn get_commit_correlations_at(profile: &GrowthProfile, now: i64) -> (correlations: Vec<
    CommitCorrelation,
>)
    ensures
        correlation_models(correlations@) == correlations_of(profile@.sessions, now),
{
    let ghost log = profile@.sessions;
    let mut correlations: Vec<CommitCorrelation> = Vec::new();
    let mut i: usize = 0;
    proof {
        assert(correlation_models(correlations@) =~= correlations_of(log.take(0), now));
    }
    while i < profile.sessions.len()
        invariant
            i <= profile.sessions@.len(),
            log == profile@.sessions,
            correlation_models(correlations@) == correlations_of(log.take(i as int), now),
        decreases profile.sessions@.len() - i,
    {
        let session: &Session = &profile.sessions[i].session;
        let ghost earlier = correlation_models(correlations@);
        let ghost of_session = session_correlations(session@, now);
        let mut j: usize = 0;
        proof {
            assert(log.take(i + 1).drop_last() =~= log.take(i as int));
            assert(log.take(i + 1).last() == log[i as int]);
            assert(earlier + of_session.take(0) =~= earlier);
        }
        while j < session.commits.len()
            invariant
                j <= session.commits@.len(),
                of_session == session_correlations(session@, now),
                correlation_models(correlations@) == earlier + of_session.take(j as int),
            decreases session.commits@.len() - j,
        {
            let commit = &session.commits[j];
            let ghost before = correlation_models(correlations@);
            let correlation = CommitCorrelation {
                commit: commit.clone(),
                session_id: session.id,
                session_duration_ms: session.total_duration_ms_at(now),
                files_in_common: files_in_common(&session.files_edited, &commit.files_changed),
            };
            proof {
                assert(correlation@ == of_session[j as int]);
                assert(correlation_models(correlations@.push(correlation)) =~= before.push(
                    correlation@,
                ));
                assert(earlier + of_session.take(j + 1) =~= (earlier + of_session.take(
                    j as int,
                )).push(of_session[j as int]));
            }
            correlations.push(correlation);
            j += 1;
        }
        proof {
            assert(of_session.take(j as int) =~= of_session);
        }
        i += 1;
    }
    proof {
        assert(log.take(i as int) =~= log);
    }
    correlations
}

/// Every commit of the profile with the session it was made in. The
/// duration of a session that has not ended is its duration up to now.
pub fn get_commit_correlations(profile: &GrowthProfile) -> (correlations: Vec<CommitCorrelation>)
    ensures
        exists|now: i64|
            correlation_models(correlations@) == correlations_of(profile@.sessions, now),
{
    let now = now_millis();
    get_commit_correlations_at(profile, now)
}

/// Builds a commit reference from its parts; the short hash is derived.
pub fn create_commit_ref(
    hash: String,
    message: String,
    timestamp: i64,
    files_changed: Vec<String>,
) -> (commit: CommitRef)
    ensures
        commit@ == CommitRefModel::of(hash@, message@, timestamp, names(files_changed@)),
{
    CommitRef::new(hash, message, timestamp, files_changed)
}

} // verus!
