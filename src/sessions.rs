//! The decisions of session materialization and completion. The caller reads
//! the record store, hands what it read to these functions, and performs the
//! writes they return, in order, stopping at the first failure.

use vstd::prelude::*;

use crate::domain::{StudySessionInfo, StudyTopic};
use crate::err::StudyServiceError;
use crate::schedule::{days_between, get_days_since_creation, Today};

verus! {

/// One statement-level write to the record store.
#[derive(Clone, Copy, Debug, PartialEq, Eq, Structural)]
pub enum StorageWrite {
    /// Insert a session for the topic, due today.
    CreateSession(i64),
    /// Set the topic's last session date to today.
    SetLastSessionDate(i64),
    /// Add one to the topic's total sessions.
    IncreaseTotalSessions(i64),
    /// Add one to the topic's completed sessions.
    IncreaseCompletedSessions(i64),
    /// Delete the session with this id.
    DeleteSession(i64),
}

/// A due topic needs a session today unless one already exists for today or
/// its last session date is already today.
pub open spec fn needs_session(topic: StudyTopic, session_exists: bool, today: Seq<char>) -> bool {
    !session_exists && match topic.last_session_date {
        Some(d) => d@ != today,
        None => true,
    }
}

/// The ids of the due topics that need a session, in the order of `due`;
/// `has_session[i]` tells whether a session for `due[i]` exists today.
pub open spec fn selected_topics(due: Seq<StudyTopic>, has_session: Seq<bool>, today: Seq<char>) -> Seq<i64>
    decreases due.len(),
{
    if due.len() == 0 {
        Seq::empty()
    } else {
        let rest = selected_topics(due.drop_last(), has_session.take(due.len() - 1), today);
        if needs_session(due.last(), has_session[due.len() - 1], today) {
            rest.push(due.last().id)
        } else {
            rest
        }
    }
}

/// The writes that give one topic its session today.
pub open spec fn writes_for_topic(topic_id: i64) -> Seq<StorageWrite> {
    seq![
        StorageWrite::CreateSession(topic_id),
        StorageWrite::SetLastSessionDate(topic_id),
        StorageWrite::IncreaseTotalSessions(topic_id),
    ]
}

/// The writes for each of `ids`, topic after topic.
pub open spec fn session_writes(ids: Seq<i64>) -> Seq<StorageWrite>
    decreases ids.len(),
{
    if ids.len() == 0 {
        Seq::empty()
    } else {
        session_writes(ids.drop_last()) + writes_for_topic(ids.last())
    }
}

/// The writes that complete a session, given the topic that owns it.
pub open spec fn completion_writes(session_id: i64, topic_id: i64) -> Seq<StorageWrite> {
    seq![StorageWrite::IncreaseCompletedSessions(topic_id), StorageWrite::DeleteSession(session_id)]
}

/// Whether `topic`, which is due, needs a session today.
pub fn topic_needs_session(topic: &StudyTopic, session_exists: bool, today: &Today) -> (r: bool)
    ensures
        r == needs_session(*topic, session_exists, today.text@),
{
    if session_exists {
        return false;
    }
    match &topic.last_session_date {
        Some(d) => !d.eq(&today.text),
        None => true,
    }
}

/// The ids of the due topics that need a session today.
pub fn topics_to_process(due: &Vec<StudyTopic>, has_session: &Vec<bool>, today: &Today) -> (r: Vec<i64>)
    requires
        has_session.len() == due.len(),
    ensures
        r@ == selected_topics(due@, has_session@, today.text@),
{
    let mut out: Vec<i64> = Vec::new();
    let mut i: usize = 0;
    while i < due.len()
        invariant
            i <= due.len(),
            has_session.len() == due.len(),
            out@ == selected_topics(due@.take(i as int), has_session@.take(i as int), today.text@),
        decreases due.len() - i,
    {
        proof {
            assert(due@.take(i as int + 1).drop_last() == due@.take(i as int));
            assert(has_session@.take(i as int + 1).take(i as int) == has_session@.take(i as int));
        }
        if topic_needs_session(&due[i], has_session[i], today) {
            out.push(due[i].id);
        }
        i += 1;
    }
    proof {
        assert(due@.take(i as int) == due@);
        assert(has_session@.take(i as int) == has_session@);
    }
    out
}

/// The writes that give one topic its session today: the session row, the
/// last session date, the total count.
pub fn create_study_session(topic_id: i64) -> (r: Vec<StorageWrite>)
    ensures
        r@ == writes_for_topic(topic_id),
{
    let mut r: Vec<StorageWrite> = Vec::new();
    r.push(StorageWrite::CreateSession(topic_id));
    r.push(StorageWrite::SetLastSessionDate(topic_id));
    r.push(StorageWrite::IncreaseTotalSessions(topic_id));
    proof {
        assert(r@ == writes_for_topic(topic_id));
    }
    r
}

/// The writes that materialize today's sessions for the due set `due`, where
/// `has_session[i]` tells whether a session for `due[i]` exists today.
pub fn create_study_sessions_today(due: &Vec<StudyTopic>, has_session: &Vec<bool>, today: &Today) -> (r:
    Vec<StorageWrite>)
    requires
        has_session.len() == due.len(),
    ensures
        r@ == session_writes(selected_topics(due@, has_session@, today.text@)),
{
    let ids = topics_to_process(due, has_session, today);
    let mut out: Vec<StorageWrite> = Vec::new();
    let mut i: usize = 0;
    while i < ids.len()
        invariant
            i <= ids.len(),
            out@ == session_writes(ids@.take(i as int)),
        decreases ids.len() - i,
    {
        proof {
            assert(ids@.take(i as int + 1).drop_last() == ids@.take(i as int));
        }
        let mut w = create_study_session(ids[i]);
        out.append(&mut w);
        i += 1;
    }
    proof {
        assert(ids@.take(i as int) == ids@);
    }
    out
}

/// The writes that complete session `session_id`, given the topic that the
/// store resolved it to (`None`: no session of that id with a topic).
pub fn complete_study_session(session_id: i64, topic_id: Option<i64>) -> (r: Result<
    Vec<StorageWrite>,
    StudyServiceError,
>)
    ensures
        match topic_id {
            Some(t) => r matches Ok(w) && w@ == completion_writes(session_id, t),
            None => r matches Err(StudyServiceError::SessionNotFound(id)) && id == session_id,
        },
{
    match topic_id {
        Some(t) => {
            let mut w: Vec<StorageWrite> = Vec::new();
            w.push(StorageWrite::IncreaseCompletedSessions(t));
            w.push(StorageWrite::DeleteSession(session_id));
            proof {
                assert(w@ == completion_writes(session_id, t));
            }
            Ok(w)
        },
        None => Err(StudyServiceError::SessionNotFound(session_id)),
    }
}

/// A pending session as shown to a user: how many days it has been waiting.
#[derive(Clone, Debug)]
pub struct StudySessionResponse {
    pub id: i64,
    pub study_topic_name: String,
    pub days_passed: u32,
}

/// `r` shows session `s` on day `today`: same id and topic name, and the days
/// since its due date.
pub open spec fn shows_session(r: StudySessionResponse, s: StudySessionInfo, today: int) -> bool {
    &&& r.id == s.id
    &&& r.study_topic_name == s.study_topic_name
    &&& days_between(s.due_date@, today) == Some(r.days_passed as int)
}

/// Whether session `s` can be shown on day `today`: its due date reads and is
/// not after today.
pub open spec fn showable(s: StudySessionInfo, today: int) -> bool {
    match days_between(s.due_date@, today) {
        Some(n) => n >= 0,
        None => false,
    }
}

/// `e` is the error that showing session `s` on day `today` gives.
pub open spec fn refusal(e: StudyServiceError, s: StudySessionInfo, today: int) -> bool {
    match days_between(s.due_date@, today) {
        None => e is ParseDateError,
        Some(n) => n < 0 && e is FutureDate,
    }
}

/// Session `i` is the first of `sessions` that cannot be shown.
pub open spec fn first_unshowable(sessions: Seq<StudySessionInfo>, i: int, today: int) -> bool {
    &&& 0 <= i < sessions.len()
    &&& !showable(sessions[i], today)
    &&& forall|j: int| 0 <= j < i ==> showable(#[trigger] sessions[j], today)
}

impl StudySessionResponse {
    /// Shows a pending session with the days since its due date.
    pub fn from(study_session: &StudySessionInfo, today: &Today) -> (r: Result<
        StudySessionResponse,
        StudyServiceError,
    >)
        ensures
            match days_between(study_session.due_date@, today.day as int) {
                None => r matches Err(StudyServiceError::ParseDateError(_)),
                Some(n) => if n >= 0 {
                    r matches Ok(x) && shows_session(x, *study_session, today.day as int)
                } else {
                    r matches Err(StudyServiceError::FutureDate)
                },
            },
    {
        let days_passed = get_days_since_creation(&study_session.due_date, today)?;
        Ok(StudySessionResponse {
            id: study_session.id,
            study_topic_name: study_session.study_topic_name.clone(),
            days_passed,
        })
    }
}

/// Shows the pending sessions of a subject, in order; fails, with the error
/// of the first session that cannot be shown, if any cannot.
pub fn get_study_sessions_for_subject(sessions: &Vec<StudySessionInfo>, today: &Today) -> (r: Result<
    Vec<StudySessionResponse>,
    StudyServiceError,
>)
    ensures
        r is Ok <==> forall|i: int| 0 <= i < sessions.len() ==> showable(#[trigger] sessions@[i], today.day as int),
        r matches Ok(v) ==> v.len() == sessions.len() && forall|i: int|
            0 <= i < sessions.len() ==> shows_session(#[trigger] v@[i], sessions@[i], today.day as int),
        r matches Err(e) ==> exists|i: int|
            #[trigger] first_unshowable(sessions@, i, today.day as int) && refusal(
                e,
                sessions@[i],
                today.day as int,
            ),
{
    let mut out: Vec<StudySessionResponse> = Vec::new();
    let mut i: usize = 0;
    while i < sessions.len()
        invariant
            i <= sessions.len(),
            out.len() == i,
            forall|j: int| 0 <= j < i ==> showable(#[trigger] sessions@[j], today.day as int),
            forall|j: int| 0 <= j < i ==> shows_session(#[trigger] out@[j], sessions@[j], today.day as int),
        decreases sessions.len() - i,
    {
        match StudySessionResponse::from(&sessions[i], today) {
            Ok(x) => out.push(x),
            Err(e) => {
                assert(first_unshowable(sessions@, i as int, today.day as int));
                return Err(e);
            },
        }
        i += 1;
    }
    Ok(out)
}

} // verus!
