//! The record store as a mathematical value, the effect of each storage write
//! on it, and the laws that materialization and completion obey there.

use vstd::prelude::*;

use crate::domain::StudyTopic;
use crate::schedule::{due_filter, due_topics, Today};
use crate::sessions::{
    completion_writes, needs_session, selected_topics, session_writes, writes_for_topic,
    StorageWrite,
};

verus! {

/// A stored session row.
pub struct SessionRow {
    pub id: int,
    pub study_topic_id: i64,
    pub due_date: Seq<char>,
}

/// What the record store holds: the topics in the order it lists them, the
/// session rows in order of insertion, and the id that the next row gets.
pub struct StoreModel {
    pub topics: Seq<StudyTopic>,
    pub sessions: Seq<SessionRow>,
    pub next_id: int,
}

/// A session row exists for the topic on the date.
pub open spec fn session_exists(s: StoreModel, topic_id: i64, date: Seq<char>) -> bool {
    exists|i: int|
        0 <= i < s.sessions.len() && #[trigger] s.sessions[i].study_topic_id == topic_id
            && s.sessions[i].due_date == date
}

/// For each topic of `due`, whether a session exists for it on `date`.
pub open spec fn existence_flags(s: StoreModel, due: Seq<StudyTopic>, date: Seq<char>) -> Seq<bool> {
    Seq::new(due.len(), |i: int| session_exists(s, due[i].id, date))
}

/// The topic with `date` as its last session date.
pub open spec fn with_last_session_date(t: StudyTopic, date: String) -> StudyTopic {
    StudyTopic {
        id: t.id,
        name: t.name,
        description: t.description,
        creation_date: t.creation_date,
        subject_name: t.subject_name,
        last_session_date: Some(date),
        total_sessions: t.total_sessions,
        completed_sessions: t.completed_sessions,
    }
}

/// The topic with the given total and completed counts.
pub open spec fn with_counts(t: StudyTopic, total: int, completed: int) -> StudyTopic {
    StudyTopic {
        id: t.id,
        name: t.name,
        description: t.description,
        creation_date: t.creation_date,
        subject_name: t.subject_name,
        last_session_date: t.last_session_date,
        total_sessions: total as i64,
        completed_sessions: completed as i64,
    }
}

/// The rows left after deleting the row with id `id`.
pub open spec fn without_session(rows: Seq<SessionRow>, id: int) -> Seq<SessionRow>
    decreases rows.len(),
{
    if rows.len() == 0 {
        rows
    } else {
        let rest = without_session(rows.drop_last(), id);
        if rows.last().id == id {
            rest
        } else {
            rest.push(rows.last())
        }
    }
}

/// The effect of one write on the store, on the day `today`.
pub open spec fn apply_write(s: StoreModel, w: StorageWrite, today: Today) -> StoreModel {
    match w {
        StorageWrite::CreateSession(tid) => StoreModel {
            topics: s.topics,
            sessions: s.sessions.push(
                SessionRow { id: s.next_id, study_topic_id: tid, due_date: today.text@ },
            ),
            next_id: s.next_id + 1,
        },
        StorageWrite::SetLastSessionDate(tid) => StoreModel {
            topics: s.topics.map_values(
                |t: StudyTopic|
                    if t.id == tid {
                        with_last_session_date(t, today.text)
                    } else {
                        t
                    },
            ),
            sessions: s.sessions,
            next_id: s.next_id,
        },
        StorageWrite::IncreaseTotalSessions(tid) => StoreModel {
            topics: s.topics.map_values(
                |t: StudyTopic|
                    if t.id == tid {
                        with_counts(t, t.total_sessions + 1, t.completed_sessions as int)
                    } else {
                        t
                    },
            ),
            sessions: s.sessions,
            next_id: s.next_id,
        },
        StorageWrite::IncreaseCompletedSessions(tid) => StoreModel {
            topics: s.topics.map_values(
                |t: StudyTopic|
                    if t.id == tid {
                        with_counts(t, t.total_sessions as int, t.completed_sessions + 1)
                    } else {
                        t
                    },
            ),
            sessions: s.sessions,
            next_id: s.next_id,
        },
        StorageWrite::DeleteSession(sid) => StoreModel {
            topics: s.topics,
            sessions: without_session(s.sessions, sid as int),
            next_id: s.next_id,
        },
    }
}

/// The effect of the writes, in order.
pub open spec fn apply_writes(s: StoreModel, ws: Seq<StorageWrite>, today: Today) -> StoreModel
    decreases ws.len(),
{
    if ws.len() == 0 {
        s
    } else {
        apply_write(apply_writes(s, ws.drop_last(), today), ws.last(), today)
    }
}

/// One materialization run: list the topics, keep the due ones, look up
/// today's session of each, and perform the writes decided from that.
pub open spec fn materialize(s: StoreModel, today: Today) -> StoreModel {
    let due = due_topics(s.topics, today.day as int);
    let flags = existence_flags(s, due, today.text@);
    apply_writes(s, session_writes(selected_topics(due, flags, today.text@)), today)
}

proof fn lemma_apply_writes_concat(s: StoreModel, a: Seq<StorageWrite>, b: Seq<StorageWrite>, today: Today)
    ensures
        apply_writes(s, a + b, today) == apply_writes(apply_writes(s, a, today), b, today),
    decreases b.len(),
{
    if b.len() == 0 {
        assert(a + b == a);
    } else {
        assert((a + b).drop_last() == a + b.drop_last());
        lemma_apply_writes_concat(s, a, b.drop_last(), today);
    }
}

/// What the writes for `ids` do: each topic whose id is among them gets today
/// as its last session date, and one row per id is appended.
proof fn lemma_session_writes_effect(s: StoreModel, ids: Seq<i64>, today: Today)
    ensures
        ({
            let m = apply_writes(s, session_writes(ids), today);
            &&& m.topics.len() == s.topics.len()
            &&& forall|k: int|
                0 <= k < s.topics.len() ==> {
                    &&& (#[trigger] m.topics[k]).id == s.topics[k].id
                    &&& m.topics[k].creation_date == s.topics[k].creation_date
                    &&& m.topics[k].last_session_date == if ids.contains(s.topics[k].id) {
                        Some(today.text)
                    } else {
                        s.topics[k].last_session_date
                    }
                }
            &&& m.sessions.len() == s.sessions.len() + ids.len()
            &&& m.next_id == s.next_id + ids.len()
            &&& forall|i: int| 0 <= i < s.sessions.len() ==> #[trigger] m.sessions[i] == s.sessions[i]
            &&& forall|j: int|
                0 <= j < ids.len() ==> #[trigger] m.sessions[s.sessions.len() + j] == SessionRow {
                    id: s.next_id + j,
                    study_topic_id: ids[j],
                    due_date: today.text@,
                }
        }),
    decreases ids.len(),
{
    if ids.len() > 0 {
        let prev = ids.drop_last();
        let t = ids.last();
        lemma_session_writes_effect(s, prev, today);
        lemma_apply_writes_concat(s, session_writes(prev), writes_for_topic(t), today);
        let p = apply_writes(s, session_writes(prev), today);
        let w = writes_for_topic(t);
        assert(w.drop_last() == seq![StorageWrite::CreateSession(t), StorageWrite::SetLastSessionDate(t)]);
        assert(w.drop_last().drop_last() == seq![StorageWrite::CreateSession(t)]);
        assert(w.drop_last().drop_last().drop_last() == Seq::<StorageWrite>::empty());
        let q1 = apply_write(p, StorageWrite::CreateSession(t), today);
        let q2 = apply_write(q1, StorageWrite::SetLastSessionDate(t), today);
        let q3 = apply_write(q2, StorageWrite::IncreaseTotalSessions(t), today);
        assert(apply_writes(p, Seq::<StorageWrite>::empty(), today) == p);
        assert(w.drop_last().drop_last().last() == StorageWrite::CreateSession(t));
        assert(w.drop_last().last() == StorageWrite::SetLastSessionDate(t));
        assert(w.last() == StorageWrite::IncreaseTotalSessions(t));
        assert(apply_writes(p, w.drop_last().drop_last(), today) == q1);
        assert(apply_writes(p, w.drop_last(), today) == q2);
        assert(apply_writes(p, w, today) == q3);
        let m = apply_writes(s, session_writes(ids), today);
        assert(m == q3);
        assert(m.sessions == p.sessions.push(
            SessionRow { id: p.next_id, study_topic_id: t, due_date: today.text@ },
        ));
        assert forall|k: int| 0 <= k < s.topics.len() implies ids.contains(s.topics[k].id) == (
        prev.contains(s.topics[k].id) || t == s.topics[k].id) by {
            if ids.contains(s.topics[k].id) {
                let j = choose|j: int| 0 <= j < ids.len() && ids[j] == s.topics[k].id;
                if j < ids.len() - 1 {
                    assert(prev[j] == ids[j]);
                }
            }
            if prev.contains(s.topics[k].id) {
                let j = choose|j: int| 0 <= j < prev.len() && prev[j] == s.topics[k].id;
                assert(ids[j] == prev[j]);
            }
            if t == s.topics[k].id {
                assert(ids[ids.len() - 1] == t);
            }
        }
        assert forall|j: int| 0 <= j < ids.len() implies #[trigger] m.sessions[s.sessions.len() + j]
            == (SessionRow { id: s.next_id + j, study_topic_id: ids[j], due_date: today.text@ }) by {
            if j < ids.len() - 1 {
                assert(prev[j] == ids[j]);
                assert(p.sessions[s.sessions.len() + j] == m.sessions[s.sessions.len() + j]);
            }
        }
    }
}

/// Every due topic that needs a session is selected.
proof fn lemma_selected_complete(due: Seq<StudyTopic>, flags: Seq<bool>, date: Seq<char>)
    requires
        flags.len() == due.len(),
    ensures
        forall|k: int|
            0 <= k < due.len() && needs_session(due[k], flags[k], date) ==> selected_topics(
                due,
                flags,
                date,
            ).contains(#[trigger] due[k].id),
    decreases due.len(),
{
    if due.len() > 0 {
        let n = due.len() - 1;
        let prev = due.drop_last();
        let pex = flags.take(n);
        lemma_selected_complete(prev, pex, date);
        let rest = selected_topics(prev, pex, date);
        let sel = selected_topics(due, flags, date);
        assert forall|k: int| 0 <= k < due.len() && needs_session(due[k], flags[k], date) implies sel.contains(
            #[trigger] due[k].id,
        ) by {
            if k < n {
                assert(prev[k] == due[k]);
                assert(pex[k] == flags[k]);
                let j = choose|j: int| 0 <= j < rest.len() && rest[j] == prev[k].id;
                if needs_session(due.last(), flags[n], date) {
                    assert(sel[j] == rest[j]);
                }
            } else {
                assert(sel[sel.len() - 1] == due[k].id);
            }
        }
    }
}

/// Where no due topic needs a session, none is selected.
proof fn lemma_selected_none(due: Seq<StudyTopic>, flags: Seq<bool>, date: Seq<char>)
    requires
        flags.len() == due.len(),
        forall|k: int| 0 <= k < due.len() ==> !needs_session(#[trigger] due[k], flags[k], date),
    ensures
        selected_topics(due, flags, date) == Seq::<i64>::empty(),
    decreases due.len(),
{
    if due.len() > 0 {
        let n = due.len() - 1;
        let prev = due.drop_last();
        let pex = flags.take(n);
        assert forall|k: int| 0 <= k < prev.len() implies !needs_session(#[trigger] prev[k], pex[k], date) by {
            assert(prev[k] == due[k]);
        }
        lemma_selected_none(prev, pex, date);
        assert(!needs_session(due[n], flags[n], date));
    }
}

/// Materializing today's sessions a second time changes nothing: the first
/// run leaves every due topic with a session today or with today as its last
/// session date.
pub proof fn lemma_materialize_idempotent(s: StoreModel, today: Today)
    ensures
        materialize(materialize(s, today), today) == materialize(s, today),
{
    let day = today.day as int;
    let text = today.text@;
    let pred = due_filter(day);
    let due = due_topics(s.topics, day);
    let flags = existence_flags(s, due, text);
    let ids = selected_topics(due, flags, text);
    let m = materialize(s, today);
    lemma_session_writes_effect(s, ids, today);
    lemma_selected_complete(due, flags, text);
    let due2 = due_topics(m.topics, day);
    let flags2 = existence_flags(m, due2, text);
    assert forall|k: int| 0 <= k < due2.len() implies !needs_session(#[trigger] due2[k], flags2[k], text) by {
        assert(due2.contains(due2[k]));
        m.topics.lemma_filter_contains_rev(pred, due2[k]);
        m.topics.lemma_filter_pred(pred, k);
        let idx = choose|idx: int| 0 <= idx < m.topics.len() && m.topics[idx] == due2[k];
        let t0 = s.topics[idx];
        assert(pred(t0));
        s.topics.lemma_filter_contains(pred, idx);
        let k1 = choose|k1: int| 0 <= k1 < due.len() && due[k1] == t0;
        if !ids.contains(t0.id) {
            assert(!needs_session(due[k1], flags[k1], text));
            if flags[k1] {
                let i = choose|i: int|
                    0 <= i < s.sessions.len() && #[trigger] s.sessions[i].study_topic_id == t0.id
                        && s.sessions[i].due_date == text;
                assert(m.sessions[i] == s.sessions[i]);
                assert(session_exists(m, due2[k].id, text));
            }
        }
    }
    lemma_selected_none(due2, flags2, text);
    assert(session_writes(Seq::<i64>::empty()) == Seq::<StorageWrite>::empty());
}

/// No two topics share an id.
pub open spec fn unique_topic_ids(topics: Seq<StudyTopic>) -> bool {
    forall|i: int, j: int| 0 <= i < j < topics.len() ==> #[trigger] topics[i].id != #[trigger] topics[j].id
}

/// No topic has two session rows for the same day.
pub open spec fn one_session_per_day(rows: Seq<SessionRow>) -> bool {
    forall|i: int, j: int|
        0 <= i < j < rows.len() && #[trigger] rows[i].study_topic_id == #[trigger] rows[j].study_topic_id
            ==> rows[i].due_date != rows[j].due_date
}

proof fn lemma_filter_unique_ids(topics: Seq<StudyTopic>, pred: spec_fn(StudyTopic) -> bool)
    requires
        unique_topic_ids(topics),
    ensures
        unique_topic_ids(topics.filter(pred)),
    decreases topics.len(),
{
    reveal(Seq::filter);
    if topics.len() > 0 {
        let n = topics.len() - 1;
        let prev = topics.drop_last();
        assert forall|i: int, j: int| 0 <= i < j < prev.len() implies #[trigger] prev[i].id
            != #[trigger] prev[j].id by {
            assert(prev[i] == topics[i] && prev[j] == topics[j]);
        }
        lemma_filter_unique_ids(prev, pred);
        let rest = prev.filter(pred);
        if pred(topics.last()) {
            let f = rest.push(topics.last());
            assert forall|i: int, j: int| 0 <= i < j < f.len() implies #[trigger] f[i].id
                != #[trigger] f[j].id by {
                if j == f.len() - 1 {
                    assert(rest.contains(rest[i]));
                    prev.lemma_filter_contains_rev(pred, rest[i]);
                    let q = choose|q: int| 0 <= q < prev.len() && prev[q] == rest[i];
                    assert(topics[q] == prev[q]);
                } else {
                    assert(f[i] == rest[i] && f[j] == rest[j]);
                }
            }
        }
    }
}

/// Some topic of `due` with this id needs a session.
pub open spec fn needed_id(due: Seq<StudyTopic>, flags: Seq<bool>, date: Seq<char>, id: i64) -> bool {
    exists|k: int| 0 <= k < due.len() && due[k].id == id && needs_session(due[k], flags[k], date)
}

/// Each selected id belongs to a due topic that needs a session, and where
/// the due topics have distinct ids, no id is selected twice.
proof fn lemma_selected_members(due: Seq<StudyTopic>, flags: Seq<bool>, date: Seq<char>)
    requires
        flags.len() == due.len(),
    ensures
        forall|j: int|
            0 <= j < selected_topics(due, flags, date).len() ==> needed_id(
                due,
                flags,
                date,
                #[trigger] selected_topics(due, flags, date)[j],
            ),
        unique_topic_ids(due) ==> forall|i: int, j: int|
            0 <= i < j < selected_topics(due, flags, date).len() ==> #[trigger] selected_topics(
                due,
                flags,
                date,
            )[i] != #[trigger] selected_topics(due, flags, date)[j],
    decreases due.len(),
{
    if due.len() > 0 {
        let n = due.len() - 1;
        let prev = due.drop_last();
        let pex = flags.take(n);
        lemma_selected_members(prev, pex, date);
        let rest = selected_topics(prev, pex, date);
        let sel = selected_topics(due, flags, date);
        assert forall|j: int| 0 <= j < sel.len() implies needed_id(due, flags, date, #[trigger] sel[j]) by {
            if j < rest.len() {
                assert(sel[j] == rest[j]);
                assert(needed_id(prev, pex, date, rest[j]));
                let k = choose|k: int|
                    0 <= k < prev.len() && prev[k].id == rest[j] && needs_session(prev[k], pex[k], date);
                assert(due[k] == prev[k] && flags[k] == pex[k]);
            } else {
                assert(needs_session(due[n], flags[n], date));
                assert(due[n].id == sel[j]);
            }
        }
        if unique_topic_ids(due) {
            assert forall|i: int, j: int| 0 <= i < j < prev.len() implies #[trigger] prev[i].id
                != #[trigger] prev[j].id by {
                assert(prev[i] == due[i] && prev[j] == due[j]);
            }
            assert forall|i: int, j: int| 0 <= i < j < sel.len() implies #[trigger] sel[i]
                != #[trigger] sel[j] by {
                if j >= rest.len() {
                    assert(sel[i] == rest[i]);
                    assert(needed_id(prev, pex, date, rest[i]));
                    let k = choose|k: int|
                        0 <= k < prev.len() && prev[k].id == rest[i] && needs_session(prev[k], pex[k], date);
                    assert(due[k] == prev[k]);
                    assert(due[k].id != due[n].id);
                } else {
                    assert(sel[i] == rest[i] && sel[j] == rest[j]);
                }
            }
        }
    }
}

/// One run keeps topic ids unique and creates no second session of a topic
/// for a day.
proof fn lemma_materialize_one_session(s: StoreModel, today: Today)
    requires
        unique_topic_ids(s.topics),
        one_session_per_day(s.sessions),
    ensures
        unique_topic_ids(materialize(s, today).topics),
        one_session_per_day(materialize(s, today).sessions),
{
    let day = today.day as int;
    let text = today.text@;
    let due = due_topics(s.topics, day);
    let flags = existence_flags(s, due, text);
    let ids = selected_topics(due, flags, text);
    let m = materialize(s, today);
    let n0 = s.sessions.len();
    lemma_session_writes_effect(s, ids, today);
    lemma_filter_unique_ids(s.topics, due_filter(day));
    lemma_selected_members(due, flags, text);
    assert forall|i: int, j: int| 0 <= i < j < m.topics.len() implies #[trigger] m.topics[i].id
        != #[trigger] m.topics[j].id by {
        assert(m.topics[i].id == s.topics[i].id && m.topics[j].id == s.topics[j].id);
    }
    assert forall|i: int, j: int|
        0 <= i < j < m.sessions.len() && #[trigger] m.sessions[i].study_topic_id
            == #[trigger] m.sessions[j].study_topic_id implies m.sessions[i].due_date
        != m.sessions[j].due_date by {
        if j >= n0 {
            let jj = j - n0;
            assert(m.sessions[n0 + jj].study_topic_id == ids[jj]);
            if i >= n0 {
                let ii = i - n0;
                assert(m.sessions[n0 + ii].study_topic_id == ids[ii]);
            } else {
                assert(m.sessions[i] == s.sessions[i]);
                assert(needed_id(due, flags, text, ids[jj]));
                let k = choose|k: int|
                    0 <= k < due.len() && due[k].id == ids[jj] && needs_session(due[k], flags[k], text);
                if m.sessions[i].due_date == text {
                    assert(session_exists(s, due[k].id, text));
                }
            }
        } else {
            assert(m.sessions[i] == s.sessions[i] && m.sessions[j] == s.sessions[j]);
        }
    }
}

/// `n` materialization runs one after the other, as the lock serializes
/// concurrent requests.
pub open spec fn materialize_repeatedly(s: StoreModel, today: Today, n: nat) -> StoreModel
    decreases n,
{
    if n == 0 {
        s
    } else {
        materialize(materialize_repeatedly(s, today, (n - 1) as nat), today)
    }
}

/// However many runs the lock serializes on one day, they leave at most one
/// session row per topic and day, and the same store as a single run.
pub proof fn lemma_serialized_runs_keep_one_session(s: StoreModel, today: Today, n: nat)
    requires
        unique_topic_ids(s.topics),
        one_session_per_day(s.sessions),
    ensures
        one_session_per_day(materialize_repeatedly(s, today, n).sessions),
        n > 0 ==> materialize_repeatedly(s, today, n) == materialize(s, today),
    decreases n,
{
    if n > 0 {
        lemma_serialized_runs_keep_one_session(s, today, (n - 1) as nat);
        if n == 1 {
            lemma_materialize_one_session(s, today);
        } else {
            lemma_materialize_idempotent(s, today);
        }
    }
}

/// How many session rows belong to the topic.
pub open spec fn pending_sessions(rows: Seq<SessionRow>, topic_id: i64) -> nat
    decreases rows.len(),
{
    if rows.len() == 0 {
        0
    } else {
        pending_sessions(rows.drop_last(), topic_id) + if rows.last().study_topic_id == topic_id {
            1nat
        } else {
            0nat
        }
    }
}

/// No two session rows share an id.
pub open spec fn unique_session_ids(rows: Seq<SessionRow>) -> bool {
    forall|i: int, j: int| 0 <= i < j < rows.len() ==> #[trigger] rows[i].id != #[trigger] rows[j].id
}

/// The store's counters agree with its rows: ids are unique, and each topic's
/// completed count plus its pending sessions is at most its total count.
pub open spec fn counts_consistent(s: StoreModel) -> bool {
    &&& unique_topic_ids(s.topics)
    &&& unique_session_ids(s.sessions)
    &&& forall|i: int| 0 <= i < s.sessions.len() ==> (#[trigger] s.sessions[i]).id < s.next_id
    &&& forall|k: int|
        0 <= k < s.topics.len() ==> {
            &&& 0 <= (#[trigger] s.topics[k]).completed_sessions
            &&& s.topics[k].completed_sessions + pending_sessions(s.sessions, s.topics[k].id)
                <= s.topics[k].total_sessions
        }
}

/// A topic with this id is stored.
pub open spec fn topic_exists(s: StoreModel, topic_id: i64) -> bool {
    exists|k: int| 0 <= k < s.topics.len() && #[trigger] s.topics[k].id == topic_id
}

/// The row with id `session_id`, where one belongs to a stored topic.
pub open spec fn owned_session(s: StoreModel, session_id: i64, i: int) -> bool {
    0 <= i < s.sessions.len() && s.sessions[i].id == session_id && topic_exists(
        s,
        s.sessions[i].study_topic_id,
    )
}

/// What the store's join of a session with its topic yields.
pub open spec fn session_topic(s: StoreModel, session_id: i64) -> Option<i64> {
    if exists|i: int| owned_session(s, session_id, i) {
        Some(s.sessions[choose|i: int| owned_session(s, session_id, i)].study_topic_id)
    } else {
        None
    }
}

/// Completing a session: resolve its topic, then perform the completion
/// writes; an unresolved session changes nothing.
pub open spec fn complete_session(s: StoreModel, session_id: i64, today: Today) -> StoreModel {
    match session_topic(s, session_id) {
        Some(t) => apply_writes(s, completion_writes(session_id, t), today),
        None => s,
    }
}

/// Completing the sessions `ids`, one after the other.
pub open spec fn complete_sessions(s: StoreModel, ids: Seq<i64>, today: Today) -> StoreModel
    decreases ids.len(),
{
    if ids.len() == 0 {
        s
    } else {
        complete_session(complete_sessions(s, ids.drop_last(), today), ids.last(), today)
    }
}

proof fn lemma_pending_push(rows: Seq<SessionRow>, r: SessionRow, topic_id: i64)
    ensures
        pending_sessions(rows.push(r), topic_id) == pending_sessions(rows, topic_id) + if r.study_topic_id
            == topic_id {
            1nat
        } else {
            0nat
        },
{
    assert(rows.push(r).drop_last() == rows);
}

proof fn lemma_without_members(rows: Seq<SessionRow>, id: int)
    ensures
        forall|j: int|
            0 <= j < without_session(rows, id).len() ==> rows.contains(
                #[trigger] without_session(rows, id)[j],
            ),
        (forall|i: int| 0 <= i < rows.len() ==> #[trigger] rows[i].id != id) ==> without_session(rows, id)
            == rows,
    decreases rows.len(),
{
    if rows.len() > 0 {
        let prev = rows.drop_last();
        lemma_without_members(prev, id);
        let w = without_session(rows, id);
        let wp = without_session(prev, id);
        assert forall|j: int| 0 <= j < w.len() implies rows.contains(#[trigger] w[j]) by {
            if j < wp.len() {
                assert(w[j] == wp[j]);
                let q = choose|q: int| 0 <= q < prev.len() && prev[q] == wp[j];
                assert(rows[q] == prev[q]);
            } else {
                assert(w[j] == rows[rows.len() - 1]);
            }
        }
        if forall|i: int| 0 <= i < rows.len() ==> #[trigger] rows[i].id != id {
            assert forall|i: int| 0 <= i < prev.len() implies #[trigger] prev[i].id != id by {
                assert(prev[i] == rows[i]);
            }
            assert(rows.last().id != id);
            assert(prev.push(rows.last()) == rows);
        }
    }
}

/// Deleting one row of unique id keeps ids unique and takes one pending
/// session from its topic only.
proof fn lemma_without_session(rows: Seq<SessionRow>, i: int, id: int)
    requires
        unique_session_ids(rows),
        0 <= i < rows.len(),
        rows[i].id == id,
    ensures
        unique_session_ids(without_session(rows, id)),
        forall|x: i64|
            #[trigger] pending_sessions(without_session(rows, id), x) + if rows[i].study_topic_id == x {
                1nat
            } else {
                0nat
            } == pending_sessions(rows, x),
    decreases rows.len(),
{
    let n = rows.len() - 1;
    let prev = rows.drop_last();
    let last = rows.last();
    assert forall|a: int, b: int| 0 <= a < b < prev.len() implies #[trigger] prev[a].id
        != #[trigger] prev[b].id by {
        assert(prev[a] == rows[a] && prev[b] == rows[b]);
    }
    if i == n {
        assert forall|q: int| 0 <= q < prev.len() implies #[trigger] prev[q].id != id by {
            assert(prev[q] == rows[q]);
        }
        lemma_without_members(prev, id);
    } else {
        assert(last.id != id);
        assert(prev[i] == rows[i]);
        lemma_without_session(prev, i, id);
        lemma_without_members(prev, id);
        let wp = without_session(prev, id);
        let w = without_session(rows, id);
        assert(w == wp.push(last));
        assert forall|x: i64| #[trigger] pending_sessions(w, x) == pending_sessions(wp, x) + if last.study_topic_id
            == x {
            1nat
        } else {
            0nat
        } by {
            lemma_pending_push(wp, last, x);
        }
        assert forall|a: int, b: int| 0 <= a < b < w.len() implies #[trigger] w[a].id != #[trigger] w[b].id by {
            if b == w.len() - 1 {
                assert(w[a] == wp[a]);
                assert(wp.contains(wp[a]));
                let q = choose|q: int| 0 <= q < prev.len() && prev[q] == wp[a];
                assert(rows[q] == prev[q]);
            } else {
                assert(w[a] == wp[a] && w[b] == wp[b]);
            }
        }
    }
}

proof fn lemma_complete_keeps_counts(s: StoreModel, session_id: i64, today: Today)
    requires
        counts_consistent(s),
    ensures
        counts_consistent(complete_session(s, session_id, today)),
{
    if let Some(t) = session_topic(s, session_id) {
        let i = choose|i: int| owned_session(s, session_id, i);
        assert(s.sessions[i].study_topic_id == t);
        let w = completion_writes(session_id, t);
        let q1 = apply_write(s, StorageWrite::IncreaseCompletedSessions(t), today);
        let q2 = apply_write(q1, StorageWrite::DeleteSession(session_id), today);
        assert(w.drop_last().drop_last() == Seq::<StorageWrite>::empty());
        assert(apply_writes(s, Seq::<StorageWrite>::empty(), today) == s);
        assert(apply_writes(s, w.drop_last(), today) == q1);
        let m = complete_session(s, session_id, today);
        assert(m == q2);
        lemma_without_session(s.sessions, i, session_id as int);
        lemma_without_members(s.sessions, session_id as int);
        assert forall|j: int| 0 <= j < m.sessions.len() implies (#[trigger] m.sessions[j]).id < m.next_id by {
            assert(s.sessions.contains(m.sessions[j]));
        }
        assert forall|a: int, b: int| 0 <= a < b < m.topics.len() implies #[trigger] m.topics[a].id
            != #[trigger] m.topics[b].id by {
            assert(m.topics[a].id == s.topics[a].id && m.topics[b].id == s.topics[b].id);
        }
        assert forall|k: int| 0 <= k < m.topics.len() implies {
            &&& 0 <= (#[trigger] m.topics[k]).completed_sessions
            &&& m.topics[k].completed_sessions + pending_sessions(m.sessions, m.topics[k].id)
                <= m.topics[k].total_sessions
        } by {
            let tk = s.topics[k];
            assert(pending_sessions(m.sessions, tk.id) + (if t == tk.id {
                1nat
            } else {
                0nat
            }) == pending_sessions(s.sessions, tk.id));
        }
    }
}

/// However many sessions are completed, each topic's completed count stays
/// at most its total count, and the counters keep agreeing with the rows.
pub proof fn lemma_completion_keeps_completed_within_total(s: StoreModel, ids: Seq<i64>, today: Today)
    requires
        counts_consistent(s),
    ensures
        counts_consistent(complete_sessions(s, ids, today)),
        forall|k: int|
            0 <= k < complete_sessions(s, ids, today).topics.len() ==> (#[trigger] complete_sessions(
                s,
                ids,
                today,
            ).topics[k]).completed_sessions <= complete_sessions(s, ids, today).topics[k].total_sessions,
    decreases ids.len(),
{
    if ids.len() > 0 {
        lemma_completion_keeps_completed_within_total(s, ids.drop_last(), today);
        lemma_complete_keeps_counts(complete_sessions(s, ids.drop_last(), today), ids.last(), today);
    }
}

/// What the writes for distinct `ids` do to the counters: each topic among
/// them gains one session row and one on its total count.
proof fn lemma_session_writes_counts(s: StoreModel, ids: Seq<i64>, today: Today)
    requires
        forall|i: int, j: int| 0 <= i < j < ids.len() ==> #[trigger] ids[i] != #[trigger] ids[j],
        forall|k: int| 0 <= k < s.topics.len() ==> (#[trigger] s.topics[k]).total_sessions < i64::MAX,
    ensures
        ({
            let m = apply_writes(s, session_writes(ids), today);
            &&& forall|k: int|
                0 <= k < s.topics.len() ==> {
                    &&& (#[trigger] m.topics[k]).total_sessions == s.topics[k].total_sessions + if ids.contains(
                        s.topics[k].id,
                    ) {
                        1int
                    } else {
                        0int
                    }
                    &&& m.topics[k].completed_sessions == s.topics[k].completed_sessions
                }
            &&& forall|x: i64|
                #[trigger] pending_sessions(m.sessions, x) == pending_sessions(s.sessions, x) + if ids.contains(x) {
                    1nat
                } else {
                    0nat
                }
        }),
    decreases ids.len(),
{
    lemma_session_writes_effect(s, ids, today);
    if ids.len() > 0 {
        let prev = ids.drop_last();
        let t = ids.last();
        assert forall|i: int, j: int| 0 <= i < j < prev.len() implies #[trigger] prev[i] != #[trigger] prev[j] by {
            assert(prev[i] == ids[i] && prev[j] == ids[j]);
        }
        lemma_session_writes_counts(s, prev, today);
        lemma_session_writes_effect(s, prev, today);
        lemma_apply_writes_concat(s, session_writes(prev), writes_for_topic(t), today);
        let p = apply_writes(s, session_writes(prev), today);
        let w = writes_for_topic(t);
        assert(w.drop_last() == seq![StorageWrite::CreateSession(t), StorageWrite::SetLastSessionDate(t)]);
        assert(w.drop_last().drop_last() == seq![StorageWrite::CreateSession(t)]);
        assert(w.drop_last().drop_last().drop_last() == Seq::<StorageWrite>::empty());
        let q1 = apply_write(p, StorageWrite::CreateSession(t), today);
        let q2 = apply_write(q1, StorageWrite::SetLastSessionDate(t), today);
        let q3 = apply_write(q2, StorageWrite::IncreaseTotalSessions(t), today);
        assert(apply_writes(p, Seq::<StorageWrite>::empty(), today) == p);
        assert(w.drop_last().drop_last().last() == StorageWrite::CreateSession(t));
        assert(w.drop_last().last() == StorageWrite::SetLastSessionDate(t));
        assert(w.last() == StorageWrite::IncreaseTotalSessions(t));
        assert(apply_writes(p, w.drop_last().drop_last(), today) == q1);
        assert(apply_writes(p, w.drop_last(), today) == q2);
        assert(apply_writes(p, w, today) == q3);
        let m = apply_writes(s, session_writes(ids), today);
        assert(m == q3);
        assert(!prev.contains(t)) by {
            if prev.contains(t) {
                let j = choose|j: int| 0 <= j < prev.len() && prev[j] == t;
                assert(ids[j] == prev[j]);
            }
        }
        assert forall|y: i64| ids.contains(y) == (prev.contains(y) || y == t) by {
            if ids.contains(y) {
                let j = choose|j: int| 0 <= j < ids.len() && ids[j] == y;
                if j < ids.len() - 1 {
                    assert(prev[j] == ids[j]);
                }
            }
            if prev.contains(y) {
                let j = choose|j: int| 0 <= j < prev.len() && prev[j] == y;
                assert(ids[j] == prev[j]);
            }
            if y == t {
                assert(ids[ids.len() - 1] == t);
            }
        }
        assert forall|x: i64| #[trigger] pending_sessions(m.sessions, x) == pending_sessions(s.sessions, x)
            + if ids.contains(x) {
            1nat
        } else {
            0nat
        } by {
            lemma_pending_push(p.sessions, SessionRow { id: p.next_id, study_topic_id: t, due_date: today.text@ }, x);
        }
        assert forall|k: int| 0 <= k < s.topics.len() implies {
            &&& (#[trigger] m.topics[k]).total_sessions == s.topics[k].total_sessions + if ids.contains(
                s.topics[k].id,
            ) {
                1int
            } else {
                0int
            }
            &&& m.topics[k].completed_sessions == s.topics[k].completed_sessions
        } by {
            assert(p.topics[k].id == s.topics[k].id);
        }
    }
}

/// A materialization run keeps the counters agreeing with the rows, as long
/// as no total count is at the largest stored integer.
pub proof fn lemma_materialize_keeps_counts(s: StoreModel, today: Today)
    requires
        counts_consistent(s),
        forall|k: int| 0 <= k < s.topics.len() ==> (#[trigger] s.topics[k]).total_sessions < i64::MAX,
    ensures
        counts_consistent(materialize(s, today)),
{
    let day = today.day as int;
    let text = today.text@;
    let due = due_topics(s.topics, day);
    let flags = existence_flags(s, due, text);
    let ids = selected_topics(due, flags, text);
    let m = materialize(s, today);
    let n0 = s.sessions.len();
    lemma_filter_unique_ids(s.topics, due_filter(day));
    lemma_selected_members(due, flags, text);
    lemma_session_writes_effect(s, ids, today);
    lemma_session_writes_counts(s, ids, today);
    assert forall|i: int, j: int| 0 <= i < j < m.topics.len() implies #[trigger] m.topics[i].id
        != #[trigger] m.topics[j].id by {
        assert(m.topics[i].id == s.topics[i].id && m.topics[j].id == s.topics[j].id);
    }
    assert forall|i: int| 0 <= i < m.sessions.len() implies (#[trigger] m.sessions[i]).id < m.next_id by {
        if i >= n0 {
            assert(m.sessions[n0 + (i - n0)].id == s.next_id + (i - n0));
        } else {
            assert(m.sessions[i] == s.sessions[i]);
        }
    }
    assert forall|i: int, j: int| 0 <= i < j < m.sessions.len() implies #[trigger] m.sessions[i].id
        != #[trigger] m.sessions[j].id by {
        if j >= n0 {
            assert(m.sessions[n0 + (j - n0)].id == s.next_id + (j - n0));
            if i >= n0 {
                assert(m.sessions[n0 + (i - n0)].id == s.next_id + (i - n0));
            } else {
                assert(m.sessions[i] == s.sessions[i]);
            }
        } else {
            assert(m.sessions[i] == s.sessions[i] && m.sessions[j] == s.sessions[j]);
        }
    }
    assert forall|k: int| 0 <= k < m.topics.len() implies {
        &&& 0 <= (#[trigger] m.topics[k]).completed_sessions
        &&& m.topics[k].completed_sessions + pending_sessions(m.sessions, m.topics[k].id)
            <= m.topics[k].total_sessions
    } by {
        assert(m.topics[k].id == s.topics[k].id);
    }
}

} // verus!
