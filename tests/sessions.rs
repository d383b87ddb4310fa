use study_tracker::domain::{StudySessionInfo, StudyTopic};
use study_tracker::err::StudyServiceError;
use study_tracker::schedule::{get_study_topics_for_today, Today};
use study_tracker::sessions::{
    complete_study_session, create_study_session, create_study_sessions_today,
    get_study_sessions_for_subject, topic_needs_session, topics_to_process, StorageWrite,
    StudySessionResponse,
};

fn day(text: &str) -> Today {
    Today::parse(text.to_string()).unwrap()
}

fn topic(id: i64, creation_date: &str) -> StudyTopic {
    StudyTopic {
        id,
        name: format!("topic {id}"),
        description: Some("notes".to_string()),
        creation_date: creation_date.to_string(),
        subject_name: "maths".to_string(),
        last_session_date: None,
        total_sessions: 0,
        completed_sessions: 0,
    }
}

struct Row {
    id: i64,
    topic_id: i64,
    due_date: String,
}

/// A record store in memory that performs the writes as the database does.
struct Store {
    topics: Vec<StudyTopic>,
    sessions: Vec<Row>,
    next_id: i64,
    inserts: usize,
}

impl Store {
    fn new(topics: Vec<StudyTopic>) -> Store {
        Store { topics, sessions: Vec::new(), next_id: 1, inserts: 0 }
    }

    fn has_session(&self, topic_id: i64, date: &str) -> bool {
        self.sessions.iter().any(|r| r.topic_id == topic_id && r.due_date == date)
    }

    fn topic_of_session(&self, session_id: i64) -> Option<i64> {
        self.sessions
            .iter()
            .find(|r| r.id == session_id)
            .map(|r| r.topic_id)
            .filter(|t| self.topics.iter().any(|x| x.id == *t))
    }

    fn apply(&mut self, w: StorageWrite, today: &Today) {
        match w {
            StorageWrite::CreateSession(t) => {
                self.inserts += 1;
                self.sessions.push(Row { id: self.next_id, topic_id: t, due_date: today.text.clone() });
                self.next_id += 1;
            }
            StorageWrite::SetLastSessionDate(t) => {
                for x in self.topics.iter_mut().filter(|x| x.id == t) {
                    x.last_session_date = Some(today.text.clone());
                }
            }
            StorageWrite::IncreaseTotalSessions(t) => {
                for x in self.topics.iter_mut().filter(|x| x.id == t) {
                    x.total_sessions += 1;
                }
            }
            StorageWrite::IncreaseCompletedSessions(t) => {
                for x in self.topics.iter_mut().filter(|x| x.id == t) {
                    x.completed_sessions += 1;
                }
            }
            StorageWrite::DeleteSession(id) => self.sessions.retain(|r| r.id != id),
        }
    }

    fn materialize(&mut self, today: &Today) {
        let due = get_study_topics_for_today(&self.topics, today);
        let has_session: Vec<bool> = due.iter().map(|t| self.has_session(t.id, &today.text)).collect();
        for w in create_study_sessions_today(&due, &has_session, today) {
            self.apply(w, today);
        }
    }

    fn complete(&mut self, session_id: i64, today: &Today) -> Result<(), StudyServiceError> {
        let writes = complete_study_session(session_id, self.topic_of_session(session_id))?;
        for w in writes {
            self.apply(w, today);
        }
        Ok(())
    }

    fn session_infos(&self, subject: &str) -> Vec<StudySessionInfo> {
        let mut out = Vec::new();
        for r in &self.sessions {
            if let Some(t) = self.topics.iter().find(|t| t.id == r.topic_id && t.subject_name == subject) {
                out.push(StudySessionInfo { id: r.id, due_date: r.due_date.clone(), study_topic_name: t.name.clone() });
            }
        }
        out
    }
}

#[test]
fn writes_for_one_topic() {
    assert_eq!(
        create_study_session(9),
        vec![
            StorageWrite::CreateSession(9),
            StorageWrite::SetLastSessionDate(9),
            StorageWrite::IncreaseTotalSessions(9),
        ]
    );
}

#[test]
fn existing_session_or_last_date_today_skips_topic() {
    let today = day("2024-03-22");
    let mut t = topic(1, "2024-03-01");
    assert!(topic_needs_session(&t, false, &today));
    assert!(!topic_needs_session(&t, true, &today));
    t.last_session_date = Some("2024-03-22".to_string());
    assert!(!topic_needs_session(&t, false, &today));
    t.last_session_date = Some("2024-03-21".to_string());
    assert!(topic_needs_session(&t, false, &today));
}

#[test]
fn only_topics_without_session_are_processed() {
    let today = day("2024-03-22");
    let mut done = topic(3, "2024-03-22");
    done.last_session_date = Some("2024-03-22".to_string());
    let due = vec![topic(1, "2024-03-01"), topic(2, "2024-03-21"), done];
    assert_eq!(topics_to_process(&due, &vec![false, true, false], &today), vec![1]);
    assert_eq!(
        create_study_sessions_today(&due, &vec![false, false, false], &today),
        vec![
            StorageWrite::CreateSession(1),
            StorageWrite::SetLastSessionDate(1),
            StorageWrite::IncreaseTotalSessions(1),
            StorageWrite::CreateSession(2),
            StorageWrite::SetLastSessionDate(2),
            StorageWrite::IncreaseTotalSessions(2),
        ]
    );
}

#[test]
fn completion_writes_and_missing_session() {
    match complete_study_session(5, Some(2)) {
        Ok(w) => assert_eq!(
            w,
            vec![StorageWrite::IncreaseCompletedSessions(2), StorageWrite::DeleteSession(5)]
        ),
        Err(_) => panic!("session 5 resolves to topic 2"),
    }
    assert!(matches!(
        complete_study_session(5, None),
        Err(StudyServiceError::SessionNotFound(5))
    ));
}

#[test]
fn response_counts_days_since_due_date() {
    let today = day("2024-03-22");
    let info = StudySessionInfo { id: 4, due_date: "2024-03-19".to_string(), study_topic_name: "graphs".to_string() };
    let r = StudySessionResponse::from(&info, &today).unwrap();
    assert_eq!(r.id, 4);
    assert_eq!(r.study_topic_name, "graphs");
    assert_eq!(r.days_passed, 3);
    let bad = StudySessionInfo { id: 5, due_date: "19/03/2024".to_string(), study_topic_name: "x".to_string() };
    assert!(matches!(
        StudySessionResponse::from(&bad, &today),
        Err(StudyServiceError::ParseDateError(_))
    ));
}

#[test]
fn session_list_fails_on_unreadable_due_date() {
    let today = day("2024-03-22");
    let good = StudySessionInfo { id: 1, due_date: "2024-03-22".to_string(), study_topic_name: "a".to_string() };
    let late = StudySessionInfo { id: 2, due_date: "2024-03-23".to_string(), study_topic_name: "b".to_string() };
    let listed = get_study_sessions_for_subject(&vec![good.clone()], &today).unwrap();
    assert_eq!(listed.len(), 1);
    assert_eq!(listed[0].days_passed, 0);
    assert!(matches!(
        get_study_sessions_for_subject(&vec![good, late], &today),
        Err(StudyServiceError::FutureDate)
    ));
}

#[test]
fn new_topic_gets_session_on_creation_day() {
    let today = day("2024-03-22");
    let mut store = Store::new(vec![topic(1, "2024-03-22")]);
    store.materialize(&today);
    let listed = get_study_sessions_for_subject(&store.session_infos("maths"), &today).unwrap();
    assert_eq!(listed.len(), 1);
    assert_eq!(listed[0].days_passed, 0);
    assert_eq!(listed[0].study_topic_name, "topic 1");
}

#[test]
fn topic_due_after_twenty_one_days_is_materialized() {
    let today = day("2024-03-22");
    let mut store = Store::new(vec![topic(1, "2024-03-01")]);
    assert_eq!(get_study_topics_for_today(&store.topics, &today).len(), 1);
    store.materialize(&today);
    assert_eq!(store.sessions.len(), 1);
    assert_eq!(store.topics[0].total_sessions, 1);
    assert_eq!(store.topics[0].last_session_date.as_deref(), Some("2024-03-22"));
}

#[test]
fn completing_a_session_counts_it_and_deletes_it() {
    let today = day("2024-03-22");
    let mut store = Store::new(vec![topic(1, "2024-03-01"), topic(2, "2024-03-21")]);
    store.materialize(&today);
    let id = store.sessions.iter().find(|r| r.topic_id == 1).unwrap().id;
    store.complete(id, &today).unwrap();
    assert_eq!(store.topics[0].completed_sessions, 1);
    assert_eq!(store.topics[0].total_sessions, 1);
    assert_eq!(store.topics[1].completed_sessions, 0);
    assert!(store.sessions.iter().all(|r| r.id != id));
    assert_eq!(store.sessions.len(), 1);
    assert!(matches!(store.complete(id, &today), Err(StudyServiceError::SessionNotFound(_))));
    assert_eq!(store.topics[0].completed_sessions, 1);
}

#[test]
fn materializing_twice_adds_nothing() {
    let today = day("2024-03-22");
    let mut store = Store::new(vec![topic(1, "2024-03-01"), topic(2, "2024-03-22"), topic(3, "2024-02-29")]);
    store.materialize(&today);
    let first: Vec<(i64, i64, String)> =
        store.sessions.iter().map(|r| (r.id, r.topic_id, r.due_date.clone())).collect();
    store.materialize(&today);
    let second: Vec<(i64, i64, String)> =
        store.sessions.iter().map(|r| (r.id, r.topic_id, r.due_date.clone())).collect();
    assert_eq!(first, second);
    assert_eq!(first.len(), 2);
}

#[test]
fn serialized_runs_insert_once_per_topic() {
    let today = day("2024-03-22");
    let mut store = Store::new(vec![topic(1, "2024-03-01"), topic(2, "2024-03-21"), topic(3, "2024-03-15")]);
    for _ in 0..5 {
        store.materialize(&today);
    }
    assert_eq!(store.inserts, 3);
    for t in [1, 2, 3] {
        assert_eq!(store.sessions.iter().filter(|r| r.topic_id == t).count(), 1);
    }
}

#[test]
fn completed_topic_is_not_materialized_again_that_day() {
    let today = day("2024-03-22");
    let mut store = Store::new(vec![topic(1, "2024-03-01")]);
    store.materialize(&today);
    let id = store.sessions[0].id;
    store.complete(id, &today).unwrap();
    store.materialize(&today);
    assert!(store.sessions.is_empty());
    assert_eq!(store.topics[0].total_sessions, 1);
    assert_eq!(store.topics[0].completed_sessions, 1);
}

#[test]
fn completed_never_exceeds_total() {
    let today = day("2024-03-22");
    let mut store = Store::new(vec![topic(1, "2024-03-01"), topic(2, "2024-03-21")]);
    store.materialize(&today);
    for id in [1, 1, 2, 7, 2] {
        let _ = store.complete(id, &today);
        for t in &store.topics {
            assert!(t.completed_sessions <= t.total_sessions);
        }
    }
}

#[test]
fn topic_created_twenty_two_days_ago_gets_no_session() {
    let today = day("2024-03-23");
    let mut store = Store::new(vec![topic(1, "2024-03-01")]);
    store.materialize(&today);
    assert!(store.sessions.is_empty());
    assert_eq!(store.topics[0].total_sessions, 0);
}
