//! The records that the scheduler reads and hands out.

use vstd::prelude::*;

verus! {

/// A topic under review, as stored. Dates are `%Y-%m-%d` text.
#[derive(Debug)]
pub struct StudyTopic {
    pub id: i64,
    pub name: String,
    pub description: Option<String>,
    pub creation_date: String,
    pub subject_name: String,
    pub last_session_date: Option<String>,
    pub total_sessions: i64,
    pub completed_sessions: i64,
}

fn clone_opt_string(s: &Option<String>) -> (r: Option<String>)
    ensures
        r == *s,
{
    match s {
        Some(v) => Some(v.clone()),
        None => None,
    }
}

impl Clone for StudyTopic {
    fn clone(&self) -> (r: Self)
        ensures
            r == *self,
    {
        StudyTopic {
            id: self.id,
            name: self.name.clone(),
            description: clone_opt_string(&self.description),
            creation_date: self.creation_date.clone(),
            subject_name: self.subject_name.clone(),
            last_session_date: clone_opt_string(&self.last_session_date),
            total_sessions: self.total_sessions,
            completed_sessions: self.completed_sessions,
        }
    }
}

/// What a user gives to create a topic.
#[derive(Clone, Debug)]
pub struct StudyTopicInfo {
    pub name: String,
    pub description: Option<String>,
    pub subject_name: String,
}

/// A subject, identified by its name.
#[derive(Clone, Debug)]
pub struct Subject {
    pub subject_name: String,
}

/// A pending session as listed for a subject: its id, its due date and the
/// name of its topic.
#[derive(Clone, Debug)]
pub struct StudySessionInfo {
    pub id: i64,
    pub due_date: String,
    pub study_topic_name: String,
}

} // verus!
