//! The review schedule: on which day offsets after its creation a topic is due.

use chrono::Datelike;
use vstd::prelude::*;

use crate::domain::StudyTopic;
use crate::err::StudyServiceError;

verus! {

/// The fixed review milestones, in days after creation, followed by a review
/// every sixty days.
pub open spec fn is_review_day(days: int) -> bool {
    days == 0 || days == 1 || days == 3 || days == 7 || days == 21 || days == 30 || days == 45
        || days == 60 || days % 60 == 0
}

/// Whether a topic created `days` days ago is reviewed today.
pub fn study_for_today(days: u32) -> (r: bool)
    ensures
        r == is_review_day(days as int),
{
    if days == 0 || days == 1 || days == 3 || days == 7 || days == 21 || days == 30 || days == 45
        || days == 60 {
        true
    } else {
        days % 60 == 0
    }
}


/// The day number (days of the proleptic Gregorian calendar, 0001-01-01 being
/// day 1) of a `%Y-%m-%d` date, or `None` where the text is no such date.
pub uninterp spec fn day_number_of(text: Seq<char>) -> Option<int>;

/// Relies on chrono's `NaiveDate::parse_from_str` with format `%Y-%m-%d` to
/// read the date, and on `Datelike::num_days_from_ce` to number it.
#[verifier::external_body]
fn parse_day_number(text: &str) -> (r: Result<i32, chrono::ParseError>)
    ensures
        match r {
            Ok(d) => day_number_of(text@) == Some(d as int),
            Err(_) => day_number_of(text@) is None,
        },
{
    match chrono::NaiveDate::parse_from_str(text, "%Y-%m-%d") {
        Ok(date) => Ok(date.num_days_from_ce()),
        Err(e) => Err(e),
    }
}

/// The current calendar day, as `%Y-%m-%d` text and as its day number.
#[derive(Debug)]
pub struct Today {
    pub text: String,
    pub day: i32,
}

impl Today {
    /// Reads today's date from its `%Y-%m-%d` text.
    pub fn parse(text: String) -> (r: Result<Today, StudyServiceError>)
        ensures
            match day_number_of(text@) {
                Some(d) => r matches Ok(t) && t.text == text && t.day as int == d,
                None => r matches Err(StudyServiceError::ParseDateError(_)),
            },
    {
        match parse_day_number(text.as_str()) {
            Ok(day) => Ok(Today { text, day }),
            Err(e) => Err(StudyServiceError::ParseDateError(e)),
        }
    }
}

/// Days from the date `date` to the day numbered `today`.
pub open spec fn days_between(date: Seq<char>, today: int) -> Option<int> {
    match day_number_of(date) {
        Some(d) => Some(today - d),
        None => None,
    }
}

/// Whole days from `date` to today.
pub fn get_days_since_creation(date: &String, today: &Today) -> (r: Result<u32, StudyServiceError>)
    ensures
        match days_between(date@, today.day as int) {
            None => r matches Err(StudyServiceError::ParseDateError(_)),
            Some(n) => if n >= 0 {
                r matches Ok(k) && k as int == n
            } else {
                r matches Err(StudyServiceError::FutureDate)
            },
        },
{
    match parse_day_number(date.as_str()) {
        Ok(d) => {
            let diff: i64 = today.day as i64 - d as i64;
            if diff >= 0 {
                Ok(diff as u32)
            } else {
                Err(StudyServiceError::FutureDate)
            }
        },
        Err(e) => Err(StudyServiceError::ParseDateError(e)),
    }
}

/// A topic created on `creation_date` is due on the day numbered `today`: it
/// was created at most that day, on a review milestone before it. An
/// unreadable date is never due.
pub open spec fn due_on(creation_date: Seq<char>, today: int) -> bool {
    match days_between(creation_date, today) {
        Some(n) => n >= 0 && is_review_day(n),
        None => false,
    }
}

/// Whether a topic is due on the day numbered `today`.
pub open spec fn due_filter(today: int) -> spec_fn(StudyTopic) -> bool {
    |t: StudyTopic| due_on(t.creation_date@, today)
}

/// The topics of `topics` that are due today, in their order.
pub open spec fn due_topics(topics: Seq<StudyTopic>, today: int) -> Seq<StudyTopic> {
    topics.filter(due_filter(today))
}

/// Whether `topic` is due for review today.
pub fn is_due(topic: &StudyTopic, today: &Today) -> (r: bool)
    ensures
        r == due_on(topic.creation_date@, today.day as int),
{
    match get_days_since_creation(&topic.creation_date, today) {
        Ok(days) => study_for_today(days),
        Err(_) => false,
    }
}

/// The due set: those of `topics` due today, in their order. A topic whose
/// date cannot be read is left out; the others are still judged.
pub fn get_study_topics_for_today(topics: &Vec<StudyTopic>, today: &Today) -> (r: Vec<StudyTopic>)
    ensures
        r@ == due_topics(topics@, today.day as int),
{
    let mut out: Vec<StudyTopic> = Vec::new();
    let mut i: usize = 0;
    while i < topics.len()
        invariant
            i <= topics.len(),
            out@ == due_topics(topics@.take(i as int), today.day as int),
        decreases topics.len() - i,
    {
        proof {
            reveal(Seq::filter);
            assert(topics@.take(i as int + 1).drop_last() == topics@.take(i as int));
        }
        if is_due(&topics[i], today) {
            out.push(topics[i].clone());
        }
        i += 1;
    }
    proof {
        assert(topics@.take(i as int) == topics@);
    }
    out
}

/// The ids of the topics whose creation date cannot be read, in order.
pub open spec fn unreadable_ids(topics: Seq<StudyTopic>) -> Seq<i64>
    decreases topics.len(),
{
    if topics.len() == 0 {
        Seq::empty()
    } else {
        let rest = unreadable_ids(topics.drop_last());
        if day_number_of(topics.last().creation_date@) is None {
            rest.push(topics.last().id)
        } else {
            rest
        }
    }
}

/// The topics that the due set leaves out because their creation date cannot
/// be read, for the caller to report.
pub fn topics_with_unreadable_dates(topics: &Vec<StudyTopic>) -> (r: Vec<i64>)
    ensures
        r@ == unreadable_ids(topics@),
{
    let mut out: Vec<i64> = Vec::new();
    let mut i: usize = 0;
    while i < topics.len()
        invariant
            i <= topics.len(),
            out@ == unreadable_ids(topics@.take(i as int)),
        decreases topics.len() - i,
    {
        proof {
            assert(topics@.take(i as int + 1).drop_last() == topics@.take(i as int));
        }
        if parse_day_number(topics[i].creation_date.as_str()).is_err() {
            out.push(topics[i].id);
        }
        i += 1;
    }
    proof {
        assert(topics@.take(i as int) == topics@);
    }
    out
}

} // verus!
