use study_tracker::domain::StudyTopic;
use study_tracker::err::StudyServiceError;
use study_tracker::schedule::{
    get_days_since_creation, get_study_topics_for_today, is_due, study_for_today,
    topics_with_unreadable_dates, Today,
};

fn today_text() -> String {
    chrono::Utc::now().naive_utc().date().format("%Y-%m-%d").to_string()
}

fn topic(id: i64, creation_date: &str) -> StudyTopic {
    StudyTopic {
        id,
        name: format!("topic {id}"),
        description: None,
        creation_date: creation_date.to_string(),
        subject_name: "maths".to_string(),
        last_session_date: None,
        total_sessions: 0,
        completed_sessions: 0,
    }
}

fn day(text: &str) -> Today {
    Today::parse(text.to_string()).unwrap()
}

#[test]
fn has_to_study_today() {
    assert!(study_for_today(0));
    assert!(study_for_today(1));
    assert!(study_for_today(3));
    assert!(study_for_today(7));
    assert!(study_for_today(60));
    assert!(study_for_today(120));

    assert!(!study_for_today(2));
    assert!(!study_for_today(5));
    assert!(!study_for_today(22));
    assert!(!study_for_today(19));
}

#[test]
fn test_get_days_since_creation_today() {
    let today = Today::parse(today_text()).unwrap();
    let result = get_days_since_creation(&today_text(), &today);

    assert_eq!(result.unwrap(), 0);
}

#[test]
fn test_get_days_since_creation_past() {
    let today = Today::parse(today_text()).unwrap();
    let past_date = "2023-01-01".to_string();
    let result = get_days_since_creation(&past_date, &today);

    assert!(result.unwrap() > 0);
}

#[test]
fn review_milestones_and_every_sixty_days() {
    for d in [0u32, 1, 3, 7, 21, 30, 45, 60, 120, 180, 600] {
        assert!(study_for_today(d), "{d} should be a review day");
    }
    for d in [2u32, 4, 5, 6, 8, 19, 22, 44, 46, 59, 61, 119] {
        assert!(!study_for_today(d), "{d} should not be a review day");
    }
}

#[test]
fn days_since_creation_exact_count() {
    let today = day("2024-03-01");
    assert_eq!(get_days_since_creation(&"2024-02-01".to_string(), &today).unwrap(), 29);
    assert_eq!(get_days_since_creation(&"2023-03-01".to_string(), &today).unwrap(), 366);
    assert_eq!(get_days_since_creation(&"2024-03-01".to_string(), &today).unwrap(), 0);
}

#[test]
fn days_since_creation_rejects_bad_and_future_dates() {
    let today = day("2024-03-01");
    assert!(matches!(
        get_days_since_creation(&"not a date".to_string(), &today),
        Err(StudyServiceError::ParseDateError(_))
    ));
    assert!(matches!(
        get_days_since_creation(&"2024-03-02".to_string(), &today),
        Err(StudyServiceError::FutureDate)
    ));
}

#[test]
fn today_reads_its_text() {
    let t = day("2024-03-01");
    assert_eq!(t.text, "2024-03-01");
    assert_eq!(day("2024-03-02").day - t.day, 1);
    assert!(matches!(
        Today::parse("2024-13-01".to_string()),
        Err(StudyServiceError::ParseDateError(_))
    ));
}

#[test]
fn topic_due_on_milestones_only() {
    let today = day("2024-03-22");
    assert!(is_due(&topic(1, "2024-03-01"), &today)); // 21 days
    assert!(!is_due(&topic(2, "2024-02-29"), &today)); // 22 days
    assert!(is_due(&topic(3, "2024-03-22"), &today)); // same day
    assert!(!is_due(&topic(4, "2024-03-23"), &today)); // after today
    assert!(!is_due(&topic(5, "yesterday"), &today));
}

#[test]
fn due_set_keeps_order_and_skips_unreadable_dates() {
    let today = day("2024-03-22");
    let topics = vec![
        topic(1, "2024-03-21"),
        topic(2, "garbage"),
        topic(3, "2024-03-20"),
        topic(4, "2024-03-15"),
        topic(5, "2024-01-22"),
    ];
    let due = get_study_topics_for_today(&topics, &today);
    let ids: Vec<i64> = due.iter().map(|t| t.id).collect();
    assert_eq!(ids, vec![1, 4, 5]);
}

#[test]
fn topic_created_twenty_two_days_ago_is_not_due() {
    let today = day("2024-03-23");
    let topics = vec![topic(7, "2024-03-01")];
    assert!(get_study_topics_for_today(&topics, &today).is_empty());
}

#[test]
fn empty_topic_list_has_empty_due_set() {
    let today = day("2024-03-23");
    assert!(get_study_topics_for_today(&Vec::new(), &today).is_empty());
}

#[test]
fn unreadable_dates_are_reported() {
    let topics = vec![topic(1, "2024-03-21"), topic(2, "garbage"), topic(3, "2024-02-30"), topic(4, "")];
    assert_eq!(topics_with_unreadable_dates(&topics), vec![2, 3, 4]);
}
