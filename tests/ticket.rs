use chrono::{DateTime, Utc};
use hlavi_core::{AcceptanceCriteria, HlaviError, Ticket, TicketId, TicketStatus, Timestamp};
use std::str::FromStr;

fn ts(d: DateTime<Utc>) -> Timestamp {
    Timestamp::new(d.timestamp(), d.timestamp_subsec_nanos())
}

#[test]
fn test_ticket_id_creation() {
    let id = TicketId::new(1);
    assert_eq!(id.as_str(), "HLA1");

    let id = TicketId::new(42);
    assert_eq!(id.as_str(), "HLA42");

    let id = TicketId::new(1000);
    assert_eq!(id.as_str(), "HLA1000");
}

#[test]
fn test_ticket_id_parsing() {
    let id = TicketId::from_str("HLA1").unwrap();
    assert_eq!(id.as_str(), "HLA1");

    let id = TicketId::from_str("HLA123").unwrap();
    assert_eq!(id.as_str(), "HLA123");

    assert!(TicketId::from_str("INVALID").is_err());
    assert!(TicketId::from_str("HLA").is_err());
    assert!(TicketId::from_str("HLAabc").is_err());
}

#[test]
fn ticket_test_status_transitions() {
    assert!(TicketStatus::New.can_transition_to(&TicketStatus::Open));
    assert!(TicketStatus::Open.can_transition_to(&TicketStatus::InProgress));
    assert!(!TicketStatus::New.can_transition_to(&TicketStatus::Done));
}

#[test]
fn test_ticket_acceptance_criteria() {
    let mut ticket = Ticket::new(TicketId::new(1), "Test".to_string());

    ticket.add_acceptance_criterion("AC 1".to_string());
    ticket.add_acceptance_criterion("AC 2".to_string());

    assert_eq!(ticket.acceptance_criteria.len(), 2);
    assert!(!ticket.all_acceptance_criteria_completed());
}

#[test]
fn ticket_test_acceptance_criteria_mark_completed() {
    let mut ac = AcceptanceCriteria::new(1, "Test AC".to_string());

    assert!(!ac.completed);
    assert!(ac.completed_at.is_none());

    ac.mark_completed();

    assert!(ac.completed);
    assert!(ac.completed_at.is_some());
}

#[test]
fn ticket_test_acceptance_criteria_mark_incomplete() {
    let mut ac = AcceptanceCriteria::new(1, "Test AC".to_string());

    ac.mark_completed();
    assert!(ac.completed);
    assert!(ac.completed_at.is_some());

    ac.mark_incomplete();

    assert!(!ac.completed);
    assert!(ac.completed_at.is_none());
}

#[test]
fn ticket_test_acceptance_criteria_toggle() {
    let mut ac = AcceptanceCriteria::new(1, "Test AC".to_string());

    assert!(!ac.completed);
    assert!(ac.completed_at.is_none());

    ac.toggle();
    assert!(ac.completed);
    assert!(ac.completed_at.is_some());

    ac.toggle();
    assert!(!ac.completed);
    assert!(ac.completed_at.is_none());
}

#[test]
fn test_ticket_all_acceptance_criteria_completed() {
    let mut ticket = Ticket::new(TicketId::new(1), "Test".to_string());

    assert!(!ticket.all_acceptance_criteria_completed());

    ticket.add_acceptance_criterion("AC 1".to_string());
    ticket.add_acceptance_criterion("AC 2".to_string());

    assert!(!ticket.all_acceptance_criteria_completed());

    ticket.acceptance_criteria[0].mark_completed();
    assert!(!ticket.all_acceptance_criteria_completed());

    ticket.acceptance_criteria[1].mark_completed();
    assert!(ticket.all_acceptance_criteria_completed());
}

#[test]
fn ticket_test_set_start_date() {
    let mut ticket = Ticket::new(TicketId::new(1), "Test".to_string());
    let start = ts(Utc::now());
    assert!(ticket.set_start_date(start).is_ok());
    assert_eq!(ticket.start_date, Some(start));
}

#[test]
fn ticket_test_set_end_date() {
    let mut ticket = Ticket::new(TicketId::new(1), "Test".to_string());
    let end = ts(Utc::now());
    assert!(ticket.set_end_date(end).is_ok());
    assert_eq!(ticket.end_date, Some(end));
}

#[test]
fn ticket_test_set_date_range_valid() {
    let mut ticket = Ticket::new(TicketId::new(1), "Test".to_string());
    let now = Utc::now();
    let start = ts(now);
    let end = ts(now + chrono::Duration::days(7));
    assert!(ticket.set_date_range(start, end).is_ok());
    assert_eq!(ticket.start_date, Some(start));
    assert_eq!(ticket.end_date, Some(end));
}

#[test]
fn ticket_test_set_date_range_invalid() {
    let mut ticket = Ticket::new(TicketId::new(1), "Test".to_string());
    let now = Utc::now();
    let start = ts(now);
    let end = ts(now - chrono::Duration::days(1));
    assert!(ticket.set_date_range(start, end).is_err());
}

#[test]
fn ticket_test_set_start_date_validates_against_existing_end() {
    let mut ticket = Ticket::new(TicketId::new(1), "Test".to_string());
    let now = Utc::now();
    let end = ts(now);
    let invalid_start = ts(now + chrono::Duration::days(1));
    ticket.set_end_date(end).unwrap();
    assert!(ticket.set_start_date(invalid_start).is_err());
}

#[test]
fn ticket_test_set_end_date_validates_against_existing_start() {
    let mut ticket = Ticket::new(TicketId::new(1), "Test".to_string());
    let now = Utc::now();
    let start = ts(now);
    let invalid_end = ts(now - chrono::Duration::days(1));
    ticket.set_start_date(start).unwrap();
    assert!(ticket.set_end_date(invalid_end).is_err());
}

#[test]
fn ticket_test_set_start_date_same_as_end_date() {
    let mut ticket = Ticket::new(TicketId::new(1), "Test".to_string());
    let date = ts(Utc::now());
    ticket.set_end_date(date).unwrap();
    assert!(ticket.set_start_date(date).is_ok());
}

#[test]
fn ticket_test_clear_dates() {
    let mut ticket = Ticket::new(TicketId::new(1), "Test".to_string());
    let now = Utc::now();
    let start = ts(now);
    let end = ts(now + chrono::Duration::days(7));

    ticket.set_date_range(start, end).unwrap();
    assert!(ticket.start_date.is_some());
    assert!(ticket.end_date.is_some());

    ticket.clear_start_date();
    assert!(ticket.start_date.is_none());

    ticket.clear_end_date();
    assert!(ticket.end_date.is_none());
}

#[test]
fn id_round_trips_through_its_text() {
    for n in [1u32, 9, 10, 42, 1000, 99_999, u32::MAX] {
        let id = TicketId::new(n);
        let parsed = TicketId::parse(id.as_str()).unwrap();
        assert_eq!(parsed, id);
    }
    assert_eq!(TicketId::new(7).as_str(), "HLA7");
}

#[test]
fn id_parsing_ignores_case_and_keeps_capitals() {
    assert_eq!(TicketId::parse("hla7").unwrap().as_str(), "HLA7");
    assert_eq!(TicketId::parse("hLa7").unwrap(), TicketId::parse("HLA7").unwrap());
    assert!(TicketId::parse("HLA+5").is_err());
    assert!(TicketId::parse("hla+5").is_err());
    assert_eq!(TicketId::parse("HLA4294967295").unwrap().as_str(), "HLA4294967295");
    assert!(TicketId::parse("HLA4294967296").is_err());
    assert!(TicketId::parse("HLA-1").is_err());
    assert!(TicketId::parse("HLA+").is_err());
    assert!(TicketId::parse("XHLA1").is_err());
    match TicketId::parse("abc") {
        Err(HlaviError::InvalidTicketId(text)) => assert_eq!(text, "abc"),
        other => panic!("unexpected {:?}", other),
    }
}

#[test]
fn transitions_follow_the_workflow_table() {
    let all = [
        TicketStatus::New,
        TicketStatus::Open,
        TicketStatus::InProgress,
        TicketStatus::Pending,
        TicketStatus::Review,
        TicketStatus::Done,
        TicketStatus::Closed,
    ];
    let edges = [
        ("New", "Open"),
        ("Open", "In Progress"),
        ("Open", "Closed"),
        ("In Progress", "Pending"),
        ("In Progress", "Review"),
        ("In Progress", "Open"),
        ("Pending", "Review"),
        ("Pending", "In Progress"),
        ("Review", "Done"),
        ("Review", "In Progress"),
        ("Done", "Closed"),
        ("Done", "In Progress"),
    ];
    for a in all {
        for b in all {
            let expected = a == b || edges.contains(&(a.to_string().as_str(), b.to_string().as_str()));
            assert_eq!(a.can_transition_to(&b), expected, "{:?} -> {:?}", a, b);
            let mut ticket = Ticket::new(TicketId::new(1), "T".to_string());
            ticket.status = a;
            let result = ticket.transition_to(b, None);
            assert_eq!(result.is_ok(), expected);
            if expected {
                assert_eq!(ticket.status, b);
            } else {
                assert_eq!(ticket.status, a);
                match result {
                    Err(HlaviError::InvalidStatusTransition { from, to }) => {
                        assert_eq!(from, a.to_string());
                        assert_eq!(to, b.to_string());
                    }
                    other => panic!("unexpected {:?}", other),
                }
            }
        }
    }
}

#[test]
fn new_ticket_walks_the_workflow() {
    let mut ticket = Ticket::new(TicketId::new(1), "T".to_string());
    assert_eq!(ticket.status, TicketStatus::New);
    assert!(ticket.transition_to(TicketStatus::Done, None).is_err());
    assert!(ticket.transition_to(TicketStatus::Open, None).is_ok());
    assert!(ticket.transition_to(TicketStatus::InProgress, None).is_ok());
    assert_eq!(ticket.status, TicketStatus::InProgress);
}

#[test]
fn transition_replaces_the_rejection_reason() {
    let mut ticket = Ticket::new(TicketId::new(1), "T".to_string());
    ticket.transition_to(TicketStatus::Open, None).unwrap();
    ticket.transition_to(TicketStatus::InProgress, None).unwrap();
    ticket.transition_to(TicketStatus::Open, Some("missing tests".to_string())).unwrap();
    assert_eq!(ticket.rejection_reason.as_deref(), Some("missing tests"));
    ticket.transition_to(TicketStatus::Open, None).unwrap();
    assert_eq!(ticket.rejection_reason, None);
}

#[test]
fn status_names_for_people() {
    assert_eq!(TicketStatus::InProgress.to_string(), "In Progress");
    assert_eq!(TicketStatus::Closed.to_string(), "Closed");
}

#[test]
fn criteria_completion_and_done_check() {
    let mut ticket = Ticket::new(TicketId::new(1), "T".to_string());
    assert!(!ticket.all_acceptance_criteria_completed());
    ticket.add_acceptance_criterion("one".to_string());
    ticket.add_acceptance_criterion("two".to_string());
    ticket.acceptance_criteria[0].mark_completed();
    assert!(!ticket.all_acceptance_criteria_completed());
    ticket.acceptance_criteria[1].mark_completed();
    assert!(ticket.all_acceptance_criteria_completed());
    assert!(!ticket.can_mark_done());
    ticket.status = TicketStatus::Review;
    assert!(ticket.can_mark_done());
    ticket.acceptance_criteria[1].toggle();
    assert!(!ticket.can_mark_done());
}

#[test]
fn date_range_accepts_equal_and_rejects_reversed() {
    let mut ticket = Ticket::new(TicketId::new(1), "T".to_string());
    let a = Timestamp::new(1_700_000_000, 5);
    let b = Timestamp::new(1_700_000_000, 6);
    assert!(ticket.set_date_range(a, a).is_ok());
    assert!(ticket.set_date_range(a, b).is_ok());
    match ticket.set_date_range(b, a) {
        Err(HlaviError::InvalidDateRange { start, end }) => {
            assert_eq!(start, b);
            assert_eq!(end, a);
        }
        other => panic!("unexpected {:?}", other),
    }
    assert_eq!(ticket.start_date, Some(a));
    assert_eq!(ticket.end_date, Some(b));
}

#[test]
fn criteria_numbers_are_not_reused_after_removal() {
    let mut ticket = Ticket::new(TicketId::new(1), "T".to_string());
    ticket.add_acceptance_criterion("first".to_string());
    ticket.add_acceptance_criterion("second".to_string());
    ticket.add_acceptance_criterion("third".to_string());
    ticket.remove_acceptance_criterion("2").unwrap();
    let ids: Vec<usize> = ticket.acceptance_criteria.iter().map(|c| c.id).collect();
    assert_eq!(ids, vec![1, 3]);
    ticket.remove_acceptance_criterion("third").unwrap();
    assert_eq!(ticket.acceptance_criteria.len(), 1);
    assert_eq!(ticket.acceptance_criteria[0].description, "first");
    assert!(matches!(
        ticket.remove_acceptance_criterion("nothing"),
        Err(HlaviError::AcceptanceCriteriaNotFound)
    ));
    assert!(matches!(
        ticket.remove_acceptance_criterion("5"),
        Err(HlaviError::AcceptanceCriteriaNotFound)
    ));
    ticket.remove_acceptance_criterion("1").unwrap();
    assert!(ticket.acceptance_criteria.is_empty());
}

#[test]
fn removal_by_description_takes_the_first_match() {
    let mut ticket = Ticket::new(TicketId::new(1), "T".to_string());
    ticket.add_acceptance_criterion("same".to_string());
    ticket.add_acceptance_criterion("same".to_string());
    ticket.add_acceptance_criterion("7".to_string());
    ticket.remove_acceptance_criterion("same").unwrap();
    assert_eq!(ticket.acceptance_criteria[0].id, 2);
    ticket.remove_acceptance_criterion("7").unwrap();
    assert_eq!(ticket.acceptance_criteria.len(), 1);
}

fn later_than(a: Timestamp, b: Timestamp) -> bool {
    (a.seconds, a.nanos) > (b.seconds, b.nanos)
}

fn wait_millis(ms: i64) {
    let start = Utc::now();
    while Utc::now() < start + chrono::Duration::milliseconds(ms) {
        std::hint::spin_loop();
    }
}

#[test]
fn ticket_test_date_setters_update_updated_at() {
    let mut ticket = Ticket::new(TicketId::new(1), "Test".to_string());
    let initial_updated_at = ticket.updated_at;

    wait_millis(10);
    ticket.set_start_date(ts(Utc::now())).unwrap();
    assert!(later_than(ticket.updated_at, initial_updated_at));
}
