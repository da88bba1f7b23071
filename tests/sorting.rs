use hlavi_core::sorting::{compare_ac_progress, compare_option_dates, compare_status};
use hlavi_core::{sort_tickets, SortField, SortOrder, Ticket, TicketId, TicketStatus, Timestamp};
use std::cmp::Ordering;
use std::str::FromStr;

fn ts(d: chrono::DateTime<chrono::Utc>) -> Timestamp {
    Timestamp::new(d.timestamp(), d.timestamp_subsec_nanos())
}

#[test]
fn test_sort_tickets_by_id_ascending() {
    let mut tickets = vec![
        Ticket::new(TicketId::new(3), "C".to_string()),
        Ticket::new(TicketId::new(1), "A".to_string()),
        Ticket::new(TicketId::new(2), "B".to_string()),
    ];

    sort_tickets(&mut tickets, SortField::Id, SortOrder::Ascending);

    assert_eq!(tickets[0].id.as_str(), "HLA1");
    assert_eq!(tickets[1].id.as_str(), "HLA2");
    assert_eq!(tickets[2].id.as_str(), "HLA3");
}

#[test]
fn test_sort_tickets_by_id_descending() {
    let mut tickets = vec![
        Ticket::new(TicketId::new(1), "A".to_string()),
        Ticket::new(TicketId::new(2), "B".to_string()),
        Ticket::new(TicketId::new(3), "C".to_string()),
    ];

    sort_tickets(&mut tickets, SortField::Id, SortOrder::Descending);

    assert_eq!(tickets[0].id.as_str(), "HLA3");
    assert_eq!(tickets[1].id.as_str(), "HLA2");
    assert_eq!(tickets[2].id.as_str(), "HLA1");
}

#[test]
fn test_sort_tickets_by_title() {
    let mut tickets = vec![
        Ticket::new(TicketId::new(1), "Charlie".to_string()),
        Ticket::new(TicketId::new(2), "Alpha".to_string()),
        Ticket::new(TicketId::new(3), "Bravo".to_string()),
    ];

    sort_tickets(&mut tickets, SortField::Title, SortOrder::Ascending);

    assert_eq!(tickets[0].title, "Alpha");
    assert_eq!(tickets[1].title, "Bravo");
    assert_eq!(tickets[2].title, "Charlie");
}

#[test]
fn test_sort_tickets_by_title_descending() {
    let mut tickets = vec![
        Ticket::new(TicketId::new(1), "Alpha".to_string()),
        Ticket::new(TicketId::new(2), "Charlie".to_string()),
        Ticket::new(TicketId::new(3), "Bravo".to_string()),
    ];

    sort_tickets(&mut tickets, SortField::Title, SortOrder::Descending);

    assert_eq!(tickets[0].title, "Charlie");
    assert_eq!(tickets[1].title, "Bravo");
    assert_eq!(tickets[2].title, "Alpha");
}

#[test]
fn test_sort_tickets_by_title_case_insensitive() {
    let mut tickets = vec![
        Ticket::new(TicketId::new(1), "zebra".to_string()),
        Ticket::new(TicketId::new(2), "Apple".to_string()),
        Ticket::new(TicketId::new(3), "BANANA".to_string()),
    ];

    sort_tickets(&mut tickets, SortField::Title, SortOrder::Ascending);

    assert_eq!(tickets[0].title, "Apple");
    assert_eq!(tickets[1].title, "BANANA");
    assert_eq!(tickets[2].title, "zebra");
}

#[test]
fn test_compare_status_ordering() {
    let new = TicketStatus::New;
    let open = TicketStatus::Open;
    let in_progress = TicketStatus::InProgress;
    let done = TicketStatus::Done;
    let closed = TicketStatus::Closed;

    assert_eq!(compare_status(&new, &open), Ordering::Less);
    assert_eq!(compare_status(&open, &in_progress), Ordering::Less);
    assert_eq!(compare_status(&done, &new), Ordering::Greater);
    assert_eq!(compare_status(&closed, &done), Ordering::Greater);
    assert_eq!(compare_status(&new, &new), Ordering::Equal);
}

#[test]
fn test_compare_option_dates() {
    let now = chrono::Utc::now();
    let later = ts(now + chrono::Duration::days(1));
    let now = ts(now);

    assert_eq!(compare_option_dates(Some(now), Some(later)), Ordering::Less);
    assert_eq!(
        compare_option_dates(Some(later), Some(now)),
        Ordering::Greater
    );

    assert_eq!(compare_option_dates(Some(now), None), Ordering::Less);
    assert_eq!(compare_option_dates(None, Some(now)), Ordering::Greater);

    assert_eq!(compare_option_dates(None, None), Ordering::Equal);
}

#[test]
fn test_compare_ac_progress() {
    let mut ticket1 = Ticket::new(TicketId::new(1), "Ticket 1".to_string());
    let mut ticket2 = Ticket::new(TicketId::new(2), "Ticket 2".to_string());
    let ticket3 = Ticket::new(TicketId::new(3), "Ticket 3".to_string());

    ticket1.add_acceptance_criterion("AC1".to_string());
    ticket1.add_acceptance_criterion("AC2".to_string());
    ticket1.acceptance_criteria[0].mark_completed();

    ticket2.add_acceptance_criterion("AC1".to_string());
    ticket2.acceptance_criteria[0].mark_completed();

    assert_eq!(compare_ac_progress(&ticket3, &ticket1), Ordering::Less);
    assert_eq!(compare_ac_progress(&ticket1, &ticket2), Ordering::Less);
    assert_eq!(compare_ac_progress(&ticket2, &ticket1), Ordering::Greater);
}

#[test]
fn test_sort_by_ac_count() {
    let mut ticket1 = Ticket::new(TicketId::new(1), "Ticket 1".to_string());
    let mut ticket2 = Ticket::new(TicketId::new(2), "Ticket 2".to_string());
    let ticket3 = Ticket::new(TicketId::new(3), "Ticket 3".to_string());

    ticket1.add_acceptance_criterion("AC1".to_string());
    ticket1.add_acceptance_criterion("AC2".to_string());
    ticket1.add_acceptance_criterion("AC3".to_string());

    ticket2.add_acceptance_criterion("AC1".to_string());

    let mut tickets = vec![ticket1, ticket2, ticket3];

    sort_tickets(&mut tickets, SortField::AcCount, SortOrder::Ascending);

    assert_eq!(tickets[0].acceptance_criteria.len(), 0);
    assert_eq!(tickets[1].acceptance_criteria.len(), 1);
    assert_eq!(tickets[2].acceptance_criteria.len(), 3);
}

#[test]
fn test_sort_by_dates_with_none_values() {
    let mut ticket1 = Ticket::new(TicketId::new(1), "Has both dates".to_string());
    let mut ticket2 = Ticket::new(TicketId::new(2), "Has start only".to_string());
    let ticket3 = Ticket::new(TicketId::new(3), "Has no dates".to_string());

    let early = chrono::Utc::now();
    let early_date = ts(early);
    let later_date = ts(early + chrono::Duration::days(5));

    ticket1
        .set_date_range(early_date, later_date)
        .expect("Failed to set dates");
    ticket2
        .set_start_date(later_date)
        .expect("Failed to set start date");

    let mut tickets = vec![ticket3.clone(), ticket2.clone(), ticket1.clone()];

    sort_tickets(&mut tickets, SortField::Start, SortOrder::Ascending);

    assert!(tickets[0].start_date.is_some());
    assert!(tickets[1].start_date.is_some());
    assert!(tickets[2].start_date.is_none());
}

#[test]
fn ids_sort_as_text_not_as_numbers() {
    let mut tickets = vec![
        Ticket::new(TicketId::new(2), "b".to_string()),
        Ticket::new(TicketId::new(10), "a".to_string()),
    ];
    sort_tickets(&mut tickets, SortField::Id, SortOrder::Ascending);
    assert_eq!(tickets[0].id.as_str(), "HLA10");
    assert_eq!(tickets[1].id.as_str(), "HLA2");
}

#[test]
fn equal_keys_keep_their_order() {
    let mut tickets = vec![
        Ticket::new(TicketId::new(1), "same".to_string()),
        Ticket::new(TicketId::new(2), "SAME".to_string()),
        Ticket::new(TicketId::new(3), "Same".to_string()),
    ];
    sort_tickets(&mut tickets, SortField::Title, SortOrder::Ascending);
    let order: Vec<&str> = tickets.iter().map(|t| t.id.as_str()).collect();
    assert_eq!(order, vec!["HLA1", "HLA2", "HLA3"]);
}

#[test]
fn sort_by_status_follows_the_workflow() {
    let mut a = Ticket::new(TicketId::new(1), "a".to_string());
    a.status = TicketStatus::Done;
    let mut b = Ticket::new(TicketId::new(2), "b".to_string());
    b.status = TicketStatus::Open;
    let c = Ticket::new(TicketId::new(3), "c".to_string());
    let mut tickets = vec![a, b, c];
    sort_tickets(&mut tickets, SortField::Status, SortOrder::Descending);
    let statuses: Vec<TicketStatus> = tickets.iter().map(|t| t.status).collect();
    assert_eq!(
        statuses,
        vec![TicketStatus::Done, TicketStatus::Open, TicketStatus::New]
    );
}

#[test]
fn progress_compares_exactly() {
    let mut two_of_three = Ticket::new(TicketId::new(1), "a".to_string());
    for d in ["x", "y", "z"] {
        two_of_three.add_acceptance_criterion(d.to_string());
    }
    two_of_three.acceptance_criteria[0].mark_completed();
    two_of_three.acceptance_criteria[1].mark_completed();
    let mut four_of_six = Ticket::new(TicketId::new(2), "b".to_string());
    for d in ["1", "2", "3", "4", "5", "6"] {
        four_of_six.add_acceptance_criterion(d.to_string());
    }
    for i in 0..4 {
        four_of_six.acceptance_criteria[i].mark_completed();
    }
    assert_eq!(compare_ac_progress(&two_of_three, &four_of_six), Ordering::Equal);
}

#[test]
fn sort_names_are_read_ignoring_case() {
    assert_eq!(SortField::from_str("AC-Progress"), Ok(SortField::AcProgress));
    assert_eq!(SortField::from_str("id"), Ok(SortField::Id));
    assert_eq!(SortOrder::from_str("DESC"), Ok(SortOrder::Descending));
    assert_eq!(
        SortField::from_str("size"),
        Err("Invalid sort field 'size'. Valid fields: id, title, status, created, updated, start, end, ac-progress, ac-count".to_string())
    );
    assert_eq!(
        SortOrder::from_str("Up"),
        Err("Invalid sort order 'Up'. Valid orders: asc, desc".to_string())
    );
}

#[test]
fn undated_tickets_come_last_in_both_directions() {
    let mut early = Ticket::new(TicketId::new(1), "early".to_string());
    early.set_start_date(Timestamp::new(1_000, 0)).unwrap();
    let mut late = Ticket::new(TicketId::new(2), "late".to_string());
    late.set_start_date(Timestamp::new(2_000, 0)).unwrap();
    let undated = Ticket::new(TicketId::new(3), "none".to_string());

    let mut tickets = vec![undated.clone(), early.clone(), late.clone()];
    sort_tickets(&mut tickets, SortField::Start, SortOrder::Descending);
    let order: Vec<&str> = tickets.iter().map(|t| t.title.as_str()).collect();
    assert_eq!(order, vec!["late", "early", "none"]);

    let mut tickets = vec![undated, late, early];
    sort_tickets(&mut tickets, SortField::Start, SortOrder::Ascending);
    let order: Vec<&str> = tickets.iter().map(|t| t.title.as_str()).collect();
    assert_eq!(order, vec!["early", "late", "none"]);
}
