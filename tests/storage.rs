use hlavi_core::storage::{
    is_initialized, require_board_file, require_ticket_file, search_tickets,
    ticket_ids_from_file_names, ticket_matches_query,
};
use hlavi_core::{FileStorage, HlaviError, InitStep, SqliteStorage, Ticket, TicketId};

fn names(list: &[&str]) -> Vec<String> {
    list.iter().map(|s| s.to_string()).collect()
}

#[test]
fn search_finds_a_criterion_description() {
    let mut ticket = Ticket::new(TicketId::new(1), "Test Ticket".to_string());
    ticket.add_acceptance_criterion("User can login".to_string());
    let other = Ticket::new(TicketId::new(2), "Other".to_string());
    let results = search_tickets(vec![ticket, other], "login");
    assert_eq!(results.len(), 1);
    assert_eq!(results[0].id.as_str(), "HLA1");
}

#[test]
fn search_matches_title_description_and_ignores_case() {
    let t1 = Ticket::new(TicketId::new(1), "First Task".to_string());
    let t2 = Ticket::new(TicketId::new(2), "Second Task".to_string());
    let mut t3 = Ticket::new(TicketId::new(3), "Third Item".to_string());
    t3.set_description("This is a detailed description".to_string());
    let all = vec![t1, t2, t3];
    assert!(ticket_matches_query(&all[0], "FiRsT"));
    assert!(!ticket_matches_query(&all[0], "second"));
    assert!(ticket_matches_query(&all[2], "DETAILED"));
    let results = search_tickets(all, "task");
    let ids: Vec<&str> = results.iter().map(|t| t.id.as_str()).collect();
    assert_eq!(ids, vec!["HLA1", "HLA2"]);
}

#[test]
fn search_over_nothing_finds_nothing() {
    assert!(search_tickets(Vec::new(), "anything").is_empty());
    let t = Ticket::new(TicketId::new(1), "Test Ticket".to_string());
    assert!(search_tickets(vec![t], "nonexistent").is_empty());
}

#[test]
fn missing_ticket_file_is_not_found() {
    let id = TicketId::new(9);
    match require_ticket_file(&id, false) {
        Err(HlaviError::TicketNotFound(text)) => assert_eq!(text, "HLA9"),
        other => panic!("unexpected {:?}", other),
    }
    assert!(require_ticket_file(&id, true).is_ok());
}

#[test]
fn missing_board_file_means_not_initialized() {
    assert!(matches!(
        require_board_file(false),
        Err(HlaviError::BoardNotInitialized)
    ));
    assert!(require_board_file(true).is_ok());
    assert!(is_initialized(true, true));
    assert!(!is_initialized(true, false));
    assert!(!is_initialized(false, true));
}

#[test]
fn listing_keeps_identifier_files_in_text_order() {
    let files = names(&[
        "HLA2.json",
        "notes.txt",
        "hla10.json",
        "HLA1.json",
        "HLAx.json",
        ".json",
        "HLA3.JSON",
        "HLA3",
    ]);
    let ids = ticket_ids_from_file_names(&files);
    let texts: Vec<&str> = ids.iter().map(|i| i.as_str()).collect();
    assert_eq!(texts, vec!["HLA1", "HLA10", "HLA2"]);
    assert!(ticket_ids_from_file_names(&Vec::new()).is_empty());
}

#[test]
fn record_paths_sit_below_the_project_directory() {
    let storage = FileStorage::new("/tmp/project");
    assert_eq!(storage.root_path(), "/tmp/project/.hlavi");
    assert_eq!(storage.tickets_dir(), "/tmp/project/.hlavi/tickets");
    assert_eq!(storage.board_file(), "/tmp/project/.hlavi/board.json");
    assert_eq!(
        storage.ticket_file(&TicketId::new(4)),
        "/tmp/project/.hlavi/tickets/HLA4.json"
    );
    assert_eq!(FileStorage::new("work/").root_path(), "work/.hlavi");
    assert_eq!(FileStorage::new("").root_path(), ".hlavi");
}

#[test]
fn setting_up_creates_only_what_is_missing() {
    let storage = FileStorage::new("p");
    let steps = storage.initialization_steps(false, false, false, false);
    assert_eq!(steps.len(), 4);
    assert!(matches!(&steps[0], InitStep::CreateDir(p) if p == "p/.hlavi"));
    assert!(matches!(&steps[1], InitStep::CreateDir(p) if p == "p/.hlavi/tickets"));
    assert!(matches!(&steps[2], InitStep::WriteDefaultBoard(p) if p == "p/.hlavi/board.json"));
    assert!(matches!(&steps[3], InitStep::WriteFile(p, t)
        if p == "p/.hlavi/.gitignore" && t == "# Local caches\n*.db\n*.db-*\n"));
    assert!(storage.initialization_steps(true, true, true, true).is_empty());
    let steps = storage.initialization_steps(true, true, false, true);
    assert_eq!(steps.len(), 1);
    assert!(matches!(&steps[0], InitStep::WriteDefaultBoard(_)));
}

#[test]
fn database_backend_is_unavailable() {
    match SqliteStorage::new("db.sqlite") {
        Err(HlaviError::StorageError(m)) => assert_eq!(m, "SQLite storage not yet implemented"),
        _ => panic!("expected a storage error"),
    }
}
