use tds::remote::GitLabOrigin;
use tds::remote::RemoteToDoAPI;
use tds::timefmt::get_str_by_time;
use tds::timefmt::get_todo_due_str;
use tds::timefmt::parse_due_offset;
use tds::todo::make_todo_display;
use tds::todo::ToDoState;

#[test]
fn test_time_span_strings() {
    assert_eq!(get_str_by_time(0, 3599), "<1 h");
    assert_eq!(get_str_by_time(0, 7200), "2 h");
    assert_eq!(get_str_by_time(0, 3 * 86400 + 5), "3 d");
    assert_eq!(get_str_by_time(0, 2 * 604800), "2 w");
    // the order of the two moments does not matter
    assert_eq!(get_str_by_time(7200, 0), "2 h");
    assert_eq!(get_str_by_time(1000, 1000), "<1 h");
}

#[test]
fn test_due_strings() {
    assert_eq!(get_todo_due_str(None, 500), "-");
    assert_eq!(get_todo_due_str(Some(499), 500), "TIMEOUT");
    assert_eq!(get_todo_due_str(Some(500 + 7200), 500), "2 h");
}

#[test]
fn test_parse_due_offset() {
    let month = 30 * 86400;
    let year = 365 * 86400;
    assert_eq!(parse_due_offset("12h", month, year), Some(12 * 3600));
    assert_eq!(parse_due_offset("2 days", month, year), Some(2 * 86400));
    assert_eq!(parse_due_offset("3w", month, year), Some(3 * 604800));
    assert_eq!(parse_due_offset("1M", month, year), Some(month));
    assert_eq!(parse_due_offset("2y", month, year), Some(2 * year));
    assert_eq!(parse_due_offset("xyz", month, year), None);
    assert_eq!(parse_due_offset("12", month, year), None);
    assert_eq!(parse_due_offset("h", month, year), None);
    assert_eq!(parse_due_offset("12q", month, year), None);
    assert_eq!(parse_due_offset("", month, year), None);
    // a unit that amounts to nothing gives no offset
    assert_eq!(parse_due_offset("5y", month, 0), None);
    // too many digits for the count
    assert_eq!(parse_due_offset("99999999999h", month, year), None);
}

#[test]
fn test_todo_state_codes() {
    assert_eq!(ToDoState::from_code(0), ToDoState::NextUp);
    assert_eq!(ToDoState::from_code(3), ToDoState::Completed);
    assert_eq!(ToDoState::from_code(9), ToDoState::Unknown);
    assert_eq!(ToDoState::NextUp.code(), Some(0));
    assert_eq!(ToDoState::Closed.code(), Some(4));
    assert_eq!(ToDoState::Unknown.code(), None);
}

#[test]
fn test_todo_state_names() {
    // names are compared case-insensitively
    assert_eq!(ToDoState::from_name("N"), ToDoState::NextUp);
    assert_eq!(ToDoState::from_name("next"), ToDoState::NextUp);
    assert_eq!(ToDoState::from_name("COMPLETE"), ToDoState::Completed);
    assert_eq!(ToDoState::from_name("cl"), ToDoState::Closed);
    assert_eq!(ToDoState::from_name("review"), ToDoState::Review);
    assert_eq!(ToDoState::from_name("bogus"), ToDoState::Unknown);
    assert_eq!(ToDoState::InProgress.display_name(), "In Progress");
    assert_eq!(ToDoState::NextUp.display_name(), "Next Up");
}

#[test]
fn test_remote_api_selection() {
    assert_eq!(RemoteToDoAPI::new("gitlab"), RemoteToDoAPI::GitLab);
    assert_eq!(RemoteToDoAPI::new("gl"), RemoteToDoAPI::GitLab);
    assert_eq!(RemoteToDoAPI::new("gh"), RemoteToDoAPI::GitHub);
    assert_eq!(RemoteToDoAPI::new("github"), RemoteToDoAPI::GitHub);
    assert_eq!(RemoteToDoAPI::new("anything"), RemoteToDoAPI::GitLab);
    let origin = GitLabOrigin::new("gitlab.com".to_string(), "token".to_string());
    assert_eq!(origin.domain, "gitlab.com");
}

#[test]
fn test_make_todo_display() {
    let row = make_todo_display(
        36,
        "jog".to_string(),
        None,
        0,
        7200,
        ToDoState::NextUp,
    );
    assert_eq!(row.id, "10");
    assert_eq!(row.title, "jog");
    assert_eq!(row.due, "-");
    assert_eq!(row.run, "2 h");
    assert_eq!(row.state, ToDoState::NextUp);
}
