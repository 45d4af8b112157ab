use terminalclustering::client::{submit, SubmitError};
use terminalclustering::correlation::PendingTable;
use terminalclustering::protocol::request_line;

#[test]
fn request_line_for_an_empty_history() {
    assert_eq!(
        request_line(1, &vec![]),
        "{\"id\":\"1\",\"initialStones\":[],\"moves\":[],\"rules\":\"tromp-taylor\",\"komi\":7.5,\"boardXSize\":19,\"boardYSize\":19}\n"
    );
}

#[test]
fn request_line_lists_the_moves() {
    let stones = vec![("B".to_string(), "Q16".to_string()), ("W".to_string(), "D4".to_string())];
    assert_eq!(
        request_line(42, &stones),
        "{\"id\":\"42\",\"initialStones\":[],\"moves\":[[\"B\",\"Q16\"],[\"W\",\"D4\"]],\"rules\":\"tromp-taylor\",\"komi\":7.5,\"boardXSize\":19,\"boardYSize\":19}\n"
    );
}

#[test]
fn request_line_escapes_strings() {
    let stones = vec![("B".to_string(), "a\"b".to_string())];
    let line = request_line(3, &stones);
    assert!(line.contains("[\"B\",\"a\\\"b\"]"));
}

#[test]
fn submit_registers_and_encodes() {
    let mut t: PendingTable<&str> = PendingTable::new();
    let (id, line) = submit(&mut t, "first", &vec![]).unwrap();
    assert_eq!(id, 1);
    assert!(line.starts_with("{\"id\":\"1\","));
    let (id2, line2) = submit(&mut t, "second", &vec![("B".to_string(), "D4".to_string())]).unwrap();
    assert_eq!(id2, 2);
    assert!(line2.contains("\"moves\":[[\"B\",\"D4\"]]"));
    assert_eq!(t.len(), 2);
    assert_eq!(t.complete("1"), Some("first"));
}

#[test]
fn submit_fails_once_the_engine_is_gone() {
    let mut t: PendingTable<&str> = PendingTable::new();
    submit(&mut t, "waiting", &vec![]).unwrap();
    assert_eq!(t.close(), vec!["waiting"]);
    assert_eq!(submit(&mut t, "late", &vec![]), Err(SubmitError::EngineUnavailable));
    assert_eq!(t.len(), 0);
}

#[test]
fn request_line_has_one_newline_at_its_end() {
    let stones = vec![("B".to_string(), "x\ny".to_string())];
    let line = request_line(5, &stones);
    assert!(line.ends_with('\n'));
    assert_eq!(line.matches('\n').count(), 1);
    assert!(line.contains("\"x\\ny\""));
}

#[test]
fn request_line_escapes_control_characters() {
    let stones = vec![("B".to_string(), "\u{1}\\\t\u{1f}é".to_string())];
    let line = request_line(6, &stones);
    assert!(line.contains("[\"B\",\"\\u0001\\\\\\t\\u001fé\"]"));
}
