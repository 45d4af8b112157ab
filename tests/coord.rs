use terminalclustering::coord::{move_to_string, string_to_move, BoardMove};
use terminalclustering::record::{move_to_point, record_moves, RecordError};

#[test]
fn test_move_string_conversions() {
    for x in 0..19u8 {
        for y in 0..19u8 {
            let mv = BoardMove::Play { x, y };
            assert_eq!(Some(mv), string_to_move(&move_to_string(&mv)));
        }
    }
}

#[test]
fn pass_round_trips() {
    assert_eq!(move_to_string(&BoardMove::Pass), "pass");
    assert_eq!(string_to_move("pass"), Some(BoardMove::Pass));
}

#[test]
fn coordinate_texts() {
    assert_eq!(move_to_string(&BoardMove::Play { x: 0, y: 0 }), "A1");
    assert_eq!(move_to_string(&BoardMove::Play { x: 8, y: 9 }), "J10");
    assert_eq!(move_to_string(&BoardMove::Play { x: 15, y: 15 }), "Q16");
    assert_eq!(move_to_string(&BoardMove::Play { x: 18, y: 18 }), "T19");
}

#[test]
fn malformed_coordinates_are_refused() {
    for s in ["", "I5", "A0", "A20", "A01", "a1", "Z3", "PASS", "A", "A1x", "pas"] {
        assert_eq!(string_to_move(s), None, "{s}");
    }
}

#[test]
fn record_points() {
    assert_eq!(move_to_point(&BoardMove::Pass), "");
    assert_eq!(move_to_point(&BoardMove::Play { x: 0, y: 0 }), "aa");
    assert_eq!(move_to_point(&BoardMove::Play { x: 15, y: 3 }), "pd");
}

#[test]
fn record_moves_of_a_history() {
    let stones = vec![
        ("B".to_string(), "Q16".to_string()),
        ("W".to_string(), "D4".to_string()),
        ("B".to_string(), "pass".to_string()),
    ];
    let out = record_moves(&stones).unwrap();
    assert_eq!(
        out,
        vec![
            ("B".to_string(), "pp".to_string()),
            ("W".to_string(), "dd".to_string()),
            ("B".to_string(), "".to_string()),
        ]
    );
}

#[test]
fn record_moves_errors() {
    assert_eq!(record_moves(&vec![]), Err(RecordError::EmptyGame));
    let stones = vec![("B".to_string(), "Q16".to_string()), ("W".to_string(), "Z9".to_string())];
    assert_eq!(record_moves(&stones), Err(RecordError::BadMove(1)));
}
