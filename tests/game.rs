use terminalclustering::game::{game_step, AnalysisResponse, AnalysisResponseRootInfo, GameState, Stone};
use terminalclustering::policy::{AnalysisResponseMoveInfo, PolicyError};

fn response(id: u64, player: &str, moves: &[(&str, i32, i32)]) -> AnalysisResponse {
    AnalysisResponse {
        id: id.to_string(),
        root_info: AnalysisResponseRootInfo { current_player: player.to_string() },
        move_infos: moves
            .iter()
            .map(|(m, u, s)| AnalysisResponseMoveInfo { mov: m.to_string(), utility: *u, score_lead: *s })
            .collect(),
    }
}

/// Runs a game against `engine`, which answers the n-th call; returns the
/// final history and the number of calls.
fn run(initial: Vec<Stone>, mut engine: impl FnMut(usize) -> AnalysisResponse) -> (Vec<Stone>, usize) {
    let mut history = initial;
    let mut calls = 0;
    loop {
        let resp = engine(calls);
        calls += 1;
        match game_step(history, &resp, 0).unwrap() {
            GameState::Finished(h) => return (h, calls),
            GameState::Playing(h) => history = h,
        }
        assert!(calls < 100);
    }
}

#[test]
fn pass_engine_ends_after_one_call() {
    let (h, calls) = run(vec![], |n| response(n as u64 + 1, "B", &[("pass", 0, 0)]));
    assert_eq!(calls, 1);
    assert!(h.is_empty());
}

#[test]
fn three_moves_then_pass() {
    let (h, calls) = run(vec![], |n| {
        let player = if n % 2 == 0 { "B" } else { "W" };
        if n < 3 {
            response(n as u64 + 1, player, &[("Q16", 0, 0)])
        } else {
            response(n as u64 + 1, player, &[("pass", 0, 0)])
        }
    });
    assert_eq!(calls, 4);
    assert_eq!(
        h,
        vec![
            ("B".to_string(), "Q16".to_string()),
            ("W".to_string(), "Q16".to_string()),
            ("B".to_string(), "Q16".to_string()),
        ]
    );
}

#[test]
fn starting_history_is_kept() {
    let start = vec![("B".to_string(), "D4".to_string())];
    let (h, calls) = run(start.clone(), |_| response(1, "W", &[("pass", 10, 0), ("C3", 5, 0)]));
    assert_eq!(calls, 1);
    assert_eq!(h, start);
}

#[test]
fn empty_evaluations_fail_the_game() {
    let r = game_step(vec![], &response(1, "B", &[]), 0);
    assert!(matches!(r, Err(PolicyError::NoMoves)));
}
