use terminalclustering::policy::{best_index, candidates, pick_move, plan_selection, AnalysisResponseMoveInfo, PolicyError, Selection};

fn ev(mov: &str, utility: i32, score_lead: i32) -> AnalysisResponseMoveInfo {
    AnalysisResponseMoveInfo { mov: mov.to_string(), utility, score_lead }
}

#[test]
fn empty_list_fails() {
    assert_eq!(pick_move(&vec![], 0), Err(PolicyError::NoMoves));
    assert!(matches!(plan_selection(&vec![]), Err(PolicyError::NoMoves)));
}

#[test]
fn best_pass_is_returned_whatever_the_draw() {
    let moves = vec![ev("D4", 100, 2000), ev("pass", 300, 1000), ev("Q16", 200, 3000)];
    for draw in 0..5 {
        assert_eq!(pick_move(&moves, draw), Ok(1));
    }
    assert!(matches!(plan_selection(&moves), Ok(Selection::Decided(1))));
}

#[test]
fn best_is_the_last_of_equal_utilities() {
    let moves = vec![ev("D4", 300, 0), ev("Q16", 300, 0), ev("C3", 100, 0)];
    assert_eq!(best_index(&moves), Some(1));
}

#[test]
fn candidates_stay_near_the_best_score() {
    // Best is Q16 (utility 500, lead 2000). D4 is 0.4 points behind: kept.
    // C3 is 0.5 points behind: dropped. A pass is never a candidate.
    let moves = vec![ev("D4", 400, 1600), ev("Q16", 500, 2000), ev("C3", 450, 1500), ev("pass", 100, 2500), ev("K10", -200, 9000)];
    let c = candidates(&moves, 1);
    assert_eq!(c, vec![(0, -100), (1, 0), (4, -700)]);
    assert_eq!(pick_move(&moves, 0), Ok(0));
    assert_eq!(pick_move(&moves, 1), Ok(1));
    assert_eq!(pick_move(&moves, 2), Ok(4));
    assert_eq!(pick_move(&moves, 3), Ok(1));
    match plan_selection(&moves) {
        Ok(Selection::Sample(v)) => assert_eq!(v, c),
        _ => panic!("expected a draw among candidates"),
    }
}

#[test]
fn selection_is_always_a_member() {
    let moves = vec![ev("D4", 400, 1600), ev("Q16", 500, 2000), ev("pass", 100, 2500)];
    for draw in 0..10 {
        let i = pick_move(&moves, draw).unwrap();
        assert!(i < moves.len());
        assert_ne!(moves[i].mov, "pass");
    }
}
