//! Move selection: explore among the moves that stay close to the best one.
//!
//! Utilities and score leads are held in thousandths. The random draw among
//! the candidates is made by the caller from the weights that
//! `plan_selection` describes, and handed to `pick_move`.
use vstd::prelude::*;
use crate::coord::pass_text;

verus! {

/// How far (in thousandths of a point) a candidate's score lead may fall
/// below the best move's and still be considered.
pub const SCORE_LEAD_CUTOFF: i64 = 500;

/// The engine's evaluation of one candidate move.
#[derive(Debug)]
pub struct AnalysisResponseMoveInfo {
    /// A board coordinate or `pass`.
    pub mov: String,
    /// Desirability for the side to move, in thousandths.
    pub utility: i32,
    /// Estimated point lead for the side to move, in thousandths of a point.
    pub score_lead: i32,
}

/// Why no move could be selected.
#[derive(Clone, Copy, Debug, PartialEq, Eq, Structural)]
pub enum PolicyError {
    /// The evaluation list was empty.
    NoMoves,
}

/// How the move is to be chosen.
#[derive(Debug)]
pub enum Selection {
    /// The move at this index, with no draw.
    Decided(usize),
    /// A weighted draw among the listed evaluations: each entry holds an
    /// index and its utility gap to the best move (in thousandths, never
    /// positive); its weight is the natural exponential of the gap.
    Sample(Vec<(usize, i64)>),
}

/// `i` is the best move: no utility exceeds its own, and it is the last
/// of those that reach it.
pub open spec fn is_best(moves: Seq<AnalysisResponseMoveInfo>, i: int) -> bool {
    &&& 0 <= i < moves.len()
    &&& forall|j: int| 0 <= j < moves.len() ==> #[trigger] moves[j].utility <= moves[i].utility
    &&& forall|j: int| i < j < moves.len() ==> #[trigger] moves[j].utility < moves[i].utility
}

/// The move at `j` is no pass and its score lead is within the cutoff of
/// that of the move at `best`.
pub open spec fn is_candidate(moves: Seq<AnalysisResponseMoveInfo>, best: int, j: int) -> bool {
    &&& 0 <= j < moves.len()
    &&& moves[j].mov@ != pass_text()
    &&& moves[best].score_lead - moves[j].score_lead < SCORE_LEAD_CUTOFF
}

/// The candidates among the first `n` moves, in increasing order.
pub open spec fn candidates_before(moves: Seq<AnalysisResponseMoveInfo>, best: int, n: int) -> Seq<int>
    decreases n,
{
    if n <= 0 {
        seq![]
    } else {
        let prev = candidates_before(moves, best, n - 1);
        if is_candidate(moves, best, n - 1) {
            prev.push(n - 1)
        } else {
            prev
        }
    }
}

/// All candidates relative to the move at `best`, in increasing order.
pub open spec fn candidate_list(moves: Seq<AnalysisResponseMoveInfo>, best: int) -> Seq<int> {
    candidates_before(moves, best, moves.len() as int)
}

/// The index that the policy selects for the draw `draw`, given the best
/// move `best`: the best move when it is a pass or when `draw` falls outside
/// the candidate list; else the candidate at position `draw`.
pub open spec fn selected_index(moves: Seq<AnalysisResponseMoveInfo>, best: int, draw: int) -> int {
    let c = candidate_list(moves, best);
    if moves[best].mov@ == pass_text() || !(0 <= draw < c.len()) {
        best
    } else {
        c[draw]
    }
}

/// Every entry of the candidate list is a candidate below `n`.
pub proof fn lemma_candidates_before(moves: Seq<AnalysisResponseMoveInfo>, best: int, n: int)
    ensures
        forall|k: int| 0 <= k < candidates_before(moves, best, n).len() ==>
            is_candidate(moves, best, #[trigger] candidates_before(moves, best, n)[k])
            && candidates_before(moves, best, n)[k] < n,
    decreases n,
{
    if n > 0 {
        lemma_candidates_before(moves, best, n - 1);
        let prev = candidates_before(moves, best, n - 1);
        let cur = candidates_before(moves, best, n);
        assert forall|k: int| 0 <= k < cur.len() implies is_candidate(moves, best, #[trigger] cur[k]) && cur[k] < n by {
            if k < prev.len() {
                assert(cur[k] == prev[k]);
            }
        }
    }
}

/// There is at most one best move.
pub proof fn lemma_best_unique(moves: Seq<AnalysisResponseMoveInfo>, a: int, b: int)
    requires
        is_best(moves, a),
        is_best(moves, b),
    ensures
        a == b,
{
    if a < b {
        assert(moves[b].utility <= moves[a].utility);
    } else if b < a {
        assert(moves[a].utility <= moves[b].utility);
    }
}

/// Whether `s` is the text `pass`.
pub fn is_pass(s: &String) -> (r: bool)
    ensures
        r == (s@ == pass_text()),
{
    proof {
        reveal_strlit("pass");
    }
    let p = String::from_str("pass");
    assert(p@ =~= pass_text());
    *s == p
}

/// The index of the best move, `None` for an empty list.
pub fn best_index(moves: &Vec<AnalysisResponseMoveInfo>) -> (r: Option<usize>)
    ensures
        r is None <==> moves@.len() == 0,
        r matches Some(i) ==> is_best(moves@, i as int),
{
    if moves.len() == 0 {
        return None;
    }
    let mut b: usize = 0;
    let mut i: usize = 1;
    while i < moves.len()
        invariant
            0 <= b < i <= moves@.len(),
            forall|j: int| 0 <= j < i ==> #[trigger] moves@[j].utility <= moves@[b as int].utility,
            forall|j: int| b < j < i ==> #[trigger] moves@[j].utility < moves@[b as int].utility,
        decreases moves.len() - i,
    {
        if moves[i].utility >= moves[b].utility {
            b = i;
        }
        i = i + 1;
    }
    Some(b)
}

/// The candidates relative to the move at `best`, each with its utility gap
/// to that move.
pub fn candidates(moves: &Vec<AnalysisResponseMoveInfo>, best: usize) -> (r: Vec<(usize, i64)>)
    requires
        is_best(moves@, best as int),
    ensures
        r@.map_values(|e: (usize, i64)| e.0 as int) == candidate_list(moves@, best as int),
        forall|k: int| 0 <= k < r@.len() ==> #[trigger] r@[k].1 == moves@[r@[k].0 as int].utility - moves@[best as int].utility,
        forall|k: int| 0 <= k < r@.len() ==> #[trigger] r@[k].1 <= 0,
{
    let mut r: Vec<(usize, i64)> = Vec::new();
    let mut j: usize = 0;
    while j < moves.len()
        invariant
            is_best(moves@, best as int),
            j <= moves@.len(),
            r@.map_values(|e: (usize, i64)| e.0 as int) == candidates_before(moves@, best as int, j as int),
            forall|k: int| 0 <= k < r@.len() ==> #[trigger] r@[k].1 == moves@[r@[k].0 as int].utility - moves@[best as int].utility,
            forall|k: int| 0 <= k < r@.len() ==> #[trigger] r@[k].1 <= 0,
        decreases moves.len() - j,
    {
        let m = &moves[j];
        proof {
            lemma_candidates_before(moves@, best as int, j as int);
        }
        if !is_pass(&m.mov) && (moves[best].score_lead as i64) - (m.score_lead as i64) < SCORE_LEAD_CUTOFF {
            let gap = (m.utility as i64) - (moves[best].utility as i64);
            let ghost before = r@;
            r.push((j, gap));
            assert(r@.map_values(|e: (usize, i64)| e.0 as int) =~= before.map_values(|e: (usize, i64)| e.0 as int).push(j as int));
        }
        j = j + 1;
    }
    r
}

/// How the move is to be chosen from `moves`: fails on an empty list;
/// a pass that is best is decided outright; otherwise the candidates are to
/// be drawn from.
pub fn plan_selection(moves: &Vec<AnalysisResponseMoveInfo>) -> (r: Result<Selection, PolicyError>)
    ensures
        r is Err <==> moves@.len() == 0,
        r is Err ==> r == Err::<Selection, PolicyError>(PolicyError::NoMoves),
        r matches Ok(Selection::Decided(i)) ==> is_best(moves@, i as int) && (moves@[i as int].mov@
            == pass_text() || candidate_list(moves@, i as int).len() == 0),
        r matches Ok(Selection::Sample(v)) ==> exists|b: int| {
            &&& is_best(moves@, b)
            &&& moves@[b].mov@ != pass_text()
            &&& v@.len() > 0
            &&& v@.map_values(|e: (usize, i64)| e.0 as int) == candidate_list(moves@, b)
            &&& forall|k: int| 0 <= k < v@.len() ==> #[trigger] v@[k].1 == moves@[v@[k].0 as int].utility - moves@[b].utility
        },
{
    let b = match best_index(moves) {
        Some(b) => b,
        None => return Err(PolicyError::NoMoves),
    };
    if is_pass(&moves[b].mov) {
        return Ok(Selection::Decided(b));
    }
    let c = candidates(moves, b);
    if c.len() == 0 {
        return Ok(Selection::Decided(b));
    }
    Ok(Selection::Sample(c))
}

/// Selects a move from `moves` for the draw `draw` (a position in the
/// candidate list of `plan_selection`): the best move when it is a pass or
/// when the draw is out of range, the drawn candidate otherwise. Fails on an
/// empty list.
pub fn pick_move(moves: &Vec<AnalysisResponseMoveInfo>, draw: usize) -> (r: Result<usize, PolicyError>)
    ensures
        r is Err <==> moves@.len() == 0,
        r is Err ==> r == Err::<usize, PolicyError>(PolicyError::NoMoves),
        r matches Ok(i) ==> forall|b: int| is_best(moves@, b) ==> i == selected_index(moves@, b, draw as int),
        r matches Ok(i) ==> i < moves@.len(),
{
    let b = match best_index(moves) {
        Some(b) => b,
        None => return Err(PolicyError::NoMoves),
    };
    proof {
        assert forall|b2: int| is_best(moves@, b2) implies b2 == b by {
            lemma_best_unique(moves@, b2, b as int);
        }
    }
    if is_pass(&moves[b].mov) {
        return Ok(b);
    }
    let c = candidates(moves, b);
    if draw < c.len() {
        proof {
            lemma_candidates_before(moves@, b as int, moves@.len() as int);
            assert(c@.map_values(|e: (usize, i64)| e.0 as int)[draw as int] == c@[draw as int].0);
        }
        Ok(c[draw].0)
    } else {
        Ok(b)
    }
}

/// When the best move is a pass, the policy selects it, whatever the draw.
pub proof fn lemma_best_pass_selected(moves: Seq<AnalysisResponseMoveInfo>, b: int, draw: int)
    requires
        is_best(moves, b),
        moves[b].mov@ == pass_text(),
    ensures
        selected_index(moves, b, draw) == b,
{
}

/// The policy selects a member of the evaluation list, whatever the draw.
pub proof fn lemma_selection_in_list(moves: Seq<AnalysisResponseMoveInfo>, b: int, draw: int)
    requires
        is_best(moves, b),
    ensures
        0 <= selected_index(moves, b, draw) < moves.len(),
{
    lemma_candidates_before(moves, b, moves.len() as int);
    let c = candidate_list(moves, b);
    if 0 <= draw < c.len() {
        assert(is_candidate(moves, b, c[draw]));
    }
}

} // verus!
