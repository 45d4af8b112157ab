//! One game as a state machine: each engine response either ends the game
//! (the selected move is a pass) or extends its history by one move.
use vstd::prelude::*;
use crate::coord::pass_text;
use crate::policy::{is_best, is_pass, pick_move, selected_index, AnalysisResponseMoveInfo, PolicyError};

verus! {

/// A played move: the player's color code and the move text.
pub type Stone = (String, String);

/// What the engine reports of the position as a whole.
#[derive(Debug)]
pub struct AnalysisResponseRootInfo {
    /// The color code of the side to move.
    pub current_player: String,
}

/// A decoded engine response.
#[derive(Debug)]
pub struct AnalysisResponse {
    /// The identifier of the request it answers.
    pub id: String,
    /// The position as a whole.
    pub root_info: AnalysisResponseRootInfo,
    /// The evaluated candidate moves.
    pub move_infos: Vec<AnalysisResponseMoveInfo>,
}

/// Where a game stands after a response.
#[derive(Debug)]
pub enum GameState {
    /// Still running, with this history.
    Playing(Vec<Stone>),
    /// Ended on a pass, with this final history.
    Finished(Vec<Stone>),
}

/// The index the policy selects from `moves` for `draw`, whichever best move
/// stands.
pub open spec fn selects(moves: Seq<AnalysisResponseMoveInfo>, draw: int, i: int) -> bool {
    forall|b: int| is_best(moves, b) ==> i == selected_index(moves, b, draw)
}

/// Advances a game whose history is `history` by the engine's `response`,
/// with `draw` as the random draw of the selection policy: a selected pass
/// finishes the game with the history unchanged; any other move is appended
/// with the side to move that the response reports.
pub fn game_step(history: Vec<Stone>, response: &AnalysisResponse, draw: usize) -> (r: Result<GameState, PolicyError>)
    ensures
        r is Err <==> response.move_infos@.len() == 0,
        r is Err ==> r == Err::<GameState, PolicyError>(PolicyError::NoMoves),
        r matches Ok(GameState::Finished(h)) ==> h@ == history@ && exists|i: int| {
            &&& 0 <= i < response.move_infos@.len()
            &&& selects(response.move_infos@, draw as int, i)
            &&& response.move_infos@[i].mov@ == pass_text()
        },
        r matches Ok(GameState::Playing(h)) ==> h@.drop_last() == history@ && h@.len() == history@.len() + 1
            && h@.last().0@ == response.root_info.current_player@ && exists|i: int| {
            &&& 0 <= i < response.move_infos@.len()
            &&& selects(response.move_infos@, draw as int, i)
            &&& response.move_infos@[i].mov@ != pass_text()
            &&& h@.last().1@ == response.move_infos@[i].mov@
        },
{
    let i = match pick_move(&response.move_infos, draw) {
        Ok(i) => i,
        Err(e) => return Err(e),
    };
    assert(selects(response.move_infos@, draw as int, i as int));
    let mv = &response.move_infos[i].mov;
    if is_pass(mv) {
        assert(response.move_infos@[i as int].mov@ == pass_text());
        return Ok(GameState::Finished(history));
    }
    let mut h = history;
    h.push((response.root_info.current_player.clone(), mv.clone()));
    assert(h@.drop_last() =~= history@);
    assert(h@.last().1@ == response.move_infos@[i as int].mov@);
    Ok(GameState::Playing(h))
}

} // verus!
