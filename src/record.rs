//! Preparing a finished game's history for the game-record format: each
//! move becomes the two-letter point of the record format (`aa` is the
//! top-left corner), a pass the empty text.
use vstd::prelude::*;
use crate::coord::{decodes_to, string_to_move, BoardMove};
use crate::game::Stone;

verus! {

/// Why a history could not be prepared.
#[derive(Clone, Copy, Debug, PartialEq, Eq, Structural)]
pub enum RecordError {
    /// The history has no moves.
    EmptyGame,
    /// The move at this position names no move on the board.
    BadMove(usize),
}

/// The letters of the record format's points, by coordinate.
pub open spec fn point_letters() -> Seq<char> {
    seq!['a', 'b', 'c', 'd', 'e', 'f', 'g', 'h', 'i', 'j', 'k', 'l', 'm', 'n', 'o', 'p', 'q', 'r', 's']
}

/// The record-format text of a move.
pub open spec fn point_text(m: BoardMove) -> Seq<char> {
    match m {
        BoardMove::Pass => seq![],
        BoardMove::Play { x, y } => seq![point_letters()[x as int], point_letters()[y as int]],
    }
}

/// The record-format text of a move on the board.
pub fn move_to_point(mv: &BoardMove) -> (r: String)
    requires
        mv.wf(),
    ensures
        r@ == point_text(*mv),
{
    let letters: Vec<char> = vec!['a', 'b', 'c', 'd', 'e', 'f', 'g', 'h', 'i', 'j', 'k', 'l', 'm', 'n', 'o', 'p', 'q', 'r', 's'];
    assert(letters@ =~= point_letters());
    let mut r = String::new();
    if let BoardMove::Play { x, y } = mv {
        crate::text::push_char(&mut r, letters[*x as usize]);
        crate::text::push_char(&mut r, letters[*y as usize]);
    }
    assert(r@ =~= point_text(*mv));
    r
}

/// The text `s` names a move on the board.
pub open spec fn decodable(s: Seq<char>) -> bool {
    exists|m: BoardMove| decodes_to(s, Some(m))
}

/// The text `s` names a move on the board whose record-format text is `p`.
pub open spec fn point_of(s: Seq<char>, p: Seq<char>) -> bool {
    exists|m: BoardMove| decodes_to(s, Some(m)) && p == point_text(m)
}

/// `out` holds, for each move of `stones`, its player and record-format text.
pub open spec fn record_moves_of(stones: Seq<Stone>, out: Seq<(String, String)>) -> bool {
    &&& out.len() == stones.len()
    &&& forall|i: int| 0 <= i < stones.len() ==> (#[trigger] out[i]).0@ == stones[i].0@ && point_of(stones[i].1@, out[i].1@)
}

/// Each move of a game history as its player and record-format text. Fails
/// on an empty history, and at the first move text that names no move.
pub fn record_moves(stones: &Vec<Stone>) -> (r: Result<Vec<(String, String)>, RecordError>)
    ensures
        r == Err::<Vec<(String, String)>, RecordError>(RecordError::EmptyGame) <==> stones@.len() == 0,
        r matches Ok(out) ==> record_moves_of(stones@, out@),
        r matches Err(RecordError::BadMove(i)) ==> i < stones@.len() && !decodable(stones@[i as int].1@)
            && forall|j: int| 0 <= j < i ==> decodable(#[trigger] stones@[j].1@),
        r is Ok <==> stones@.len() > 0 && forall|j: int| 0 <= j < stones@.len() ==> decodable(#[trigger] stones@[j].1@),
{
    if stones.len() == 0 {
        return Err(RecordError::EmptyGame);
    }
    let mut out: Vec<(String, String)> = Vec::new();
    let mut i: usize = 0;
    while i < stones.len()
        invariant
            i <= stones@.len(),
            out@.len() == i,
            forall|j: int| 0 <= j < i ==> (#[trigger] out@[j]).0@ == stones@[j].0@ && point_of(stones@[j].1@, out@[j].1@),
            forall|j: int| 0 <= j < i ==> decodable(#[trigger] stones@[j].1@),
        decreases stones.len() - i,
    {
        let d = string_to_move(stones[i].1.as_str());
        match d {
            Some(m) => {
                let ghost before = out@;
                out.push((stones[i].0.clone(), move_to_point(&m)));
                assert(decodes_to(stones@[i as int].1@, Some(m)));
                assert(point_of(stones@[i as int].1@, out@[i as int].1@));
                assert forall|j: int| 0 <= j < i + 1 implies (#[trigger] out@[j]).0@ == stones@[j].0@ && point_of(stones@[j].1@, out@[j].1@) by {
                    if j < i {
                        assert(out@[j] == before[j]);
                    }
                }
            },
            None => {
                proof {
                    if decodable(stones@[i as int].1@) {
                        let m2 = choose|m: BoardMove| decodes_to(stones@[i as int].1@, Some(m));
                        assert(m2.wf());
                    }
                }
                return Err(RecordError::BadMove(i));
            },
        }
        i = i + 1;
    }
    Ok(out)
}

} // verus!
