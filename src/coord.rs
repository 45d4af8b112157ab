//! Board coordinates on a 19x19 board and their text form: a column letter
//! (`A` to `T`, skipping `I`) followed by the 1-based row number, or `pass`.
use vstd::prelude::*;
use crate::text::{digit_char, digit_to_char, push_char};

verus! {

/// Side length of the board.
pub const BOARD_SIZE: u8 = 19;

/// A move: a pass, or a stone on column `x` and row `y` (both 0-based).
#[derive(Clone, Copy, Debug, PartialEq, Eq, Structural)]
pub enum BoardMove {
    Pass,
    Play { x: u8, y: u8 },
}

impl BoardMove {
    /// The move lies on the board.
    pub open spec fn wf(self) -> bool {
        match self {
            BoardMove::Pass => true,
            BoardMove::Play { x, y } => x < BOARD_SIZE && y < BOARD_SIZE,
        }
    }
}

/// The column letters, left to right.
pub open spec fn column_letters() -> Seq<char> {
    seq!['A', 'B', 'C', 'D', 'E', 'F', 'G', 'H', 'J', 'K', 'L', 'M', 'N', 'O', 'P', 'Q', 'R', 'S', 'T']
}

/// The text `pass`.
pub open spec fn pass_text() -> Seq<char> {
    seq!['p', 'a', 's', 's']
}

/// The row number `y + 1` in decimal.
pub open spec fn row_text(y: int) -> Seq<char> {
    if y < 9 {
        seq![digit_char(y + 1)]
    } else {
        seq!['1', digit_char(y - 9)]
    }
}

/// The text of a move.
pub open spec fn move_text(m: BoardMove) -> Seq<char> {
    match m {
        BoardMove::Pass => pass_text(),
        BoardMove::Play { x, y } => seq![column_letters()[x as int]] + row_text(y as int),
    }
}

/// The column letter of column `x`.
fn column_letter(x: u8) -> (c: char)
    requires
        x < BOARD_SIZE,
    ensures
        c == column_letters()[x as int],
{
    let letters: Vec<char> = vec!['A', 'B', 'C', 'D', 'E', 'F', 'G', 'H', 'J', 'K', 'L', 'M', 'N', 'O', 'P', 'Q', 'R', 'S', 'T'];
    assert(letters@ =~= column_letters());
    letters[x as usize]
}

/// The column whose letter is `c`, if any.
fn column_of(c: char) -> (r: Option<u8>)
    ensures
        r matches Some(x) ==> x < BOARD_SIZE && column_letters()[x as int] == c,
        r is None ==> forall|x: int| 0 <= x < BOARD_SIZE ==> column_letters()[x] != c,
{
    let letters: Vec<char> = vec!['A', 'B', 'C', 'D', 'E', 'F', 'G', 'H', 'J', 'K', 'L', 'M', 'N', 'O', 'P', 'Q', 'R', 'S', 'T'];
    assert(letters@ =~= column_letters());
    let mut i: usize = 0;
    while i < letters.len()
        invariant
            letters@ == column_letters(),
            i <= letters.len(),
            forall|x: int| 0 <= x < i ==> column_letters()[x] != c,
        decreases letters.len() - i,
    {
        if letters[i] == c {
            return Some(i as u8);
        }
        i = i + 1;
    }
    None
}

/// The text of a move on the board.
pub fn move_to_string(mv: &BoardMove) -> (r: String)
    requires
        mv.wf(),
    ensures
        r@ == move_text(*mv),
{
    match mv {
        BoardMove::Pass => {
            let r = String::from_str("pass");
            proof {
                reveal_strlit("pass");
            }
            assert(r@ =~= pass_text());
            r
        },
        BoardMove::Play { x, y } => {
            let mut r = String::new();
            push_char(&mut r, column_letter(*x));
            if *y < 9 {
                push_char(&mut r, digit_to_char((*y + 1) as u64));
            } else {
                push_char(&mut r, '1');
                push_char(&mut r, digit_to_char((*y - 9) as u64));
            }
            assert(r@ =~= move_text(*mv));
            r
        },
    }
}

/// `r` is the outcome of decoding the text `s`: the move on the board that
/// `s` names, or `None` when it names none.
pub open spec fn decodes_to(s: Seq<char>, r: Option<BoardMove>) -> bool {
    &&& r matches Some(m) ==> m.wf() && move_text(m) == s
    &&& r is None ==> forall|m: BoardMove| m.wf() ==> move_text(m) != s
}

/// The move whose text is `s`; `None` when `s` names no move on the board.
pub fn string_to_move(s: &str) -> (r: Option<BoardMove>)
    ensures
        decodes_to(s@, r),
{
    proof {
        reveal_strlit("pass");
    }
    let len = s.unicode_len();
    if len == 4 {
        if s.get_char(0) == 'p' && s.get_char(1) == 'a' && s.get_char(2) == 's' && s.get_char(3) == 's' {
            assert(s@ =~= pass_text());
            return Some(BoardMove::Pass);
        }
        proof {
            assert(s@ != pass_text()) by {
                if s@ == pass_text() {
                    assert(s@[0] == 'p' && s@[1] == 'a' && s@[2] == 's' && s@[3] == 's');
                }
            }
            assert forall|m: BoardMove| m.wf() implies move_text(m) != s@ by {
                if m is Play {
                    assert(move_text(m).len() <= 3);
                }
            }
        }
        return None;
    }
    if len != 2 && len != 3 {
        return None;
    }
    let col = column_of(s.get_char(0));
    let x = match col {
        Some(x) => x,
        None => {
            proof {
                assert forall|m: BoardMove| m.wf() implies move_text(m) != s@ by {
                    if let BoardMove::Play { x, y } = m {
                        assert(move_text(m)[0] == column_letters()[x as int]);
                    }
                }
            }
            return None;
        },
    };
    let d1 = s.get_char(1);
    if len == 2 {
        if '1' <= d1 && d1 <= '9' {
            let y = (d1 as u32 - '1' as u32) as u8;
            let m = BoardMove::Play { x, y };
            assert(digit_char(y + 1) == d1);
            assert(move_text(m) =~= s@);
            return Some(m);
        }
        proof {
            assert forall|m: BoardMove| m.wf() implies move_text(m) != s@ by {
                if let BoardMove::Play { x, y } = m {
                    if y < 9 {
                        assert(move_text(m)[1] == digit_char(y + 1));
                    }
                }
            }
        }
        return None;
    }
    let d2 = s.get_char(2);
    if d1 == '1' && '0' <= d2 && d2 <= '9' {
        let y = (d2 as u32 - '0' as u32 + 9) as u8;
        let m = BoardMove::Play { x, y };
        assert(digit_char(y - 9) == d2);
        assert(move_text(m) =~= s@);
        return Some(m);
    }
    proof {
        assert forall|m: BoardMove| m.wf() implies move_text(m) != s@ by {
            if let BoardMove::Play { x, y } = m {
                if y >= 9 {
                    assert(move_text(m)[1] == '1');
                    assert(move_text(m)[2] == digit_char(y - 9));
                }
            }
        }
    }
    None
}

proof fn lemma_column_letters_distinct(a: int, b: int)
    requires
        0 <= a < BOARD_SIZE,
        0 <= b < BOARD_SIZE,
        column_letters()[a] == column_letters()[b],
    ensures
        a == b,
{
    let l = column_letters();
    assert(forall|i: int| 0 <= i < 8 ==> (#[trigger] l[i]) as int == 'A' as int + i);
    assert(forall|i: int| 8 <= i < 19 ==> (#[trigger] l[i]) as int == 'A' as int + i + 1);
}

proof fn lemma_digit_chars_distinct(a: int, b: int)
    requires
        0 <= a < 10,
        0 <= b < 10,
        digit_char(a) == digit_char(b),
    ensures
        a == b,
{
    assert(forall|i: int| 0 <= i < 10 ==> (#[trigger] digit_char(i)) as int == '0' as int + i);
}

/// Encoding a move on the board as text and decoding that text gives the
/// move back; this covers every point of the board and the pass.
pub proof fn lemma_move_round_trip(m: BoardMove, r: Option<BoardMove>)
    requires
        m.wf(),
        decodes_to(move_text(m), r),
    ensures
        r == Some(m),
{
    if let Some(n) = r {
        lemma_move_text_injective(n, m);
    }
}

/// Two moves on the board with the same text are the same move.
pub proof fn lemma_move_text_injective(m: BoardMove, n: BoardMove)
    requires
        m.wf(),
        n.wf(),
        move_text(m) == move_text(n),
    ensures
        m == n,
{
    match (m, n) {
        (BoardMove::Play { x: xm, y: ym }, BoardMove::Play { x: xn, y: yn }) => {
            let rm = row_text(ym as int);
            let rn = row_text(yn as int);
            assert(rm =~= move_text(m).skip(1));
            assert(rn =~= move_text(n).skip(1));
            assert(move_text(m)[0] == column_letters()[xm as int]);
            assert(move_text(n)[0] == column_letters()[xn as int]);
            lemma_column_letters_distinct(xm as int, xn as int);
            if ym >= 9 {
                assert(rm[1] == rn[1]);
                lemma_digit_chars_distinct(ym - 9, yn - 9);
            } else {
                assert(rm[0] == rn[0]);
                lemma_digit_chars_distinct(ym + 1, yn + 1);
            }
        },
        (BoardMove::Pass, BoardMove::Play { .. }) => {
            assert(move_text(m).len() != move_text(n).len());
        },
        (BoardMove::Play { .. }, BoardMove::Pass) => {
            assert(move_text(m).len() != move_text(n).len());
        },
        _ => {},
    }
}

} // verus!
