//! The engine's line protocol: one JSON object per line. This module writes
//! request lines; every string in them is quoted by serde_json.
use vstd::prelude::*;
use crate::game::Stone;
use crate::text::{decimal_string, decimal_text};

verus! {

/// The line that asks the engine to stop.
pub const SHUTDOWN_LINE: &'static str = "\n";

/// A lowercase hexadecimal digit.
pub open spec fn hex_digit(d: int) -> char {
    seq!['0', '1', '2', '3', '4', '5', '6', '7', '8', '9', 'a', 'b', 'c', 'd', 'e', 'f'][d]
}

/// How serde_json writes the character `c` inside a string literal: quote,
/// backslash and control characters escaped, anything else as it is.
pub open spec fn json_escape_char(c: char) -> Seq<char> {
    if c == '"' {
        seq!['\\', '"']
    } else if c == '\\' {
        seq!['\\', '\\']
    } else if c == '\x08' {
        seq!['\\', 'b']
    } else if c == '\t' {
        seq!['\\', 't']
    } else if c == '\n' {
        seq!['\\', 'n']
    } else if c == '\x0C' {
        seq!['\\', 'f']
    } else if c == '\r' {
        seq!['\\', 'r']
    } else if (c as u32) < 0x20 {
        seq!['\\', 'u', '0', '0', hex_digit((c as u32 / 16) as int), hex_digit((c as u32 % 16) as int)]
    } else {
        seq![c]
    }
}

/// The characters of `s`, each written as `json_escape_char` says.
pub open spec fn json_escaped(s: Seq<char>) -> Seq<char>
    decreases s.len(),
{
    if s.len() == 0 {
        seq![]
    } else {
        json_escaped(s.drop_last()) + json_escape_char(s.last())
    }
}

/// The JSON string literal that serde_json writes for `s`.
pub open spec fn json_string_text(s: Seq<char>) -> Seq<char> {
    seq!['"'] + json_escaped(s) + seq!['"']
}

#[verifier::external_type_specification]
#[verifier::external_body]
pub struct ExJsonError(serde_json::Error);

/// Whether `s` holds no newline character.
pub open spec fn newline_free(s: Seq<char>) -> bool {
    forall|i: int| 0 <= i < s.len() ==> s[i] != '\n'
}

/// Relies on serde_json::to_string applied to a `str`: the JSON string
/// literal for it, escaped by serde_json's table (`format_escaped_str`).
/// Quoting a `str` writes into a `Vec` and cannot fail.
#[verifier::external_body]
fn json_string(s: &str) -> (r: Result<String, serde_json::Error>)
    ensures
        r is Ok,
        r matches Ok(t) ==> t@ == json_string_text(s@),
{
    serde_json::to_string(s)
}

/// The views of a move history's colors and moves.
pub open spec fn stones_view(stones: Seq<Stone>) -> Seq<(Seq<char>, Seq<char>)> {
    stones.map_values(|s: Stone| (s.0@, s.1@))
}

/// One played move as a JSON array of two strings.
pub open spec fn stone_json(stone: (Seq<char>, Seq<char>)) -> Seq<char> {
    "["@ + json_string_text(stone.0) + ","@ + json_string_text(stone.1) + "]"@
}

/// The played moves, comma-separated.
pub open spec fn stones_json(stones: Seq<(Seq<char>, Seq<char>)>) -> Seq<char>
    decreases stones.len(),
{
    if stones.len() == 0 {
        seq![]
    } else if stones.len() == 1 {
        stone_json(stones[0])
    } else {
        stones_json(stones.drop_last()) + ","@ + stone_json(stones.last())
    }
}

/// The request line for identifier `id` and history `stones`: Tromp-Taylor
/// rules, komi 7.5, a 19x19 board, no initial stones; ended by a newline.
pub open spec fn request_text(id: nat, stones: Seq<(Seq<char>, Seq<char>)>) -> Seq<char> {
    "{\"id\":"@ + json_string_text(decimal_text(id)) + ",\"initialStones\":[],\"moves\":["@
        + stones_json(stones)
        + "],\"rules\":\"tromp-taylor\",\"komi\":7.5,\"boardXSize\":19,\"boardYSize\":19}"@ + "\n"@
}

/// Appends `s` as a JSON string literal to `out`.
fn push_json_string(out: &mut String, s: &str)
    ensures
        final(out)@ == old(out)@ + json_string_text(s@),
        newline_free(old(out)@) ==> newline_free(final(out)@),
{
    match json_string(s) {
        Ok(t) => {
            out.append(t.as_str());
            proof {
                lemma_json_string_newline_free(s@);
                lemma_newline_free_concat(old(out)@, t@);
            }
        },
        Err(_) => unreached(),
    }
}

proof fn lemma_newline_free_concat(a: Seq<char>, b: Seq<char>)
    ensures
        newline_free(a) && newline_free(b) ==> newline_free(a + b),
{
    if newline_free(a) && newline_free(b) {
        assert forall|i: int| 0 <= i < (a + b).len() implies (a + b)[i] != '\n' by {
            if i >= a.len() {
                assert((a + b)[i] == b[i - a.len()]);
            }
        }
    }
}

/// A JSON string literal holds no raw newline: serde_json escapes it.
pub proof fn lemma_json_string_newline_free(s: Seq<char>)
    ensures
        newline_free(json_string_text(s)),
    decreases s.len(),
{
    lemma_json_escaped_newline_free(s);
    lemma_newline_free_concat(seq!['"'], json_escaped(s));
    lemma_newline_free_concat(seq!['"'] + json_escaped(s), seq!['"']);
}

proof fn lemma_json_escaped_newline_free(s: Seq<char>)
    ensures
        newline_free(json_escaped(s)),
    decreases s.len(),
{
    if s.len() > 0 {
        lemma_json_escaped_newline_free(s.drop_last());
        let c = s.last();
        let e = json_escape_char(c);
        assert(forall|d: int| 0 <= d < 16 ==> #[trigger] hex_digit(d) != '\n');
        assert forall|i: int| 0 <= i < e.len() implies e[i] != '\n' by {
            if c != '"' && c != '\\' && c != '\x08' && c != '\t' && c != '\n' && c != '\x0C' && c != '\r' {
                if (c as u32) < 0x20 {
                    assert(e[4] == hex_digit((c as u32 / 16) as int));
                    assert(e[5] == hex_digit((c as u32 % 16) as int));
                } else {
                    assert(e == seq![c]);
                }
            }
        }
        lemma_newline_free_concat(json_escaped(s.drop_last()), e);
    }
}

/// Appends a literal `lit` that holds no newline.
fn push_plain(out: &mut String, lit: &str)
    requires
        newline_free(lit@),
    ensures
        final(out)@ == old(out)@ + lit@,
        newline_free(old(out)@) ==> newline_free(final(out)@),
{
    out.append(lit);
    proof {
        lemma_newline_free_concat(old(out)@, lit@);
    }
}

/// The request line that asks the engine to evaluate the position after
/// `stones`, under identifier `id`.
pub fn request_line(id: u64, stones: &Vec<Stone>) -> (r: String)
    ensures
        r@ == request_text(id as nat, stones_view(stones@)),
        r@.len() > 0 && r@.last() == '\n' && newline_free(r@.drop_last()),
{
    proof {
        reveal_strlit("{\"id\":");
        reveal_strlit(",\"initialStones\":[],\"moves\":[");
        reveal_strlit(",");
        reveal_strlit("[");
        reveal_strlit("]");
        reveal_strlit("],\"rules\":\"tromp-taylor\",\"komi\":7.5,\"boardXSize\":19,\"boardYSize\":19}");
        reveal_strlit("\n");
    }
    let mut out = String::from_str("{\"id\":");
    let id_text = decimal_string(id);
    push_json_string(&mut out, id_text.as_str());
    push_plain(&mut out, ",\"initialStones\":[],\"moves\":[");
    let ghost head = out@;
    let ghost sv = stones_view(stones@);
    let mut i: usize = 0;
    while i < stones.len()
        invariant
            i <= stones@.len(),
            sv == stones_view(stones@),
            out@ == head + stones_json(sv.subrange(0, i as int)),
            newline_free(out@),
        decreases stones.len() - i,
    {
        proof {
            reveal_strlit(",");
            reveal_strlit("[");
            reveal_strlit("]");
        }
        let ghost before = out@;
        let ghost sub = sv.subrange(0, i + 1);
        assert(sub.drop_last() =~= sv.subrange(0, i as int));
        assert(sub.last() == (stones@[i as int].0@, stones@[i as int].1@));
        if i > 0 {
            push_plain(&mut out, ",");
        } else {
            assert(sv.subrange(0, 0) =~= Seq::<(Seq<char>, Seq<char>)>::empty());
            assert(sub =~= seq![sub.last()]);
        }
        push_plain(&mut out, "[");
        push_json_string(&mut out, stones[i].0.as_str());
        push_plain(&mut out, ",");
        push_json_string(&mut out, stones[i].1.as_str());
        push_plain(&mut out, "]");
        assert(out@ =~= head + stones_json(sub));
        i = i + 1;
    }
    assert(sv.subrange(0, i as int) =~= sv);
    push_plain(&mut out, "],\"rules\":\"tromp-taylor\",\"komi\":7.5,\"boardXSize\":19,\"boardYSize\":19}");
    let ghost body = out@;
    out.append("\n");
    assert(out@.drop_last() =~= body);
    assert(out@ =~= request_text(id as nat, sv));
    out
}

} // verus!
