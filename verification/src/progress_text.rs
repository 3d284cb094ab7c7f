//! The principal variation as text: each move as the moving piece's name, an
//! `x` when it captures, and the destination square, separated by commas.

use vstd::prelude::*;
use vstd::string::StringExecFns;
use crate::game::{Game, Move};
use crate::piece::kind_name;

verus! {

/// The character of a decimal digit.
pub open spec fn digit_char(d: nat) -> char {
    if d == 0 { '0' } else if d == 1 { '1' } else if d == 2 { '2' } else if d == 3 { '3' } else if d == 4 {
        '4'
    } else if d == 5 { '5' } else if d == 6 { '6' } else if d == 7 { '7' } else if d == 8 { '8' } else { '9' }
}

/// The decimal digits of `n`, most significant first, without leading zeros.
pub open spec fn decimal(n: nat) -> Seq<char>
    decreases n,
{
    if n < 10 {
        seq![digit_char(n)]
    } else {
        decimal(n / 10).push(digit_char(n % 10))
    }
}

/// A move as text: the moving piece's name, `x` when it captures, and the
/// destination square.
pub open spec fn move_text(g: Game, m: Move) -> Seq<char> {
    kind_name(g.pieces[m.0 as int].kind) + (if m.2 { seq!['x'] } else { Seq::<char>::empty() }) + decimal(m.1 as nat)
}

/// The moves of `pv` as text, separated by a comma and a space.
pub open spec fn pv_text_of(g: Game, pv: Seq<Move>) -> Seq<char>
    decreases pv.len(),
{
    if pv.len() == 0 {
        Seq::empty()
    } else if pv.len() == 1 {
        move_text(g, pv[0])
    } else {
        pv_text_of(g, pv.drop_last()) + seq![',', ' '] + move_text(g, pv.last())
    }
}

/// The text of a decimal digit.
fn digit_str(d: usize) -> (r: &'static str)
    requires
        d < 10,
    ensures
        r@ == seq![digit_char(d as nat)],
{
    proof {
        reveal_strlit("0");
        reveal_strlit("1");
        reveal_strlit("2");
        reveal_strlit("3");
        reveal_strlit("4");
        reveal_strlit("5");
        reveal_strlit("6");
        reveal_strlit("7");
        reveal_strlit("8");
        reveal_strlit("9");
    }
    if d == 0 {
        "0"
    } else if d == 1 {
        "1"
    } else if d == 2 {
        "2"
    } else if d == 3 {
        "3"
    } else if d == 4 {
        "4"
    } else if d == 5 {
        "5"
    } else if d == 6 {
        "6"
    } else if d == 7 {
        "7"
    } else if d == 8 {
        "8"
    } else {
        "9"
    }
}

/// The decimal text of `n`.
pub fn decimal_text(n: usize) -> (r: String)
    ensures
        r@ == decimal(n as nat),
    decreases n,
{
    if n < 10 {
        String::from_str(digit_str(n))
    } else {
        let mut text = decimal_text(n / 10);
        text.append(digit_str(n % 10));
        text
    }
}

/// The principal variation as text, naming each moving piece as it stands in
/// `game`.
pub fn pv_text(game: &Game, pv: &Vec<Move>) -> (r: String)
    requires
        forall|k: int| 0 <= k < pv@.len() ==> (#[trigger] pv@[k]).0 < 16,
    ensures
        r@ == pv_text_of(*game, pv@),
{
    let mut text = String::new();
    let mut i: usize = 0;
    proof {
        reveal_strlit(", ");
        reveal_strlit("x");
    }
    while i < pv.len()
        invariant
            i <= pv@.len(),
            forall|k: int| 0 <= k < pv@.len() ==> (#[trigger] pv@[k]).0 < 16,
            text@ == pv_text_of(*game, pv@.take(i as int)),
            ", "@ == seq![',', ' '],
            "x"@ == seq!['x'],
        decreases pv@.len() - i,
    {
        let the_move = pv[i];
        if i > 0 {
            text.append(", ");
        }
        let piece = game.piece_for(the_move.0);
        text.append(piece.string_rep());
        if the_move.2 {
            text.append("x");
        }
        let number = decimal_text(the_move.1);
        text.append(number.as_str());
        proof {
            let pre = pv@.take(i as int);
            let now = pv@.take(i + 1);
            assert(now.drop_last() =~= pre);
            assert(now.last() == the_move);
            if i == 0 {
                assert(now.len() == 1);
                assert(now[0] == the_move);
            }
        }
        i = i + 1;
    }
    assert(pv@.take(pv@.len() as int) =~= pv@);
    text
}

} // verus!
