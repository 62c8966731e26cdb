//! Formatting a roll outcome as the reply text.
//!
//! `render_spec` pins down every character of the reply: the header with the
//! notation that was rolled, the individual rolls joined by `" + "`, the
//! modifier written out when it is non-zero, and the total. `render` is
//! proved to produce exactly that text.

use vstd::prelude::*;

use crate::notation::RollRequest;
use crate::rolling::RollResult;
use crate::rolling::sum_rolls;
use crate::rolling::valid_result;

verus! {

/// The character for a single decimal digit value.
pub open spec fn digit_char(d: int) -> char {
    if d == 0 {
        '0'
    } else if d == 1 {
        '1'
    } else if d == 2 {
        '2'
    } else if d == 3 {
        '3'
    } else if d == 4 {
        '4'
    } else if d == 5 {
        '5'
    } else if d == 6 {
        '6'
    } else if d == 7 {
        '7'
    } else if d == 8 {
        '8'
    } else {
        '9'
    }
}

/// The decimal text of a non-negative number, without leading zeros
/// (a lone zero reads `"0"`).
pub open spec fn dec_seq(n: int) -> Seq<char>
    recommends
        n >= 0,
    decreases n,
{
    if n <= 9 {
        seq![digit_char(n)]
    } else {
        dec_seq(n / 10).push(digit_char(n % 10))
    }
}

/// The decimal text of a possibly negative number.
pub open spec fn int_seq(t: int) -> Seq<char> {
    if t < 0 {
        "-"@ + dec_seq(-t)
    } else {
        dec_seq(t)
    }
}

/// The rolls from index `i` on, written in decimal and joined by `" + "`.
pub open spec fn rolls_text(rolls: Seq<u32>, i: int) -> Seq<char>
    decreases rolls.len() - i,
{
    if i < 0 || i >= rolls.len() {
        Seq::empty()
    } else if i == rolls.len() - 1 {
        dec_seq(rolls[i] as int)
    } else {
        dec_seq(rolls[i] as int) + " + "@ + rolls_text(rolls, i + 1)
    }
}

/// The written sign of the modifier.
pub open spec fn sign_seq(modifier: int) -> Seq<char> {
    if modifier < 0 {
        "-"@
    } else {
        "+"@
    }
}

/// The magnitude of the modifier.
pub open spec fn abs_mod(modifier: int) -> int {
    if modifier < 0 {
        -modifier
    } else {
        modifier
    }
}

/// Every character of the reply for a request and the rolls that were drawn.
/// A zero modifier is left out entirely; a non-zero one appears both in the
/// echoed notation and as a term after the rolls.
pub open spec fn render_spec(req: RollRequest, rolls: Seq<u32>) -> Seq<char> {
    let total = sum_rolls(rolls) + req.modifier;
    "🎲 Rolling "@ + dec_seq(req.count as int) + "d"@ + dec_seq(req.sides as int) + (if req.modifier
        != 0 {
        sign_seq(req.modifier as int) + dec_seq(abs_mod(req.modifier as int))
    } else {
        Seq::<char>::empty()
    }) + ": ["@ + rolls_text(rolls, 0) + "]"@ + (if req.modifier != 0 {
        " "@ + sign_seq(req.modifier as int) + " "@ + dec_seq(abs_mod(req.modifier as int))
    } else {
        Seq::<char>::empty()
    }) + " = "@ + int_seq(total)
}

/// The one-character text of a digit value.
fn digit_str(d: u64) -> (r: &'static str)
    requires
        d <= 9,
    ensures
        r@ == seq![digit_char(d as int)],
{
    if d == 0 {
        proof {
            reveal_strlit("0");
            assert("0"@ =~= seq![digit_char(d as int)]);
        }
        "0"
    } else if d == 1 {
        proof {
            reveal_strlit("1");
            assert("1"@ =~= seq![digit_char(d as int)]);
        }
        "1"
    } else if d == 2 {
        proof {
            reveal_strlit("2");
            assert("2"@ =~= seq![digit_char(d as int)]);
        }
        "2"
    } else if d == 3 {
        proof {
            reveal_strlit("3");
            assert("3"@ =~= seq![digit_char(d as int)]);
        }
        "3"
    } else if d == 4 {
        proof {
            reveal_strlit("4");
            assert("4"@ =~= seq![digit_char(d as int)]);
        }
        "4"
    } else if d == 5 {
        proof {
            reveal_strlit("5");
            assert("5"@ =~= seq![digit_char(d as int)]);
        }
        "5"
    } else if d == 6 {
        proof {
            reveal_strlit("6");
            assert("6"@ =~= seq![digit_char(d as int)]);
        }
        "6"
    } else if d == 7 {
        proof {
            reveal_strlit("7");
            assert("7"@ =~= seq![digit_char(d as int)]);
        }
        "7"
    } else if d == 8 {
        proof {
            reveal_strlit("8");
            assert("8"@ =~= seq![digit_char(d as int)]);
        }
        "8"
    } else {
        proof {
            reveal_strlit("9");
            assert("9"@ =~= seq![digit_char(d as int)]);
        }
        "9"
    }
}

/// The magnitude of a modifier as an unsigned machine value.
fn abs_magnitude(m: i32) -> (r: u64)
    requires
        m > i32::MIN,
    ensures
        r == abs_mod(m as int),
{
    if m < 0 {
        (-(m as i64)) as u64
    } else {
        m as u64
    }
}

/// Appends the decimal text of `n` to `out`.
fn push_dec(out: &mut String, n: u64)
    ensures
        final(out)@ == old(out)@ + dec_seq(n as int),
    decreases n,
{
    if n <= 9 {
        out.append(digit_str(n));
    } else {
        push_dec(out, n / 10);
        out.append(digit_str(n % 10));
        proof {
            assert(old(out)@ + dec_seq(n as int) =~= (old(out)@ + dec_seq(n as int / 10)) + seq![
                digit_char(n as int % 10),
            ]);
        }
    }
}

/// Appends the rolls from index `i` on, joined by `" + "`.
fn push_rolls(out: &mut String, rolls: &Vec<u32>, i: usize)
    requires
        i <= rolls@.len(),
    ensures
        final(out)@ == old(out)@ + rolls_text(rolls@, i as int),
    decreases rolls@.len() - i,
{
    if i < rolls.len() {
        push_dec(out, rolls[i] as u64);
        if i + 1 < rolls.len() {
            out.append(" + ");
            push_rolls(out, rolls, i + 1);
            proof {
                assert(old(out)@ + rolls_text(rolls@, i as int) =~= ((old(out)@ + dec_seq(
                    rolls@[i as int] as int,
                )) + " + "@) + rolls_text(rolls@, i as int + 1));
            }
        }
    } else {
        proof {
            assert(old(out)@ + rolls_text(rolls@, i as int) =~= old(out)@);
        }
    }
}

/// Renders the reply text for a performed request, character for character
/// as `render_spec` states it.
pub fn render(req: &RollRequest, res: &RollResult) -> (r: String)
    requires
        req.wf(),
        valid_result(*req, *res),
    ensures
        r@ == render_spec(*req, res.rolls@),
{
    let mut out = String::new();
    out.append("🎲 Rolling ");
    push_dec(&mut out, req.count as u64);
    out.append("d");
    push_dec(&mut out, req.sides as u64);
    if req.modifier != 0 {
        if req.modifier < 0 {
            out.append("-");
        } else {
            out.append("+");
        }
        push_dec(&mut out, abs_magnitude(req.modifier));
    }
    out.append(": [");
    push_rolls(&mut out, &res.rolls, 0);
    out.append("]");
    if req.modifier != 0 {
        out.append(" ");
        if req.modifier < 0 {
            out.append("-");
        } else {
            out.append("+");
        }
        out.append(" ");
        push_dec(&mut out, abs_magnitude(req.modifier));
    }
    out.append(" = ");
    let total = res.total;
    if total < 0 {
        out.append("-");
        push_dec(&mut out, (-total) as u64);
    } else {
        push_dec(&mut out, total as u64);
    }
    proof {
        assert(out@ =~= render_spec(*req, res.rolls@));
    }
    out
}

} // verus!
