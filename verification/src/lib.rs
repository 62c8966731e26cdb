//! A dice-notation roll evaluator.
//!
//! An input such as `2d20+5` names a roll: a count of dice, the number of
//! sides on each die, and an optional modifier added to the sum. `evaluate`
//! turns such an input into a reply: a formatted result line for a roll the
//! notation allows, or one of three fixed messages saying what was wrong
//! with the input. Parsing, totalling and formatting are verified; only the
//! random draw itself is trusted, stated as a bound on every outcome.

use vstd::prelude::*;

pub mod notation;
pub mod render;
pub mod rolling;

use crate::notation::RollError;
use crate::notation::parse;
use crate::notation::parse_spec;
use crate::render::render;
use crate::render::render_spec;
use crate::rolling::perform;
use crate::rolling::valid_rolls;

verus! {

/// The fixed reply for each way an input can be rejected.
pub open spec fn error_message(e: RollError) -> Seq<char> {
    match e {
        RollError::Format => "Invalid dice roll format. Use format like '2d20+5' or '2d20-5'"@,
        RollError::Count => "Invalid number of dice. You can't roll 0 or negative dice."@,
        RollError::Sides => "Invalid number of sides on the dice. The dice gotta have at least 1 side."@,
    }
}

/// The reply text for a rejected input.
pub fn error_text(e: RollError) -> (r: String)
    ensures
        r@ == error_message(e),
{
    match e {
        RollError::Format => String::from_str(
            "Invalid dice roll format. Use format like '2d20+5' or '2d20-5'",
        ),
        RollError::Count => String::from_str(
            "Invalid number of dice. You can't roll 0 or negative dice.",
        ),
        RollError::Sides => String::from_str(
            "Invalid number of sides on the dice. The dice gotta have at least 1 side.",
        ),
    }
}

/// Evaluates a dice-notation command and returns the reply to send back.
///
/// A rejected input gets exactly the message `parse_spec` assigns it. An
/// accepted one gets a reply rendered for some conforming outcome: as many
/// rolls as the notation asks for, each within the die's sides, totalled
/// with the modifier.
pub fn evaluate(input: &str) -> (r: String)
    ensures
        parse_spec(input@) matches Err(e) ==> r@ == error_message(e),
        parse_spec(input@) matches Ok(req) ==> exists|rolls: Seq<u32>|
            #[trigger] valid_rolls(rolls, req) && r@ == render_spec(req, rolls),
{
    match parse(input) {
        Ok(req) => {
            let res = perform(&req);
            let out = render(&req, &res);
            proof {
                assert(valid_rolls(res.rolls@, req) && out@ == render_spec(req, res.rolls@));
            }
            out
        },
        Err(e) => error_text(e),
    }
}

} // verus!
