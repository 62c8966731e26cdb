//! Drawing the dice and totalling the outcome.
//!
//! The random draw itself comes from the `rand` crate behind a trusted
//! wrapper that promises only the documented range of the sample; everything
//! that follows a draw — collecting the rolls, summing them, applying the
//! modifier — is verified for every value the wrapper can hand back.

use vstd::prelude::*;

use rand::RngExt;

use crate::notation::RollRequest;

verus! {

/// The outcome of performing a request: the rolls in the order drawn, their
/// sum, and the sum with the modifier applied.
#[derive(Debug)]
pub struct RollResult {
    pub rolls: Vec<u32>,
    pub sum_of_rolls: u64,
    pub total: i64,
}

/// The sum of a sequence of rolls.
pub open spec fn sum_rolls(s: Seq<u32>) -> int
    decreases s.len(),
{
    if s.len() == 0 {
        0
    } else {
        sum_rolls(s.drop_last()) + s.last()
    }
}

/// Whether `rolls` is an outcome the request allows: exactly `count` values,
/// each in `[1, sides]`.
pub open spec fn valid_rolls(rolls: Seq<u32>, req: RollRequest) -> bool {
    &&& rolls.len() == req.count
    &&& forall|k: int| 0 <= k < rolls.len() ==> 1 <= #[trigger] rolls[k] <= req.sides
}

/// Whether `res` is a faithful account of performing `req`: the rolls conform
/// to the request, `sum_of_rolls` is their sum, and `total` is that sum plus
/// the modifier.
pub open spec fn valid_result(req: RollRequest, res: RollResult) -> bool {
    &&& valid_rolls(res.rolls@, req)
    &&& res.sum_of_rolls == sum_rolls(res.rolls@)
    &&& res.total == sum_rolls(res.rolls@) + req.modifier
}

/// For every well-formed request and every outcome that conforms to it, there
/// are exactly `count` rolls, every roll lies in `[1, sides]`, and the total
/// is the sum of the individual rolls plus the modifier.
pub proof fn lemma_roll_result_law(req: RollRequest, res: RollResult)
    requires
        valid_result(req, res),
    ensures
        res.rolls@.len() == req.count,
        forall|k: int| 0 <= k < res.rolls@.len() ==> 1 <= #[trigger] res.rolls@[k] <= req.sides,
        res.total == sum_rolls(res.rolls@) + req.modifier,
{
}

/// Relies on rand's `RngExt::random_range` over the inclusive range
/// `1..=sides`: the sampled value lies within that (non-empty) range.
#[verifier::external_body]
fn roll_die(sides: u32) -> (r: u32)
    requires
        1 <= sides,
    ensures
        1 <= r <= sides,
{
    rand::rng().random_range(1..=sides)
}

/// Draws `count` independent rolls of a die with `sides` sides.
pub fn roll_dice(count: u32, sides: u32) -> (rolls: Vec<u32>)
    requires
        1 <= sides,
    ensures
        rolls@.len() == count,
        forall|k: int| 0 <= k < rolls@.len() ==> 1 <= #[trigger] rolls@[k] <= sides,
{
    let mut v: Vec<u32> = Vec::new();
    let mut i: u32 = 0;
    while i < count
        invariant
            i <= count,
            v@.len() == i,
            1 <= sides,
            forall|k: int| 0 <= k < v@.len() ==> 1 <= #[trigger] v@[k] <= sides,
        decreases count - i,
    {
        let r = roll_die(sides);
        v.push(r);
        i = i + 1;
    }
    v
}

/// Performs a request: draws the rolls, sums them, and applies the modifier.
pub fn perform(req: &RollRequest) -> (res: RollResult)
    requires
        req.wf(),
    ensures
        valid_result(*req, res),
{
    let rolls = roll_dice(req.count, req.sides);
    let mut sum: u64 = 0;
    let mut idx: usize = 0;
    while idx < rolls.len()
        invariant
            idx <= rolls@.len(),
            rolls@.len() == req.count,
            req.wf(),
            forall|k: int| 0 <= k < rolls@.len() ==> 1 <= #[trigger] rolls@[k] <= req.sides,
            sum == sum_rolls(rolls@.subrange(0, idx as int)),
            sum <= idx * (i32::MAX as int),
        decreases rolls@.len() - idx,
    {
        proof {
            let shorter = rolls@.subrange(0, idx as int);
            let longer = rolls@.subrange(0, idx + 1);
            assert(longer.drop_last() =~= shorter);
            assert(longer.last() == rolls@[idx as int]);
        }
        sum = sum + rolls[idx] as u64;
        idx = idx + 1;
    }
    proof {
        assert(rolls@.subrange(0, rolls@.len() as int) =~= rolls@);
    }
    let total: i64 = sum as i64 + req.modifier as i64;
    RollResult { rolls, sum_of_rolls: sum, total }
}

} // verus!
