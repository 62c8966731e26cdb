use dice_roller::evaluate;
use dice_roller::notation::RollError;
use dice_roller::notation::RollRequest;
use dice_roller::notation::parse;
use dice_roller::render::render;
use dice_roller::rolling::RollResult;
use dice_roller::rolling::perform;
use dice_roller::rolling::roll_dice;

const FORMAT_MSG: &str = "Invalid dice roll format. Use format like '2d20+5' or '2d20-5'";
const COUNT_MSG: &str = "Invalid number of dice. You can't roll 0 or negative dice.";
const SIDES_MSG: &str = "Invalid number of sides on the dice. The dice gotta have at least 1 side.";

#[test]
fn one_d_one_is_deterministic() {
    assert_eq!(evaluate("1d1"), "🎲 Rolling 1d1: [1] = 1");
}

#[test]
fn zero_dice_gives_count_error() {
    assert_eq!(evaluate("0d6"), COUNT_MSG);
    assert_eq!(parse("0d6"), Err(RollError::Count));
    assert_eq!(parse("00d6"), Err(RollError::Count));
}

#[test]
fn zero_sides_gives_sides_error() {
    assert_eq!(evaluate("2d0"), SIDES_MSG);
    assert_eq!(parse("2d0"), Err(RollError::Sides));
    assert_eq!(parse("3d000"), Err(RollError::Sides));
}

#[test]
fn malformed_inputs_give_format_error() {
    for bad in ["abc", "2dX", "d", "foo", "", "5", "2d", "2d6+", "2d6++5", "+5", "2d-5",
        "1d2d3", "2D6", " 2d6", "2d6 ", "-1d6"]
    {
        assert_eq!(evaluate(bad), FORMAT_MSG, "input {:?}", bad);
        assert_eq!(parse(bad), Err(RollError::Format), "input {:?}", bad);
    }
}

#[test]
fn parse_reads_count_sides_and_modifier() {
    assert_eq!(parse("2d20+5"), Ok(RollRequest { count: 2, sides: 20, modifier: 5 }));
    assert_eq!(parse("2d20-5"), Ok(RollRequest { count: 2, sides: 20, modifier: -5 }));
    assert_eq!(parse("3d6"), Ok(RollRequest { count: 3, sides: 6, modifier: 0 }));
    assert_eq!(parse("1d1"), Ok(RollRequest { count: 1, sides: 1, modifier: 0 }));
    assert_eq!(parse("02d06+003"), Ok(RollRequest { count: 2, sides: 6, modifier: 3 }));
}

#[test]
fn omitted_count_defaults_to_one() {
    assert_eq!(parse("d6"), Ok(RollRequest { count: 1, sides: 6, modifier: 0 }));
    assert_eq!(parse("d6"), parse("1d6"));
    assert_eq!(parse("d20+5"), parse("1d20+5"));
    assert!(evaluate("d6").starts_with("🎲 Rolling 1d6: ["));
}

#[test]
fn huge_counts_and_sides_are_rejected() {
    assert_eq!(parse("99999999999d6"), Err(RollError::Count));
    assert_eq!(parse("2d99999999999"), Err(RollError::Sides));
    assert_eq!(parse("2147483647d2147483647"), Ok(RollRequest {
        count: 2147483647,
        sides: 2147483647,
        modifier: 0,
    }));
}

#[test]
fn huge_modifier_reads_as_zero() {
    assert_eq!(parse("2d6+99999999999"), Ok(RollRequest { count: 2, sides: 6, modifier: 0 }));
    assert_eq!(parse("2d6-2147483648"), Ok(RollRequest { count: 2, sides: 6, modifier: 0 }));
    assert_eq!(parse("2d6+2147483647"), Ok(RollRequest {
        count: 2,
        sides: 6,
        modifier: 2147483647,
    }));
    assert_eq!(parse("2d6-2147483647"), Ok(RollRequest {
        count: 2,
        sides: 6,
        modifier: -2147483647,
    }));
}

#[test]
fn three_d_six_plus_two_totals_rolls_plus_two() {
    let req = parse("3d6+2").unwrap();
    assert_eq!(req, RollRequest { count: 3, sides: 6, modifier: 2 });
    let res = perform(&req);
    assert_eq!(res.rolls.len(), 3);
    for &r in &res.rolls {
        assert!((1..=6).contains(&r));
    }
    let sum: u64 = res.rolls.iter().map(|&r| r as u64).sum();
    assert_eq!(res.sum_of_rolls, sum);
    assert_eq!(res.total, sum as i64 + 2);
}

#[test]
fn negative_modifier_subtracts_from_total() {
    let req = parse("2d4-3").unwrap();
    let res = perform(&req);
    let sum: u64 = res.rolls.iter().map(|&r| r as u64).sum();
    assert_eq!(res.total, sum as i64 - 3);
}

#[test]
fn render_writes_positive_modifier() {
    let req = RollRequest { count: 2, sides: 3, modifier: 1 };
    let res = RollResult { rolls: vec![2, 3], sum_of_rolls: 5, total: 6 };
    assert_eq!(render(&req, &res), "🎲 Rolling 2d3+1: [2 + 3] + 1 = 6");
}

#[test]
fn render_writes_negative_modifier() {
    let req = RollRequest { count: 1, sides: 4, modifier: -2 };
    let res = RollResult { rolls: vec![3], sum_of_rolls: 3, total: 1 };
    assert_eq!(render(&req, &res), "🎲 Rolling 1d4-2: [3] - 2 = 1");
}

#[test]
fn render_writes_negative_total() {
    let req = RollRequest { count: 1, sides: 1, modifier: -5 };
    let res = RollResult { rolls: vec![1], sum_of_rolls: 1, total: -4 };
    assert_eq!(render(&req, &res), "🎲 Rolling 1d1-5: [1] - 5 = -4");
}

#[test]
fn render_omits_zero_modifier() {
    let req = RollRequest { count: 2, sides: 10, modifier: 0 };
    let res = RollResult { rolls: vec![7, 4], sum_of_rolls: 11, total: 11 };
    assert_eq!(render(&req, &res), "🎲 Rolling 2d10: [7 + 4] = 11");
}

#[test]
fn evaluate_echoes_the_modifier_with_its_sign() {
    let plus = evaluate("2d20+5");
    assert!(plus.starts_with("🎲 Rolling 2d20+5: ["), "got {:?}", plus);
    assert!(plus.contains("] + 5 = "), "got {:?}", plus);
    let minus = evaluate("2d20-5");
    assert!(minus.starts_with("🎲 Rolling 2d20-5: ["), "got {:?}", minus);
    assert!(minus.contains("] - 5 = "), "got {:?}", minus);
}

#[test]
fn hundred_one_sided_dice_are_fully_determined() {
    let rolls = vec!["1"; 100].join(" + ");
    assert_eq!(evaluate("100d1"), format!("🎲 Rolling 100d1: [{}] = 100", rolls));
}

#[test]
fn roll_dice_stays_in_range_and_varies() {
    let rolls = roll_dice(300, 6);
    assert_eq!(rolls.len(), 300);
    for &r in &rolls {
        assert!((1..=6).contains(&r));
    }
    // A draw that ignored the range and echoed one endpoint would make every
    // roll equal; 300 uniform draws from six values never do.
    let first = rolls[0];
    assert!(rolls.iter().any(|&r| r != first));
}

#[test]
fn evaluate_output_counts_rolls() {
    let reply = evaluate("5d8");
    assert!(reply.starts_with("🎲 Rolling 5d8: ["), "got {:?}", reply);
    let inside = &reply[reply.find('[').unwrap() + 1..reply.find(']').unwrap()];
    let parts: Vec<&str> = inside.split(" + ").collect();
    assert_eq!(parts.len(), 5);
    let mut sum: i64 = 0;
    for p in &parts {
        let v: i64 = p.parse().unwrap();
        assert!((1..=8).contains(&v));
        sum += v;
    }
    assert_eq!(reply, format!("🎲 Rolling 5d8: [{}] = {}", inside, sum));
}
