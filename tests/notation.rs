use rouler::{
    compute, keep_extreme, roll_dice, roll_dice_or_fail, roll_dice_with, roller_or_fail, RollParser,
    roll_dice_sure_with, total_of, BinOp, Dice, Expr, Modifier, RollError, Roller,
};

fn num(v: i64) -> Box<Expr> {
    Box::new(Expr::Number(v))
}

#[test]
fn tree_of_sum_with_roll() {
    let expected = Expr::Binary(
        BinOp::Plus,
        Box::new(Expr::Standard(num(2), num(6), Modifier::All)),
        num(4),
    );
    assert_eq!(RollParser::parse("2d6 + 4"), Ok(expected));
}

#[test]
fn dice_chain_groups_to_the_right() {
    let expected = Expr::Standard(
        num(2),
        Box::new(Expr::Standard(num(3), num(6), Modifier::All)),
        Modifier::All,
    );
    assert_eq!(RollParser::parse("2d3d6"), Ok(expected));
}

#[test]
fn modifier_belongs_to_the_last_roll() {
    let expected = Expr::Standard(
        num(2),
        Box::new(Expr::Standard(num(3), num(6), Modifier::Best(1))),
        Modifier::All,
    );
    assert_eq!(RollParser::parse("2d3d6best1"), Ok(expected));
    let v = roll_dice("2d3d6best1");
    assert!(2 <= v && v <= 12);
}

#[test]
fn modifiers_parse() {
    assert_eq!(RollParser::parse("4d6best3"), Ok(Expr::Standard(num(4), num(6), Modifier::Best(3))));
    assert_eq!(RollParser::parse("4d6 worst 2"), Ok(Expr::Standard(num(4), num(6), Modifier::Worst(2))));
    assert_eq!(RollParser::parse("1d20adv"), Ok(Expr::Standard(num(1), num(20), Modifier::Advantage)));
    assert_eq!(RollParser::parse("1d20dis"), Ok(Expr::Standard(num(1), num(20), Modifier::Disadvantage)));
}

#[test]
fn dice_letter_case_gives_same_tree() {
    assert_eq!(RollParser::parse("1D6"), RollParser::parse("1d6"));
    assert!(RollParser::parse("1D6").is_ok());
}

#[test]
fn custom_list_spacing_gives_same_tree() {
    assert_eq!(RollParser::parse("2d[5,6,7]"), RollParser::parse("2d[5, 6, 7]"));
    assert_eq!(
        RollParser::parse("2d[5,6,7]"),
        Ok(Expr::Custom(num(2), vec![5, 6, 7], Modifier::All))
    );
}

#[test]
fn parsing_twice_gives_same_tree() {
    let text = "(2d6 + 3) * -1d[4, -2] / 2";
    assert_eq!(RollParser::parse(text), RollParser::parse(text));
    assert!(RollParser::parse(text).is_ok());
}

#[test]
fn arithmetic_precedence_and_associativity() {
    assert_eq!(roll_dice_or_fail("1+2*3"), Ok(7));
    assert_eq!(roll_dice_or_fail("(1+2)*3"), Ok(9));
    assert_eq!(roll_dice_or_fail("10-2-3"), Ok(5));
    assert_eq!(roll_dice_or_fail("8/2/2"), Ok(2));
    assert_eq!(roll_dice_or_fail(" 2 - -3 "), Ok(5));
}

#[test]
fn division_truncates_toward_zero() {
    assert_eq!(roll_dice_or_fail("7/2"), Ok(3));
    assert_eq!(roll_dice_or_fail("-7/2"), Ok(-3));
    assert_eq!(roll_dice_or_fail("7/-2"), Ok(-3));
}

#[test]
fn extreme_literals() {
    assert_eq!(roll_dice_or_fail("-9223372036854775808"), Ok(i64::MIN));
    assert_eq!(roll_dice_or_fail("9223372036854775807"), Ok(i64::MAX));
    assert_eq!(roll_dice_or_fail("9223372036854775808"), Err(RollError::Syntax(0)));
}

#[test]
fn syntax_errors_carry_position() {
    assert_eq!(roll_dice_or_fail("food4"), Err(RollError::Syntax(0)));
    assert_eq!(roll_dice_or_fail(""), Err(RollError::Syntax(0)));
    assert_eq!(roll_dice_or_fail("2d6)"), Err(RollError::Syntax(3)));
    assert_eq!(roll_dice_or_fail("(1+2"), Err(RollError::Syntax(4)));
    assert_eq!(roll_dice_or_fail("01"), Err(RollError::Syntax(0)));
    assert_eq!(roll_dice_or_fail("2d[]"), Err(RollError::Syntax(3)));
    assert!(!RollError::Syntax(0).is_validation());
}

#[test]
fn zero_count_is_a_validation_error() {
    let e = roll_dice_or_fail("0d6");
    assert_eq!(e, Err(RollError::ZeroCount));
    assert!(RollError::ZeroCount.message().contains("zero"));
    assert!(RollError::ZeroCount.is_validation());
}

#[test]
fn negative_sides_is_a_validation_error() {
    assert_eq!(roll_dice_or_fail("3d-6"), Err(RollError::NonPositiveSides));
    assert_eq!(roll_dice_or_fail("0d-6"), Err(RollError::NonPositiveSides));
    assert!(RollError::NonPositiveSides.message().contains("greater than zero"));
}

#[test]
fn other_validation_errors() {
    assert_eq!(roll_dice_or_fail("2d6best0"), Err(RollError::NonPositiveKeep));
    assert_eq!(roll_dice_or_fail("1/0"), Err(RollError::DivisionByZero));
    assert_eq!(roll_dice_or_fail("9223372036854775807+1"), Err(RollError::Overflow));
    assert_eq!(roll_dice_or_fail("-9223372036854775808/-1"), Err(RollError::Overflow));
    let mut dice = Dice::seeded(3);
    let no_faces = Expr::Custom(num(2), vec![], Modifier::All);
    assert_eq!(compute(&no_faces, &mut dice), Err(RollError::NoFaces));
}

#[test]
fn roller_or_fail_reports_errors() {
    assert!(roller_or_fail("food4").is_err());
    let r = roller_or_fail("3d6").unwrap();
    assert!(3 <= r.total() && r.total() <= 18);
}

#[test]
fn best_of_fixed_samples() {
    assert_eq!(keep_extreme(&vec![1, 6, 3, 2], 3, true), 11);
    assert_eq!(keep_extreme(&vec![1, 6, 3, 2], 3, false), 6);
    assert_eq!(keep_extreme(&vec![1, 6], 5, true), 7);
    assert_eq!(keep_extreme(&vec![4, 4, 1], 1, true), 4);
    assert_eq!(total_of(&vec![1, 2, 3]), 6);
    assert_eq!(total_of(&vec![i64::MAX, i64::MAX]), 2 * (i64::MAX as i128));
}

#[test]
fn best_three_of_four_within_range() {
    for _ in 0..100 {
        let v = roll_dice("4d6best3");
        assert!(3 <= v && v <= 18);
    }
}

#[test]
fn advantage_and_disadvantage_within_range() {
    for _ in 0..100 {
        let a = roll_dice("1d20adv");
        assert!(1 <= a && a <= 20);
        let d = roll_dice("3d6 dis");
        assert!(3 <= d && d <= 18);
        let w = roll_dice("5d4worst2");
        assert!(2 <= w && w <= 8);
    }
}

#[test]
fn standard_roll_range_for_several_counts() {
    for (n, s) in [(1i64, 1i64), (3, 6), (-2, 8), (10, 2), (-1, 20)] {
        let v = roll_dice_or_fail(&format!("{}d{}", n, s)).unwrap();
        if n > 0 {
            assert!(n <= v && v <= n * s);
        } else {
            assert!(n * s <= v && v <= n);
        }
    }
}

#[test]
fn custom_faces_may_be_negative_or_zero() {
    for _ in 0..100 {
        let v = roll_dice("3d[-1, 0, 1]");
        assert!(-3 <= v && v <= 3);
        let w = roll_dice("-2d[5,6,7]");
        assert!(-14 <= w && w <= -10);
    }
}

#[test]
fn seeded_dice_repeat() {
    let mut a = Dice::seeded(42);
    let mut b = Dice::seeded(42);
    for _ in 0..10 {
        assert_eq!(roll_dice_with("10d6 + 2d[1,5]", &mut a), roll_dice_with("10d6 + 2d[1,5]", &mut b));
    }
}

#[test]
fn die_draws_vary() {
    let mut seen_low = false;
    for _ in 0..200 {
        if roll_dice("1d6") < 6 {
            seen_low = true;
        }
    }
    assert!(seen_low);
    let mut seen = [false; 3];
    for _ in 0..200 {
        let v = roll_dice("1d[1, 2, 3]");
        seen[(v - 1) as usize] = true;
    }
    assert!(seen[0] && seen[1] && seen[2]);
}

#[test]
fn rerolls_almost_always_differ() {
    let mut r = Roller::new("100d100");
    let mut differing = 0;
    for _ in 0..20 {
        let before = r.total();
        if r.reroll() != before {
            differing += 1;
        }
    }
    assert!(differing >= 18);
}

#[test]
fn rollers_compare_by_total() {
    assert!(Roller::new("5") == Roller::new("2+3"));
    assert!(Roller::new("5") != Roller::new("4"));
}

#[test]
fn exploding_die_needs_two_sides() {
    let mut dice = Dice::seeded(1);
    assert_eq!(dice.roll_exploding(1), Err(RollError::ExplodingSides));
    assert_eq!(dice.roll_exploding(0), Err(RollError::ExplodingSides));
}

#[test]
fn exploding_die_values() {
    let mut dice = Dice::seeded(9);
    let mut exploded = false;
    for _ in 0..300 {
        let v = dice.roll_exploding(2).unwrap();
        assert!(v >= 1);
        // With two sides a value is a run of twos ended by a one.
        assert_eq!(v % 2, 1);
        if v > 2 {
            exploded = true;
        }
    }
    assert!(exploded);
}

#[test]
fn rollers_order_by_total() {
    assert!(Roller::new("2") < Roller::new("3"));
    assert!(Roller::new("1d6 + 10") > Roller::new("1d6"));
    assert_eq!(Roller::new("3d6").roll(), "3d6");
}

#[test]
fn error_messages_name_the_rule() {
    assert_eq!(RollError::ZeroCount.message(), "the number of dice must not be zero");
    assert_eq!(
        RollError::NonPositiveSides.message(),
        "the number of sides must be greater than zero"
    );
    assert!(RollError::NoRandomSource.message().contains("entropy"));
    assert!(RollError::Syntax(3).message().contains("syntax"));
}

#[test]
fn entropy_dice_are_available() {
    let mut dice = Dice::from_entropy().unwrap();
    let v = roll_dice_with("2d6", &mut dice).unwrap();
    assert!(2 <= v && v <= 12);
    let mut other = Dice::from_entropy_or_seed(5);
    let w = roll_dice_sure_with("1d4", &mut other);
    assert!(1 <= w && w <= 4);
}

#[test]
fn reroll_with_seeded_dice_repeats() {
    let mut a = Roller::new("10d10");
    let mut b = Roller::new("10d10");
    let mut da = Dice::seeded(11);
    let mut db = Dice::seeded(11);
    for _ in 0..5 {
        let x = a.reroll_with(&mut da);
        assert_eq!(x, b.reroll_with(&mut db));
        assert_eq!(x, a.total());
        assert!(10 <= x && x <= 100);
    }
}
