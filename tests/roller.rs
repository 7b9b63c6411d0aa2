use rouler::{roll_dice, Roller};

#[test]
fn roll_dice_within_range() {
    for _ in 0..100 {
        let v = roll_dice("4d6");
        assert!(4 <= v && v <= 24);
    }
}

#[test]
fn roller_object_within_range() {
    let test_roll = Roller::new("2d6 + 4");
    let v = test_roll.total();
    assert!(6 <= v && v <= 16);
}

#[test]
fn reroll_changes_value() {
    let mut test_roll = Roller::new("100d100");
    assert_ne!(test_roll.total(), test_roll.reroll())
}

#[test]
fn roll_custom_dice_within_range() {
    for _ in 0..100 {
        let v = roll_dice("2d[5, 6, 7]");
        assert!(10 <= v && v <= 14)
    }
}

#[test]
fn custom_dice_spaces_optional() {
    for _ in 0..100 {
        let v = roll_dice("2d[5,6,7]");
        assert!(10 <= v && v <= 14)
    }
}

#[test]
fn negative_dice_negates_roll_value() {
    let v = Roller::new("-3d6").total();
    assert!(-18 <= v && v <= -3);
}

#[test]
#[should_panic(expected = "not be zero")]
fn num_of_dice_nonzero() {
    assert!(Roller::new("0d6").total() == 0);
}

#[test]
#[should_panic(expected = "greater than zero")]
fn non_zero_sides_disallowed() {
    assert!(Roller::new("3d-6").total() < 0);
}

#[test]
fn d_op_is_case_insensitive() {
    let a = Roller::new("1D6").total();
    assert!(1 <= a && a <= 6);
    let b = Roller::new("1d6").total();
    assert!(1 <= b && b <= 6);
}

#[test]
fn rollers_are_iterators() {
    let mut d20 = Roller::new("1d20");
    let mut roll5 = d20.iter(5);

    assert_eq!(5, roll5.len());
    assert_eq!(d20.total(), roll5.pop().unwrap());
}
