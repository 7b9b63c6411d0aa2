//! Evaluation of tabletop dice notation such as `3d6+2`, `-2d[5,6,7]` or
//! `4d6best3` into a single signed total.
//!
//! `RollParser::parse` turns the notation into an `Expr`, exactly as the
//! grammar rules of `notation` give it. `compute` evaluates the tree against
//! `Dice`, which record every batch they hand out; the result is stated as
//! `eval_from` of the tree over the batches drawn. `roll_dice`,
//! `roll_dice_or_fail` and `Roller` do both steps on dice seeded from the
//! operating system.

mod tree;
mod select;
mod dice;
mod eval;
mod grammar;
mod parse;
mod roll;
mod laws;

pub use tree::{BinOp, Modifier, RollError, Expr, Tree};
pub use select::{sum_of, keep_extreme, total_of, keep_sum};
pub use dice::{Dice, fair_standard, fair_custom, exploding_draws};
pub use eval::{Outcome, eval_from, extends, compute};
pub use grammar::notation;
pub use parse::{RollParser, parsed};
pub use roll::{
    Roller,
    roll_dice,
    roll_dice_or_fail,
    roll_dice_with,
    roller_or_fail,
    possible,
    possible_on_os_dice,
    roll_dice_sure_with,
    FALLBACK_SEED,
    always_rolls,
};
pub use laws::{
    law_standard_roll_range,
    law_roll_text_parses,
    law_dice_letter_case,
    law_custom_text_parses,
    law_face_list_spacing,
    custom_text,
    face_text,
    face_separator,
    roll_text_with,
    law_keep_range,
    law_parse_repeatable,
    plain_roll,
    roll_text,
    signed_decimal,
    decimal,
    digit_char,
};
