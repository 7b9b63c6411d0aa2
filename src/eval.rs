use vstd::prelude::*;
use crate::tree::{BinOp, Modifier, RollError, Expr, Tree};
use crate::select::{sum_of, keep_sum, total_of, keep_extreme};
use crate::dice::{Dice, fair_standard, fair_custom};

verus! {

/// What evaluating a tree against a log of drawn batches gives: the value,
/// the position of the first batch not read, and whether every batch read
/// was a fair draw for the die it stood for.
pub struct Outcome {
    pub value: Result<i64, RollError>,
    pub next: int,
    pub fair: bool,
}

pub open spec fn in_i64(v: int) -> bool {
    i64::MIN <= v <= i64::MAX
}

/// `v` as a result, or an overflow when it leaves the 64-bit range.
pub open spec fn fitted(v: int) -> Result<i64, RollError> {
    if in_i64(v) {
        Ok(v as i64)
    } else {
        Err(RollError::Overflow)
    }
}

/// Integer division rounding toward zero.
pub open spec fn trunc_div(x: int, y: int) -> int {
    let q = if x >= 0 && y > 0 {
        x / y
    } else if x < 0 && y < 0 {
        (-x) / (-y)
    } else if x < 0 {
        -((-x) / y)
    } else {
        -(x / (-y))
    };
    q
}

pub open spec fn apply(op: BinOp, x: i64, y: i64) -> Result<i64, RollError> {
    match op {
        BinOp::Plus => fitted(x + y),
        BinOp::Minus => fitted(x - y),
        BinOp::Times => fitted(x * y),
        BinOp::Slash => if y == 0 {
            Err(RollError::DivisionByZero)
        } else {
            fitted(trunc_div(x as int, y as int))
        },
    }
}

pub open spec fn abs(n: i64) -> int {
    if n < 0 {
        -n
    } else {
        n as int
    }
}

/// How many dice a roll of `n` dice with modifier `m` draws.
pub open spec fn draw_count(n: i64, m: Modifier) -> int {
    match m {
        Modifier::Advantage | Modifier::Disadvantage => 2 * abs(n),
        _ => abs(n),
    }
}

/// The error, if any, that a roll of `n` dice with modifier `m` meets before
/// any die is drawn.
pub open spec fn roll_check(n: i64, m: Modifier) -> Option<RollError> {
    if n == 0 {
        Some(RollError::ZeroCount)
    } else {
        match m {
            Modifier::Best(k) | Modifier::Worst(k) => if k < 1 {
                Some(RollError::NonPositiveKeep)
            } else {
                None
            },
            Modifier::Advantage | Modifier::Disadvantage => if draw_count(n, m) > u64::MAX {
                Some(RollError::Overflow)
            } else {
                None
            },
            _ => None,
        }
    }
}

/// What modifier `m` keeps of the batch `b` drawn for `n` dice.
pub open spec fn kept(b: Seq<i64>, n: i64, m: Modifier) -> int {
    match m {
        Modifier::All => sum_of(b),
        Modifier::Best(k) => keep_sum(b, k as int, true),
        Modifier::Worst(k) => keep_sum(b, k as int, false),
        Modifier::Advantage => keep_sum(b, abs(n), true),
        Modifier::Disadvantage => keep_sum(b, abs(n), false),
    }
}

/// The roll's total: the kept sum, negated for a negative count.
pub open spec fn signed_total(n: i64, agg: int) -> Result<i64, RollError> {
    fitted(if n < 0 { -agg } else { agg })
}

/// Evaluates `e`, reading the batch for each roll from `log`, starting at
/// position `p`. Operands are evaluated left to right, a roll's count before
/// its sides, and each roll reads one batch after its operands.
pub open spec fn eval_from(e: Tree, log: Seq<Seq<i64>>, p: int) -> Outcome
    decreases e,
{
    match e {
        Tree::Number(v) => Outcome { value: Ok(v), next: p, fair: true },
        Tree::Group(inner) => eval_from(*inner, log, p),
        Tree::Binary(op, l, r) => {
            let a = eval_from(*l, log, p);
            match a.value {
                Err(_) => a,
                Ok(x) => {
                    let b = eval_from(*r, log, a.next);
                    Outcome {
                        value: match b.value {
                            Err(err) => Err(err),
                            Ok(y) => apply(op, x, y),
                        },
                        next: b.next,
                        fair: a.fair && b.fair,
                    }
                },
            }
        },
        Tree::Standard(c, s, m) => {
            let a = eval_from(*c, log, p);
            match a.value {
                Err(_) => a,
                Ok(n) => {
                    let b = eval_from(*s, log, a.next);
                    let fair = a.fair && b.fair;
                    match b.value {
                        Err(err) => Outcome { value: Err(err), next: b.next, fair },
                        Ok(sides) => if sides < 1 {
                            Outcome { value: Err(RollError::NonPositiveSides), next: b.next, fair }
                        } else {
                            match roll_check(n, m) {
                                Some(err) => Outcome { value: Err(err), next: b.next, fair },
                                None => {
                                    let batch = log[b.next];
                                    Outcome {
                                        value: signed_total(n, kept(batch, n, m)),
                                        next: b.next + 1,
                                        fair: fair && fair_standard(
                                            batch,
                                            draw_count(n, m),
                                            sides as int,
                                        ),
                                    }
                                },
                            }
                        },
                    }
                },
            }
        },
        Tree::Custom(c, faces, m) => {
            let a = eval_from(*c, log, p);
            match a.value {
                Err(_) => a,
                Ok(n) => match roll_check(n, m) {
                    Some(err) => Outcome { value: Err(err), next: a.next, fair: a.fair },
                    None => if faces.len() == 0 {
                        Outcome { value: Err(RollError::NoFaces), next: a.next, fair: a.fair }
                    } else {
                        let batch = log[a.next];
                        Outcome {
                            value: signed_total(n, kept(batch, n, m)),
                            next: a.next + 1,
                            fair: a.fair && fair_custom(batch, draw_count(n, m), faces),
                        }
                    },
                },
            }
        },
    }
}

/// `big` starts with `log`.
pub open spec fn extends(big: Seq<Seq<i64>>, log: Seq<Seq<i64>>) -> bool {
    log.len() <= big.len() && forall|i: int| 0 <= i < log.len() ==> big[i] == #[trigger] log[i]
}

proof fn lemma_next_grows(e: Tree, log: Seq<Seq<i64>>, p: int)
    ensures
        eval_from(e, log, p).next >= p,
    decreases e,
{
    match e {
        Tree::Number(_) => {},
        Tree::Group(inner) => lemma_next_grows(*inner, log, p),
        Tree::Binary(_, l, r) | Tree::Standard(l, r, _) => {
            lemma_next_grows(*l, log, p);
            lemma_next_grows(*r, log, eval_from(*l, log, p).next);
        },
        Tree::Custom(c, _, _) => lemma_next_grows(*c, log, p),
    }
}

/// An evaluation that reads only the first batches of `log` gives the same
/// outcome on any longer log.
proof fn lemma_eval_stable(e: Tree, log: Seq<Seq<i64>>, big: Seq<Seq<i64>>, p: int)
    requires
        extends(big, log),
        p >= 0,
        eval_from(e, log, p).next <= log.len(),
    ensures
        eval_from(e, big, p) == eval_from(e, log, p),
    decreases e,
{
    match e {
        Tree::Number(_) => {},
        Tree::Group(inner) => lemma_eval_stable(*inner, log, big, p),
        Tree::Binary(_, l, r) | Tree::Standard(l, r, _) => {
            let a = eval_from(*l, log, p);
            lemma_next_grows(*l, log, p);
            if a.value is Ok {
                lemma_next_grows(*r, log, a.next);
                lemma_eval_stable(*l, log, big, p);
                lemma_eval_stable(*r, log, big, a.next);
            } else {
                lemma_eval_stable(*l, log, big, p);
            }
        },
        Tree::Custom(c, _, _) => {
            lemma_next_grows(*c, log, p);
            lemma_eval_stable(*c, log, big, p);
        },
    }
}

} // verus!

verus! {

fn apply_op(op: BinOp, x: i64, y: i64) -> (r: Result<i64, RollError>)
    ensures
        r == apply(op, x, y),
{
    let v = match op {
        BinOp::Plus => x.checked_add(y),
        BinOp::Minus => x.checked_sub(y),
        BinOp::Times => x.checked_mul(y),
        BinOp::Slash => {
            if y == 0 {
                return Err(RollError::DivisionByZero);
            }
            x.checked_div(y)
        },
    };
    match v {
        Some(v) => Ok(v),
        None => Err(RollError::Overflow),
    }
}

fn abs_of(n: i64) -> (r: u64)
    ensures
        r as int == abs(n),
{
    if n < 0 {
        (-(n as i128)) as u64
    } else {
        n as u64
    }
}

fn check_roll(n: i64, m: Modifier) -> (r: Option<RollError>)
    ensures
        r == roll_check(n, m),
{
    if n == 0 {
        return Some(RollError::ZeroCount);
    }
    match m {
        Modifier::Best(k) | Modifier::Worst(k) => if k < 1 {
            Some(RollError::NonPositiveKeep)
        } else {
            None
        },
        Modifier::Advantage | Modifier::Disadvantage => if abs_of(n) > u64::MAX / 2 {
            Some(RollError::Overflow)
        } else {
            None
        },
        _ => None,
    }
}

fn draws_for(n: i64, m: Modifier) -> (c: u64)
    requires
        roll_check(n, m) is None,
    ensures
        c as int == draw_count(n, m),
{
    match m {
        Modifier::Advantage | Modifier::Disadvantage => abs_of(n) * 2,
        _ => abs_of(n),
    }
}

fn kept_total(b: &Vec<i64>, n: i64, m: Modifier) -> (r: i128)
    requires
        roll_check(n, m) is None,
    ensures
        r as int == kept(b@, n, m),
        r > i128::MIN,
{
    match m {
        Modifier::All => total_of(b),
        Modifier::Best(k) => keep_extreme(b, k as u64, true),
        Modifier::Worst(k) => keep_extreme(b, k as u64, false),
        Modifier::Advantage => keep_extreme(b, abs_of(n), true),
        Modifier::Disadvantage => keep_extreme(b, abs_of(n), false),
    }
}

fn signed(n: i64, agg: i128) -> (r: Result<i64, RollError>)
    requires
        agg > i128::MIN,
    ensures
        r == signed_total(n, agg as int),
{
    let v: i128 = if n < 0 {
        -agg
    } else {
        agg
    };
    if i64::MIN as i128 <= v && v <= i64::MAX as i128 {
        Ok(v as i64)
    } else {
        Err(RollError::Overflow)
    }
}

/// Evaluates a parse tree, drawing one batch from `dice` for each roll that
/// passes its checks. The result is `eval_from` of the tree over the batches
/// drawn by this call, all of which are fair.
pub fn compute(e: &Expr, dice: &mut Dice) -> (r: Result<i64, RollError>)
    ensures
        extends(final(dice).drawn(), old(dice).drawn()),
        eval_from(e.tree(), final(dice).drawn(), old(dice).drawn().len() as int) == (Outcome {
            value: r,
            next: final(dice).drawn().len() as int,
            fair: true,
        }),
    decreases e,
{
    let ghost log0 = dice.drawn();
    match e {
        Expr::Number(v) => Ok(*v),
        Expr::Group(inner) => compute(inner, dice),
        Expr::Binary(op, l, r) => {
            let x = match compute(l, dice) {
                Err(err) => return Err(err),
                Ok(x) => x,
            };
            let ghost log1 = dice.drawn();
            let y = compute(r, dice);
            proof {
                lemma_eval_stable((**l).tree(), log1, dice.drawn(), log0.len() as int);
            }
            match y {
                Err(err) => Err(err),
                Ok(y) => apply_op(*op, x, y),
            }
        },
        Expr::Standard(c, s, m) => {
            let n = match compute(c, dice) {
                Err(err) => return Err(err),
                Ok(n) => n,
            };
            let ghost log1 = dice.drawn();
            let sides = compute(s, dice);
            let ghost log2 = dice.drawn();
            proof {
                lemma_eval_stable((**c).tree(), log1, log2, log0.len() as int);
            }
            let sides = match sides {
                Err(err) => return Err(err),
                Ok(sides) => sides,
            };
            if sides < 1 {
                return Err(RollError::NonPositiveSides);
            }
            if let Some(err) = check_roll(n, *m) {
                return Err(err);
            }
            let count = draws_for(n, *m);
            let batch = dice.roll_standard(count, sides as u64);
            proof {
                assert(extends(dice.drawn(), log2));
                lemma_eval_stable((**c).tree(), log1, dice.drawn(), log0.len() as int);
                lemma_eval_stable((**s).tree(), log2, dice.drawn(), log1.len() as int);
                assert(dice.drawn()[log2.len() as int] == batch@);
            }
            let agg = kept_total(&batch, n, *m);
            signed(n, agg)
        },
        Expr::Custom(c, faces, m) => {
            let n = match compute(c, dice) {
                Err(err) => return Err(err),
                Ok(n) => n,
            };
            let ghost log1 = dice.drawn();
            if let Some(err) = check_roll(n, *m) {
                return Err(err);
            }
            if faces.len() == 0 {
                return Err(RollError::NoFaces);
            }
            let count = draws_for(n, *m);
            let batch = dice.roll_custom(count, faces);
            proof {
                assert(extends(dice.drawn(), log1));
                lemma_eval_stable((**c).tree(), log1, dice.drawn(), log0.len() as int);
                assert(dice.drawn()[log1.len() as int] == batch@);
            }
            let agg = kept_total(&batch, n, *m);
            signed(n, agg)
        },
    }
}

} // verus!
