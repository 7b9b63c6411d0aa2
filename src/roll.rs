use vstd::prelude::*;
use crate::tree::RollError;
use crate::grammar::notation;
use crate::eval::{Outcome, eval_from, extends, compute};
use crate::dice::Dice;
use crate::parse::RollParser;

verus! {

/// `v` is a result that evaluating the notation `s` can give with fair dice:
/// the syntax error for a text outside the grammar, otherwise the value of
/// the tree over some log of fair batches that it reads to the end.
pub open spec fn possible(s: Seq<char>, v: Result<i64, RollError>) -> bool {
    match notation(s) {
        Err(x) => v == Err::<i64, RollError>(RollError::Syntax(x as usize)),
        Ok(t) => exists|log: Seq<Seq<i64>>|
            #[trigger] eval_from(t, log, 0) == (Outcome {
                value: v,
                next: log.len() as int,
                fair: true,
            }),
    }
}

/// The notation parses, and no fair draw makes its evaluation fail.
pub open spec fn always_rolls(s: Seq<char>) -> bool {
    &&& notation(s) is Ok
    &&& forall|log: Seq<Seq<i64>>, p: int| #[trigger]
        eval_from(notation(s)->Ok_0, log, p).fair ==> eval_from(
            notation(s)->Ok_0,
            log,
            p,
        ).value is Ok
}

/// Parses and evaluates `r`, drawing from `dice`. A syntax error draws
/// nothing; otherwise the result is the tree's value over the batches drawn
/// by this call.
pub fn roll_dice_with(r: &str, dice: &mut Dice) -> (v: Result<i64, RollError>)
    ensures
        match notation(r@) {
            Err(x) => v == Err::<i64, RollError>(RollError::Syntax(x as usize)) && final(dice).drawn()
                == old(dice).drawn(),
            Ok(t) => extends(final(dice).drawn(), old(dice).drawn()) && eval_from(
                t,
                final(dice).drawn(),
                old(dice).drawn().len() as int,
            ) == (Outcome { value: v, next: final(dice).drawn().len() as int, fair: true }),
        },
{
    match RollParser::parse(r) {
        Err(e) => Err(e),
        Ok(tree) => compute(&tree, dice),
    }
}

/// `v` is what rolling the notation `s` on dice seeded from the operating
/// system can give: a possible result, or, for a notation that parses, the
/// error that no entropy could be had.
pub open spec fn possible_on_os_dice(s: Seq<char>, v: Result<i64, RollError>) -> bool {
    possible(s, v) || (notation(s) is Ok && v == Err::<i64, RollError>(
        RollError::NoRandomSource,
    ))
}

/// The seed of the dice of `roll_dice` and `Roller` where the operating
/// system gives no entropy.
pub const FALLBACK_SEED: u64 = 0x5eed_d1ce;

/// Parses and evaluates `r` on dice seeded from the operating system.
pub fn roll_dice_or_fail(r: &str) -> (v: Result<i64, RollError>)
    ensures
        possible_on_os_dice(r@, v),
{
    match Dice::from_entropy() {
        Some(mut dice) => {
            let v = roll_dice_with(r, &mut dice);
            proof {
                if notation(r@) is Ok {
                    assert(eval_from(notation(r@)->Ok_0, dice.drawn(), 0).value == v);
                }
            }
            v
        },
        None => match RollParser::parse(r) {
            Err(e) => Err(e),
            Ok(_) => Err(RollError::NoRandomSource),
        },
    }
}

/// Rolls `r`, whose notation never fails to compute, on `dice`. Given a
/// notation that can fail, it stops the program with the error's message.
pub fn roll_dice_sure_with(r: &str, dice: &mut Dice) -> (v: i64)
    requires
        always_rolls(r@),
    ensures
        extends(final(dice).drawn(), old(dice).drawn()),
        eval_from(notation(r@)->Ok_0, final(dice).drawn(), old(dice).drawn().len() as int) == (
        Outcome { value: Ok::<i64, RollError>(v), next: final(dice).drawn().len() as int, fair: true }),
{
    match roll_dice_with(r, dice) {
        Ok(v) => v,
        Err(e) => {
            proof {
                assert(eval_from(
                    notation(r@)->Ok_0,
                    dice.drawn(),
                    old(dice).drawn().len() as int,
                ).fair);
            }
            let stop: Option<i64> = None;
            stop.expect(e.message())
        },
    }
}

/// Rolls `r`, whose notation never fails to compute, on dice seeded from the
/// operating system (from `FALLBACK_SEED` where it gives no entropy). Given
/// a notation that can fail, it stops the program with the error's message.
pub fn roll_dice(r: &str) -> (v: i64)
    requires
        always_rolls(r@),
    ensures
        possible(r@, Ok(v)),
{
    let mut dice = Dice::from_entropy_or_seed(FALLBACK_SEED);
    let v = roll_dice_sure_with(r, &mut dice);
    proof {
        assert(eval_from(notation(r@)->Ok_0, dice.drawn(), 0).value == Ok::<i64, RollError>(v));
    }
    v
}

/// A stored dice notation with the result of its latest roll.
pub struct Roller<'a> {
    roll: &'a str,
    total: i64,
}

/// Parses and rolls `r`, keeping it for later rolls.
pub fn roller_or_fail<'a>(r: &'a str) -> (res: Result<Roller<'a>, RollError>)
    ensures
        match res {
            Ok(x) => x.notation() == r@ && possible(r@, Ok(x.last())),
            Err(e) => possible_on_os_dice(r@, Err(e)),
        },
{
    match roll_dice_or_fail(r) {
        Ok(total) => Ok(Roller { roll: r, total }),
        Err(e) => Err(e),
    }
}

impl<'a> Roller<'a> {
    /// The stored notation.
    pub closed spec fn notation(&self) -> Seq<char> {
        self.roll@
    }

    /// The result of the latest roll.
    pub closed spec fn last(&self) -> i64 {
        self.total
    }

    /// Stores `roll` and rolls it once.
    pub fn new(roll: &'a str) -> (r: Self)
        requires
            always_rolls(roll@),
        ensures
            r.notation() == roll@,
            possible(roll@, Ok(r.last())),
    {
        Roller { roll, total: roll_dice(roll) }
    }

    /// Rolls the stored notation again and keeps the result.
    pub fn reroll(&mut self) -> (v: i64)
        requires
            always_rolls(old(self).notation()),
        ensures
            final(self).notation() == old(self).notation(),
            final(self).last() == v,
            possible(old(self).notation(), Ok(v)),
    {
        let mut dice = Dice::from_entropy_or_seed(FALLBACK_SEED);
        let v = self.reroll_with(&mut dice);
        proof {
            assert(eval_from(notation(old(self).notation())->Ok_0, dice.drawn(), 0).value == Ok::<
                i64,
                RollError,
            >(v));
        }
        v
    }

    /// Rolls the stored notation again on `dice` and keeps the result: the
    /// value of its tree over the batches drawn by this call.
    pub fn reroll_with(&mut self, dice: &mut Dice) -> (v: i64)
        requires
            always_rolls(old(self).notation()),
        ensures
            final(self).notation() == old(self).notation(),
            final(self).last() == v,
            extends(final(dice).drawn(), old(dice).drawn()),
            eval_from(
                notation(old(self).notation())->Ok_0,
                final(dice).drawn(),
                old(dice).drawn().len() as int,
            ) == (Outcome {
                value: Ok::<i64, RollError>(v),
                next: final(dice).drawn().len() as int,
                fair: true,
            }),
    {
        self.total = roll_dice_sure_with(self.roll, dice);
        self.total
    }

    /// The stored notation.
    pub fn roll(&self) -> (r: &'a str)
        ensures
            r@ == self.notation(),
    {
        self.roll
    }

    /// The result of the latest roll.
    pub fn total(&self) -> (v: i64)
        ensures
            v == self.last(),
    {
        self.total
    }

    /// Rolls `count` more times; the results in order, the last one kept.
    pub fn iter(&mut self, count: usize) -> (v: Vec<i64>)
        requires
            always_rolls(old(self).notation()),
        ensures
            final(self).notation() == old(self).notation(),
            v.len() == count,
            forall|i: int| 0 <= i < count ==> possible(old(self).notation(), Ok(#[trigger] v[i])),
            count == 0 ==> final(self).last() == old(self).last(),
            count > 0 ==> final(self).last() == v[count - 1],
    {
        let mut v: Vec<i64> = Vec::new();
        let mut i: usize = 0;
        while i < count
            invariant
                i <= count,
                v.len() == i,
                self.notation() == old(self).notation(),
                always_rolls(old(self).notation()),
                forall|j: int| 0 <= j < i ==> possible(old(self).notation(), Ok(#[trigger] v[j])),
                i == 0 ==> self.last() == old(self).last(),
                i > 0 ==> self.last() == v[i - 1],
            decreases count - i,
        {
            let x = self.reroll();
            v.push(x);
            i = i + 1;
        }
        v
    }
}

impl<'a> PartialEq for Roller<'a> {
    fn eq(&self, o: &Roller<'a>) -> (r: bool) {
        self.total == o.total
    }
}

impl<'a> vstd::std_specs::cmp::PartialEqSpecImpl for Roller<'a> {
    open spec fn obeys_eq_spec() -> bool {
        true
    }

    open spec fn eq_spec(&self, o: &Roller<'a>) -> bool {
        self.last() == o.last()
    }
}

impl<'a> PartialOrd for Roller<'a> {
    fn partial_cmp(&self, o: &Roller<'a>) -> (r: Option<core::cmp::Ordering>) {
        if self.total < o.total {
            Some(core::cmp::Ordering::Less)
        } else if self.total > o.total {
            Some(core::cmp::Ordering::Greater)
        } else {
            Some(core::cmp::Ordering::Equal)
        }
    }
}

impl<'a> vstd::std_specs::cmp::PartialOrdSpecImpl for Roller<'a> {
    open spec fn obeys_partial_cmp_spec() -> bool {
        true
    }

    open spec fn partial_cmp_spec(&self, o: &Roller<'a>) -> Option<core::cmp::Ordering> {
        if self.last() < o.last() {
            Some(core::cmp::Ordering::Less)
        } else if self.last() > o.last() {
            Some(core::cmp::Ordering::Greater)
        } else {
            Some(core::cmp::Ordering::Equal)
        }
    }
}

} // verus!
