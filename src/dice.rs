use vstd::prelude::*;
use crate::tree::RollError;
use crate::select::sum_of;
use rand::rngs::{OsRng, StdRng};
use rand::seq::SliceRandom;
use rand::{Rng, SeedableRng};

verus! {

#[verifier::external_type_specification]
#[verifier::external_body]
pub struct ExStdRng(StdRng);

/// Relies on rand's `StdRng::from_rng` over `OsRng`: a generator seeded from
/// the operating system, `None` where it gives no entropy. It does not panic.
#[verifier::external_body]
fn os_rng() -> Option<StdRng> {
    StdRng::from_rng(OsRng).ok()
}

/// Relies on rand's `StdRng::seed_from_u64`: a generator whose draws are
/// fixed by the seed.
#[verifier::external_body]
fn seeded_rng(seed: u64) -> StdRng {
    StdRng::seed_from_u64(seed)
}

/// Relies on rand's `Rng::gen_range` over `1..=sides`: a value in that
/// range, which is not empty.
#[verifier::external_body]
fn draw_in_range(rng: &mut StdRng, sides: u64) -> (r: u64)
    requires
        sides >= 1,
    ensures
        1 <= r <= sides,
{
    rng.gen_range(1..=sides)
}

/// Relies on rand's `SliceRandom::choose`: one of the slice's elements,
/// `None` only for an empty slice.
#[verifier::external_body]
fn choose_face(rng: &mut StdRng, faces: &Vec<i64>) -> (r: i64)
    requires
        faces.len() >= 1,
    ensures
        faces@.contains(r),
{
    *faces.as_slice().choose(rng).unwrap()
}

/// A batch drawn from a standard die: `n` values in `1..=sides`.
pub open spec fn fair_standard(b: Seq<i64>, n: int, sides: int) -> bool {
    b.len() == n && forall|i: int| 0 <= i < b.len() ==> 1 <= #[trigger] b[i] <= sides
}

/// A batch drawn from a custom die: `n` values, each one of the faces.
pub open spec fn fair_custom(b: Seq<i64>, n: int, faces: Seq<i64>) -> bool {
    b.len() == n && forall|i: int| 0 <= i < b.len() ==> faces.contains(#[trigger] b[i])
}

/// The draws of one exploding die of `sides` sides: each in `1..=sides`, and
/// every draw but the last one a maximum face.
pub open spec fn exploding_draws(b: Seq<i64>, sides: int) -> bool {
    &&& forall|i: int| 0 <= i < b.len() ==> 1 <= #[trigger] b[i] <= sides
    &&& forall|i: int| 0 <= i < b.len() - 1 ==> #[trigger] b[i] == sides
}

/// A source of dice draws. Every batch it hands out is recorded, in order,
/// in `drawn()`.
pub struct Dice {
    rng: StdRng,
    log: Ghost<Seq<Seq<i64>>>,
}

impl Dice {
    /// The batches drawn so far, oldest first.
    pub closed spec fn drawn(&self) -> Seq<Seq<i64>> {
        self.log@
    }

    /// Dice seeded from the operating system, or `None` where it gives no
    /// entropy.
    pub fn from_entropy() -> (d: Option<Dice>)
        ensures
            d is Some ==> d->Some_0.drawn() == Seq::<Seq<i64>>::empty(),
    {
        match os_rng() {
            Some(rng) => Some(Dice { rng, log: Ghost(Seq::empty()) }),
            None => None,
        }
    }

    /// Dice seeded from the operating system, or from `seed` where it gives
    /// no entropy. Either way every draw is a fair one.
    pub fn from_entropy_or_seed(seed: u64) -> (d: Dice)
        ensures
            d.drawn() == Seq::<Seq<i64>>::empty(),
    {
        match Dice::from_entropy() {
            Some(d) => d,
            None => Dice::seeded(seed),
        }
    }

    /// Dice whose draws are fixed by `seed`.
    pub fn seeded(seed: u64) -> (d: Dice)
        ensures
            d.drawn() == Seq::<Seq<i64>>::empty(),
    {
        Dice { rng: seeded_rng(seed), log: Ghost(Seq::empty()) }
    }

    /// Draws `n` standard dice of `sides` sides.
    pub fn roll_standard(&mut self, n: u64, sides: u64) -> (r: Vec<i64>)
        requires
            1 <= sides <= i64::MAX,
        ensures
            fair_standard(r@, n as int, sides as int),
            final(self).drawn() == old(self).drawn().push(r@),
    {
        let mut r: Vec<i64> = Vec::new();
        let mut i: u64 = 0;
        while i < n
            invariant
                1 <= sides <= i64::MAX,
                i <= n,
                fair_standard(r@, i as int, sides as int),
                self.log@ == old(self).log@,
            decreases n - i,
        {
            let x = draw_in_range(&mut self.rng, sides);
            r.push(x as i64);
            i = i + 1;
        }
        self.log = Ghost(self.log@.push(r@));
        r
    }

    /// Draws `n` dice with the given faces.
    pub fn roll_custom(&mut self, n: u64, faces: &Vec<i64>) -> (r: Vec<i64>)
        requires
            faces.len() >= 1,
        ensures
            fair_custom(r@, n as int, faces@),
            final(self).drawn() == old(self).drawn().push(r@),
    {
        let mut r: Vec<i64> = Vec::new();
        let mut i: u64 = 0;
        while i < n
            invariant
                faces.len() >= 1,
                i <= n,
                fair_custom(r@, i as int, faces@),
                self.log@ == old(self).log@,
            decreases n - i,
        {
            let x = choose_face(&mut self.rng, faces);
            r.push(x);
            i = i + 1;
        }
        self.log = Ghost(self.log@.push(r@));
        r
    }

    /// Rolls one exploding die: a maximum face adds another draw, and the
    /// die's value is the sum of its draws. Fewer than two sides is an error
    /// and draws nothing; a sum beyond 64 bits stops the die with an overflow.
    pub fn roll_exploding(&mut self, sides: i64) -> (r: Result<i64, RollError>)
        ensures
            sides <= 1 ==> r == Err::<i64, RollError>(RollError::ExplodingSides) && final(self).drawn()
                == old(self).drawn(),
            sides > 1 ==> {
                let b = final(self).drawn().last();
                &&& final(self).drawn() == old(self).drawn().push(b)
                &&& b.len() >= 1
                &&& exploding_draws(b, sides as int)
                &&& match r {
                    Ok(v) => b.last() < sides && v == sum_of(b),
                    Err(e) => e == RollError::Overflow && sum_of(b) > i64::MAX,
                }
            },
    {
        if sides <= 1 {
            return Err(RollError::ExplodingSides);
        }
        let mut b: Vec<i64> = Vec::new();
        let mut acc: i64 = 0;
        loop
            invariant
                sides > 1,
                self.log@ == old(self).log@,
                acc as int == sum_of(b@),
                0 <= acc,
                exploding_draws(b@, sides as int),
                b.len() > 0 ==> b@.last() == sides,
            decreases i64::MAX - acc,
        {
            let x = draw_in_range(&mut self.rng, sides as u64) as i64;
            proof {
                assert(b@.push(x).drop_last() =~= b@);
            }
            b.push(x);
            if acc > i64::MAX - x {
                self.log = Ghost(self.log@.push(b@));
                return Err(RollError::Overflow);
            }
            acc = acc + x;
            if x < sides {
                self.log = Ghost(self.log@.push(b@));
                return Ok(acc);
            }
        }
    }
}

} // verus!
