use vstd::prelude::*;

verus! {

/// Sum of a sequence of samples.
pub open spec fn sum_of(s: Seq<i64>) -> int
    decreases s.len(),
{
    if s.len() == 0 {
        0
    } else {
        sum_of(s.drop_last()) + s.last()
    }
}

/// Whether `a` is preferred over `b`: larger when keeping the highest dice,
/// smaller when keeping the lowest.
pub open spec fn prefers(a: i64, b: i64, high: bool) -> bool {
    if high {
        a > b
    } else {
        a < b
    }
}

/// The first position of a most preferred sample.
pub open spec fn extreme_index(s: Seq<i64>, high: bool) -> int
    decreases s.len(),
{
    if s.len() <= 1 {
        0
    } else {
        let j = extreme_index(s.drop_last(), high);
        if prefers(s.last(), s[j], high) {
            s.len() - 1
        } else {
            j
        }
    }
}

/// Sum of the `k` highest (`high`) or lowest samples: the most preferred one is
/// taken out `k` times. When `k` exceeds the number of samples all of them are
/// summed.
pub open spec fn keep_sum(s: Seq<i64>, k: int, high: bool) -> int
    decreases k,
{
    if k <= 0 || s.len() == 0 {
        0
    } else {
        let j = extreme_index(s, high);
        s[j] + keep_sum(s.remove(j), k - 1, high)
    }
}

const SAMPLE_BOUND: i128 = 0x8000_0000_0000_0000;

pub(crate) proof fn lemma_extreme_index_in_range(s: Seq<i64>, high: bool)
    requires
        s.len() > 0,
    ensures
        0 <= extreme_index(s, high) < s.len(),
    decreases s.len(),
{
    if s.len() > 1 {
        lemma_extreme_index_in_range(s.drop_last(), high);
    }
}

/// Finds `extreme_index` of a vector.
fn find_extreme(v: &Vec<i64>, high: bool) -> (j: usize)
    requires
        v.len() > 0,
    ensures
        j as int == extreme_index(v@, high),
        j < v.len(),
{
    let mut j: usize = 0;
    let mut i: usize = 1;
    proof {
        assert(v@.take(1).len() == 1);
    }
    while i < v.len()
        invariant
            1 <= i <= v.len(),
            j < i,
            j as int == extreme_index(v@.take(i as int), high),
        decreases v.len() - i,
    {
        proof {
            let t = v@.take(i as int + 1);
            assert(t.drop_last() =~= v@.take(i as int));
            assert(t.last() == v@[i as int]);
        }
        let better = if high {
            v[i] > v[j]
        } else {
            v[i] < v[j]
        };
        if better {
            j = i;
        }
        i = i + 1;
    }
    proof {
        assert(v@.take(v.len() as int) =~= v@);
    }
    j
}

/// The sum of all samples.
pub fn total_of(v: &Vec<i64>) -> (r: i128)
    ensures
        r as int == sum_of(v@),
        r > i128::MIN,
{
    let mut acc: i128 = 0;
    let mut i: usize = 0;
    while i < v.len()
        invariant
            i <= v.len(),
            acc as int == sum_of(v@.take(i as int)),
            -(i as int) * (SAMPLE_BOUND as int) <= acc as int <= (i as int) * (SAMPLE_BOUND as int),
        decreases v.len() - i,
    {
        proof {
            assert(v@.take(i as int + 1).drop_last() =~= v@.take(i as int));
            assert((i as int) < 0x1_0000_0000_0000_0000) by {
                assert(i < usize::MAX);
            }
            assert((i as int + 1) * (SAMPLE_BOUND as int) == (i as int) * (SAMPLE_BOUND as int)
                + (SAMPLE_BOUND as int)) by (nonlinear_arith);
            assert((i as int) * (SAMPLE_BOUND as int) <= 0xffff_ffff_ffff_ffff * 0x8000_0000_0000_0000)
                by (nonlinear_arith)
                requires
                    (i as int) < 0x1_0000_0000_0000_0000,
                    SAMPLE_BOUND as int == 0x8000_0000_0000_0000,
            ;
        }
        acc = acc + v[i] as i128;
        i = i + 1;
    }
    proof {
        assert(v@.take(v.len() as int) =~= v@);
        assert((i as int) * (SAMPLE_BOUND as int) <= 0xffff_ffff_ffff_ffff * 0x8000_0000_0000_0000)
            by (nonlinear_arith)
            requires
                (i as int) <= 0xffff_ffff_ffff_ffff,
                SAMPLE_BOUND as int == 0x8000_0000_0000_0000,
        ;
    }
    acc
}

/// The sum of the `k` highest (`high`) or lowest samples; all of them when
/// `k` exceeds their number.
pub fn keep_extreme(v: &Vec<i64>, k: u64, high: bool) -> (r: i128)
    ensures
        r as int == keep_sum(v@, k as int, high),
        r > i128::MIN,
{
    let mut rest = v.clone();
    let mut acc: i128 = 0;
    let mut taken: u64 = 0;
    while taken < k && rest.len() > 0
        invariant
            taken <= k,
            rest.len() + taken == v.len() || (rest.len() == 0),
            rest.len() + taken <= v.len(),
            acc as int + keep_sum(rest@, k - taken, high) == keep_sum(v@, k as int, high),
            -(taken as int) * (SAMPLE_BOUND as int) <= acc as int <= (taken as int) * (
            SAMPLE_BOUND as int),
        decreases k - taken,
    {
        let j = find_extreme(&rest, high);
        let x = rest.remove(j);
        proof {
            assert((taken as int) < 0x1_0000_0000_0000_0000) by {
                assert(rest.len() + taken + 1 <= v.len());
                assert(v.len() <= usize::MAX);
            }
            assert((taken as int + 1) * (SAMPLE_BOUND as int) == (taken as int) * (
            SAMPLE_BOUND as int) + (SAMPLE_BOUND as int)) by (nonlinear_arith);
            assert((taken as int) * (SAMPLE_BOUND as int) <= 0xffff_ffff_ffff_ffff
                * 0x8000_0000_0000_0000) by (nonlinear_arith)
                requires
                    (taken as int) < 0x1_0000_0000_0000_0000,
                    SAMPLE_BOUND as int == 0x8000_0000_0000_0000,
            ;
        }
        acc = acc + x as i128;
        taken = taken + 1;
    }
    proof {
        assert((taken as int) * (SAMPLE_BOUND as int) <= 0xffff_ffff_ffff_ffff * 0x8000_0000_0000_0000)
            by (nonlinear_arith)
            requires
                (taken as int) <= 0xffff_ffff_ffff_ffff,
                SAMPLE_BOUND as int == 0x8000_0000_0000_0000,
        ;
    }
    acc
}

} // verus!
