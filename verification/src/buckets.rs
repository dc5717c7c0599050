//! Exponential age buckets.
//!
//! A file whose age is `d` whole days falls in the bucket labelled by the
//! smallest power of two that is at least `d`; ages 0 and 1 share bucket 1.
//! The labels are therefore 1, 2, 4, 8, 16, ... and the number of distinct
//! buckets grows only logarithmically with the oldest age.

use vstd::prelude::*;

verus! {

/// `2^e` as a mathematical natural number.
pub open spec fn pow2(e: nat) -> nat
    decreases e,
{
    if e == 0 {
        1
    } else {
        2 * pow2((e - 1) as nat)
    }
}

pub open spec fn is_power_of_two(n: nat) -> bool {
    exists|e: nat| n == pow2(e)
}

/// The bucket label for an age of `d` whole days: 1 for `d <= 1`, otherwise
/// twice the label for an age of `(d + 1) / 2` days. This works out to the
/// smallest power of two at least `d` (`lemma_bucket_assignment_law`).
pub open spec fn spec_bucket_for_days(d: nat) -> nat
    decreases d,
{
    if d <= 1 {
        1
    } else {
        2 * spec_bucket_for_days(((d + 1) / 2) as nat)
    }
}

pub proof fn lemma_pow2_pos(e: nat)
    ensures
        pow2(e) >= 1,
    decreases e,
{
    if e > 0 {
        lemma_pow2_pos((e - 1) as nat);
    }
}

pub proof fn lemma_pow2_increases(e1: nat, e2: nat)
    requires
        e1 <= e2,
    ensures
        pow2(e1) <= pow2(e2),
    decreases e2,
{
    if e1 < e2 {
        lemma_pow2_increases(e1, (e2 - 1) as nat);
        lemma_pow2_pos((e2 - 1) as nat);
    }
}

/// Distinct powers of two are at least a factor of two apart.
pub proof fn lemma_pow2_discrete(p: nat, q: nat)
    requires
        is_power_of_two(p),
        is_power_of_two(q),
        p < q,
    ensures
        2 * p <= q,
{
    let ep = choose|e: nat| p == pow2(e);
    let eq = choose|e: nat| q == pow2(e);
    if eq <= ep {
        lemma_pow2_increases(eq, ep);
    }
    lemma_pow2_increases((ep + 1) as nat, eq);
}

pub proof fn lemma_bucket_pos(d: nat)
    ensures
        spec_bucket_for_days(d) >= 1,
    decreases d,
{
    if d > 1 {
        lemma_bucket_pos(((d + 1) / 2) as nat);
    }
}

pub proof fn lemma_bucket_is_pow2(d: nat)
    ensures
        is_power_of_two(spec_bucket_for_days(d)),
    decreases d,
{
    if d <= 1 {
        assert(spec_bucket_for_days(d) == pow2(0));
    } else {
        let h = ((d + 1) / 2) as nat;
        lemma_bucket_is_pow2(h);
        let e = choose|e: nat| spec_bucket_for_days(h) == pow2(e);
        assert(spec_bucket_for_days(d) == pow2((e + 1) as nat));
    }
}

pub proof fn lemma_bucket_at_least(d: nat)
    ensures
        spec_bucket_for_days(d) >= d,
    decreases d,
{
    if d > 1 {
        lemma_bucket_at_least(((d + 1) / 2) as nat);
    }
}

/// No smaller power of two than the bucket label is at least `d`.
pub proof fn lemma_bucket_minimal(d: nat, p: nat)
    requires
        is_power_of_two(p),
        p >= d,
    ensures
        p >= spec_bucket_for_days(d),
    decreases d,
{
    let e = choose|ee: nat| p == pow2(ee);
    if d <= 1 {
        lemma_pow2_pos(e);
    } else {
        let h = ((d + 1) / 2) as nat;
        if e == 0 {
            assert(p == 1);
        } else {
            let half = pow2((e - 1) as nat);
            assert(p == 2 * half);
            // 2 * half >= d implies half >= (d + 1) / 2
            assert(half >= h);
            assert(is_power_of_two(half));
            lemma_bucket_minimal(h, half);
        }
    }
}

pub proof fn lemma_bucket_monotonic(d1: nat, d2: nat)
    requires
        d1 <= d2,
    ensures
        spec_bucket_for_days(d1) <= spec_bucket_for_days(d2),
    decreases d2,
{
    if d1 <= 1 {
        lemma_bucket_pos(d2);
    } else {
        lemma_bucket_monotonic(((d1 + 1) / 2) as nat, ((d2 + 1) / 2) as nat);
    }
}

/// The bucket assignment law: an age of 0 days is assigned bucket 1; a
/// positive age `d` is assigned the smallest power of two that is at least
/// `d`; and bucket labels never decrease as the age grows.
pub proof fn lemma_bucket_assignment_law(d: nat)
    ensures
        d == 0 ==> spec_bucket_for_days(d) == 1,
        is_power_of_two(spec_bucket_for_days(d)),
        spec_bucket_for_days(d) >= d,
        forall|p: nat| is_power_of_two(p) && p >= d ==> p >= spec_bucket_for_days(d),
        forall|d2: nat| d <= d2 ==> spec_bucket_for_days(d) <= spec_bucket_for_days(d2),
{
    lemma_bucket_is_pow2(d);
    lemma_bucket_at_least(d);
    assert forall|p: nat| is_power_of_two(p) && p >= d implies p >= spec_bucket_for_days(d) by {
        lemma_bucket_minimal(d, p);
    }
    assert forall|d2: nat| d <= d2 implies spec_bucket_for_days(d) <= spec_bucket_for_days(
        d2,
    ) by {
        lemma_bucket_monotonic(d, d2);
    }
}

/// Largest age (in days) the bucket computation accepts; ages are derived
/// from second counts divided by 86400, so they stay far below this.
pub const MAX_BUCKET_AGE_DAYS: u64 = 0x8000_0000_0000_0000;

/// The exponential bucket label for an age of `days` whole days.
pub fn bucket_for_days(days: u64) -> (b: u64)
    requires
        days <= MAX_BUCKET_AGE_DAYS,
    ensures
        b == spec_bucket_for_days(days as nat),
{
    let mut b: u64 = 1;
    proof {
        lemma_bucket_pos(days as nat);
        assert(is_power_of_two(1nat)) by {
            assert(pow2(0) == 1);
        }
    }
    while b < days
        invariant
            1 <= b,
            days <= MAX_BUCKET_AGE_DAYS,
            is_power_of_two(b as nat),
            b as nat <= spec_bucket_for_days(days as nat),
        decreases 2 * (days as int) - b,
    {
        proof {
            // b < days <= bucket(days), both powers of two, so 2*b still fits
            // under the bucket label.
            lemma_bucket_at_least(days as nat);
            lemma_bucket_is_pow2(days as nat);
            lemma_pow2_discrete(b as nat, spec_bucket_for_days(days as nat));
            let e = choose|e: nat| b as nat == pow2(e);
            assert(2 * (b as nat) == pow2((e + 1) as nat));
        }
        b = b * 2;
    }
    proof {
        lemma_bucket_minimal(days as nat, b as nat);
    }
    b
}

} // verus!
