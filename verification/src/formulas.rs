//! Algebraic formulas on integers.

use crate::counting::{lemma_subsets_by_size, spec_subsets_up_to};
use vstd::arithmetic::power2::pow2;
use vstd::prelude::*;

verus! {

/// The exponent that `subset_count` raises 2 to: the low 32 bits of `n`,
/// read as a signed two's-complement number. It is `n` itself for every
/// `n` below `2^31`.
pub open spec fn spec_exponent(n: u64) -> int {
    let low = n % 0x1_0000_0000;
    if low < 0x8000_0000 {
        low as int
    } else {
        low - 0x1_0000_0000
    }
}

/// The value of `subset_count`: `2^e` for the exponent `e` of `n`, rounded
/// into the `u64` range. A negative exponent gives a fraction, which rounds
/// down to 0; an exponent of 64 or more gives `u64::MAX`.
pub open spec fn spec_subset_count(n: u64) -> nat {
    let e = spec_exponent(n);
    if e < 0 {
        0
    } else if e < 64 {
        pow2(e as nat)
    } else {
        u64::MAX as nat
    }
}

/// The number of subsets of a set of `n` elements, `2^n`, saturating at
/// `u64::MAX`.
///
/// The count is exact for `n < 64` and saturated for `64 <= n < 2^31`. From
/// `2^31` on only the low 32 bits of `n` count, as `spec_exponent` says.
pub fn subset_count(n: u64) -> (r: u64)
    ensures
        r == spec_subset_count(n),
        n < 64 ==> r == pow2(n as nat),
        64 <= n < 0x8000_0000 ==> r == u64::MAX,
{
    let low: u64 = n % 0x1_0000_0000;
    if low >= 0x8000_0000 {
        0
    } else if low < 64 {
        proof {
            vstd::bits::lemma_u64_pow2_no_overflow(low as nat);
            assert(1 * pow2(low as nat) == pow2(low as nat));
            vstd::bits::lemma_u64_shl_is_mul(1, low);
        }
        1u64 << low
    } else {
        u64::MAX
    }
}

/// While the count is exact, the subsets of an `n`-element set are those of
/// each size `0..=n` taken together: `subset_count(n)` is the sum of the
/// binomial coefficients `C(n, 0) + ... + C(n, n)`.
pub proof fn lemma_subset_count_by_size(n: u64)
    requires
        n < 64,
    ensures
        spec_subset_count(n) == spec_subsets_up_to(n as nat, n as nat),
{
    lemma_subsets_by_size(n as nat);
}

} // verus!
