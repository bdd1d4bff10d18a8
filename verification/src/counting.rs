//! Counting formulas on unsigned 64-bit integers: factorials, permutations,
//! binomial coefficients, derangements, and the addition and multiplication
//! principles.
//!
//! Every result is stated against a mathematical definition over `nat`. A
//! function whose arithmetic could leave the `u64` range asks, in its
//! `requires`, that the quantities it forms fit.

use vstd::arithmetic::power2::{lemma_pow2_unfold, lemma2_to64, pow2};
use vstd::prelude::*;

verus! {

/// Message returned when fewer items are available than are asked for.
pub const ERR_INVALID_INPUT: &'static str = "n必须大于等于k";

/// Message returned when a list of alternatives or of steps is empty.
pub const ERR_EMPTY_OPTIONS: &'static str = "选项列表不能为空";

/// The largest `n` whose factorial fits in a `u64`.
pub const MAX_FACTORIAL_ARG: u64 = 20;

/// `n! = 1 * 2 * ... * n`.
pub open spec fn spec_factorial(n: nat) -> nat
    decreases n,
{
    if n == 0 {
        1
    } else {
        n * spec_factorial((n - 1) as nat)
    }
}

/// The product of `count` consecutive integers, the first of which is `first`:
/// `first * (first + 1) * ... * (first + count - 1)`.
pub open spec fn spec_range_product(first: nat, count: nat) -> nat
    decreases count,
{
    if count == 0 {
        1
    } else {
        spec_range_product(first, (count - 1) as nat) * ((first + count - 1) as nat)
    }
}

/// The number of ordered selections of `k` out of `n` items: `n! / (n - k)!`,
/// and 0 when `k > n`.
pub open spec fn spec_permutation(n: nat, k: nat) -> nat {
    if k > n {
        0
    } else {
        spec_factorial(n) / spec_factorial((n - k) as nat)
    }
}

/// The binomial coefficient `n! / (k! * (n - k)!)`, and 0 when `k > n`.
pub open spec fn spec_combination(n: nat, k: nat) -> nat {
    if k > n {
        0
    } else {
        spec_factorial(n) / (spec_factorial(k) * spec_factorial((n - k) as nat))
    }
}

/// The values 1, 2, 6, ... of the factorial up to the first that exceeds the
/// `u64` range.
pub proof fn lemma_factorial_values()
    ensures
        spec_factorial(0) == 1,
        spec_factorial(1) == 1,
        spec_factorial(2) == 2,
        spec_factorial(3) == 6,
        spec_factorial(4) == 24,
        spec_factorial(5) == 120,
        spec_factorial(6) == 720,
        spec_factorial(7) == 5040,
        spec_factorial(8) == 40320,
        spec_factorial(9) == 362880,
        spec_factorial(10) == 3628800,
        spec_factorial(11) == 39916800,
        spec_factorial(12) == 479001600,
        spec_factorial(13) == 6227020800,
        spec_factorial(14) == 87178291200,
        spec_factorial(15) == 1307674368000,
        spec_factorial(16) == 20922789888000,
        spec_factorial(17) == 355687428096000,
        spec_factorial(18) == 6402373705728000,
        spec_factorial(19) == 121645100408832000,
        spec_factorial(20) == 2432902008176640000,
        spec_factorial(21) == 51090942171709440000,
{
    reveal_with_fuel(spec_factorial, 3);
    assert(spec_factorial(2) == 2);
    assert(spec_factorial(4) == 24);
    assert(spec_factorial(6) == 720);
    assert(spec_factorial(8) == 40320);
    assert(spec_factorial(10) == 3628800);
    assert(spec_factorial(12) == 479001600);
    assert(spec_factorial(14) == 87178291200);
    assert(spec_factorial(16) == 20922789888000);
    assert(spec_factorial(18) == 6402373705728000);
    assert(spec_factorial(20) == 2432902008176640000);
}

/// The factorial is positive and does not decrease.
pub proof fn lemma_factorial_monotonic(a: nat, b: nat)
    requires
        a <= b,
    ensures
        1 <= spec_factorial(a) <= spec_factorial(b),
    decreases b,
{
    if a == 0 && b == 0 {
    } else if a == b {
        lemma_factorial_monotonic(0, (b - 1) as nat);
        assert(spec_factorial(b) >= 1) by (nonlinear_arith)
            requires
                spec_factorial(b) == b * spec_factorial((b - 1) as nat),
                b >= 1,
                spec_factorial((b - 1) as nat) >= 1,
        ;
    } else {
        lemma_factorial_monotonic(a, (b - 1) as nat);
        assert(spec_factorial(b) >= spec_factorial((b - 1) as nat)) by (nonlinear_arith)
            requires
                spec_factorial(b) == b * spec_factorial((b - 1) as nat),
                b >= 1,
        ;
    }
}

/// `n!` fits in a `u64` exactly when `n` is at most `MAX_FACTORIAL_ARG`.
pub proof fn lemma_factorial_fits(n: nat)
    ensures
        spec_factorial(n) <= u64::MAX <==> n <= MAX_FACTORIAL_ARG,
{
    lemma_factorial_values();
    if n <= 20 {
        lemma_factorial_monotonic(n, 20);
    } else {
        lemma_factorial_monotonic(21, n);
    }
}

/// Partial products of consecutive positive integers are positive and do not
/// decrease as factors are added.
pub proof fn lemma_range_product_monotonic(first: nat, a: nat, b: nat)
    requires
        first >= 1,
        a <= b,
    ensures
        1 <= spec_range_product(first, a) <= spec_range_product(first, b),
    decreases b,
{
    if b == 0 {
    } else if a == b {
        lemma_range_product_monotonic(first, 0, (b - 1) as nat);
        assert(spec_range_product(first, b) >= 1) by (nonlinear_arith)
            requires
                spec_range_product(first, b) == spec_range_product(first, (b - 1) as nat) * ((
                first + b - 1) as nat),
                first + b - 1 >= 1,
                spec_range_product(first, (b - 1) as nat) >= 1,
        ;
    } else {
        lemma_range_product_monotonic(first, a, (b - 1) as nat);
        assert(spec_range_product(first, b) >= spec_range_product(first, (b - 1) as nat))
            by (nonlinear_arith)
            requires
                spec_range_product(first, b) == spec_range_product(first, (b - 1) as nat) * ((
                first + b - 1) as nat),
                first + b - 1 >= 1,
        ;
    }
}

/// Multiplying `first * ... * (first + count - 1)` by `(first - 1)!` completes
/// the factorial `(first + count - 1)!`.
pub proof fn lemma_range_product_factorial(first: nat, count: nat)
    requires
        first >= 1,
    ensures
        spec_range_product(first, count) * spec_factorial((first - 1) as nat) == spec_factorial(
            (first + count - 1) as nat,
        ),
    decreases count,
{
    if count == 0 {
        assert(1 * spec_factorial((first - 1) as nat) == spec_factorial((first - 1) as nat))
            by (nonlinear_arith);
    } else {
        lemma_range_product_factorial(first, (count - 1) as nat);
        let m = (first + count - 1) as nat;
        let rest = spec_range_product(first, (count - 1) as nat);
        let base = spec_factorial((first - 1) as nat);
        assert(spec_factorial(m) == m * spec_factorial((m - 1) as nat));
        assert((rest * m) * base == m * (rest * base)) by (nonlinear_arith);
    }
}

/// Pascal's triangle: the entry in row `n` and column `k`.
pub open spec fn spec_pascal(n: nat, k: nat) -> nat
    decreases n,
{
    if k == 0 {
        1
    } else if n == 0 {
        0
    } else {
        spec_pascal((n - 1) as nat, (k - 1) as nat) + spec_pascal((n - 1) as nat, k)
    }
}

/// Pascal's triangle is empty to the right of its diagonal.
pub proof fn lemma_pascal_outside(n: nat, k: nat)
    requires
        k > n,
    ensures
        spec_pascal(n, k) == 0,
    decreases n,
{
    if n > 0 {
        lemma_pascal_outside((n - 1) as nat, (k - 1) as nat);
        lemma_pascal_outside((n - 1) as nat, k);
    }
}

/// An entry of Pascal's triangle times `k! * (n - k)!` is `n!`.
pub proof fn lemma_pascal_factorial(n: nat, k: nat)
    requires
        k <= n,
    ensures
        spec_pascal(n, k) * (spec_factorial(k) * spec_factorial((n - k) as nat)) == spec_factorial(
            n,
        ),
        spec_pascal(n, k) >= 1,
    decreases n,
{
    lemma_factorial_monotonic(0, n);
    lemma_factorial_monotonic(0, k);
    lemma_factorial_monotonic(0, (n - k) as nat);
    let fact_n = spec_factorial(n);
    let fact_k = spec_factorial(k);
    let fact_nk = spec_factorial((n - k) as nat);
    if k == 0 {
        assert(1 * (1 * fact_n) == fact_n) by (nonlinear_arith);
    } else if k == n {
        let prev = spec_pascal((n - 1) as nat, (n - 1) as nat);
        lemma_pascal_factorial((n - 1) as nat, (n - 1) as nat);
        lemma_pascal_outside((n - 1) as nat, n);
        assert(spec_pascal(n, n) == prev);
        let fact_n1 = spec_factorial((n - 1) as nat);
        lemma_factorial_monotonic(0, (n - 1) as nat);
        assert(prev == 1) by (nonlinear_arith)
            requires
                prev * (fact_n1 * 1) == fact_n1,
                fact_n1 >= 1,
        ;
        assert(1 * (fact_n * 1) == fact_n) by (nonlinear_arith);
    } else {
        let left = spec_pascal((n - 1) as nat, (k - 1) as nat);
        let right = spec_pascal((n - 1) as nat, k);
        lemma_pascal_factorial((n - 1) as nat, (k - 1) as nat);
        lemma_pascal_factorial((n - 1) as nat, k);
        let fact_n1 = spec_factorial((n - 1) as nat);
        let fact_k1 = spec_factorial((k - 1) as nat);
        let fact_nk1 = spec_factorial((n - k - 1) as nat);
        assert(fact_n == n * fact_n1);
        assert(fact_k == k * fact_k1);
        assert(fact_nk == (n - k) * fact_nk1);
        assert(left * (fact_k1 * fact_nk) == fact_n1);
        assert(right * (fact_k * fact_nk1) == fact_n1);
        assert(left * (fact_k * fact_nk) == k * fact_n1) by (nonlinear_arith)
            requires
                left * (fact_k1 * fact_nk) == fact_n1,
                fact_k == k * fact_k1,
        ;
        assert(right * (fact_k * fact_nk) == (n - k) * fact_n1) by (nonlinear_arith)
            requires
                right * (fact_k * fact_nk1) == fact_n1,
                fact_nk == (n - k) * fact_nk1,
        ;
        assert((left + right) * (fact_k * fact_nk) == n * fact_n1) by (nonlinear_arith)
            requires
                left * (fact_k * fact_nk) == k * fact_n1,
                right * (fact_k * fact_nk) == (n - k) * fact_n1,
        ;
    }
    assert(spec_pascal(n, k) >= 1) by (nonlinear_arith)
        requires
            spec_pascal(n, k) * (fact_k * fact_nk) == fact_n,
            fact_n >= 1,
    ;
}

/// The binomial coefficient is the entry of Pascal's triangle.
pub proof fn lemma_combination_is_pascal(n: nat, k: nat)
    ensures
        spec_combination(n, k) == spec_pascal(n, k),
{
    if k > n {
        lemma_pascal_outside(n, k);
    } else {
        lemma_pascal_factorial(n, k);
        lemma_factorial_monotonic(0, k);
        lemma_factorial_monotonic(0, (n - k) as nat);
        let d = spec_factorial(k) * spec_factorial((n - k) as nat);
        let c = spec_pascal(n, k);
        assert(d >= 1) by (nonlinear_arith)
            requires
                d == spec_factorial(k) * spec_factorial((n - k) as nat),
                spec_factorial(k) >= 1,
                spec_factorial((n - k) as nat) >= 1,
        ;
        assert((c * d) / d == c) by (nonlinear_arith)
            requires
                d >= 1,
        ;
    }
}

/// Computes `n!`.
pub fn factorial(n: u64) -> (r: u64)
    requires
        spec_factorial(n as nat) <= u64::MAX,
    ensures
        r == spec_factorial(n as nat),
{
    let mut acc: u64 = 1;
    let mut i: u64 = 0;
    while i < n
        invariant
            i <= n,
            acc == spec_factorial(i as nat),
            spec_factorial(n as nat) <= u64::MAX,
        decreases n - i,
    {
        proof {
            lemma_factorial_monotonic((i + 1) as nat, n as nat);
            assert(spec_factorial((i + 1) as nat) == (i + 1) * spec_factorial(i as nat));
            assert(acc * (i + 1) == (i + 1) * acc) by (nonlinear_arith);
        }
        i = i + 1;
        acc = acc * i;
    }
    acc
}

/// Whether `factorial(n) / factorial(n - k)` can be formed in `u64`: nothing
/// is multiplied when `k > n`, and otherwise `n!` has to fit.
pub open spec fn permutation_fits(n: nat, k: nat) -> bool {
    k <= n ==> spec_factorial(n) <= u64::MAX
}

/// The number of ordered selections is the product of the `k` largest of the
/// integers `1..=n`.
pub proof fn lemma_permutation_is_range_product(n: nat, k: nat)
    requires
        k <= n,
    ensures
        spec_permutation(n, k) == spec_range_product((n - k + 1) as nat, k),
{
    lemma_range_product_factorial((n - k + 1) as nat, k);
    lemma_factorial_monotonic(0, (n - k) as nat);
    let p = spec_range_product((n - k + 1) as nat, k);
    let d = spec_factorial((n - k) as nat);
    assert((p * d) / d == p) by (nonlinear_arith)
        requires
            d >= 1,
    ;
}

/// The number of ordered selections of `k` out of `n` items.
///
/// Fails when `k > n`.
pub fn permutation(n: u64, k: u64) -> (r: Result<u64, &'static str>)
    requires
        permutation_fits(n as nat, k as nat),
    ensures
        k > n ==> r is Err && r.unwrap_err()@ == ERR_INVALID_INPUT@,
        k <= n ==> r is Ok && r.unwrap() == spec_permutation(n as nat, k as nat),
{
    if n < k {
        return Err(ERR_INVALID_INPUT);
    }
    proof {
        lemma_factorial_monotonic((n - k) as nat, n as nat);
    }
    Ok(factorial(n) / factorial(n - k))
}

/// The smaller of `k` and `n - k`: by symmetry of the binomial coefficient,
/// the number of factors that `combination` multiplies.
pub open spec fn spec_short_side(n: nat, k: nat) -> nat
    recommends
        k <= n,
{
    if k <= n - k {
        k
    } else {
        (n - k) as nat
    }
}

/// Whether `combination(n, k)` can form its numerator in `u64`: nothing is
/// multiplied when `k > n`, and otherwise the product of the
/// `spec_short_side(n, k)` largest of the integers `1..=n` has to fit.
pub open spec fn combination_fits(n: nat, k: nat) -> bool {
    k <= n ==> spec_range_product(
        (n - spec_short_side(n, k) + 1) as nat,
        spec_short_side(n, k),
    ) <= u64::MAX
}

/// The binomial coefficient is symmetric: choosing `k` items is choosing the
/// `n - k` to leave out.
pub proof fn lemma_combination_symmetric(n: nat, k: nat)
    requires
        k <= n,
    ensures
        spec_combination(n, k) == spec_combination(n, (n - k) as nat),
{
    assert(spec_factorial(k) * spec_factorial((n - k) as nat) == spec_factorial((n - k) as nat)
        * spec_factorial(k)) by (nonlinear_arith);
}

/// Pascal's rule: `C(n, k) = C(n - 1, k - 1) + C(n - 1, k)`.
pub proof fn lemma_pascal_rule(n: nat, k: nat)
    requires
        1 <= k,
        1 <= n,
    ensures
        spec_combination(n, k) == spec_combination((n - 1) as nat, (k - 1) as nat)
            + spec_combination((n - 1) as nat, k),
{
    lemma_combination_is_pascal(n, k);
    lemma_combination_is_pascal((n - 1) as nat, (k - 1) as nat);
    lemma_combination_is_pascal((n - 1) as nat, k);
}

/// The product of the `k` largest of the integers `1..=n` is `C(n, k) * k!`.
pub proof fn lemma_range_product_is_combination(n: nat, k: nat)
    requires
        k <= n,
    ensures
        spec_range_product((n - k + 1) as nat, k) == spec_combination(n, k) * spec_factorial(k),
        spec_combination(n, k) >= 1,
        spec_factorial(k) <= spec_range_product((n - k + 1) as nat, k),
{
    lemma_range_product_factorial((n - k + 1) as nat, k);
    lemma_pascal_factorial(n, k);
    lemma_combination_is_pascal(n, k);
    lemma_factorial_monotonic(0, (n - k) as nat);
    lemma_factorial_monotonic(0, k);
    let p = spec_range_product((n - k + 1) as nat, k);
    let c = spec_combination(n, k);
    let fact_k = spec_factorial(k);
    let fact_nk = spec_factorial((n - k) as nat);
    assert(p == c * fact_k) by (nonlinear_arith)
        requires
            p * fact_nk == c * (fact_k * fact_nk),
            fact_nk >= 1,
    ;
    assert(fact_k <= c * fact_k) by (nonlinear_arith)
        requires
            c >= 1,
    ;
}

/// A product of consecutive integers that ends at `n` is at most `n!`.
pub proof fn lemma_range_product_bound(n: nat, k: nat)
    requires
        k <= n,
    ensures
        spec_range_product((n - k + 1) as nat, k) <= spec_factorial(n),
{
    lemma_range_product_factorial((n - k + 1) as nat, k);
    lemma_factorial_monotonic(0, (n - k) as nat);
    let p = spec_range_product((n - k + 1) as nat, k);
    let d = spec_factorial((n - k) as nat);
    assert(p <= p * d) by (nonlinear_arith)
        requires
            d >= 1,
    ;
}

/// Every binomial coefficient of a row up to `MAX_FACTORIAL_ARG` can be
/// computed: a sufficient condition, not a necessary one.
pub proof fn lemma_combination_fits(n: nat, k: nat)
    requires
        n <= MAX_FACTORIAL_ARG,
    ensures
        combination_fits(n, k),
{
    if k <= n {
        lemma_range_product_bound(n, spec_short_side(n, k));
        lemma_factorial_fits(n);
    }
}

/// The binomial coefficient `C(n, k)`: the number of `k`-element subsets of an
/// `n`-element set.
///
/// Fails when `k > n`.
pub fn combination(n: u64, k: u64) -> (r: Result<u64, &'static str>)
    requires
        combination_fits(n as nat, k as nat),
    ensures
        k > n ==> r is Err && r.unwrap_err()@ == ERR_INVALID_INPUT@,
        k <= n ==> r is Ok && r.unwrap() == spec_combination(n as nat, k as nat),
{
    if n < k {
        return Err(ERR_INVALID_INPUT);
    }
    let short: u64 = if k <= n - k {
        k
    } else {
        n - k
    };
    let ghost first = (n - short + 1) as nat;
    let mut numerator: u64 = 1;
    let mut taken: u64 = 0;
    while taken < short
        invariant
            taken <= short <= n,
            first == n - short + 1,
            numerator == spec_range_product(first, taken as nat),
            spec_range_product(first, short as nat) <= u64::MAX,
        decreases short - taken,
    {
        proof {
            lemma_range_product_monotonic(first, (taken + 1) as nat, short as nat);
        }
        taken = taken + 1;
        numerator = numerator * (n - short + taken);
    }
    proof {
        lemma_range_product_is_combination(n as nat, short as nat);
        lemma_factorial_monotonic(0, short as nat);
        lemma_combination_symmetric(n as nat, k as nat);
        let c = spec_combination(n as nat, short as nat);
        let d = spec_factorial(short as nat);
        assert((c * d) / d == c) by (nonlinear_arith)
            requires
                d >= 1,
        ;
    }
    let denominator = factorial(short);
    Ok(numerator / denominator)
}

/// An ordered selection is a subset together with one of its `k!`
/// arrangements.
pub proof fn lemma_permutation_is_arranged_combination(n: nat, k: nat)
    requires
        k <= n,
    ensures
        spec_permutation(n, k) == spec_combination(n, k) * spec_factorial(k),
{
    lemma_permutation_is_range_product(n, k);
    lemma_range_product_is_combination(n, k);
}

/// The number of subsets of an `n`-element set that have at most `k`
/// elements: `C(n, 0) + C(n, 1) + ... + C(n, k)`.
pub open spec fn spec_subsets_up_to(n: nat, k: nat) -> nat
    decreases k,
{
    if k == 0 {
        spec_combination(n, 0)
    } else {
        spec_subsets_up_to(n, (k - 1) as nat) + spec_combination(n, k)
    }
}

/// Pascal's rule, summed over the sizes up to `k`.
pub proof fn lemma_subsets_up_to_rule(n: nat, k: nat)
    requires
        1 <= k,
        1 <= n,
    ensures
        spec_subsets_up_to(n, k) == spec_subsets_up_to((n - 1) as nat, (k - 1) as nat)
            + spec_subsets_up_to((n - 1) as nat, k),
    decreases k,
{
    lemma_pascal_rule(n, k);
    if k == 1 {
        lemma_combination_is_pascal(n, 0);
        lemma_combination_is_pascal((n - 1) as nat, 0);
        assert(spec_subsets_up_to(n, 1) == spec_subsets_up_to(n, 0) + spec_combination(n, 1));
        assert(spec_subsets_up_to((n - 1) as nat, 1) == spec_subsets_up_to((n - 1) as nat, 0)
            + spec_combination((n - 1) as nat, 1));
    } else {
        lemma_subsets_up_to_rule(n, (k - 1) as nat);
    }
}

/// Counted by size, the subsets of an `n`-element set are `2^n`: the sum of
/// row `n` of Pascal's triangle.
pub proof fn lemma_subsets_by_size(n: nat)
    ensures
        spec_subsets_up_to(n, n) == pow2(n),
    decreases n,
{
    if n == 0 {
        lemma_combination_is_pascal(0, 0);
        lemma2_to64();
    } else {
        lemma_subsets_by_size((n - 1) as nat);
        lemma_subsets_up_to_rule(n, n);
        assert(spec_combination((n - 1) as nat, n) == 0);
        lemma_pow2_unfold(n);
    }
}

/// The coefficient of `x^k` in the expansion of `(1 + x)^n`, which is the
/// binomial coefficient `C(n, k)`.
///
/// Fails when `k > n`.
pub fn binomial_theorem(n: u64, k: u64) -> (r: Result<u64, &'static str>)
    requires
        combination_fits(n as nat, k as nat),
    ensures
        k > n ==> r is Err && r.unwrap_err()@ == ERR_INVALID_INPUT@,
        k <= n ==> r is Ok && r.unwrap() == spec_combination(n as nat, k as nat),
{
    combination(n, k)
}

/// Whether `combination_identity(n, k)` can form its result in `u64`: for
/// `0 < k < n` both terms of Pascal's rule have to be computable and their
/// sum, which is `C(n, k)`, has to fit; otherwise nothing is computed.
pub open spec fn combination_identity_fits(n: nat, k: nat) -> bool {
    0 < k < n ==> combination_fits((n - 1) as nat, (k - 1) as nat) && combination_fits(
        (n - 1) as nat,
        k,
    ) && spec_combination(n, k) <= u64::MAX
}

/// Pascal's rule can be evaluated in every row up to `MAX_FACTORIAL_ARG`: a
/// sufficient condition, not a necessary one.
pub proof fn lemma_combination_identity_fits(n: nat, k: nat)
    requires
        n <= MAX_FACTORIAL_ARG,
    ensures
        combination_identity_fits(n, k),
{
    if 0 < k < n {
        lemma_combination_fits((n - 1) as nat, (k - 1) as nat);
        lemma_combination_fits((n - 1) as nat, k);
        lemma_range_product_is_combination(n, k);
        lemma_range_product_bound(n, k);
        lemma_factorial_fits(n);
        lemma_factorial_monotonic(0, k);
        let c = spec_combination(n, k);
        let d = spec_factorial(k);
        assert(c <= c * d) by (nonlinear_arith)
            requires
                d >= 1,
        ;
    }
}

/// The binomial coefficient `C(n, k)`, computed by Pascal's rule as
/// `C(n - 1, k - 1) + C(n - 1, k)`.
///
/// Fails when `k > n`, except that `k == 0` always gives 1.
pub fn combination_identity(n: u64, k: u64) -> (r: Result<u64, &'static str>)
    requires
        combination_identity_fits(n as nat, k as nat),
    ensures
        k > n ==> r is Err && r.unwrap_err()@ == ERR_INVALID_INPUT@,
        k <= n ==> r is Ok && r.unwrap() == spec_combination(n as nat, k as nat),
{
    if k == 0 || k == n {
        proof {
            lemma_pascal_factorial(n as nat, k as nat);
            lemma_combination_is_pascal(n as nat, k as nat);
            lemma_combination_symmetric(n as nat, k as nat);
            lemma_combination_is_pascal(n as nat, 0);
        }
        return Ok(1);
    }
    if k > n {
        return Err(ERR_INVALID_INPUT);
    }
    proof {
        lemma_pascal_rule(n as nat, k as nat);
    }
    match combination(n - 1, k - 1) {
        Ok(a) => match combination(n - 1, k) {
            Ok(b) => Ok(a + b),
            Err(e) => Err(e),
        },
        Err(e) => Err(e),
    }
}

/// The number of permutations of `n` items that leave none in its place:
/// `D(0) = 1`, `D(1) = 0`, and `D(n) = (n - 1) * (D(n - 1) + D(n - 2))`.
pub open spec fn spec_derangement(n: nat) -> nat
    decreases n,
{
    if n == 0 {
        1
    } else if n == 1 {
        0
    } else {
        ((n - 1) as nat) * (spec_derangement((n - 1) as nat) + spec_derangement((n - 2) as nat))
    }
}

/// The largest `n` whose number of derangements fits in a `u64`.
pub const MAX_DERANGEMENT_ARG: u64 = 20;

/// The numbers of derangements up to the first that exceeds the `u64` range.
pub proof fn lemma_derangement_values()
    ensures
        spec_derangement(0) == 1,
        spec_derangement(1) == 0,
        spec_derangement(2) == 1,
        spec_derangement(3) == 2,
        spec_derangement(4) == 9,
        spec_derangement(5) == 44,
        spec_derangement(6) == 265,
        spec_derangement(7) == 1854,
        spec_derangement(8) == 14833,
        spec_derangement(9) == 133496,
        spec_derangement(10) == 1334961,
        spec_derangement(11) == 14684570,
        spec_derangement(12) == 176214841,
        spec_derangement(13) == 2290792932,
        spec_derangement(14) == 32071101049,
        spec_derangement(15) == 481066515734,
        spec_derangement(16) == 7697064251745,
        spec_derangement(17) == 130850092279664,
        spec_derangement(18) == 2355301661033953,
        spec_derangement(19) == 44750731559645106,
        spec_derangement(20) == 895014631192902121,
        spec_derangement(21) == 18795307255050944540,
{
    assert(spec_derangement(0) == 1);
    assert(spec_derangement(1) == 0);
    assert(spec_derangement(2) == 1 * (spec_derangement(1) + spec_derangement(0)));
    assert(spec_derangement(3) == 2 * (spec_derangement(2) + spec_derangement(1)));
    assert(spec_derangement(4) == 3 * (spec_derangement(3) + spec_derangement(2)));
    assert(spec_derangement(5) == 4 * (spec_derangement(4) + spec_derangement(3)));
    assert(spec_derangement(6) == 5 * (spec_derangement(5) + spec_derangement(4)));
    assert(spec_derangement(7) == 6 * (spec_derangement(6) + spec_derangement(5)));
    assert(spec_derangement(8) == 7 * (spec_derangement(7) + spec_derangement(6)));
    assert(spec_derangement(9) == 8 * (spec_derangement(8) + spec_derangement(7)));
    assert(spec_derangement(10) == 9 * (spec_derangement(9) + spec_derangement(8)));
    assert(spec_derangement(11) == 10 * (spec_derangement(10) + spec_derangement(9)));
    assert(spec_derangement(12) == 11 * (spec_derangement(11) + spec_derangement(10)));
    assert(spec_derangement(13) == 12 * (spec_derangement(12) + spec_derangement(11)));
    assert(spec_derangement(14) == 13 * (spec_derangement(13) + spec_derangement(12)));
    assert(spec_derangement(15) == 14 * (spec_derangement(14) + spec_derangement(13)));
    assert(spec_derangement(16) == 15 * (spec_derangement(15) + spec_derangement(14)));
    assert(spec_derangement(17) == 16 * (spec_derangement(16) + spec_derangement(15)));
    assert(spec_derangement(18) == 17 * (spec_derangement(17) + spec_derangement(16)));
    assert(spec_derangement(19) == 18 * (spec_derangement(18) + spec_derangement(17)));
    assert(spec_derangement(20) == 19 * (spec_derangement(19) + spec_derangement(18)));
    assert(spec_derangement(21) == 20 * (spec_derangement(20) + spec_derangement(19)));
}

/// From `D(1)` on, the number of derangements does not decrease, and every
/// `D(a)` with `a <= b` and `b >= 2` is at most `D(b)`.
pub proof fn lemma_derangement_monotonic(a: nat, b: nat)
    requires
        a <= b,
        b >= 2,
    ensures
        spec_derangement(a) <= spec_derangement(b),
        1 <= spec_derangement(b),
    decreases b,
{
    let prev = spec_derangement((b - 1) as nat);
    let prev2 = spec_derangement((b - 2) as nat);
    if b == 2 {
    } else if b == 3 {
        reveal_with_fuel(spec_derangement, 4);
    } else {
        lemma_derangement_monotonic((b - 1) as nat, (b - 1) as nat);
        if a < b {
            lemma_derangement_monotonic(a, (b - 1) as nat);
        }
        assert(((b - 1) as nat) * (prev + prev2) >= prev) by (nonlinear_arith)
            requires
                b >= 2,
        ;
    }
}

/// `D(n)` fits in a `u64` exactly when `n` is at most `MAX_DERANGEMENT_ARG`.
pub proof fn lemma_derangement_fits(n: nat)
    ensures
        spec_derangement(n) <= u64::MAX <==> n <= MAX_DERANGEMENT_ARG,
{
    lemma_derangement_values();
    if n <= 20 {
        lemma_derangement_monotonic(n, 20);
    } else {
        lemma_derangement_monotonic(21, n);
    }
}

/// The number of derangements of `n` items.
pub fn derangement(n: u64) -> (r: Result<u64, &'static str>)
    requires
        spec_derangement(n as nat) <= u64::MAX,
    ensures
        r is Ok && r.unwrap() == spec_derangement(n as nat),
{
    if n == 0 {
        return Ok(1);
    }
    if n == 1 {
        return Ok(0);
    }
    let mut before: u64 = 1;
    let mut last: u64 = 0;
    let mut i: u64 = 1;
    while i < n
        invariant
            1 <= i <= n,
            n >= 2,
            before == spec_derangement((i - 1) as nat),
            last == spec_derangement(i as nat),
            spec_derangement(n as nat) <= u64::MAX,
        decreases n - i,
    {
        proof {
            lemma_derangement_monotonic((i + 1) as nat, n as nat);
            assert(spec_derangement((i + 1) as nat) == (i as nat) * (last + before));
            assert(last + before <= (i as nat) * (last + before)) by (nonlinear_arith)
                requires
                    i >= 1,
            ;
        }
        let next = i * (last + before);
        before = last;
        last = next;
        i = i + 1;
    }
    Ok(last)
}

/// The sum of the entries of `s`.
pub open spec fn spec_sum(s: Seq<u64>) -> nat
    decreases s.len(),
{
    if s.len() == 0 {
        0
    } else {
        spec_sum(s.drop_last()) + (s.last() as nat)
    }
}

/// The product of the entries of `s`.
pub open spec fn spec_product(s: Seq<u64>) -> nat
    decreases s.len(),
{
    if s.len() == 0 {
        1
    } else {
        spec_product(s.drop_last()) * (s.last() as nat)
    }
}

/// The sum of a prefix is at most the sum of the whole.
pub proof fn lemma_sum_prefix(s: Seq<u64>, i: int)
    requires
        0 <= i <= s.len(),
    ensures
        spec_sum(s.take(i)) <= spec_sum(s),
    decreases s.len() - i,
{
    if i == s.len() {
        assert(s.take(i) == s);
    } else {
        lemma_sum_prefix(s, i + 1);
        assert(s.take(i + 1).drop_last() == s.take(i));
    }
}

/// A product with a zero factor is zero.
pub proof fn lemma_product_zero(s: Seq<u64>, i: int)
    requires
        0 <= i < s.len(),
        s[i] == 0,
    ensures
        spec_product(s) == 0,
    decreases s.len(),
{
    if i == s.len() - 1 {
        assert(spec_product(s.drop_last()) * 0 == 0) by (nonlinear_arith);
    } else {
        lemma_product_zero(s.drop_last(), i);
        assert(0 * (s.last() as nat) == 0) by (nonlinear_arith);
    }
}

/// Among positive factors, the product of a prefix is positive and at most
/// the product of the whole.
pub proof fn lemma_product_prefix(s: Seq<u64>, i: int)
    requires
        0 <= i <= s.len(),
        forall|j: int| 0 <= j < s.len() ==> s[j] >= 1,
    ensures
        1 <= spec_product(s.take(i)) <= spec_product(s),
    decreases s.len() - i,
{
    if i == s.len() {
        assert(s.take(i) == s);
        lemma_product_positive(s);
    } else {
        lemma_product_prefix(s, i + 1);
        assert(s.take(i + 1).drop_last() == s.take(i));
        lemma_product_positive(s.take(i));
        let head = spec_product(s.take(i));
        assert(head <= head * (s[i] as nat)) by (nonlinear_arith)
            requires
                s[i] >= 1,
        ;
    }
}

/// A product of positive factors is positive.
pub proof fn lemma_product_positive(s: Seq<u64>)
    requires
        forall|j: int| 0 <= j < s.len() ==> s[j] >= 1,
    ensures
        spec_product(s) >= 1,
    decreases s.len(),
{
    if s.len() > 0 {
        lemma_product_positive(s.drop_last());
        assert(spec_product(s.drop_last()) * (s.last() as nat) >= 1) by (nonlinear_arith)
            requires
                spec_product(s.drop_last()) >= 1,
                s.last() >= 1,
        ;
    }
}

/// The addition principle: a task that can be done in one of several
/// mutually exclusive ways, the `i`-th of which offers `options[i]` choices,
/// can be done in as many ways as the entries sum to.
///
/// Fails when `options` is empty.
pub fn classification_addition_principle(options: &[u64]) -> (r: Result<u64, &'static str>)
    requires
        spec_sum(options@) <= u64::MAX,
    ensures
        options@.len() == 0 ==> r is Err && r.unwrap_err()@ == ERR_EMPTY_OPTIONS@,
        options@.len() > 0 ==> r is Ok && r.unwrap() == spec_sum(options@),
{
    if options.len() == 0 {
        return Err(ERR_EMPTY_OPTIONS);
    }
    let mut total: u64 = 0;
    let mut i: usize = 0;
    while i < options.len()
        invariant
            i <= options@.len(),
            total == spec_sum(options@.take(i as int)),
            spec_sum(options@) <= u64::MAX,
        decreases options@.len() - i,
    {
        proof {
            lemma_sum_prefix(options@, i + 1);
            assert(options@.take(i + 1).drop_last() == options@.take(i as int));
        }
        total = total + options[i];
        i = i + 1;
    }
    proof {
        assert(options@.take(i as int) == options@);
    }
    Ok(total)
}

/// The multiplication principle: a task done in successive steps, the `i`-th
/// of which offers `steps[i]` choices, can be done in as many ways as the
/// entries multiply to.
///
/// Fails when `steps` is empty.
pub fn step_multiplication_principle(steps: &[u64]) -> (r: Result<u64, &'static str>)
    requires
        spec_product(steps@) <= u64::MAX,
    ensures
        steps@.len() == 0 ==> r is Err && r.unwrap_err()@ == ERR_EMPTY_OPTIONS@,
        steps@.len() > 0 ==> r is Ok && r.unwrap() == spec_product(steps@),
{
    if steps.len() == 0 {
        return Err(ERR_EMPTY_OPTIONS);
    }
    let mut scanned: usize = 0;
    while scanned < steps.len()
        invariant
            scanned <= steps@.len(),
            forall|j: int| 0 <= j < scanned ==> steps@[j] >= 1,
        decreases steps@.len() - scanned,
    {
        if steps[scanned] == 0 {
            proof {
                lemma_product_zero(steps@, scanned as int);
            }
            return Ok(0);
        }
        scanned = scanned + 1;
    }
    let mut total: u64 = 1;
    let mut i: usize = 0;
    while i < steps.len()
        invariant
            i <= steps@.len(),
            total == spec_product(steps@.take(i as int)),
            spec_product(steps@) <= u64::MAX,
            forall|j: int| 0 <= j < steps@.len() ==> steps@[j] >= 1,
        decreases steps@.len() - i,
    {
        proof {
            lemma_product_prefix(steps@, i + 1);
            assert(steps@.take(i + 1).drop_last() == steps@.take(i as int));
        }
        total = total * steps[i];
        i = i + 1;
    }
    proof {
        assert(steps@.take(i as int) == steps@);
    }
    Ok(total)
}

} // verus!
