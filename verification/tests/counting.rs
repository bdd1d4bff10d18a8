use guhs::counting::{
    binomial_theorem, classification_addition_principle, combination, combination_identity,
    derangement, factorial, permutation, step_multiplication_principle, ERR_EMPTY_OPTIONS,
    ERR_INVALID_INPUT, MAX_DERANGEMENT_ARG, MAX_FACTORIAL_ARG,
};

#[test]
fn factorial_of_small_numbers() {
    assert_eq!(factorial(0), 1);
    assert_eq!(factorial(1), 1);
    assert_eq!(factorial(2), 2);
    assert_eq!(factorial(5), 120);
    assert_eq!(factorial(10), 3_628_800);
}

#[test]
fn factorial_of_the_largest_argument() {
    assert_eq!(MAX_FACTORIAL_ARG, 20);
    assert_eq!(factorial(MAX_FACTORIAL_ARG), 2_432_902_008_176_640_000);
}

#[test]
fn factorial_satisfies_its_recurrence() {
    for n in 1..=MAX_FACTORIAL_ARG {
        assert_eq!(factorial(n), n * factorial(n - 1));
    }
}

#[test]
fn permutation_counts_ordered_selections() {
    assert_eq!(permutation(5, 2), Ok(20));
    assert_eq!(permutation(5, 0), Ok(1));
    assert_eq!(permutation(5, 5), Ok(120));
    assert_eq!(permutation(0, 0), Ok(1));
    assert_eq!(permutation(10, 3), Ok(720));
    assert_eq!(permutation(20, 1), Ok(20));
    assert_eq!(permutation(20, 20), Ok(2_432_902_008_176_640_000));
}

#[test]
fn permutation_rejects_more_than_available() {
    assert_eq!(permutation(2, 5), Err(ERR_INVALID_INPUT));
    assert_eq!(permutation(0, 1), Err(ERR_INVALID_INPUT));
    assert_eq!(permutation(100, 101), Err("n必须大于等于k"));
    assert_eq!(permutation(u64::MAX - 1, u64::MAX), Err(ERR_INVALID_INPUT));
}

#[test]
fn combination_counts_subsets() {
    assert_eq!(combination(5, 2), Ok(10));
    assert_eq!(combination(5, 3), Ok(10));
    assert_eq!(combination(0, 0), Ok(1));
    assert_eq!(combination(6, 3), Ok(20));
    assert_eq!(combination(10, 5), Ok(252));
    assert_eq!(combination(20, 10), Ok(184_756));
    assert_eq!(combination(52, 5), Ok(2_598_960));
}

#[test]
fn combination_at_the_edges_of_a_row() {
    assert_eq!(combination(7, 0), Ok(1));
    assert_eq!(combination(7, 7), Ok(1));
    assert_eq!(combination(7, 1), Ok(7));
    assert_eq!(combination(7, 6), Ok(7));
    assert_eq!(combination(u64::MAX, 0), Ok(1));
    assert_eq!(combination(u64::MAX, u64::MAX), Ok(1));
    assert_eq!(combination(u64::MAX, 1), Ok(u64::MAX));
    assert_eq!(combination(u64::MAX, u64::MAX - 1), Ok(u64::MAX));
}

#[test]
fn combination_rejects_more_than_available() {
    assert_eq!(combination(2, 5), Err(ERR_INVALID_INPUT));
    assert_eq!(combination(0, 1), Err(ERR_INVALID_INPUT));
    assert_eq!(combination(1000, 1001), Err("n必须大于等于k"));
}

#[test]
fn combination_is_symmetric() {
    for n in 0..=MAX_FACTORIAL_ARG {
        for k in 0..=n {
            assert_eq!(combination(n, k), combination(n, n - k));
        }
    }
}

#[test]
fn combination_times_factorial_is_permutation() {
    for n in 0..=MAX_FACTORIAL_ARG {
        for k in 0..=n {
            let c = combination(n, k).unwrap();
            let p = permutation(n, k).unwrap();
            assert_eq!(c * factorial(k), p);
        }
    }
}

#[test]
fn combination_row_sums_to_a_power_of_two() {
    for n in 0..=MAX_FACTORIAL_ARG {
        let mut sum: u64 = 0;
        for k in 0..=n {
            sum += combination(n, k).unwrap();
        }
        assert_eq!(sum, 1u64 << n);
    }
}

#[test]
fn combination_identity_values() {
    assert_eq!(combination_identity(5, 2), Ok(10));
    assert_eq!(combination_identity(5, 0), Ok(1));
    assert_eq!(combination_identity(5, 5), Ok(1));
    assert_eq!(combination_identity(0, 0), Ok(1));
    assert_eq!(combination_identity(1, 1), Ok(1));
    assert_eq!(combination_identity(6, 3), Ok(20));
    assert_eq!(combination_identity(20, 10), Ok(184_756));
}

#[test]
fn combination_identity_rejects_more_than_available() {
    assert_eq!(combination_identity(2, 5), Err(ERR_INVALID_INPUT));
    assert_eq!(combination_identity(0, 1), Err(ERR_INVALID_INPUT));
}

#[test]
fn combination_identity_agrees_with_combination() {
    for n in 0..=MAX_FACTORIAL_ARG {
        for k in 0..=n + 2 {
            assert_eq!(combination_identity(n, k), combination(n, k));
        }
    }
}

#[test]
fn binomial_theorem_gives_the_coefficients() {
    assert_eq!(binomial_theorem(4, 0), Ok(1));
    assert_eq!(binomial_theorem(4, 1), Ok(4));
    assert_eq!(binomial_theorem(4, 2), Ok(6));
    assert_eq!(binomial_theorem(4, 3), Ok(4));
    assert_eq!(binomial_theorem(4, 4), Ok(1));
    assert_eq!(binomial_theorem(4, 5), Err(ERR_INVALID_INPUT));
}

#[test]
fn derangement_values() {
    let expected: [u64; 11] = [1, 0, 1, 2, 9, 44, 265, 1854, 14833, 133496, 1334961];
    for (n, want) in expected.iter().enumerate() {
        assert_eq!(derangement(n as u64), Ok(*want));
    }
}

#[test]
fn derangement_of_the_largest_argument() {
    assert_eq!(MAX_DERANGEMENT_ARG, 20);
    assert_eq!(derangement(MAX_DERANGEMENT_ARG), Ok(895_014_631_192_902_121));
}

#[test]
fn derangement_satisfies_its_recurrence() {
    for n in 2..=MAX_DERANGEMENT_ARG {
        let d = derangement(n).unwrap();
        let d1 = derangement(n - 1).unwrap();
        let d2 = derangement(n - 2).unwrap();
        assert_eq!(d, (n - 1) * (d1 + d2));
    }
}

#[test]
fn addition_principle_sums_the_options() {
    assert_eq!(classification_addition_principle(&[1, 2, 3]), Ok(6));
    assert_eq!(classification_addition_principle(&[7]), Ok(7));
    assert_eq!(classification_addition_principle(&[0, 0]), Ok(0));
    assert_eq!(classification_addition_principle(&[u64::MAX]), Ok(u64::MAX));
    assert_eq!(classification_addition_principle(&[u64::MAX - 1, 0, 1]), Ok(u64::MAX));
}

#[test]
fn addition_principle_rejects_an_empty_list() {
    assert_eq!(classification_addition_principle(&[]), Err(ERR_EMPTY_OPTIONS));
    assert_eq!(classification_addition_principle(&[]), Err("选项列表不能为空"));
}

#[test]
fn multiplication_principle_multiplies_the_steps() {
    assert_eq!(step_multiplication_principle(&[2, 3, 4]), Ok(24));
    assert_eq!(step_multiplication_principle(&[7]), Ok(7));
    assert_eq!(step_multiplication_principle(&[1, 1, 1]), Ok(1));
    assert_eq!(step_multiplication_principle(&[u64::MAX, 1]), Ok(u64::MAX));
    assert_eq!(step_multiplication_principle(&[1 << 32, 1 << 31]), Ok(1 << 63));
}

#[test]
fn multiplication_principle_with_a_step_without_choices() {
    assert_eq!(step_multiplication_principle(&[5, 0, 7]), Ok(0));
    assert_eq!(step_multiplication_principle(&[0]), Ok(0));
    assert_eq!(step_multiplication_principle(&[u64::MAX, 2, 0]), Ok(0));
}

#[test]
fn multiplication_principle_rejects_an_empty_list() {
    assert_eq!(step_multiplication_principle(&[]), Err(ERR_EMPTY_OPTIONS));
}
