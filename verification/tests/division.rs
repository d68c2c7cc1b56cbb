use tropical_neural::division::TropicalDivision;
use tropical_neural::order::OrderKey::{Ordered, Unordered};

#[test]
fn leading_index_of_single_monomial() {
    // d(x) = max(2 + x)
    assert_eq!(TropicalDivision::leading_index(1, 1, &vec![Ordered(2)]), Some(0));
}

#[test]
fn leading_index_is_last_greatest_coefficient() {
    let d = vec![Ordered(5), Ordered(7), Ordered(7), Ordered(1)];
    assert_eq!(TropicalDivision::leading_index(2, 2, &d), Some(2));
}

#[test]
fn trivial_division_has_no_leading_index() {
    // a divisor with no variables against a polynomial in one
    assert_eq!(TropicalDivision::leading_index(1, 0, &vec![Ordered(2)]), None);
    assert_eq!(TropicalDivision::leading_index(1, 1, &vec![]), None);
    assert_eq!(TropicalDivision::leading_index(1, 0, &vec![Unordered, Ordered(1)]), None);
}

#[test]
fn plan_keeps_order() {
    let plan = TropicalDivision::plan(&vec![true, false, true, true, false]);
    assert_eq!(plan.quotient, vec![0, 2, 3]);
    assert_eq!(plan.remainder, vec![1, 4]);
    assert!(!plan.quotient_is_zero && !plan.remainder_is_neg_inf);
    let plan = TropicalDivision::plan(&vec![]);
    assert!(plan.quotient.is_empty() && plan.remainder.is_empty());
    assert!(plan.quotient_is_zero && plan.remainder_is_neg_inf);
}

#[test]
fn clean_division_replaces_numerator() {
    // num max(1+x, 2+x, 3+x) over 0: simplify keeps one monomial, the division is clean
    let outcome = TropicalDivision::simplify_network_outcome(4, 1, 1, 1, 1);
    assert!(outcome.replace_with_quotient);
    assert_eq!(outcome.removed, 2);
    assert!(outcome.removed >= 1);
}

#[test]
fn unclean_division_keeps_network() {
    let outcome = TropicalDivision::simplify_network_outcome(7, 3, 2, 1, 2);
    assert!(!outcome.replace_with_quotient);
    assert_eq!(outcome.removed, 2);
}

#[test]
fn plan_falls_back_to_constants() {
    let none_fit = TropicalDivision::plan(&vec![false, false]);
    assert!(none_fit.quotient_is_zero && !none_fit.remainder_is_neg_inf);
    assert_eq!(none_fit.remainder, vec![0, 1]);
    let all_fit = TropicalDivision::plan(&vec![true]);
    assert!(!all_fit.quotient_is_zero && all_fit.remainder_is_neg_inf);
}

#[test]
fn division_step_never_grows_the_network() {
    // the constant 5 over an empty denominator: the quotient and a constant would be two
    let outcome = TropicalDivision::simplify_network_outcome(1, 1, 0, 1, 1);
    assert!(!outcome.replace_with_quotient);
    assert_eq!(outcome.removed, 0);
}

#[test]
fn division_step_replaces_when_within_the_count_before() {
    // numerator [1+x, 2+x] over an empty denominator: simplify keeps 2+x, the quotient
    // and a constant make two monomials, as many as before
    let outcome = TropicalDivision::simplify_network_outcome(2, 1, 0, 1, 1);
    assert!(outcome.replace_with_quotient);
    assert_eq!(outcome.removed, 0);
}
