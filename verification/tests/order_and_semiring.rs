use tropical_neural::algebra::TropicalSemiring;
use tropical_neural::order::OrderKey;
use tropical_neural::order::OrderKey::{Ordered, Unordered};

fn key(x: f64) -> OrderKey {
    OrderKey::from_bits(x.to_bits())
}

#[test]
fn keys_follow_float_order() {
    let xs = [f64::NEG_INFINITY, -3.5, -1.0, -0.0, 0.0, 0.5, 2.0, f64::INFINITY];
    for a in xs.iter() {
        for b in xs.iter() {
            assert_eq!(key(*a).ge(&key(*b)), a >= b);
            assert_eq!(key(*a).gt(&key(*b)), a > b);
        }
    }
}

#[test]
fn unordered_compares_false() {
    assert!(!Unordered.ge(&Unordered));
    assert!(!Unordered.ge(&Ordered(0)));
    assert!(!Ordered(0).gt(&Unordered));
    assert!(Ordered(1).gt(&Ordered(0)));
    assert!(Ordered(1).ge(&Ordered(1)));
    assert!(!Ordered(1).gt(&Ordered(1)));
}

#[test]
fn dot_winner_is_greatest_sum() {
    // max(1+4, 2+5, 3+6) = max(5, 7, 9): the third product wins
    let products = vec![key(5.0), key(7.0), key(9.0)];
    assert_eq!(TropicalSemiring::first_max_above(&products, key(f64::NEG_INFINITY)), Some(2));
}

#[test]
fn dot_winner_keeps_first_of_equals() {
    let products = vec![Ordered(4), Ordered(9), Ordered(2), Ordered(9)];
    assert_eq!(TropicalSemiring::first_max_above(&products, Ordered(i64::MIN)), Some(1));
}

#[test]
fn dot_winner_skips_unordered_and_floor() {
    let products = vec![Unordered, Ordered(3), Unordered];
    assert_eq!(TropicalSemiring::first_max_above(&products, Ordered(0)), Some(1));
    let low = vec![key(f64::NEG_INFINITY), Unordered];
    assert_eq!(TropicalSemiring::first_max_above(&low, key(f64::NEG_INFINITY)), None);
    assert_eq!(TropicalSemiring::first_max_above(&vec![], Ordered(0)), None);
}

#[test]
fn attention_picks_best_key() {
    // scores 2 and 1: the first key attends best
    let row = vec![key(2.0), key(1.0)];
    assert_eq!(TropicalSemiring::last_max_index(&row), Some(0));
}

#[test]
fn last_max_index_prefers_last_of_equals() {
    let row = vec![Ordered(3), Ordered(3), Ordered(1)];
    assert_eq!(TropicalSemiring::last_max_index(&row), Some(1));
    let rising = vec![Ordered(-2), Ordered(0), Ordered(5)];
    assert_eq!(TropicalSemiring::last_max_index(&rising), Some(2));
}

#[test]
fn last_max_index_edges() {
    assert_eq!(TropicalSemiring::last_max_index(&vec![]), None);
    assert_eq!(TropicalSemiring::last_max_index(&vec![Unordered]), Some(0));
}

#[test]
fn both_scans_find_the_same_maximum() {
    let keys = vec![Ordered(3), Ordered(9), Ordered(2), Ordered(9)];
    let first = TropicalSemiring::first_max_above(&keys, Ordered(i64::MIN)).unwrap();
    let last = TropicalSemiring::last_max_index(&keys).unwrap();
    assert_eq!(first, 1);
    assert_eq!(last, 3);
    assert_eq!(keys[first], keys[last]);
}

#[test]
fn tropical_add_keeps_the_greater() {
    // 3 ⊕ 5 = 5
    assert!(!TropicalSemiring::sum_keeps_left(Some(key(3.0)), Some(key(5.0))));
    assert!(TropicalSemiring::sum_keeps_left(Some(key(5.0)), Some(key(3.0))));
}

#[test]
fn tropical_add_identity_is_neg_inf() {
    // 3 ⊕ -∞ = -∞ ⊕ 3 = 3
    assert!(TropicalSemiring::sum_keeps_left(Some(key(3.0)), None));
    assert!(!TropicalSemiring::sum_keeps_left(None, Some(key(3.0))));
}

#[test]
fn tropical_add_skips_nan() {
    assert!(!TropicalSemiring::sum_keeps_left(Some(Unordered), Some(key(-7.0))));
    assert!(TropicalSemiring::sum_keeps_left(Some(key(-7.0)), Some(Unordered)));
    assert!(!TropicalSemiring::sum_keeps_left(None, Some(Unordered)));
}

#[test]
fn tropical_add_is_associative_on_examples() {
    let xs = [None, Some(Unordered), Some(Ordered(-1)), Some(Ordered(4)), Some(Ordered(4))];
    let sum = |a: Option<OrderKey>, b: Option<OrderKey>| if TropicalSemiring::sum_keeps_left(a, b) { a } else { b };
    for a in xs.iter() {
        for b in xs.iter() {
            assert_eq!(sum(*a, *b), sum(*b, *a));
            for c in xs.iter() {
                assert_eq!(sum(sum(*a, *b), *c), sum(*a, sum(*b, *c)));
            }
        }
    }
}

#[test]
fn polynomial_value_is_the_greatest_monomial() {
    // f(x) = max(1 + 2x, 3 + x): at x = 0 the values are 1 and 3
    assert_eq!(TropicalSemiring::sum_index(&vec![key(1.0), key(3.0)]), Some(1));
    // at x = 2 both are 5: the first is kept
    assert_eq!(TropicalSemiring::sum_index(&vec![key(5.0), key(5.0)]), Some(0));
    // at x = 5 the values are 11 and 8
    assert_eq!(TropicalSemiring::sum_index(&vec![key(11.0), key(8.0)]), Some(0));
}

#[test]
fn polynomial_value_edges() {
    assert_eq!(TropicalSemiring::sum_index(&vec![]), None);
    assert_eq!(TropicalSemiring::sum_index(&vec![Unordered, Unordered]), Some(1));
    assert_eq!(TropicalSemiring::sum_index(&vec![Unordered, Ordered(-3), Unordered]), Some(1));
}

#[test]
fn mat_vec_rows_pick_their_greatest_sum() {
    // rows [1, 2] and [3, 1] against [1, 1]: sums [2, 3] and [4, 2]
    let floor = key(f64::NEG_INFINITY);
    assert_eq!(TropicalSemiring::first_max_above(&vec![key(2.0), key(3.0)], floor), Some(1));
    assert_eq!(TropicalSemiring::first_max_above(&vec![key(4.0), key(2.0)], floor), Some(0));
}

#[test]
fn keys_from_bits() {
    assert_eq!(OrderKey::from_bits(0.0f64.to_bits()), Ordered(0));
    assert_eq!(OrderKey::from_bits((-0.0f64).to_bits()), Ordered(0));
    assert_eq!(OrderKey::from_bits(1.0f64.to_bits()), Ordered(0x3ff0_0000_0000_0000));
    assert_eq!(OrderKey::from_bits((-1.0f64).to_bits()), Ordered(-0x3ff0_0000_0000_0000));
    assert_eq!(OrderKey::from_bits(f64::INFINITY.to_bits()), Ordered(0x7ff0_0000_0000_0000));
    assert_eq!(OrderKey::from_bits(f64::NEG_INFINITY.to_bits()), Ordered(-0x7ff0_0000_0000_0000));
    assert_eq!(OrderKey::from_bits(f64::NAN.to_bits()), Unordered);
    assert_eq!(OrderKey::from_bits((-f64::NAN).to_bits()), Unordered);
}
