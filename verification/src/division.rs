//! Tropical polynomial division f = q ⊗ d ⊕ r, and the network simplification built on it.

use vstd::prelude::*;

use crate::algebra::{all_ordered, is_last_max, TropicalSemiring};
use crate::order::OrderKey;

verus! {

/// Tropical polynomial division: divides one tropical polynomial by another.
pub struct TropicalDivision;

/// The indices below `n` at which `fits` is `want`, in increasing order.
pub open spec fn indices_where(fits: Seq<bool>, want: bool, n: int) -> Seq<usize>
    decreases n,
{
    if n <= 0 {
        Seq::empty()
    } else if fits[n - 1] == want {
        indices_where(fits, want, n - 1).push((n - 1) as usize)
    } else {
        indices_where(fits, want, n - 1)
    }
}

/// The division is trivial (quotient the constant 0, remainder f itself) when the divisor
/// has no monomial or the two polynomials differ in their number of variables.
pub open spec fn is_trivial_division(f_n_vars: usize, d_n_vars: usize, d_len: nat) -> bool {
    d_len == 0 || f_n_vars != d_n_vars
}

/// What simplifying a network by division does: whether the quotient replaces the
/// numerator (and the constant 0 the denominator), and how many monomials go in all.
pub struct NetworkSimplification {
    pub replace_with_quotient: bool,
    pub removed: usize,
}

/// The quotient replaces the numerator when the division was clean (a remainder of at
/// most one monomial) and the quotient with a one-monomial denominator is no more than
/// the `before` monomials the network had before its simplification.
pub open spec fn takes_quotient(before: nat, quotient_len: nat, remainder_len: nat) -> bool {
    remainder_len <= 1 && quotient_len + 1 <= before
}

/// The number of monomials of the network after the division step.
pub open spec fn monomials_after(
    before: nat,
    numerator_len: nat,
    denominator_len: nat,
    quotient_len: nat,
    remainder_len: nat,
) -> nat {
    if takes_quotient(before, quotient_len, remainder_len) {
        quotient_len + 1
    } else {
        numerator_len + denominator_len
    }
}

/// How f is divided once the fit of each of its monomials is known: the monomials that
/// go to the quotient and those that go to the remainder, in order; a quotient with none
/// is the constant 0, and a remainder with none is the constant -∞.
pub struct DivisionPlan {
    pub quotient: Vec<usize>,
    pub remainder: Vec<usize>,
    pub quotient_is_zero: bool,
    pub remainder_is_neg_inf: bool,
}

impl TropicalDivision {
    /// The leading monomial of the divisor `d`, the one by which f is divided: the last of
    /// its greatest coefficients, or `None` when the division is trivial.
    ///
    /// Comparing an unordered coefficient fails, so a divisor with two monomials or more
    /// has only ordered coefficients.
    pub fn leading_index(f_n_vars: usize, d_n_vars: usize, d_coefficients: &Vec<OrderKey>) -> (r: Option<usize>)
        requires
            is_trivial_division(f_n_vars, d_n_vars, d_coefficients@.len()) || d_coefficients@.len() <= 1
                || all_ordered(d_coefficients@),
        ensures
            r is None <==> is_trivial_division(f_n_vars, d_n_vars, d_coefficients@.len()),
            r matches Some(i) ==> is_last_max(d_coefficients@, d_coefficients@.len() as int, i),
    {
        if d_coefficients.len() == 0 || d_n_vars != f_n_vars {
            return None;
        }
        TropicalSemiring::last_max_index(d_coefficients)
    }

    /// Plans the division of f once each monomial's fit is known: `fits[i]` says whether
    /// the quotient term of monomial `i` times the leading monomial stays below f there.
    /// The quotient takes the monomials that fit, the remainder the others, both in order;
    /// an empty quotient becomes the constant 0 and an empty remainder the constant -∞.
    pub fn plan(fits: &Vec<bool>) -> (r: DivisionPlan)
        ensures
            r.quotient@ == indices_where(fits@, true, fits@.len() as int),
            r.remainder@ == indices_where(fits@, false, fits@.len() as int),
            r.quotient_is_zero == (r.quotient@.len() == 0),
            r.remainder_is_neg_inf == (r.remainder@.len() == 0),
    {
        let mut quotient: Vec<usize> = Vec::new();
        let mut remainder: Vec<usize> = Vec::new();
        let mut i: usize = 0;
        while i < fits.len()
            invariant
                i <= fits@.len(),
                quotient@ == indices_where(fits@, true, i as int),
                remainder@ == indices_where(fits@, false, i as int),
            decreases fits@.len() - i,
        {
            if fits[i] {
                quotient.push(i);
            } else {
                remainder.push(i);
            }
            i = i + 1;
        }
        let quotient_is_zero = quotient.len() == 0;
        let remainder_is_neg_inf = remainder.len() == 0;
        DivisionPlan { quotient, remainder, quotient_is_zero, remainder_is_neg_inf }
    }

    /// The last step of simplifying a network, after the dominated monomials are gone:
    /// the quotient replaces the numerator, and a constant the denominator, when the
    /// division was clean and the result has no more monomials than the network had
    /// before its simplification; `removed` is the count before less the count after.
    pub fn simplify_network_outcome(
        before: usize,
        numerator_len: usize,
        denominator_len: usize,
        quotient_len: usize,
        remainder_len: usize,
    ) -> (r: NetworkSimplification)
        requires
            numerator_len + denominator_len <= before,
        ensures
            r.replace_with_quotient == takes_quotient(before as nat, quotient_len as nat, remainder_len as nat),
            monomials_after(
                before as nat,
                numerator_len as nat,
                denominator_len as nat,
                quotient_len as nat,
                remainder_len as nat,
            ) <= before,
            r.removed == before - monomials_after(
                before as nat,
                numerator_len as nat,
                denominator_len as nat,
                quotient_len as nat,
                remainder_len as nat,
            ),
    {
        if remainder_len <= 1 && quotient_len < before {
            NetworkSimplification { replace_with_quotient: true, removed: before - quotient_len - 1 }
        } else {
            NetworkSimplification { replace_with_quotient: false, removed: before - numerator_len - denominator_len }
        }
    }
}

/// A division is trivial exactly when the divisor has no monomial or the two polynomials
/// differ in their number of variables: any non-empty divisor in f's variables, however
/// many monomials it has against its variables, has a leading monomial, the last of its
/// greatest coefficients.
pub proof fn law_leading_monomial_exists(f_n_vars: usize, d_n_vars: usize, d_coefficients: Seq<OrderKey>, r: Option<usize>)
    requires
        r is None <==> is_trivial_division(f_n_vars, d_n_vars, d_coefficients.len()),
    ensures
        d_coefficients.len() == 0 ==> r is None,
        f_n_vars != d_n_vars ==> r is None,
        d_coefficients.len() > 0 && f_n_vars == d_n_vars ==> r is Some,
{
}

/// The division step takes the quotient whenever the division was clean (a remainder of
/// at most one monomial) and the quotient with a constant denominator fits in the count
/// before, whatever the quotient's length; it then leaves the quotient and one more
/// monomial. Otherwise it keeps the network.
pub proof fn law_clean_division_takes_quotient(
    before: nat,
    numerator_len: nat,
    denominator_len: nat,
    quotient_len: nat,
    remainder_len: nat,
)
    ensures
        remainder_len <= 1 && quotient_len + 1 <= before ==> takes_quotient(before, quotient_len, remainder_len)
            && monomials_after(before, numerator_len, denominator_len, quotient_len, remainder_len)
            == quotient_len + 1,
        remainder_len > 1 ==> !takes_quotient(before, quotient_len, remainder_len)
            && monomials_after(before, numerator_len, denominator_len, quotient_len, remainder_len)
            == numerator_len + denominator_len,
        quotient_len + 1 > before ==> !takes_quotient(before, quotient_len, remainder_len),
{
}

/// The quotient and remainder indices are the monomials of f split in two: every index
/// below `n` is in exactly one of them, and each is strictly increasing.
pub proof fn law_division_plan_partitions(fits: Seq<bool>, n: int)
    requires
        0 <= n <= fits.len(),
        n <= usize::MAX,
    ensures
        indices_where(fits, true, n).len() + indices_where(fits, false, n).len() == n,
        forall|i: int| 0 <= i < n ==>
            (indices_where(fits, true, n).contains(i as usize) <==> fits[i]),
        forall|i: int| 0 <= i < n ==>
            (indices_where(fits, false, n).contains(i as usize) <==> !fits[i]),
    decreases n,
{
    if n > 0 {
        law_division_plan_partitions(fits, n - 1);
        lemma_indices_where_below(fits, true, n - 1);
        lemma_indices_where_below(fits, false, n - 1);
        let q = indices_where(fits, true, n);
        let r = indices_where(fits, false, n);
        let q0 = indices_where(fits, true, n - 1);
        let r0 = indices_where(fits, false, n - 1);
        assert forall|i: int| 0 <= i < n implies (q.contains(i as usize) <==> fits[i]) by {
            if fits[n - 1] {
                assert(q == q0.push((n - 1) as usize));
                if i == n - 1 {
                    assert(q[q0.len() as int] == i as usize);
                } else {
                    if q.contains(i as usize) {
                        let a = choose|a: int| 0 <= a < q.len() && q[a] == i as usize;
                        assert(a < q0.len());
                        assert(q0.contains(i as usize));
                    }
                    if q0.contains(i as usize) {
                        let a = choose|a: int| 0 <= a < q0.len() && q0[a] == i as usize;
                        assert(q[a] == i as usize);
                    }
                }
            } else {
                assert(q == q0);
                if i == n - 1 && q.contains(i as usize) {
                    let a = choose|a: int| 0 <= a < q0.len() && q0[a] == i as usize;
                    assert(q0[a] < n - 1);
                }
            }
        }
        assert forall|i: int| 0 <= i < n implies (r.contains(i as usize) <==> !fits[i]) by {
            if !fits[n - 1] {
                assert(r == r0.push((n - 1) as usize));
                if i == n - 1 {
                    assert(r[r0.len() as int] == i as usize);
                } else {
                    if r.contains(i as usize) {
                        let a = choose|a: int| 0 <= a < r.len() && r[a] == i as usize;
                        assert(a < r0.len());
                        assert(r0.contains(i as usize));
                    }
                    if r0.contains(i as usize) {
                        let a = choose|a: int| 0 <= a < r0.len() && r0[a] == i as usize;
                        assert(r[a] == i as usize);
                    }
                }
            } else {
                assert(r == r0);
                if i == n - 1 && r.contains(i as usize) {
                    let a = choose|a: int| 0 <= a < r0.len() && r0[a] == i as usize;
                    assert(r0[a] < n - 1);
                }
            }
        }
    }
}

/// The indices below `n` at which `fits` is `want` all lie below `n`.
proof fn lemma_indices_where_below(fits: Seq<bool>, want: bool, n: int)
    requires
        0 <= n <= usize::MAX,
    ensures
        forall|a: int| 0 <= a < indices_where(fits, want, n).len() ==> #[trigger] indices_where(fits, want, n)[a] < n,
    decreases n,
{
    if n > 0 {
        lemma_indices_where_below(fits, want, n - 1);
        let prev = indices_where(fits, want, n - 1);
        if fits[n - 1] == want {
            assert forall|a: int| 0 <= a < prev.len() + 1 implies #[trigger] prev.push((n - 1) as usize)[a] < n by {
                if a < prev.len() {
                    assert(prev[a] < n - 1);
                }
            }
        }
    }
}

} // verus!
