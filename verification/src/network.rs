//! Tropical rational maps p(x) - q(x): the representation of ReLU networks.

use vstd::prelude::*;

use crate::polynomial::PolynomialOrder;

verus! {

/// The bound on the number of linear regions of a network whose numerator has
/// `numerator_len` monomials and whose denominator has `denominator_len`: their product,
/// and at least 1.
pub fn linear_regions_upper_bound(numerator_len: usize, denominator_len: usize) -> (r: usize)
    requires
        numerator_len * denominator_len <= usize::MAX,
    ensures
        r == if numerator_len * denominator_len >= 1 { numerator_len * denominator_len } else { 1 },
        r >= 1,
        r >= numerator_len * denominator_len,
{
    let n = numerator_len * denominator_len;
    if n >= 1 {
        n
    } else {
        1
    }
}

/// What simplifying a network does: for each of its polynomials, the monomials it keeps
/// when it drops any (`None` when it keeps them all), and how many monomials go in all.
pub struct SimplifyPlan {
    pub numerator_keep: Option<Vec<usize>>,
    pub denominator_keep: Option<Vec<usize>>,
    pub removed: usize,
}

/// The monomials kept of a polynomial whose Newton polytope has the vertices `v`: the
/// vertices when some monomial is not one, else all (`None`).
pub open spec fn keeps(p: PolynomialOrder, k: Option<Vec<usize>>) -> bool {
    if p.vertices().len() < p.coefficients@.len() {
        k matches Some(idx) && idx@ == p.vertices()
    } else {
        k is None
    }
}

/// Plans the simplification of a network given the order views of its numerator and
/// denominator: each polynomial keeps the vertices of its Newton polytope, the monomials
/// that no other monomial dominates, so a polynomial with monomials keeps at least one;
/// `removed` counts the monomials dropped.
pub fn simplify_plan(numerator: &PolynomialOrder, denominator: &PolynomialOrder) -> (r: SimplifyPlan)
    requires
        numerator.has_rows(),
        denominator.has_rows(),
        numerator.coefficients@.len() + denominator.coefficients@.len() <= usize::MAX,
    ensures
        keeps(*numerator, r.numerator_keep),
        keeps(*denominator, r.denominator_keep),
        numerator.coefficients@.len() > 0 ==> (r.numerator_keep matches Some(k) ==> k@.len() > 0),
        denominator.coefficients@.len() > 0 ==> (r.denominator_keep matches Some(k) ==> k@.len() > 0),
        r.removed == (numerator.coefficients@.len() - numerator.vertices().len())
            + (denominator.coefficients@.len() - denominator.vertices().len()),
{
    proof {
        numerator.law_vertices_are_the_undominated();
        denominator.law_vertices_are_the_undominated();
        numerator.law_nonempty_has_vertex();
        denominator.law_nonempty_has_vertex();
    }
    let num_vertices = numerator.vertex_indices();
    let den_vertices = denominator.vertex_indices();
    let num_removed = numerator.coefficients.len() - num_vertices.len();
    let den_removed = denominator.coefficients.len() - den_vertices.len();
    let numerator_keep = if num_vertices.len() < numerator.coefficients.len() {
        Some(num_vertices)
    } else {
        None
    };
    let denominator_keep = if den_vertices.len() < denominator.coefficients.len() {
        Some(den_vertices)
    } else {
        None
    };
    let removed = num_removed + den_removed;
    SimplifyPlan { numerator_keep, denominator_keep, removed }
}

} // verus!
