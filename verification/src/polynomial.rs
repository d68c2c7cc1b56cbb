//! Tropical polynomials f(x) = maxᵢ(cᵢ + ⟨aᵢ, x⟩): their shape and which monomials matter.

use vstd::prelude::*;

use crate::order::{key_ge, key_gt, OrderKey};

verus! {

/// A polynomial with `n_coefficients` monomials whose exponent vectors have the lengths
/// `row_lengths` is well shaped: one exponent vector per coefficient, all of one length.
pub open spec fn is_well_shaped(n_coefficients: nat, row_lengths: Seq<usize>) -> bool {
    &&& n_coefficients == row_lengths.len()
    &&& forall|j: int| 0 <= j < row_lengths.len() ==> #[trigger] row_lengths[j] == row_lengths[0]
}

/// The number of variables of a polynomial with these exponent vector lengths: the length
/// of the first one, or 0 when there is none.
pub open spec fn shape_n_vars(row_lengths: Seq<usize>) -> usize {
    if row_lengths.len() == 0 {
        0
    } else {
        row_lengths[0]
    }
}

/// Checks the shape of a polynomial before it is built, as its constructor does: `Some`
/// with the number of variables exactly when the shape is well formed.
pub fn checked_n_vars(n_coefficients: usize, row_lengths: &Vec<usize>) -> (r: Option<usize>)
    ensures
        r is Some <==> is_well_shaped(n_coefficients as nat, row_lengths@),
        r matches Some(n) ==> n == shape_n_vars(row_lengths@),
{
    if n_coefficients != row_lengths.len() {
        return None;
    }
    let n_vars: usize = if row_lengths.len() == 0 {
        0
    } else {
        row_lengths[0]
    };
    let mut j: usize = 0;
    while j < row_lengths.len()
        invariant
            j <= row_lengths@.len(),
            n_coefficients == row_lengths@.len(),
            n_vars == shape_n_vars(row_lengths@),
            forall|k: int| 0 <= k < j ==> #[trigger] row_lengths@[k] == n_vars,
        decreases row_lengths@.len() - j,
    {
        if row_lengths[j] != n_vars {
            return None;
        }
        j = j + 1;
    }
    Some(n_vars)
}

/// The monomials of a product f ⊗ g, in the order they are formed: monomial `k` of the
/// product combines monomial `k / m` of f with monomial `k % m` of g.
pub fn product_index_pairs(n: usize, m: usize) -> (r: Vec<(usize, usize)>)
    requires
        n * m <= usize::MAX,
    ensures
        r@.len() == n * m,
        forall|k: int| 0 <= k < n * m ==> #[trigger] r@[k] == ((k / m as int) as usize, (k % m as int) as usize),
{
    let mut r: Vec<(usize, usize)> = Vec::new();
    let mut i: usize = 0;
    while i < n
        invariant
            i <= n,
            n * m <= usize::MAX,
            r@.len() == i * m,
            forall|k: int| 0 <= k < i * m ==> #[trigger] r@[k] == ((k / m as int) as usize, (k % m as int) as usize),
        decreases n - i,
    {
        let mut j: usize = 0;
        proof {
            assert(i * m + m == (i + 1) * m) by (nonlinear_arith);
            assert((i + 1) * m <= n * m) by (nonlinear_arith)
                requires i + 1 <= n;
        }
        while j < m
            invariant
                i < n,
                j <= m,
                (i + 1) * m <= n * m <= usize::MAX,
                i * m + m == (i + 1) * m,
                r@.len() == i * m + j,
                forall|k: int| 0 <= k < i * m + j ==> #[trigger] r@[k] == ((k / m as int) as usize, (k % m as int) as usize),
            decreases m - j,
        {
            proof {
                let k = i * m + j;
                assert(k / m as int == i && k % m as int == j) by (nonlinear_arith)
                    requires k == i * m + j, 0 <= j < m, 0 <= i;
            }
            r.push((i, j));
            j = j + 1;
        }
        i = i + 1;
    }
    r
}

/// Every shape with one exponent vector per coefficient, all of one length, is well
/// shaped whatever that length, and has that length (0 without rows) as its number of
/// variables; a shape with another count of vectors, or two vectors of different
/// lengths, is not.
pub proof fn law_shape_accepts_uniform_rows(n_coefficients: nat, row_lengths: Seq<usize>)
    ensures
        n_coefficients == row_lengths.len() && (forall|j: int| 0 <= j < row_lengths.len() ==> #[trigger] row_lengths[j] == row_lengths[0])
            ==> is_well_shaped(n_coefficients, row_lengths),
        n_coefficients != row_lengths.len() ==> !is_well_shaped(n_coefficients, row_lengths),
        forall|a: int, b: int| 0 <= a < row_lengths.len() && 0 <= b < row_lengths.len()
            && row_lengths[a] != row_lengths[b] ==> !is_well_shaped(n_coefficients, row_lengths),
        row_lengths.len() > 0 ==> shape_n_vars(row_lengths) == row_lengths[0],
        row_lengths.len() == 0 ==> shape_n_vars(row_lengths) == 0,
{
}

/// Dominance between two distinct monomials is exactly this: the same exponent vector,
/// of any signs, with every exponent ordered, and a strictly greater ordered coefficient,
/// or an equal one and an earlier place. A dominated monomial is no vertex.
pub proof fn law_dominance_characterized(c: Seq<OrderKey>, e: Seq<Vec<OrderKey>>, j: int, i: int)
    requires
        0 <= i < c.len(),
        0 <= j < c.len(),
        i != j,
    ensures
        dominates(c, e, j, i) <==> {
            &&& e[j]@ =~= e[i]@
            &&& forall|k: int| 0 <= k < e[i]@.len() ==> (#[trigger] e[i]@[k]) is Ordered
            &&& c[j] is Ordered
            &&& c[i] is Ordered
            &&& (c[j]->Ordered_0 > c[i]->Ordered_0 || (c[j]->Ordered_0 == c[i]->Ordered_0 && j < i))
        },
        dominates(c, e, j, i) ==> !is_vertex(c, e, i),
{
    if e[j]@ =~= e[i]@ {
        assert(e[j]@.len() == e[i]@.len());
    }
    if same_exponents(e, j, i) {
        assert(e[j]@ =~= e[i]@);
    }
}

/// The order view of a tropical polynomial: each coefficient and each exponent replaced
/// by its order key.
pub struct PolynomialOrder {
    pub coefficients: Vec<OrderKey>,
    pub exponents: Vec<Vec<OrderKey>>,
}

/// Monomials `j` and `i` have the same exponent vector, key for key, and every exponent
/// of it is ordered: they differ at most in their coefficient.
pub open spec fn same_exponents(e: Seq<Vec<OrderKey>>, j: int, i: int) -> bool {
    &&& e[j]@.len() == e[i]@.len()
    &&& forall|k: int| 0 <= k < e[i]@.len() ==> #[trigger] e[j]@[k] == e[i]@[k] && e[i]@[k] is Ordered
}

/// Monomial `j` dominates monomial `i`: it is at least as great at every input, so `i` is
/// redundant beside it. That holds exactly when the two share their exponent vector and
/// `j`'s coefficient is the greater; of two equal monomials the earlier dominates.
pub open spec fn dominates(c: Seq<OrderKey>, e: Seq<Vec<OrderKey>>, j: int, i: int) -> bool {
    &&& same_exponents(e, j, i)
    &&& (key_gt(c[j], c[i]) || (c[j] == c[i] && c[i] is Ordered && j < i))
}

/// Monomial `i` is a vertex of the Newton polytope: no other monomial dominates it.
pub open spec fn is_vertex(c: Seq<OrderKey>, e: Seq<Vec<OrderKey>>, i: int) -> bool {
    forall|j: int| 0 <= j < c.len() && j != i ==> !#[trigger] dominates(c, e, j, i)
}

/// The vertices among the first `n` monomials, in increasing order.
pub open spec fn vertices_upto(c: Seq<OrderKey>, e: Seq<Vec<OrderKey>>, n: int) -> Seq<usize>
    decreases n,
{
    if n <= 0 {
        Seq::empty()
    } else if is_vertex(c, e, n - 1) {
        vertices_upto(c, e, n - 1).push((n - 1) as usize)
    } else {
        vertices_upto(c, e, n - 1)
    }
}

impl PolynomialOrder {
    /// Every coefficient has an exponent vector.
    pub open spec fn has_rows(&self) -> bool {
        self.exponents@.len() >= self.coefficients@.len()
    }

    /// The vertices of the Newton polytope, in increasing order.
    pub open spec fn vertices(&self) -> Seq<usize> {
        vertices_upto(self.coefficients@, self.exponents@, self.coefficients@.len() as int)
    }

    /// Whether monomial `j` dominates monomial `i`.
    pub fn dominates(&self, j: usize, i: usize) -> (r: bool)
        requires
            self.has_rows(),
            j < self.coefficients@.len(),
            i < self.coefficients@.len(),
        ensures
            r == dominates(self.coefficients@, self.exponents@, j as int, i as int),
    {
        let ej = &self.exponents[j];
        let ei = &self.exponents[i];
        if ej.len() != ei.len() {
            return false;
        }
        let mut k: usize = 0;
        while k < ei.len()
            invariant
                ej@ == self.exponents@[j as int]@,
                ei@ == self.exponents@[i as int]@,
                ej@.len() == ei@.len(),
                k <= ei@.len(),
                forall|t: int| 0 <= t < k ==> #[trigger] ej@[t] == ei@[t] && ei@[t] is Ordered,
            decreases ei@.len() - k,
        {
            match (ej[k], ei[k]) {
                (OrderKey::Ordered(a), OrderKey::Ordered(b)) => {
                    if a != b {
                        return false;
                    }
                },
                _ => {
                    return false;
                },
            }
            k = k + 1;
        }
        let cj = self.coefficients[j];
        let ci = self.coefficients[i];
        if cj.gt(&ci) {
            return true;
        }
        match (cj, ci) {
            (OrderKey::Ordered(a), OrderKey::Ordered(b)) => a == b && j < i,
            _ => false,
        }
    }

    /// The monomials that are vertices of the Newton polytope: those that no other
    /// monomial dominates (of several equal monomials, the first), in increasing order.
    pub fn vertex_indices(&self) -> (r: Vec<usize>)
        requires
            self.has_rows(),
        ensures
            r@ == self.vertices(),
    {
        let n = self.coefficients.len();
        let mut r: Vec<usize> = Vec::new();
        let mut i: usize = 0;
        while i < n
            invariant
                n == self.coefficients@.len(),
                self.has_rows(),
                i <= n,
                r@ == vertices_upto(self.coefficients@, self.exponents@, i as int),
            decreases n - i,
        {
            let mut kept = true;
            let mut j: usize = 0;
            while j < n && kept
                invariant
                    n == self.coefficients@.len(),
                    self.has_rows(),
                    i < n,
                    j <= n,
                    kept ==> forall|t: int| 0 <= t < j && t != i ==>
                        !#[trigger] dominates(self.coefficients@, self.exponents@, t, i as int),
                    !kept ==> !is_vertex(self.coefficients@, self.exponents@, i as int),
                decreases n - j,
            {
                if j != i && self.dominates(j, i) {
                    kept = false;
                }
                j = j + 1;
            }
            if kept {
                r.push(i);
            }
            i = i + 1;
        }
        r
    }
}

/// The monomials of `c`, `e` at the indices `idx`, in that order.
pub open spec fn restrict_coefficients(c: Seq<OrderKey>, idx: Seq<usize>) -> Seq<OrderKey> {
    idx.map_values(|v: usize| c[v as int])
}

/// The exponent vectors of `e` at the indices `idx`, in that order.
pub open spec fn restrict_exponents(e: Seq<Vec<OrderKey>>, idx: Seq<usize>) -> Seq<Vec<OrderKey>> {
    idx.map_values(|v: usize| e[v as int])
}

/// The vertices among the first `n` monomials lie below `n`, increase strictly, and are
/// exactly the monomials below `n` that no other monomial dominates.
pub proof fn lemma_vertices_upto(c: Seq<OrderKey>, e: Seq<Vec<OrderKey>>, n: int)
    requires
        0 <= n <= usize::MAX,
    ensures
        vertices_upto(c, e, n).len() <= n,
        forall|a: int| 0 <= a < vertices_upto(c, e, n).len() ==> #[trigger] vertices_upto(c, e, n)[a] < n,
        forall|a: int, b: int| 0 <= a < b < vertices_upto(c, e, n).len()
            ==> vertices_upto(c, e, n)[a] < vertices_upto(c, e, n)[b],
        forall|i: int| 0 <= i < n ==> (vertices_upto(c, e, n).contains(i as usize) <==> is_vertex(c, e, i)),
    decreases n,
{
    if n > 0 {
        lemma_vertices_upto(c, e, n - 1);
        let prev = vertices_upto(c, e, n - 1);
        let cur = vertices_upto(c, e, n);
        assert forall|i: int| 0 <= i < n implies (cur.contains(i as usize) <==> is_vertex(c, e, i)) by {
            if is_vertex(c, e, n - 1) {
                assert(cur == prev.push((n - 1) as usize));
                if i < n - 1 {
                    if cur.contains(i as usize) {
                        let a = choose|a: int| 0 <= a < cur.len() && cur[a] == i as usize;
                        assert(a < prev.len());
                        assert(prev.contains(i as usize));
                    }
                    if prev.contains(i as usize) {
                        let a = choose|a: int| 0 <= a < prev.len() && prev[a] == i as usize;
                        assert(cur[a] == i as usize);
                    }
                } else {
                    assert(cur[prev.len() as int] == i as usize);
                }
            } else {
                if i == n - 1 && cur.contains(i as usize) {
                    let a = choose|a: int| 0 <= a < cur.len() && cur[a] == i as usize;
                    assert(cur[a] < n - 1);
                }
            }
        }
    }
}

/// All of the first `n` monomials are vertices, so the vertices are 0, 1, ..., n - 1.
proof fn lemma_vertices_upto_all(c: Seq<OrderKey>, e: Seq<Vec<OrderKey>>, n: int)
    requires
        0 <= n <= usize::MAX,
        forall|i: int| 0 <= i < n ==> is_vertex(c, e, i),
    ensures
        vertices_upto(c, e, n) =~= Seq::new(n as nat, |t: int| t as usize),
    decreases n,
{
    if n > 0 {
        lemma_vertices_upto_all(c, e, n - 1);
        assert(is_vertex(c, e, n - 1));
    }
}

impl PolynomialOrder {
    /// A monomial is kept by `vertex_indices` exactly when no other monomial dominates it;
    /// the kept indices are in range and strictly increasing.
    pub proof fn law_vertices_are_the_undominated(&self)
        ensures
            self.vertices().len() <= self.coefficients@.len(),
            forall|a: int| 0 <= a < self.vertices().len()
                ==> #[trigger] self.vertices()[a] < self.coefficients@.len(),
            forall|a: int, b: int| 0 <= a < b < self.vertices().len()
                ==> self.vertices()[a] < self.vertices()[b],
            forall|i: int| 0 <= i < self.coefficients@.len() ==>
                (self.vertices().contains(i as usize) <==> is_vertex(self.coefficients@, self.exponents@, i)),
    {
        assert(self.coefficients@.len() == self.coefficients.len());
        lemma_vertices_upto(self.coefficients@, self.exponents@, self.coefficients@.len() as int);
    }

    /// Keeping only the vertices is idempotent: in the polynomial made of the vertices,
    /// every monomial is a vertex, so a second simplification removes nothing.
    pub proof fn law_vertex_restriction_is_idempotent(&self)
        ensures
            ({
                let v = self.vertices();
                let c2 = restrict_coefficients(self.coefficients@, v);
                let e2 = restrict_exponents(self.exponents@, v);
                vertices_upto(c2, e2, c2.len() as int) == Seq::new(v.len(), |t: int| t as usize)
            }),
    {
        let c = self.coefficients@;
        let e = self.exponents@;
        let n = c.len() as int;
        assert(c.len() == self.coefficients.len());
        lemma_vertices_upto(c, e, n);
        let v = self.vertices();
        let c2 = restrict_coefficients(c, v);
        let e2 = restrict_exponents(e, v);
        assert forall|t: int| 0 <= t < c2.len() implies is_vertex(c2, e2, t) by {
            assert(v.contains(v[t]));
            assert(is_vertex(c, e, v[t] as int));
            assert forall|s: int| 0 <= s < c2.len() && s != t implies !#[trigger] dominates(c2, e2, s, t) by {
                assert(v[s] != v[t]) by {
                    if s < t {
                        assert(v[s] < v[t]);
                    } else {
                        assert(v[t] < v[s]);
                    }
                }
                assert(!dominates(c, e, v[s] as int, v[t] as int));
                assert(c2[s] == c[v[s] as int]);
                assert(c2[t] == c[v[t] as int]);
                assert(e2[s] == e[v[s] as int]);
                assert(e2[t] == e[v[t] as int]);
            }
        }
        lemma_vertices_upto_all(c2, e2, c2.len() as int);
    }
}

/// Monomial `j` belongs to the group of monomial `i`: it shares `i`'s exponent vector and
/// has an ordered coefficient.
pub open spec fn in_group(c: Seq<OrderKey>, e: Seq<Vec<OrderKey>>, i: int, j: int) -> bool {
    same_exponents(e, j, i) && c[j] is Ordered
}

/// Among the first `n` monomials of the group of `i`, when there is one, some monomial
/// has the greatest coefficient and comes first among those that do.
proof fn lemma_group_first_max(c: Seq<OrderKey>, e: Seq<Vec<OrderKey>>, i: int, n: int) -> (m: int)
    requires
        exists|j: int| 0 <= j < n && #[trigger] in_group(c, e, i, j),
    ensures
        0 <= m < n,
        in_group(c, e, i, m),
        forall|j: int| 0 <= j < n && #[trigger] in_group(c, e, i, j) ==> key_ge(c[m], c[j]),
        forall|j: int| 0 <= j < m && #[trigger] in_group(c, e, i, j) ==> !key_ge(c[j], c[m]),
    decreases n,
{
    if exists|j: int| 0 <= j < n - 1 && #[trigger] in_group(c, e, i, j) {
        let m0 = lemma_group_first_max(c, e, i, n - 1);
        if in_group(c, e, i, n - 1) && key_gt(c[n - 1], c[m0]) {
            n - 1
        } else {
            m0
        }
    } else {
        n - 1
    }
}

/// A dominated monomial belongs to its own group: its exponents and coefficient are all
/// ordered.
proof fn lemma_dominated_in_own_group(c: Seq<OrderKey>, e: Seq<Vec<OrderKey>>, j: int, i: int)
    requires
        dominates(c, e, j, i),
    ensures
        in_group(c, e, i, i),
{
    assert forall|k: int| 0 <= k < e[i]@.len() implies #[trigger] e[i]@[k] == e[i]@[k] && e[i]@[k] is Ordered by {
        assert(e[j]@[k] == e[i]@[k] && e[i]@[k] is Ordered);
    }
}

/// The first greatest monomial of a group is a vertex, and it dominates every other
/// monomial of the group that comes among the first `n`.
proof fn lemma_group_leader(c: Seq<OrderKey>, e: Seq<Vec<OrderKey>>, i: int) -> (m: int)
    requires
        0 <= i < c.len(),
        in_group(c, e, i, i),
    ensures
        0 <= m < c.len(),
        is_vertex(c, e, m),
        m == i || dominates(c, e, m, i),
{
    let n = c.len() as int;
    let m = lemma_group_first_max(c, e, i, n);
    assert forall|t: int| 0 <= t < n && t != m implies !#[trigger] dominates(c, e, t, m) by {
        if dominates(c, e, t, m) {
            assert forall|k: int| 0 <= k < e[i]@.len() implies #[trigger] e[t]@[k] == e[i]@[k] && e[i]@[k] is Ordered by {
                assert(e[m]@[k] == e[i]@[k]);
                assert(e[t]@[k] == e[m]@[k]);
            }
            assert(in_group(c, e, i, t));
            assert(key_ge(c[m], c[t]));
        }
    }
    if m != i {
        assert(key_ge(c[m], c[i]));
        if !key_gt(c[m], c[i]) {
            assert(c[m] == c[i]);
            if i < m {
                assert(!key_ge(c[i], c[m]));
            }
        }
    }
    m
}

impl PolynomialOrder {
    /// A polynomial with a monomial has a vertex: simplification never empties it.
    pub proof fn law_nonempty_has_vertex(&self)
        ensures
            self.coefficients@.len() > 0 ==> self.vertices().len() > 0,
    {
        let c = self.coefficients@;
        let e = self.exponents@;
        if c.len() > 0 {
            self.law_vertices_are_the_undominated();
            if in_group(c, e, 0, 0) {
                let m = lemma_group_leader(c, e, 0);
                assert(self.vertices().contains(m as usize));
            } else {
                assert forall|j: int| 0 <= j < c.len() && j != 0 implies !#[trigger] dominates(c, e, j, 0) by {
                    if dominates(c, e, j, 0) {
                        lemma_dominated_in_own_group(c, e, j, 0);
                    }
                }
                assert(is_vertex(c, e, 0));
                assert(self.vertices().contains(0usize));
            }
        }
    }

    /// Every monomial that is not a vertex is dominated by one that is: dropping the
    /// non-vertices removes only monomials that a kept one bounds at every input.
    pub proof fn law_dropped_monomials_are_covered(&self)
        ensures
            forall|i: int| 0 <= i < self.coefficients@.len() && !is_vertex(self.coefficients@, self.exponents@, i)
                ==> exists|v: int| 0 <= v < self.coefficients@.len()
                    && #[trigger] is_vertex(self.coefficients@, self.exponents@, v)
                    && dominates(self.coefficients@, self.exponents@, v, i),
    {
        let c = self.coefficients@;
        let e = self.exponents@;
        assert forall|i: int| 0 <= i < c.len() && !is_vertex(c, e, i)
            implies exists|v: int| 0 <= v < c.len() && #[trigger] is_vertex(c, e, v) && dominates(c, e, v, i) by {
            let j = choose|j: int| 0 <= j < c.len() && j != i && #[trigger] dominates(c, e, j, i);
            lemma_dominated_in_own_group(c, e, j, i);
            let m = lemma_group_leader(c, e, i);
            assert(is_vertex(c, e, m) && dominates(c, e, m, i));
        }
    }
}

} // verus!
