//! The max-plus semiring: the choices that its ⊕ (max) makes.

use vstd::prelude::*;

use crate::order::{key_ge, key_gt, OrderKey};

verus! {

/// The tropical semiring (R ∪ {-∞}, ⊕, ⊗), a ⊕ b = max(a, b), a ⊗ b = a + b.
///
/// Its operations on vectors pick, among candidate values, the one that ⊕ keeps. The
/// methods here make that pick from the candidates' order keys.
pub struct TropicalSemiring;

/// Every key of `keys` is ordered.
pub open spec fn all_ordered(keys: Seq<OrderKey>) -> bool {
    forall|j: int| 0 <= j < keys.len() ==> (#[trigger] keys[j]) is Ordered
}

/// `r` is what a scan of the first `n` keys keeps when it starts from `floor` and takes
/// a key only when it is strictly above everything kept so far: the first index whose
/// key is the greatest of those above `floor`, or `None` when no key is above `floor`.
pub open spec fn is_first_max_above(keys: Seq<OrderKey>, n: int, floor: OrderKey, r: Option<usize>) -> bool {
    match r {
        None => forall|j: int| 0 <= j < n ==> !key_gt(#[trigger] keys[j], floor),
        Some(i) => {
            &&& 0 <= i < n
            &&& key_gt(keys[i as int], floor)
            &&& forall|j: int| 0 <= j < n && key_gt(#[trigger] keys[j], floor) ==> key_ge(keys[i as int], keys[j])
            &&& forall|j: int| 0 <= j < i ==> !key_ge(#[trigger] keys[j], keys[i as int])
        },
    }
}

/// `r` is the index that `max_by` returns on the first `n` keys: a key at least as
/// great as every other one, and the last of the greatest.
pub open spec fn is_last_max(keys: Seq<OrderKey>, n: int, r: usize) -> bool {
    &&& 0 <= r < n
    &&& forall|j: int| 0 <= j < n && j != r ==> key_ge(keys[r as int], #[trigger] keys[j])
    &&& forall|j: int| r < j < n ==> key_gt(keys[r as int], #[trigger] keys[j])
}

/// Tropical addition a ⊕ b = max(a, b) on the keys of tropical numbers, `None` standing
/// for -∞: -∞ is the identity, an unordered value (NaN) gives way to any ordered one, and
/// of two ordered values the greater is kept.
pub open spec fn tropical_sum(a: Option<OrderKey>, b: Option<OrderKey>) -> Option<OrderKey> {
    match (a, b) {
        (None, _) => b,
        (_, None) => a,
        (Some(OrderKey::Unordered), _) => b,
        (_, Some(OrderKey::Unordered)) => a,
        (Some(OrderKey::Ordered(x)), Some(OrderKey::Ordered(y))) => if x >= y {
            a
        } else {
            b
        },
    }
}

/// ⊕ makes the keys of tropical numbers a semilattice with identity -∞: it is
/// commutative, associative and idempotent, and -∞ ⊕ a = a ⊕ -∞ = a.
pub proof fn law_tropical_sum_semilattice(a: Option<OrderKey>, b: Option<OrderKey>, c: Option<OrderKey>)
    ensures
        tropical_sum(a, b) == tropical_sum(b, a),
        tropical_sum(tropical_sum(a, b), c) == tropical_sum(a, tropical_sum(b, c)),
        tropical_sum(a, a) == a,
        tropical_sum(None, a) == a,
        tropical_sum(a, None) == a,
{
}

/// ⊕ over the first `n` keys, from -∞: the value of a tropical polynomial given the keys
/// of its monomials' values.
pub open spec fn tropical_sum_of(keys: Seq<OrderKey>, n: int) -> Option<OrderKey>
    decreases n,
{
    if n <= 0 {
        None
    } else {
        tropical_sum(tropical_sum_of(keys, n - 1), Some(keys[n - 1]))
    }
}

/// ⊕ of a sequence is its maximum: -∞ for no keys; else one of the keys, which is
/// unordered only when all of them are, and otherwise at least every ordered key.
pub proof fn law_tropical_sum_of_is_max(keys: Seq<OrderKey>, n: int)
    requires
        0 <= n <= keys.len(),
    ensures
        n == 0 <==> tropical_sum_of(keys, n) is None,
        tropical_sum_of(keys, n) matches Some(k) ==> exists|j: int| 0 <= j < n && keys[j] == k,
        tropical_sum_of(keys, n) == Some(OrderKey::Unordered) ==>
            forall|j: int| 0 <= j < n ==> #[trigger] keys[j] == OrderKey::Unordered,
        tropical_sum_of(keys, n) is Some && tropical_sum_of(keys, n).unwrap() is Ordered ==>
            forall|j: int| 0 <= j < n && (#[trigger] keys[j]) is Ordered
                ==> key_ge(tropical_sum_of(keys, n).unwrap(), keys[j]),
    decreases n,
{
    if n > 0 {
        law_tropical_sum_of_is_max(keys, n - 1);
        let prev = tropical_sum_of(keys, n - 1);
        let cur = tropical_sum_of(keys, n);
        if let Some(k) = cur {
            if cur == Some(keys[n - 1]) {
                assert(keys[n - 1] == k);
            } else {
                let j = choose|j: int| 0 <= j < n - 1 && keys[j] == k;
                assert(keys[j] == k);
            }
        }
    }
}

/// ⊕ is max whichever maximal candidate is picked: when every key is ordered and some key
/// lies above the floor, the first-maximum scan of a dot product and the last-maximum
/// scan of attention land on keys of one and the same value.
pub proof fn law_scans_agree_on_maximum(keys: Seq<OrderKey>, floor: OrderKey, first: Option<usize>, last: usize)
    requires
        all_ordered(keys),
        is_first_max_above(keys, keys.len() as int, floor, first),
        is_last_max(keys, keys.len() as int, last),
        exists|j: int| 0 <= j < keys.len() && key_gt(#[trigger] keys[j], floor),
    ensures
        first matches Some(i) && keys[i as int] == keys[last as int],
{
    let j = choose|j: int| 0 <= j < keys.len() && key_gt(#[trigger] keys[j], floor);
    assert(keys[last as int] is Ordered);
    if j != last {
        assert(key_ge(keys[last as int], keys[j]));
    }
    match first {
        Some(i) => {
            assert(keys[i as int] is Ordered);
            if i != last {
                assert(key_ge(keys[last as int], keys[i as int]));
            }
            assert(key_ge(keys[i as int], keys[last as int]));
        },
        None => {
            assert(!key_gt(keys[j], floor));
        },
    }
}

impl TropicalSemiring {
    /// Tropical addition of two tropical numbers given by their keys (`None` for -∞):
    /// whether a ⊕ b is `a` (else it is `b`).
    pub fn sum_keeps_left(a: Option<OrderKey>, b: Option<OrderKey>) -> (r: bool)
        ensures
            r ==> tropical_sum(a, b) == a,
            !r ==> tropical_sum(a, b) == b,
    {
        match (a, b) {
            (None, _) => false,
            (_, None) => true,
            (Some(OrderKey::Unordered), _) => false,
            (_, Some(OrderKey::Unordered)) => true,
            (Some(x), Some(y)) => x.ge(&y),
        }
    }
    /// The monomial whose value a tropical polynomial takes, given the keys of the
    /// monomials' values: ⊕ folded from -∞, each step keeping the left operand when ⊕
    /// picks it. `None` for no monomials (the value is then -∞).
    pub fn sum_index(keys: &Vec<OrderKey>) -> (r: Option<usize>)
        ensures
            r is None <==> keys@.len() == 0,
            r matches Some(i) ==> i < keys@.len() && Some(keys@[i as int]) == tropical_sum_of(keys@, keys@.len() as int),
    {
        let mut best: Option<usize> = None;
        let mut i: usize = 0;
        while i < keys.len()
            invariant
                i <= keys@.len(),
                best is None <==> i == 0,
                best matches Some(b) ==> b < i && Some(keys@[b as int]) == tropical_sum_of(keys@, i as int),
            decreases keys@.len() - i,
        {
            let acc = match best {
                None => None,
                Some(b) => Some(keys[b]),
            };
            if !TropicalSemiring::sum_keeps_left(acc, Some(keys[i])) {
                best = Some(i);
            }
            i = i + 1;
        }
        best
    }

    /// The winner of a tropical dot product ⊕ᵢ (aᵢ ⊗ bᵢ) = maxᵢ(aᵢ + bᵢ), given the keys of
    /// the products aᵢ + bᵢ and of the starting value -∞: the first product that is the
    /// greatest of those strictly above the start, or `None` when none is above it (the
    /// result is then the start itself).
    pub fn first_max_above(products: &Vec<OrderKey>, floor: OrderKey) -> (r: Option<usize>)
        ensures
            is_first_max_above(products@, products@.len() as int, floor, r),
    {
        let mut best: Option<usize> = None;
        let mut i: usize = 0;
        while i < products.len()
            invariant
                i <= products@.len(),
                is_first_max_above(products@, i as int, floor, best),
            decreases products@.len() - i,
        {
            let improves = match best {
                None => products[i].gt(&floor),
                Some(b) => products[i].gt(&products[b]),
            };
            if improves {
                best = Some(i);
            }
            i = i + 1;
        }
        best
    }

    /// The index that `max_by` with a total comparison picks: a greatest key, the last
    /// one when several are greatest; `None` for no keys.
    ///
    /// Comparing an unordered key fails, so with two keys or more all must be ordered.
    pub fn last_max_index(keys: &Vec<OrderKey>) -> (r: Option<usize>)
        requires
            keys@.len() <= 1 || all_ordered(keys@),
        ensures
            r is None <==> keys@.len() == 0,
            r matches Some(i) ==> is_last_max(keys@, keys@.len() as int, i),
    {
        if keys.len() == 0 {
            return None;
        }
        let mut best: usize = 0;
        let mut i: usize = 1;
        while i < keys.len()
            invariant
                1 <= i <= keys@.len(),
                keys@.len() <= 1 || all_ordered(keys@),
                is_last_max(keys@, i as int, best),
            decreases keys@.len() - i,
        {
            if keys[i].ge(&keys[best]) {
                best = i;
            }
            i = i + 1;
        }
        Some(best)
    }
}

} // verus!
