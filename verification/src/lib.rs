//! Tropical geometry for neural networks: the ordering and structural core.
//!
//! The tropical semiring is (R ∪ {-∞}, ⊕, ⊗) with a ⊕ b = max(a, b) and a ⊗ b = a + b.
//! Every decision the library takes about its real values is a comparison: which
//! monomial dominates which, which key attends best, which running maximum wins.
//! This crate states and proves those decisions over `OrderKey`s, integers whose order
//! is the order of the values they stand for, together with the shape rules of
//! tropical polynomials and networks.

pub mod algebra;
pub mod division;
pub mod network;
pub mod order;
pub mod polynomial;

pub use algebra::TropicalSemiring;
pub use division::TropicalDivision;
pub use order::OrderKey;
pub use polynomial::PolynomialOrder;
