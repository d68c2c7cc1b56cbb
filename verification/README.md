# tropical_neural

Tropical geometry for neural networks: the max-plus semiring (a ⊕ b = max(a, b),
a ⊗ b = a + b), tropical polynomials and their Newton polytopes, tropical rational maps
that represent ReLU networks, tropical division and tropical attention.

## Layout

- `src/` is the verified library. It holds the decisions that the tropical operations
  take by comparing values, stated and proved over `OrderKey`s (integers ordered as the
  values they stand for, or unordered for NaN), and the shape rules of polynomials,
  networks and divisions:
  - `order`: order keys and their comparisons;
  - `algebra`: `TropicalSemiring`, the winning product of a dot product and the
    greatest key picked by attention;
  - `polynomial`: shape checking, the monomial order of a product, dominance between
    monomials and the vertices of the Newton polytope;
  - `network`: the bound on linear regions and the plan of a network simplification;
  - `division`: `TropicalDivision`, the leading monomial of a divisor, the plan that
    splits f between quotient and remainder, and the division step of network
    simplification.
- `app/` holds the `f64` types (`TropicalNumber`, `TropicalPolynomial`,
  `TropicalNetwork`, `TropicalAttention`) and their arithmetic, including the fit test of
  a division, which depends on f64 rounding; it asks the library for each other decision,
  on the order keys of the values. Its `TropicalSemiring` and `TropicalDivision` carry
  the `f64` operations and call the library's types of the same name for the decisions.
- `tests/` runs the library on concrete values.
