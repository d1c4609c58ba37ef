//! School mathematics with machine-checked contracts: primality, prime
//! factorisation, divisors, GCD and LCM; factorials, permutations and
//! combinations; integer factoring of quadratics; polynomials with exact
//! rational coefficients; the shape rules of matrices; the index and
//! counting rules of the statistics calculators; the operator table of
//! linear inequalities; the coefficient ranges of generated practice
//! problems; and the state machine of the interactive calculator screen.

pub mod errors;
pub mod prime;
pub mod probability;
pub mod inequality;
pub mod factorization;
pub mod polynomial;
pub mod statistics;
pub mod matrix;
pub mod practice;
pub mod calculus;
pub mod tui;
pub mod graph;
