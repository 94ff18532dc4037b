//! Arithmetic primitives for elliptic-curve cryptography: residues of a prime
//! field and points of a short Weierstrass curve, with machine-checked contracts.

pub mod primitives;
