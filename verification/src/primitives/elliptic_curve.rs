//! Curves in short Weierstrass form.

pub mod arithmetic;
pub mod coordinates;
pub mod point;
pub mod weierstrass;
