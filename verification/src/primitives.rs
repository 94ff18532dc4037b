//! The two primitives and the number theory their contracts rest on.

pub mod elliptic_curve;
pub mod field_element;
pub mod machine_integers;
pub mod number_theory;
pub mod text;
