//! The calculator's values and expressions: exact rational numbers,
//! quantities with units, and the symbolic expressions of math lines.

pub mod number;
pub mod quantity;
pub mod expr;
pub mod datetime;
