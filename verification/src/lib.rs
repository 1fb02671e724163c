//! A small geometry library built around exact fixed-point arithmetic.
//!
//! Shapes (`Rectangle`, `Circle`, `Triangle`) store their dimensions in
//! thousandths of a unit, compute areas and perimeters exactly, order
//! themselves by a designated metric, and can be read from comma-separated
//! text records.

use vstd::prelude::*;

pub mod fixed;
pub mod record;
pub mod shapes;

verus! {

/// Outcome of a comparison between two values.
pub enum Comp {
    LessThan,
    GreaterThan,
    Equal,
}

/// Gender of a person.
pub enum Gender {
    Male,
    Female,
}

} // verus!
