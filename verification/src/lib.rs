//! Closed-form formulas of school mathematics on exact integers: counting,
//! subsets, Euler's polyhedron formula, and the error vocabularies of the
//! geometry, trigonometry and statistics toolkits.

pub mod counting;
pub mod formulas;
pub mod solid;
pub mod space;
pub mod stats;
pub mod triangle;
pub mod trig;
