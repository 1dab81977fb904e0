//! The outermost of three nested modules.

pub mod series;
