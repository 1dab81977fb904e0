//! The middle one of three nested modules.

pub mod of;
