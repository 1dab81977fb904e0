//! Modules inside modules, in files of their own, and what can be seen of
//! them from outside.
//!
//! `network_test` and its inner module keep their functions to themselves.
//! Everything else here is public down to the function, so that it can be
//! called by its full path from any other crate.

mod network_test;

pub mod a;
pub mod client;
pub mod client_test;
pub mod network;
