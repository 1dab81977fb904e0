//! The network side, in a file of its own, with the server below it.

use vstd::prelude::*;

pub mod server;

verus! {

/// Opens a connection to the network.
pub fn connect() {
}

} // verus!
