//! The client side, in a file of its own.

use vstd::prelude::*;

verus! {

/// Opens a connection from the client side.
pub fn connect() {
}

} // verus!
