//! The server, one level below the network.

use vstd::prelude::*;

verus! {

/// Opens a connection on the server side.
pub fn connect() {
}

} // verus!
