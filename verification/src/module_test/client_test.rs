//! A module whose one function is public.

use vstd::prelude::*;

verus! {

/// Opens a connection from the client side.
pub fn connect() {
}

} // verus!
