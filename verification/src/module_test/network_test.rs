//! A private module: nothing in it can be named from outside `module_test`.

use vstd::prelude::*;


verus! {

/// Opens a connection; private to this module.
#[allow(dead_code)]
fn connect() {
}

} // verus!
