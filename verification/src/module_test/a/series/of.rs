//! The innermost of three nested modules.

use vstd::prelude::*;

verus! {

/// A function three modules deep: `a::series::of::nested_modules`.
pub fn nested_modules() {
}

} // verus!
