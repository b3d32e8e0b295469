//! The three coordinate axes.  A rotation names the axis around which it
//! turns; the axis decides how coordinates are permuted so that the turn is
//! always a plane rotation in the first two permuted coordinates.

use vstd::prelude::*;

verus! {

#[derive(Clone, Copy, Debug, PartialEq, Eq, Structural)]
pub enum Axis {
    X,
    Y,
    Z,
}

} // verus!
