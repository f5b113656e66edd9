//! Error taxonomy of the library.

use vstd::prelude::*;

verus! {

/// A configuration the library rejects: missing or zero input/output counts,
/// inconsistent caps, or an input vector longer than the input layer.
#[derive(Clone, Copy, PartialEq, Eq, Structural, Debug)]
pub enum NeatError {
    Configuration,
}

} // verus!
