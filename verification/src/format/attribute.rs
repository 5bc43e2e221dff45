//! Host compatibility of file attributes.

use vstd::prelude::*;

verus! {

/// The host whose file attributes an entry carries.
#[derive(Debug, Clone, Copy, PartialEq, Eq, Structural)]
pub enum AttributeCompatibility {
    Unix,
}

} // verus!
