//! Modification dates.

use vstd::prelude::*;

verus! {

/// A date and a time of day, as the ZIP format packs them.
#[derive(Debug, Clone, Copy, PartialEq, Eq, Structural)]
pub struct ZipDateTime {
    pub date: u16,
    pub time: u16,
}

impl ZipDateTime {
    /// The date of new entries: midnight on the first of January 1980, the first moment that can be packed.
    pub fn default_for_write() -> (r: ZipDateTime)
        ensures
            r == (ZipDateTime { date: 0x21, time: 0 }),
    {
        ZipDateTime { date: 0x21, time: 0 }
    }
}

} // verus!
