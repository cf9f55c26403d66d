//! A small palette of named packed 0xRRGGBB colors.

use vstd::prelude::*;

verus! {

/// One named color, holding its packed 24-bit value.
pub struct Colors {
    value: u32,
}

impl Colors {
    /// The packed value this color holds.
    pub closed spec fn spec_value(self) -> u32 {
        self.value
    }

    /// Pure red.
    pub fn red() -> (c: Colors)
        ensures
            c.spec_value() == 0xFF0000u32,
    {
        Colors { value: 0xFF0000 }
    }

    /// Pure green.
    pub fn green() -> (c: Colors)
        ensures
            c.spec_value() == 0x00FF00u32,
    {
        Colors { value: 0x00FF00 }
    }

    /// Pure blue.
    pub fn blue() -> (c: Colors)
        ensures
            c.spec_value() == 0x0000FFu32,
    {
        Colors { value: 0x0000FF }
    }

    /// White.
    pub fn white() -> (c: Colors)
        ensures
            c.spec_value() == 0xFFFFFFu32,
    {
        Colors { value: 0xFFFFFF }
    }

    /// The packed 24-bit value of the color.
    pub fn as_u32(&self) -> (v: u32)
        ensures
            v == self.spec_value(),
    {
        self.value
    }
}

} // verus!
