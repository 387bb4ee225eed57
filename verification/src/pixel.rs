//! The two-valued classification of a sampled point.

use vstd::prelude::*;

verus! {

/// Whether a sampled point stayed bounded (`In`) or escaped (`Out`).
#[derive(Clone, Copy, Debug, PartialEq, Eq, Structural)]
pub enum Pixel {
    Out,
    In,
}

impl Pixel {
    /// The classification of a point whose orbit stayed bounded or did not.
    pub open spec fn of(bounded: bool) -> Pixel {
        if bounded {
            Pixel::In
        } else {
            Pixel::Out
        }
    }

    /// The byte under which a classification is stored: `Out` is 0, `In` is 1.
    pub open spec fn code(self) -> u8 {
        match self {
            Pixel::Out => 0u8,
            Pixel::In => 1u8,
        }
    }

    /// Classifies a point from the outcome of its escape-time test.
    pub fn from_bounded(bounded: bool) -> (p: Pixel)
        ensures
            p == Pixel::of(bounded),
            (p == Pixel::In) == bounded,
    {
        if bounded {
            Pixel::In
        } else {
            Pixel::Out
        }
    }

    /// The stored byte of this classification.
    pub fn as_byte(self) -> (b: u8)
        ensures
            b == self.code(),
            b == 0 || b == 1,
            (b == 1) == (self == Pixel::In),
    {
        match self {
            Pixel::Out => 0u8,
            Pixel::In => 1u8,
        }
    }
}

/// Two classifications with the same stored byte are the same classification.
pub proof fn lemma_code_is_injective(a: Pixel, b: Pixel)
    requires
        a.code() == b.code(),
    ensures
        a == b,
{
}

} // verus!
