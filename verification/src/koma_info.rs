//! The names of the two single bits that have a name of their own.

use vstd::prelude::*;
use crate::koma_inf::KomaInf;

verus! {

/// A bit of a piece's code that has a name of its own.
#[derive(Clone, Copy, Debug, PartialEq, Eq, Structural)]
pub enum KomaInfo {
    /// Nothing at all.
    Empty,
    /// The promotion bit.
    Promoted,
}

impl KomaInfo {
    /// The code of a value.
    pub open spec fn value(self) -> u8 {
        match self {
            KomaInfo::Empty => 0u8,
            KomaInfo::Promoted => 8u8,
        }
    }

    /// The code of `self`.
    pub fn as_u8(self) -> (r: u8)
        ensures
            r == self.value(),
    {
        match self {
            KomaInfo::Empty => 0u8,
            KomaInfo::Promoted => 8u8,
        }
    }

    /// The piece value with the same code.
    pub fn to_koma_inf(&self) -> (r: KomaInf)
        ensures
            r.value() == self.value(),
            r == (match *self {
                KomaInfo::Empty => KomaInf::EMP,
                KomaInfo::Promoted => KomaInf::OU,
            }),
    {
        match *self {
            KomaInfo::Empty => KomaInf::EMP,
            KomaInfo::Promoted => KomaInf::OU,
        }
    }
}

} // verus!
