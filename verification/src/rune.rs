use vstd::prelude::*;
use vstd::string::StringExecFns;
use crate::text::{decimal_text, digits_of};

verus! {

/// The label carved at a position. The lock writes the first four as the
/// letters Z, V, S and C.
#[derive(Debug, PartialEq, Structural, Copy, Clone, Hash, Eq)]
pub struct Rune(pub u8);

/// A rune as people read it: the first four have a letter, the others their
/// number.
pub open spec fn rune_text(id: u8) -> Seq<char> {
    if id == 0 {
        "Z"@
    } else if id == 1 {
        "V"@
    } else if id == 2 {
        "S"@
    } else if id == 3 {
        "C"@
    } else {
        digits_of(id as nat)
    }
}

impl Rune {
    /// The rune as people read it.
    pub fn to_text(&self) -> (text: String)
        ensures
            text@ == rune_text(self.0),
    {
        match self.0 {
            0 => String::from_str("Z"),
            1 => String::from_str("V"),
            2 => String::from_str("S"),
            3 => String::from_str("C"),
            _ => decimal_text(self.0 as usize),
        }
    }

    /// The rune with the given number.
    pub fn new(id: u8) -> (rune: Self)
        ensures
            rune == Rune(id),
    {
        Self(id)
    }
}

} // verus!
