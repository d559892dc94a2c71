use vstd::prelude::*;
use vstd::string::StringExecFns;
use crate::text::{decimal_text, digits_of};

verus! {

/// One of the twelve items that are placed on the positions, counted from
/// zero. People count them from one.
#[derive(Debug, Clone, Copy, PartialEq, Eq, Structural, Hash, PartialOrd, Ord)]
pub struct Activation(u8);

/// The number names none of the twelve activations.
#[derive(Debug, Clone, Copy, PartialEq, Eq, Structural)]
pub enum ActivationError {
    OutOfBounds,
}

/// An activation as people read it: a hash sign and its number, counted
/// from one.
pub open spec fn activation_text(activation: nat) -> Seq<char> {
    "#"@ + digits_of(activation + 1)
}

impl View for Activation {
    type V = nat;

    closed spec fn view(&self) -> nat {
        self.0 as nat
    }
}

impl Activation {
    #[verifier::type_invariant]
    spec fn in_range(self) -> bool {
        self.0 < 12
    }

    /// The activation that people call `one_based`.
    pub fn from_human(one_based: u8) -> (made: Result<Self, ActivationError>)
        ensures
            made is Ok <==> 1 <= one_based <= 12,
            made matches Ok(a) ==> a@ == one_based - 1,
            made matches Err(e) ==> e == ActivationError::OutOfBounds,
    {
        if one_based < 1 {
            return Err(ActivationError::OutOfBounds);
        }
        Activation::new(one_based - 1)
    }

    /// The activation with the given number, counted from zero.
    pub fn new(zero_based: u8) -> (made: Result<Self, ActivationError>)
        ensures
            made is Ok <==> zero_based < 12,
            made matches Ok(a) ==> a@ == zero_based,
            made matches Err(e) ==> e == ActivationError::OutOfBounds,
    {
        if zero_based >= 12 {
            Err(ActivationError::OutOfBounds)
        } else {
            Ok(Activation(zero_based))
        }
    }

    /// The number of the activation, counted from zero.
    pub fn index(&self) -> (index: usize)
        ensures
            index == self@,
            index < 12,
    {
        proof {
            use_type_invariant(self);
        }
        self.0 as usize
    }

    /// The activation as people read it.
    pub fn to_text(&self) -> (text: String)
        ensures
            text@ == activation_text(self@),
    {
        let number = decimal_text(self.index() + 1);
        String::from_str("#").concat(number.as_str())
    }

    /// The activation that follows this one; the last one has none.
    pub fn next(&self) -> (following: Result<Self, ActivationError>)
        ensures
            following is Ok <==> self@ + 1 < 12,
            following matches Ok(a) ==> a@ == self@ + 1,
            following matches Err(e) ==> e == ActivationError::OutOfBounds,
    {
        proof {
            use_type_invariant(self);
        }
        Activation::new(self.0 + 1)
    }
}

} // verus!
