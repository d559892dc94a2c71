use vstd::prelude::*;
use crate::text::{decimal_text, digits_of};

verus! {

/// The largest santor any position has.
pub const MAX_SANTOR: u32 = 7;

/// The smallest santor any position has.
pub const MIN_SANTOR: u32 = 0;

/// The santor of each of the twelve positions: the outer circle first, then
/// the inner circle. Outside `0..12` the value is 0.
pub open spec fn santor_of(index: int) -> int {
    if index == 0 {
        7
    } else if index == 1 || index == 5 {
        5
    } else if index == 2 || index == 4 {
        2
    } else if index == 6 {
        6
    } else if index == 7 || index == 11 {
        4
    } else if index == 8 || index == 10 {
        3
    } else if index == 9 {
        1
    } else {
        0
    }
}

/// The position three steps further on the same circle.
pub open spec fn conjugate_of(index: int) -> int {
    if index < 6 {
        (index + 3) % 6
    } else {
        (index + 3) % 6 + 6
    }
}

/// Both positions lie on the same circle.
pub open spec fn twins(a: int, b: int) -> bool {
    (a < 6) == (b < 6)
}

/// `a` lies one or two steps after `b`, counted on a circle of six whatever
/// circle each of them is on.
pub open spec fn alwanese(a: int, b: int) -> bool {
    0 < (12 + a - b) % 6 <= 2
}

/// `a` and `b` lie opposite each other, counted on a circle of six whatever
/// circle each of them is on.
pub open spec fn alwanese_conjugates(a: int, b: int) -> bool {
    a % 6 == (b + 3) % 6
}

/// `a` and `b` lie opposite each other on the same circle.
pub open spec fn antakian_conjugates(a: int, b: int) -> bool {
    twins(a, b) && alwanese_conjugates(a, b)
}

/// The santor of `a` is strictly smaller than that of `b`.
pub open spec fn santor_increases(a: int, b: int) -> bool {
    santor_of(a) < santor_of(b)
}

/// `a` and `b` are neighbours on one circle, or face each other across the
/// two circles.
pub open spec fn conductive(a: int, b: int) -> bool {
    if twins(a, b) {
        (a + 1) % 6 == b % 6 || (b + 1) % 6 == a % 6
    } else {
        (a + 6) % 12 == b
    }
}

/// One of the twelve places of the lock: `0..6` is the outer circle, `6..12`
/// the inner one.
#[derive(Clone, Copy, PartialEq, Eq, Structural, Debug, PartialOrd, Ord, Hash)]
pub struct RunePosition(usize);

impl View for RunePosition {
    type V = nat;

    closed spec fn view(&self) -> nat {
        self.0 as nat
    }
}

impl RunePosition {
    #[verifier::type_invariant]
    spec fn in_range(self) -> bool {
        self.0 < 12
    }

    /// The position with the given number.
    pub fn new(index: usize) -> (position: Self)
        requires
            index < 12,
        ensures
            position@ == index,
    {
        Self(index)
    }

    /// The position opposite on the same circle.
    pub fn antiakian_conjugate(&self) -> (partner: RunePosition)
        ensures
            partner@ == conjugate_of(self@ as int),
    {
        proof {
            use_type_invariant(self);
        }
        if self.0 < 6 {
            RunePosition::new((self.0 + 3) % 6)
        } else {
            RunePosition::new((self.0 + 3) % 6 + 6)
        }
    }

    /// Whether the two lie opposite each other on the same circle.
    pub fn antakian_conjugate_of(&self, other: RunePosition) -> (holds: bool)
        ensures
            holds == antakian_conjugates(self@ as int, other@ as int),
    {
        self.antakian_twins(other) && self.alwanese_conjugate_of(other)
    }

    /// Whether this position lies one or two steps after the other, counted on
    /// a circle of six.
    pub fn alwanese_of(&self, other: RunePosition) -> (holds: bool)
        ensures
            holds == alwanese(self@ as int, other@ as int),
    {
        proof {
            use_type_invariant(self);
            use_type_invariant(&other);
        }
        let distance: usize = (12 + self.0 - other.0) % 6;
        distance <= 2 && distance > 0
    }

    /// Whether the two lie opposite each other, counted on a circle of six.
    pub fn alwanese_conjugate_of(&self, other: RunePosition) -> (holds: bool)
        ensures
            holds == alwanese_conjugates(self@ as int, other@ as int),
    {
        proof {
            use_type_invariant(self);
            use_type_invariant(&other);
        }
        self.0 % 6 == (other.0 + 3) % 6
    }

    /// Whether the two lie on the same circle.
    pub fn antakian_twins(&self, other: RunePosition) -> (holds: bool)
        ensures
            holds == twins(self@ as int, other@ as int),
    {
        (self.0 < 6) == (other.0 < 6)
    }

    /// Whether the other position has the greater santor.
    pub fn increases_santor(&self, other: RunePosition) -> (holds: bool)
        ensures
            holds == santor_increases(self@ as int, other@ as int),
    {
        self.santor() < other.santor()
    }

    /// The santor of the position.
    pub fn santor(&self) -> (weight: u32)
        ensures
            weight == santor_of(self@ as int),
            MIN_SANTOR <= weight <= MAX_SANTOR,
    {
        match self.0 {
            0 => 7,
            1 | 5 => 5,
            2 | 4 => 2,
            6 => 6,
            7 | 11 => 4,
            8 | 10 => 3,
            9 => 1,
            _ => 0,
        }
    }

    /// Whether the two are neighbours on a circle or face each other across
    /// the circles.
    pub fn max_0_conductive(&self, two: RunePosition) -> (holds: bool)
        ensures
            holds == conductive(self@ as int, two@ as int),
    {
        proof {
            use_type_invariant(self);
            use_type_invariant(&two);
        }
        if self.antakian_twins(two) {
            (self.0 + 1) % 6 == two.0 % 6 || (two.0 + 1) % 6 == self.0 % 6
        } else {
            (self.0 + 6) % 12 == two.0
        }
    }

    /// The number of the position.
    pub fn index(&self) -> (index: usize)
        ensures
            index == self@,
            index < 12,
    {
        proof {
            use_type_invariant(self);
        }
        self.0
    }

    /// The position as people read it: its number.
    pub fn to_text(&self) -> (text: String)
        ensures
            text@ == digits_of(self@),
    {
        decimal_text(self.0)
    }
}

/// Two positions are antakian conjugates exactly when each is the other's
/// conjugate; the conjugate of a position stays on its circle, and taking it
/// twice leads back.
pub proof fn lemma_conjugate_is_the_partner(a: int, b: int)
    requires
        0 <= a < 12,
        0 <= b < 12,
    ensures
        antakian_conjugates(a, b) <==> conjugate_of(a) == b,
        antakian_conjugates(a, b) <==> antakian_conjugates(b, a),
        0 <= conjugate_of(a) < 12,
        twins(a, conjugate_of(a)),
        conjugate_of(conjugate_of(a)) == a,
{
}

/// Being twins, being alwanese conjugates and being conductive do not depend
/// on the order of the two positions; being alwanese and increasing santor
/// never hold in both directions, and never of a position and itself.
pub proof fn lemma_relation_symmetry(a: int, b: int)
    requires
        0 <= a < 12,
        0 <= b < 12,
    ensures
        twins(a, b) <==> twins(b, a),
        alwanese_conjugates(a, b) <==> alwanese_conjugates(b, a),
        conductive(a, b) <==> conductive(b, a),
        !(alwanese(a, b) && alwanese(b, a)),
        !(santor_increases(a, b) && santor_increases(b, a)),
        !alwanese(a, a),
        !santor_increases(a, a),
        !conductive(a, a),
        twins(a, a),
{
}

} // verus!
