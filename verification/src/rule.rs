use vstd::prelude::*;
use vstd::string::StringExecFns;
use crate::activation::{activation_text, Activation};
use crate::assignment::{
    first_clash, injective, option_place, place_of, slots_from_tuples, tuple_indices, Assignment,
    AssignmentError, Slots,
};
use crate::index::{
    alwanese, alwanese_conjugates, antakian_conjugates, conductive, conjugate_of, santor_increases,
    santor_of, twins, MAX_SANTOR, MIN_SANTOR, RunePosition,
};
use crate::lock::RuneLock;
use crate::rune::{rune_text, Rune};

verus! {

/// A rule of the lock. All but one relate the positions of two activations;
/// `RuneFollowsImmediately` says that wherever an activation stands on the
/// rune `first`, the activation after it stands on the rune `second`.
#[derive(Debug, Clone, Copy)]
#[allow(inconsistent_fields)]
pub enum RuleKind {
    Alwanese { first: Activation, second: Activation },
    AntakianConjugates { first: Activation, second: Activation },
    AlwaneseConjugates { first: Activation, second: Activation },
    DifferentRunes { first: Activation, second: Activation },
    AntakianTwins { first: Activation, second: Activation },
    IncreaseSantor { first: Activation, second: Activation },
    RuneFollowsImmediately { first: Rune, second: Rune },
    Max0Conductive { first: Activation, second: Activation },
}

/// How a rule fails on an assignment: what is placed breaks it, or what is
/// placed leaves no way to keep it.
#[derive(Debug, Clone, Copy, PartialEq, Eq, Structural)]
pub enum RuleError {
    Violated,
    Unfulfillable,
}

/// Why two placements do not pass a rule: together they are no assignment,
/// or the rule fails on them.
#[derive(Debug, Clone, Copy)]
pub enum ValidateTupleError {
    InvalidAssignment(AssignmentError),
    RuleError(RuleError),
}

/// The two activations that a rule relates, if it relates two.
pub open spec fn pair_of(rule: RuleKind) -> Option<(nat, nat)> {
    match rule {
        RuleKind::Alwanese { first, second } => Some((first@, second@)),
        RuleKind::AntakianConjugates { first, second } => Some((first@, second@)),
        RuleKind::AlwaneseConjugates { first, second } => Some((first@, second@)),
        RuleKind::DifferentRunes { first, second } => Some((first@, second@)),
        RuleKind::AntakianTwins { first, second } => Some((first@, second@)),
        RuleKind::IncreaseSantor { first, second } => Some((first@, second@)),
        RuleKind::Max0Conductive { first, second } => Some((first@, second@)),
        RuleKind::RuneFollowsImmediately { .. } => None,
    }
}

/// What a rule that relates two activations asks of their positions: `one` is
/// where the first stands, `two` where the second stands.
pub open spec fn relation_holds(rule: RuleKind, runes: Seq<Rune>, one: int, two: int) -> bool {
    match rule {
        RuleKind::Alwanese { .. } => alwanese(two, one),
        RuleKind::AntakianConjugates { .. } => antakian_conjugates(one, two),
        RuleKind::AlwaneseConjugates { .. } => alwanese_conjugates(one, two),
        RuleKind::DifferentRunes { .. } => runes[one] != runes[two],
        RuleKind::AntakianTwins { .. } => twins(one, two),
        RuleKind::IncreaseSantor { .. } => santor_increases(one, two),
        RuleKind::Max0Conductive { .. } => conductive(one, two),
        RuleKind::RuneFollowsImmediately { .. } => true,
    }
}

/// Only one of the two activations is placed, and where it stands leaves no
/// position for the other: the conjugate position is taken, or no position
/// has a santor beyond the one it stands on.
pub open spec fn blocked(rule: RuleKind, slots: Slots, one: Option<nat>, two: Option<nat>) -> bool {
    match rule {
        RuleKind::AntakianConjugates { .. } => match (one, two) {
            (None, Some(t)) => slots[conjugate_of(t as int)] is Some,
            (Some(o), None) => slots[conjugate_of(o as int)] is Some,
            _ => false,
        },
        RuleKind::IncreaseSantor { .. } => match (one, two) {
            (Some(f), None) => santor_of(f as int) == MAX_SANTOR,
            (None, Some(s)) => santor_of(s as int) == MIN_SANTOR,
            _ => false,
        },
        _ => false,
    }
}

/// The verdict of a rule on two activations: with both placed, the relation
/// decides; with fewer, the rule passes unless it is blocked.
pub open spec fn pair_verdict(rule: RuleKind, runes: Seq<Rune>, slots: Slots, first: nat, second: nat) -> Result<
    (),
    RuleError,
> {
    let one = place_of(slots, first);
    let two = place_of(slots, second);
    match (one, two) {
        (Some(o), Some(t)) => if relation_holds(rule, runes, o as int, t as int) {
            Ok(())
        } else {
            Err(RuleError::Violated)
        },
        _ => if blocked(rule, slots, one, two) {
            Err(RuleError::Unfulfillable)
        } else {
            Ok(())
        },
    }
}

/// What the rule on runes finds wrong at one position, if anything: the
/// position carries the rune `first` and holds an activation, and either no
/// activation follows that one, or the one that follows stands on a rune other
/// than `second`.
pub open spec fn follows_offence(runes: Seq<Rune>, slots: Slots, first: Rune, second: Rune, position: int) -> Option<
    RuleError,
> {
    if runes[position] == first && slots[position] is Some {
        let next = slots[position]->0 + 1;
        if next >= 12 {
            Some(RuleError::Unfulfillable)
        } else {
            match place_of(slots, next as nat) {
                Some(p) => if runes[p as int] != second {
                    Some(RuleError::Violated)
                } else {
                    None
                },
                None => None,
            }
        }
    } else {
        None
    }
}

/// The verdict of the rule on runes over the positions from `from` on: the
/// offence at the first position that has one.
pub open spec fn follows_verdict(runes: Seq<Rune>, slots: Slots, first: Rune, second: Rune, from: int) -> Result<
    (),
    RuleError,
>
    decreases 12 - from,
{
    if from >= 12 {
        Ok(())
    } else {
        match follows_offence(runes, slots, first, second, from) {
            Some(e) => Err(e),
            None => follows_verdict(runes, slots, first, second, from + 1),
        }
    }
}

/// The verdict of a rule on an assignment.
pub open spec fn verdict(rule: RuleKind, runes: Seq<Rune>, slots: Slots) -> Result<(), RuleError> {
    match rule {
        RuleKind::RuneFollowsImmediately { first, second } => follows_verdict(runes, slots, first, second, 0),
        _ => {
            let (first, second) = pair_of(rule).unwrap();
            pair_verdict(rule, runes, slots, first, second)
        },
    }
}

/// The verdict of a rule on the assignment that holds just the two given
/// pairs of position and activation.
pub open spec fn tuple_passes(rule: RuleKind, runes: Seq<Rune>, a: (nat, nat), b: (nat, nat)) -> bool {
    let slots = slots_from_tuples(seq![a, b]);
    injective(slots) && verdict(rule, runes, slots) is Ok
}

/// What a rule on two activations says of them, as people read it.
pub open spec fn relation_text(rule: RuleKind) -> Seq<char> {
    match rule {
        RuleKind::Alwanese { .. } => " are Alwanese"@,
        RuleKind::AntakianConjugates { .. } => " are Antakian Conjugates"@,
        RuleKind::AlwaneseConjugates { .. } => " are Alwanese Conjugates"@,
        RuleKind::DifferentRunes { .. } => " are Different Runes"@,
        RuleKind::AntakianTwins { .. } => " are Antakian Twins"@,
        RuleKind::IncreaseSantor { .. } => " increase Santor"@,
        RuleKind::Max0Conductive { .. } => " are max 0 Conductive"@,
        RuleKind::RuneFollowsImmediately { .. } => Seq::empty(),
    }
}

/// A rule as people read it.
pub open spec fn rule_text(rule: RuleKind) -> Seq<char> {
    match rule {
        RuleKind::RuneFollowsImmediately { first, second } => rune_text(second.0) + " immediately follows "@
            + rune_text(first.0),
        _ => activation_text(pair_of(rule).unwrap().0) + " & "@ + activation_text(pair_of(rule).unwrap().1)
            + relation_text(rule),
    }
}

/// Makes rules from two activations named as people count them, from one.
pub trait ActivationRuleKindHelpers: Sized {
    /// Both numbers name an activation as people count them, from one.
    spec fn names_activations(self) -> bool;

    /// The two activations, counted from zero.
    spec fn activations(self) -> (nat, nat);

    fn alwanese(self) -> (rule: RuleKind)
        requires
            self.names_activations(),
        ensures
            rule is Alwanese,
            pair_of(rule) == Some(self.activations()),
    ;

    fn antakian_conjugate(self) -> (rule: RuleKind)
        requires
            self.names_activations(),
        ensures
            rule is AntakianConjugates,
            pair_of(rule) == Some(self.activations()),
    ;

    fn alwanese_conjugate(self) -> (rule: RuleKind)
        requires
            self.names_activations(),
        ensures
            rule is AlwaneseConjugates,
            pair_of(rule) == Some(self.activations()),
    ;

    fn different_runes(self) -> (rule: RuleKind)
        requires
            self.names_activations(),
        ensures
            rule is DifferentRunes,
            pair_of(rule) == Some(self.activations()),
    ;

    fn antakian_twins(self) -> (rule: RuleKind)
        requires
            self.names_activations(),
        ensures
            rule is AntakianTwins,
            pair_of(rule) == Some(self.activations()),
    ;

    fn increase_santor(self) -> (rule: RuleKind)
        requires
            self.names_activations(),
        ensures
            rule is IncreaseSantor,
            pair_of(rule) == Some(self.activations()),
    ;

    fn max_0_conductive(self) -> (rule: RuleKind)
        requires
            self.names_activations(),
        ensures
            rule is Max0Conductive,
            pair_of(rule) == Some(self.activations()),
    ;
}

fn named(one_based: u8) -> (activation: Activation)
    requires
        1 <= one_based <= 12,
    ensures
        activation@ == one_based - 1,
{
    Activation::from_human(one_based).unwrap()
}

impl ActivationRuleKindHelpers for (u8, u8) {
    open spec fn names_activations(self) -> bool {
        1 <= self.0 <= 12 && 1 <= self.1 <= 12
    }

    open spec fn activations(self) -> (nat, nat) {
        ((self.0 - 1) as nat, (self.1 - 1) as nat)
    }

    fn alwanese(self) -> (rule: RuleKind) {
        RuleKind::Alwanese { first: named(self.0), second: named(self.1) }
    }

    fn antakian_conjugate(self) -> (rule: RuleKind) {
        RuleKind::AntakianConjugates { first: named(self.0), second: named(self.1) }
    }

    fn alwanese_conjugate(self) -> (rule: RuleKind) {
        RuleKind::AlwaneseConjugates { first: named(self.0), second: named(self.1) }
    }

    fn different_runes(self) -> (rule: RuleKind) {
        RuleKind::DifferentRunes { first: named(self.0), second: named(self.1) }
    }

    fn antakian_twins(self) -> (rule: RuleKind) {
        RuleKind::AntakianTwins { first: named(self.0), second: named(self.1) }
    }

    fn increase_santor(self) -> (rule: RuleKind) {
        RuleKind::IncreaseSantor { first: named(self.0), second: named(self.1) }
    }

    fn max_0_conductive(self) -> (rule: RuleKind) {
        RuleKind::Max0Conductive { first: named(self.0), second: named(self.1) }
    }
}

impl RuleKind {
    /// The rule as people read it.
    pub fn to_text(&self) -> (text: String)
        ensures
            text@ == rule_text(*self),
    {
        match *self {
            RuleKind::RuneFollowsImmediately { first, second } => {
                let one = first.to_text();
                let two = second.to_text();
                two.concat(" immediately follows ").concat(one.as_str())
            },
            _ => {
                let (first, second) = self.activations().unwrap();
                let one = first.to_text();
                let two = second.to_text();
                let relation = match *self {
                    RuleKind::Alwanese { .. } => " are Alwanese",
                    RuleKind::AntakianConjugates { .. } => " are Antakian Conjugates",
                    RuleKind::AlwaneseConjugates { .. } => " are Alwanese Conjugates",
                    RuleKind::DifferentRunes { .. } => " are Different Runes",
                    RuleKind::AntakianTwins { .. } => " are Antakian Twins",
                    RuleKind::IncreaseSantor { .. } => " increase Santor",
                    _ => " are max 0 Conductive",
                };
                one.concat(" & ").concat(two.as_str()).concat(relation)
            },
        }
    }

    /// The two activations of a rule that relates two.
    pub fn activations(&self) -> (pair: Option<(Activation, Activation)>)
        ensures
            match pair {
                Some((first, second)) => pair_of(*self) == Some((first@, second@)),
                None => pair_of(*self) is None,
            },
    {
        match *self {
            RuleKind::Alwanese { first, second } => Some((first, second)),
            RuleKind::AntakianConjugates { first, second } => Some((first, second)),
            RuleKind::AlwaneseConjugates { first, second } => Some((first, second)),
            RuleKind::DifferentRunes { first, second } => Some((first, second)),
            RuleKind::AntakianTwins { first, second } => Some((first, second)),
            RuleKind::IncreaseSantor { first, second } => Some((first, second)),
            RuleKind::Max0Conductive { first, second } => Some((first, second)),
            RuleKind::RuneFollowsImmediately { .. } => None,
        }
    }

    /// Whether the relation of a rule on two activations holds of the
    /// positions `one` and `two`.
    fn relation(&self, lock: &RuneLock, one: RunePosition, two: RunePosition) -> (holds: bool)
        ensures
            holds == relation_holds(*self, lock.runes(), one@ as int, two@ as int),
    {
        match *self {
            RuleKind::Alwanese { .. } => two.alwanese_of(one),
            RuleKind::AntakianConjugates { .. } => one.antakian_conjugate_of(two),
            RuleKind::AlwaneseConjugates { .. } => one.alwanese_conjugate_of(two),
            RuleKind::DifferentRunes { .. } => {
                let a = lock.rune_at(one);
                let b = lock.rune_at(two);
                a.0 != b.0
            },
            RuleKind::AntakianTwins { .. } => one.antakian_twins(two),
            RuleKind::IncreaseSantor { .. } => one.increases_santor(two),
            RuleKind::Max0Conductive { .. } => one.max_0_conductive(two),
            RuleKind::RuneFollowsImmediately { .. } => true,
        }
    }

    /// Whether the one activation that is placed leaves no position for the
    /// other.
    fn is_blocked(&self, assignment: &Assignment, one: Option<RunePosition>, two: Option<RunePosition>) -> (stuck:
        bool)
        ensures
            stuck == blocked(
                *self,
                assignment@,
                option_place(one),
                option_place(two),
            ),
    {
        match *self {
            RuleKind::AntakianConjugates { .. } => match (one, two) {
                (None, Some(three)) => assignment.get(three.antiakian_conjugate()).is_some(),
                (Some(two), None) => assignment.get(two.antiakian_conjugate()).is_some(),
                _ => false,
            },
            RuleKind::IncreaseSantor { .. } => match (one, two) {
                (Some(f), None) => f.santor() == MAX_SANTOR,
                (None, Some(s)) => s.santor() == MIN_SANTOR,
                _ => false,
            },
            _ => false,
        }
    }

    /// The verdict of the rule on the assignment. A rule on two activations
    /// is violated when both are placed and their positions do not stand in
    /// its relation, and unfulfillable when one is placed where it leaves no
    /// position for the other. The rule on runes goes through the positions
    /// in order and stops at the first that offends.
    pub fn validate(&self, lock: &RuneLock, assignment: &Assignment) -> (checked: Result<(), RuleError>)
        ensures
            checked == verdict(*self, lock.runes(), assignment@),
    {
        match *self {
            RuleKind::RuneFollowsImmediately { first, second } => {
                let mut index: usize = 0;
                while index < 12
                    invariant
                        index <= 12,
                        *self == (RuleKind::RuneFollowsImmediately { first, second }),
                        follows_verdict(lock.runes(), assignment@, first, second, 0) == follows_verdict(
                            lock.runes(),
                            assignment@,
                            first,
                            second,
                            index as int,
                        ),
                    decreases 12 - index,
                {
                    let position = RunePosition::new(index);
                    let rune = lock.rune_at(position);
                    if rune.0 == first.0 {
                        if let Some(first_assignment) = assignment.get(position) {
                            match first_assignment.next() {
                                Err(_) => {
                                    return Err(RuleError::Unfulfillable);
                                },
                                Ok(next) => {
                                    if let Some(second_position) = assignment.position_of(next) {
                                        if lock.rune_at(second_position).0 != second.0 {
                                            return Err(RuleError::Violated);
                                        }
                                    }
                                },
                            }
                        }
                    }
                    index += 1;
                }
                Ok(())
            },
            _ => {
                let (first, second) = self.activations().unwrap();
                let one = assignment.position_of(first);
                let two = assignment.position_of(second);
                match (one, two) {
                    (Some(o), Some(t)) => {
                        if self.relation(lock, o, t) {
                            Ok(())
                        } else {
                            Err(RuleError::Violated)
                        }
                    },
                    _ => {
                        if self.is_blocked(assignment, one, two) {
                            Err(RuleError::Unfulfillable)
                        } else {
                            Ok(())
                        }
                    },
                }
            },
        }
    }

    /// The verdict of the rule on the assignment that holds just the two
    /// given pairs; the pairs themselves may be refused as an assignment.
    pub fn validate_tuple(
        &self,
        lock: &RuneLock,
        a: (RunePosition, Activation),
        b: (RunePosition, Activation),
    ) -> (checked: Result<(), ValidateTupleError>)
        ensures
            checked is Ok <==> tuple_passes(*self, lock.runes(), (a.0@, a.1@), (b.0@, b.1@)),
            checked matches Err(ValidateTupleError::RuleError(e)) ==> {
                let slots = slots_from_tuples(seq![(a.0@, a.1@), (b.0@, b.1@)]);
                injective(slots) && verdict(*self, lock.runes(), slots) == Err::<(), RuleError>(e)
            },
            checked matches Err(
                ValidateTupleError::InvalidAssignment(
                    AssignmentError::ActivationDoubleAssigned { activation, position_a, position_b },
                ),
            ) ==> first_clash(
                slots_from_tuples(seq![(a.0@, a.1@), (b.0@, b.1@)]),
                activation@,
                position_a@,
                position_b@,
            ),
    {
        let mut pairs: Vec<(RunePosition, Activation)> = Vec::new();
        pairs.push(a);
        pairs.push(b);
        assert(tuple_indices(pairs@) =~= seq![(a.0@, a.1@), (b.0@, b.1@)]);
        match Assignment::from_tuple_iter(&pairs) {
            Err(e) => Err(ValidateTupleError::InvalidAssignment(e)),
            Ok(fake_assignment) => match self.validate(lock, &fake_assignment) {
                Err(e) => Err(ValidateTupleError::RuleError(e)),
                Ok(_) => Ok(()),
            },
        }
    }
}

} // verus!
