use vstd::prelude::*;
use crate::activation::Activation;
use crate::index::RunePosition;

verus! {

/// What an assignment is, seen from outside: for each of the twelve positions
/// the activation placed on it, if any.
pub type Slots = Seq<Option<nat>>;

/// Twelve positions, none of them taken.
pub open spec fn empty_slots() -> Slots {
    Seq::new(12, |p: int| None::<nat>)
}

/// No activation is placed on two positions.
pub open spec fn injective(slots: Slots) -> bool {
    forall|i: int, j: int|
        0 <= i < j < slots.len() && slots[i] is Some ==> #[trigger] slots[i] != #[trigger] slots[j]
}

/// Twelve slots, each empty or holding one of the twelve activations, and no
/// activation on two of them.
pub open spec fn well_formed(slots: Slots) -> bool {
    &&& slots.len() == 12
    &&& injective(slots)
    &&& forall|p: int| 0 <= p < 12 ==> (#[trigger] slots[p] matches Some(a) ==> a < 12)
}

/// The position holds an activation that an earlier position holds too.
pub open spec fn clash_at(slots: Slots, j: int) -> bool {
    slots[j] is Some && exists|i: int| 0 <= i < j && #[trigger] slots[i] == slots[j]
}

/// The position on which the activation is placed, if it is placed.
pub open spec fn place_of(slots: Slots, activation: nat) -> Option<nat> {
    if exists|p: int| 0 <= p < slots.len() && #[trigger] slots[p] == Some(activation) {
        Some((choose|p: int| 0 <= p < slots.len() && #[trigger] slots[p] == Some(activation)) as nat)
    } else {
        None
    }
}

/// The slots after `activation` is placed on `position`: whatever was on the
/// position is gone, and the activation is nowhere else.
pub open spec fn placed(slots: Slots, position: nat, activation: nat) -> Slots {
    Seq::new(
        slots.len(),
        |q: int|
            if q == position {
                Some(activation)
            } else if slots[q] == Some(activation) {
                None
            } else {
                slots[q]
            },
    )
}

/// The slots that a list of pairs of position and activation fills, taken in
/// order: a later pair for a position replaces an earlier one.
pub open spec fn slots_from_tuples(tuples: Seq<(nat, nat)>) -> Slots
    decreases tuples.len(),
{
    if tuples.len() == 0 {
        empty_slots()
    } else {
        slots_from_tuples(tuples.drop_last()).update(tuples.last().0 as int, Some(tuples.last().1))
    }
}

/// The number of an activation that may be missing.
pub open spec fn option_index(activation: Option<Activation>) -> Option<nat> {
    match activation {
        Some(a) => Some(a@),
        None => None,
    }
}

/// The number of a position that may be missing.
pub open spec fn option_place(position: Option<RunePosition>) -> Option<nat> {
    match position {
        Some(p) => Some(p@),
        None => None,
    }
}

/// Twelve slots as the contracts see them.
pub open spec fn array_slots(assignment: [Option<Activation>; 12]) -> Slots {
    Seq::new(12, |p: int| option_index(assignment@[p]))
}

/// Pairs of position and activation by their numbers.
pub open spec fn tuple_indices(tuples: Seq<(RunePosition, Activation)>) -> Seq<(nat, nat)> {
    Seq::new(tuples.len(), |i: int| (tuples[i].0@, tuples[i].1@))
}

/// A partial placement of activations on positions in which no activation is
/// placed twice. It can be asked both ways: what is on a position, and where
/// an activation is.
#[derive(Clone, Copy)]
pub struct Assignment {
    activation_of_position: [Option<Activation>; 12],
    position_of_activation: [Option<RunePosition>; 12],
}

/// Why slots are refused as an assignment: an activation stands on two
/// positions, `position_a` being the later one.
#[derive(Debug, Clone, Copy, PartialEq, Eq, Structural)]
pub enum AssignmentError {
    ActivationDoubleAssigned { activation: Activation, position_a: RunePosition, position_b: RunePosition },
}

impl View for Assignment {
    type V = Slots;

    closed spec fn view(&self) -> Slots {
        array_slots(self.activation_of_position)
    }
}

impl Assignment {
    #[verifier::type_invariant]
    spec fn consistent(self) -> bool {
        &&& forall|p: int|
            0 <= p < 12 ==> (#[trigger] self.activation_of_position@[p] matches Some(a) ==> a@ < 12
                && option_place(self.position_of_activation@[a@ as int]) == Some(p as nat))
        &&& forall|a: int|
            0 <= a < 12 ==> (#[trigger] self.position_of_activation@[a] matches Some(p) ==> p@ < 12
                && option_index(self.activation_of_position@[p@ as int]) == Some(a as nat))
    }

    /// Shows what holds of every assignment: twelve slots, entries below
    /// twelve, nothing placed twice.
    pub fn check(&self)
        ensures
            well_formed(self@),
    {
        proof {
            use_type_invariant(self);
            assert forall|i: int, j: int| 0 <= i < j < self@.len() && self@[i] is Some implies #[trigger] self@[i]
                != #[trigger] self@[j] by {
                let a = self.activation_of_position@[i];
                let b = self.activation_of_position@[j];
            }
            assert forall|p: int| 0 <= p < 12 implies (#[trigger] self@[p] matches Some(a) ==> a < 12) by {
                let a = self.activation_of_position@[p];
            }
        }
    }

    /// The assignment that holds the given twelve slots.
    pub fn from_iter(assignment: Vec<Option<Activation>>) -> (made: Result<Self, AssignmentError>)
        requires
            assignment.len() == 12,
        ensures
            made is Ok <==> injective(Seq::new(12, |p: int| option_index(assignment@[p]))),
            made matches Ok(a) ==> a@ == Seq::new(12, |p: int| option_index(assignment@[p])),
            made matches Err(AssignmentError::ActivationDoubleAssigned { activation, position_a, position_b })
                ==> first_clash(
                Seq::new(12, |p: int| option_index(assignment@[p])),
                activation@,
                position_a@,
                position_b@,
            ),
    {
        let mut target: [Option<Activation>; 12] = [None;12];
        let mut i: usize = 0;
        while i < 12
            invariant
                i <= 12,
                assignment.len() == 12,
                forall|p: int| 0 <= p < i ==> target@[p] == assignment@[p],
            decreases 12 - i,
        {
            target[i] = assignment[i];
            i += 1;
        }
        assert(array_slots(target) =~= Seq::new(12, |p: int| option_index(assignment@[p])));
        Self::new(target)
    }

    /// The assignment that holds the given twelve slots, or the first
    /// position, counted from zero, whose activation an earlier position holds
    /// too.
    pub fn new(assignment: [Option<Activation>; 12]) -> (made: Result<Self, AssignmentError>)
        ensures
            made is Ok <==> injective(array_slots(assignment)),
            made matches Ok(a) ==> a@ == array_slots(assignment),
            made matches Err(AssignmentError::ActivationDoubleAssigned { activation, position_a, position_b })
                ==> first_clash(array_slots(assignment), activation@, position_a@, position_b@),
    {
        let ghost slots = array_slots(assignment);
        let mut position_of: [Option<RunePosition>; 12] = [None;12];
        let mut position: usize = 0;
        while position < 12
            invariant
                position <= 12,
                slots == array_slots(assignment),
                forall|a: int|
                    0 <= a < 12 ==> (#[trigger] position_of@[a] matches Some(p) ==> p@ < position && slots[p@ as int]
                        == Some(a as nat)),
                forall|p: int|
                    0 <= p < position ==> (#[trigger] slots[p] matches Some(a) ==> a < 12 && option_place(
                        position_of@[a as int],
                    ) == Some(p as nat)),
                forall|j: int| 0 <= j < position ==> !clash_at(slots, j),
            decreases 12 - position,
        {
            let here = RunePosition::new(position);
            if let Some(a) = assignment[position] {
                let index = a.index();
                if let Some(old) = position_of[index] {
                    proof {
                        assert(slots[old@ as int] == slots[position as int]);
                        assert(clash_at(slots, position as int));
                        assert(!injective(slots));
                    }
                    return Err(
                        AssignmentError::ActivationDoubleAssigned {
                            activation: a,
                            position_a: here,
                            position_b: old,
                        },
                    );
                }
                proof {
                    if clash_at(slots, position as int) {
                        let i = choose|i: int| 0 <= i < position && #[trigger] slots[i] == slots[position as int];
                        assert(option_place(position_of@[index as int]) == Some(i as nat));
                    }
                }
                position_of[index] = Some(here);
            }
            position += 1;
        }
        proof {
            assert forall|i: int, j: int| 0 <= i < j < slots.len() && slots[i] is Some implies #[trigger] slots[i]
                != #[trigger] slots[j] by {
                if slots[i] == slots[j] {
                    assert(clash_at(slots, j));
                }
            }
        }
        proof {
            assert forall|p: int| 0 <= p < 12 implies (#[trigger] assignment@[p] matches Some(a) ==> a@ < 12
                && option_place(position_of@[a@ as int]) == Some(p as nat)) by {
                let s = slots[p];
            }
            assert forall|a: int| 0 <= a < 12 implies (#[trigger] position_of@[a] matches Some(p) ==> p@ < 12
                && option_index(assignment@[p@ as int]) == Some(a as nat)) by {
                if let Some(p) = position_of@[a] {
                    let s = slots[p@ as int];
                }
            }
        }
        Ok(Self { activation_of_position: assignment, position_of_activation: position_of })
    }

    /// The assignment that a list of pairs fills, taken in order: a later pair
    /// for a position replaces an earlier one, and then no activation may be
    /// left on two positions.
    pub fn from_tuple_iter(tuples: &Vec<(RunePosition, Activation)>) -> (made: Result<Self, AssignmentError>)
        ensures
            made is Ok <==> injective(slots_from_tuples(tuple_indices(tuples@))),
            made matches Ok(a) ==> a@ == slots_from_tuples(tuple_indices(tuples@)),
            made matches Err(AssignmentError::ActivationDoubleAssigned { activation, position_a, position_b })
                ==> first_clash(slots_from_tuples(tuple_indices(tuples@)), activation@, position_a@, position_b@),
    {
        let mut target: [Option<Activation>; 12] = [None;12];
        let mut i: usize = 0;
        assert(array_slots(target) =~= empty_slots());
        assert(tuple_indices(tuples@).take(0) =~= Seq::empty());
        while i < tuples.len()
            invariant
                i <= tuples.len(),
                array_slots(target) == slots_from_tuples(tuple_indices(tuples@).take(i as int)),
            decreases tuples.len() - i,
        {
            let (position, activation) = tuples[i];
            let ghost before = target;
            let p = position.index();
            target[p] = Some(activation);
            proof {
                let all = tuple_indices(tuples@);
                assert(all.take(i + 1).drop_last() =~= all.take(i as int));
                assert(all.take(i + 1).last() == (position@, activation@));
                assert(array_slots(target) =~= array_slots(before).update(p as int, Some(activation@)));
            }
            i += 1;
        }
        assert(tuple_indices(tuples@).take(i as int) =~= tuple_indices(tuples@));
        Self::new(target)
    }

    /// The activation on a position, if it holds one.
    pub fn get(&self, position: RunePosition) -> (activation: Option<Activation>)
        ensures
            option_index(activation) == self@[position@ as int],
    {
        self.activation_of_position[position.index()]
    }

    /// The position on which the activation is placed, if it is placed.
    pub fn position_of(&self, number: Activation) -> (position: Option<RunePosition>)
        ensures
            option_place(position) == place_of(self@, number@),
    {
        let found = self.position_of_activation[number.index()];
        proof {
            use_type_invariant(self);
            let slots = self@;
            let a = number@;
            match found {
                Some(p) => {
                    assert(slots[p@ as int] == Some(a));
                    let q = choose|q: int| 0 <= q < slots.len() && #[trigger] slots[q] == Some(a);
                    assert(self.activation_of_position@[q] is Some);
                },
                None => {
                    if exists|q: int| 0 <= q < slots.len() && #[trigger] slots[q] == Some(a) {
                        let q = choose|q: int| 0 <= q < slots.len() && #[trigger] slots[q] == Some(a);
                        assert(self.activation_of_position@[q] is Some);
                    }
                },
            }
        }
        found
    }

    /// Places the activation on the position. What the position held before is
    /// no longer placed, and the activation leaves the position it had.
    pub fn assign(&mut self, position: RunePosition, activation: Activation)
        ensures
            final(self)@ == placed(old(self)@, position@, activation@),
    {
        proof {
            use_type_invariant(&*self);
        }
        let mut by_position = self.activation_of_position;
        let mut by_activation = self.position_of_activation;
        let p = position.index();
        let a = activation.index();
        if let Some(old) = by_activation[a] {
            by_position[old.index()] = None;
        }
        if let Some(old) = by_position[p] {
            by_activation[old.index()] = None;
        }
        by_activation[a] = Some(position);
        by_position[p] = Some(activation);
        proof {
            assert(array_slots(by_position) =~= placed(old(self)@, position@, activation@)) by {
                assert forall|q: int| 0 <= q < 12 implies array_slots(by_position)[q] == placed(
                    old(self)@,
                    position@,
                    activation@,
                )[q] by {
                    let was = old(self).activation_of_position@[q];
                }
            }
            assert forall|q: int| 0 <= q < 12 implies (#[trigger] by_position@[q] matches Some(b) ==> b@ < 12
                && option_place(by_activation@[b@ as int]) == Some(q as nat)) by {
                let was = old(self).activation_of_position@[q];
            }
            assert forall|b: int| 0 <= b < 12 implies (#[trigger] by_activation@[b] matches Some(q) ==> q@ < 12
                && option_index(by_position@[q@ as int]) == Some(b as nat)) by {
                let was = old(self).position_of_activation@[b];
            }
        }
        *self = Assignment { activation_of_position: by_position, position_of_activation: by_activation };
    }

    /// Whether the activation is placed.
    pub fn contains(&self, a: Activation) -> (placed: bool)
        ensures
            placed == (place_of(self@, a@) is Some),
    {
        self.position_of(a).is_some()
    }
}

/// `position_a` is the first position whose activation an earlier position
/// holds too; that activation is `activation`, and `position_b` is the earlier
/// position.
pub open spec fn first_clash(slots: Slots, activation: nat, position_a: nat, position_b: nat) -> bool {
    &&& position_b < position_a < slots.len()
    &&& slots[position_a as int] == Some(activation)
    &&& slots[position_b as int] == Some(activation)
    &&& forall|j: int| 0 <= j < position_a ==> !clash_at(slots, j)
}

/// Placing an activation on a position keeps a placement sound, and the
/// activation is then found on that position.
pub proof fn lemma_placed_is_well_formed(slots: Slots, position: nat, activation: nat)
    requires
        well_formed(slots),
        position < 12,
        activation < 12,
    ensures
        well_formed(placed(slots, position, activation)),
        place_of(placed(slots, position, activation), activation) == Some(position),
{
    let after = placed(slots, position, activation);
    assert forall|i: int, j: int| 0 <= i < j < after.len() && after[i] is Some implies #[trigger] after[i]
        != #[trigger] after[j] by {
        if i != position && j != position && after[j] is Some {
            assert(slots[i] != slots[j]);
        }
    }
    assert forall|p: int| 0 <= p < 12 implies (#[trigger] after[p] matches Some(a) ==> a < 12) by {
        let was = slots[p];
    }
    assert(after[position as int] == Some(activation));
    let found = choose|p: int| 0 <= p < after.len() && #[trigger] after[p] == Some(activation);
    assert(found == position) by {
        if found != position {
            assert(after[found] != Some(activation));
        }
    }
}

} // verus!
