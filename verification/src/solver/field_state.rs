use vstd::prelude::*;
use vstd::string::StringExecFns;
use crate::activation::{activation_text, Activation};
use crate::assignment::option_index;

verus! {

/// A set of activations.
#[derive(Clone, Copy, Debug)]
pub struct ActivationSet {
    member: [bool; 12],
}

/// How many of the first `upto` activations a set holds.
pub open spec fn count_members(set: Seq<bool>, upto: int) -> nat
    decreases upto,
{
    if upto <= 0 {
        0
    } else if set[upto - 1] {
        count_members(set, upto - 1) + 1
    } else {
        count_members(set, upto - 1)
    }
}

/// The first `upto` activations that a set holds, in order.
pub open spec fn members_in_order(set: Seq<bool>, upto: int) -> Seq<nat>
    decreases upto,
{
    if upto <= 0 {
        Seq::empty()
    } else if set[upto - 1] {
        members_in_order(set, upto - 1).push((upto - 1) as nat)
    } else {
        members_in_order(set, upto - 1)
    }
}

/// The activations of a list by their numbers.
pub open spec fn activation_indices(list: Seq<Activation>) -> Seq<nat> {
    Seq::new(list.len(), |i: int| list[i]@)
}

impl View for ActivationSet {
    type V = Seq<bool>;

    /// For each of the twelve activations, whether the set holds it.
    closed spec fn view(&self) -> Seq<bool> {
        self.member@
    }
}

impl ActivationSet {
    /// The set of all twelve activations.
    pub fn full() -> (set: Self)
        ensures
            set@ == Seq::new(12, |a: int| true),
    {
        let set = ActivationSet { member: [true;12] };
        assert(set@ =~= Seq::new(12, |a: int| true));
        set
    }

    pub fn contains(&self, activation: Activation) -> (yes: bool)
        ensures
            yes == self@[activation@ as int],
            self@.len() == 12,
    {
        self.member[activation.index()]
    }

    /// Takes an activation out of the set.
    pub fn remove(&mut self, activation: Activation)
        ensures
            final(self)@ == old(self)@.update(activation@ as int, false),
            old(self)@.len() == 12,
    {
        let a = activation.index();
        let mut member = self.member;
        member[a] = false;
        *self = ActivationSet { member };
        assert(self@ =~= old(self)@.update(activation@ as int, false));
    }

    /// How many activations the set holds.
    pub fn len(&self) -> (count: usize)
        ensures
            count == count_members(self@, 12),
            count <= 12,
            self@.len() == 12,
    {
        let mut count: usize = 0;
        let mut a: usize = 0;
        while a < 12
            invariant
                a <= 12,
                count == count_members(self@, a as int),
                count <= a,
            decreases 12 - a,
        {
            if self.member[a] {
                count += 1;
            }
            a += 1;
        }
        count
    }

    /// The activations of the set, in order.
    pub fn to_vec(&self) -> (list: Vec<Activation>)
        ensures
            activation_indices(list@) == members_in_order(self@, 12),
            self@.len() == 12,
    {
        let mut list: Vec<Activation> = Vec::new();
        let mut a: usize = 0;
        assert(activation_indices(list@) =~= members_in_order(self@, 0));
        while a < 12
            invariant
                a <= 12,
                activation_indices(list@) == members_in_order(self@, a as int),
            decreases 12 - a,
        {
            if self.member[a] {
                let ghost before = list@;
                let activation = Activation::new(a as u8).unwrap();
                list.push(activation);
                assert(activation_indices(list@) =~= activation_indices(before).push(a as nat));
            }
            a += 1;
        }
        list
    }
}

/// What is known of one position: an activation was assumed on it, an
/// activation was deduced for it, or it is open, with the activations that
/// may still go there.
#[derive(Clone, Copy, Debug)]
pub enum FieldState {
    Assumed(Activation),
    Unsure(ActivationSet),
    Deduced(Activation),
}

/// A field as the contracts see it.
pub enum FieldView {
    Assumed(nat),
    Unsure(Seq<bool>),
    Deduced(nat),
}

impl FieldView {
    /// The activation that is fixed on the position, if one is.
    pub open spec fn fixed(self) -> Option<nat> {
        match self {
            FieldView::Assumed(a) => Some(a),
            FieldView::Deduced(a) => Some(a),
            FieldView::Unsure(_) => None,
        }
    }
}

impl View for FieldState {
    type V = FieldView;

    open spec fn view(&self) -> FieldView {
        match *self {
            FieldState::Assumed(a) => FieldView::Assumed(a@),
            FieldState::Unsure(set) => FieldView::Unsure(set@),
            FieldState::Deduced(a) => FieldView::Deduced(a@),
        }
    }
}

/// The activations of a set, each as people read it and followed by a space.
pub open spec fn members_text(set: Seq<bool>, upto: int) -> Seq<char>
    decreases upto,
{
    if upto <= 0 {
        Seq::empty()
    } else if set[upto - 1] {
        members_text(set, upto - 1) + activation_text((upto - 1) as nat) + " "@
    } else {
        members_text(set, upto - 1)
    }
}

/// A field as people read it: a deduced activation plainly, an assumed one
/// with a question mark, an open field as the list of what may go there.
pub open spec fn field_text(field: FieldView) -> Seq<char> {
    match field {
        FieldView::Deduced(a) => activation_text(a),
        FieldView::Assumed(a) => activation_text(a) + "?"@,
        FieldView::Unsure(set) => "["@ + members_text(set, 12) + "]"@,
    }
}

impl FieldState {
    /// The activation that is fixed on the position, if one is.
    pub fn fixed(&self) -> (activation: Option<Activation>)
        ensures
            option_index(activation) == self@.fixed(),
    {
        match self {
            FieldState::Assumed(a) => Some(*a),
            FieldState::Deduced(a) => Some(*a),
            FieldState::Unsure(_) => None,
        }
    }

    /// The field as people read it.
    pub fn to_text(&self) -> (text: String)
        ensures
            text@ == field_text(self@),
    {
        match self {
            FieldState::Deduced(a) => a.to_text(),
            FieldState::Assumed(a) => a.to_text().concat("?"),
            FieldState::Unsure(set) => {
                let mut text = String::from_str("[");
                let mut a: usize = 0;
                assert(text@ =~= "["@ + members_text(set@, 0));
                while a < 12
                    invariant
                        a <= 12,
                        text@ == "["@ + members_text(set@, a as int),
                    decreases 12 - a,
                {
                    let activation = Activation::new(a as u8).unwrap();
                    if set.contains(activation) {
                        let name = activation.to_text();
                        text = text.concat(name.as_str()).concat(" ");
                        assert(text@ =~= "["@ + members_text(set@, a + 1));
                    }
                    a += 1;
                }
                text.concat("]")
            },
        }
    }
}

impl Default for FieldState {
    /// An open field on which every activation may still go.
    fn default() -> (field: Self)
        ensures
            field@ == FieldView::Unsure(Seq::new(12, |a: int| true)),
    {
        FieldState::Unsure(ActivationSet::full())
    }
}

} // verus!
