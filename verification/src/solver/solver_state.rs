use vstd::prelude::*;
use vstd::string::StringExecFns;
use crate::activation::Activation;
use crate::assignment::{array_slots, injective, option_index, place_of, placed, Assignment, Slots};
use crate::index::RunePosition;
use crate::lock::RuneLock;
use crate::rule::{verdict, RuleKind};
use crate::rune::Rune;
use crate::solver::field_state::{
    activation_indices, count_members, field_text, members_in_order, FieldState, FieldView,
};
use crate::solver::{
    deduction, entries_after, entry_step, unsolvable_text, ActivationPossibility, DeduceWithAssumptionResult,
    DeductionIterationResult, PossibilityView, SolverError, UnsolvableView,
};
use crate::text::digits_of;

verus! {

/// What made a state: an assumption, the ruling out of a candidate, or
/// nothing, for the state in which everything is open.
#[derive(Clone, Copy, Debug)]
pub enum SolverStateAction {
    Assume { activation: Activation, position: RunePosition },
    RuleOut { activation: Activation, position: RunePosition },
    Default,
}

/// An action as the contracts see it.
pub enum StateActionView {
    Assume { activation: nat, position: nat },
    RuleOut { activation: nat, position: nat },
    Default,
}

impl View for SolverStateAction {
    type V = StateActionView;

    open spec fn view(&self) -> StateActionView {
        match *self {
            SolverStateAction::Assume { activation, position } => StateActionView::Assume {
                activation: activation@,
                position: position@,
            },
            SolverStateAction::RuleOut { activation, position } => StateActionView::RuleOut {
                activation: activation@,
                position: position@,
            },
            SolverStateAction::Default => StateActionView::Default,
        }
    }
}

/// What is known of each of the twelve positions, and what made the state.
#[derive(Clone, Copy, Debug)]
pub struct SolverState {
    state: [FieldState; 12],
    action: SolverStateAction,
}

/// A state as the contracts see it.
pub struct SolverStateView {
    pub fields: Seq<FieldView>,
    pub action: StateActionView,
}

/// The placement that the fixed fields make.
pub open spec fn fixed_slots(fields: Seq<FieldView>) -> Slots {
    Seq::new(12, |p: int| fields[p].fixed())
}

/// Twelve fields; every activation named is one of the twelve; and no
/// activation is fixed on two positions.
pub open spec fn valid(fields: Seq<FieldView>) -> bool {
    &&& fields.len() == 12
    &&& forall|p: int|
        0 <= p < 12 ==> match #[trigger] fields[p] {
            FieldView::Assumed(a) => a < 12,
            FieldView::Deduced(a) => a < 12,
            FieldView::Unsure(set) => set.len() == 12,
        }
    &&& injective(fixed_slots(fields))
}

/// The field is open and lists the activation as a candidate.
pub open spec fn lists(field: FieldView, activation: int) -> bool {
    match field {
        FieldView::Unsure(set) => set[activation],
        _ => false,
    }
}

/// No open field lists an activation that is fixed somewhere.
pub open spec fn pruned(fields: Seq<FieldView>) -> bool {
    forall|p: int, a: int|
        0 <= p < 12 && 0 <= a < 12 && #[trigger] lists(fields[p], a) ==> place_of(fixed_slots(fields), a as nat)
            is None
}

/// Every rule of the lock passes on a placement.
pub open spec fn passes_all(runes: Seq<Rune>, rules: Seq<RuleKind>, slots: Slots) -> bool {
    forall|i: int| 0 <= i < rules.len() ==> verdict(#[trigger] rules[i], runes, slots) is Ok
}

/// The candidates of a position that are left when those are struck that are
/// fixed somewhere, and those with which, placed on the position beside what
/// is fixed, some rule of the lock does not pass.
pub open spec fn pruned_set(
    fields: Seq<FieldView>,
    runes: Seq<Rune>,
    rules: Seq<RuleKind>,
    position: int,
    set: Seq<bool>,
) -> Seq<bool> {
    Seq::new(
        12,
        |a: int|
            set[a] && place_of(fixed_slots(fields), a as nat) is None && passes_all(
                runes,
                rules,
                placed(fixed_slots(fields), position as nat, a as nat),
            ),
    )
}

/// The fields with the candidates of every open one pruned.
pub open spec fn pruned_fields(fields: Seq<FieldView>, runes: Seq<Rune>, rules: Seq<RuleKind>) -> Seq<FieldView> {
    Seq::new(
        12,
        |p: int|
            match fields[p] {
                FieldView::Unsure(set) => FieldView::Unsure(pruned_set(fields, runes, rules, p, set)),
                other => other,
            },
    )
}

/// The first position at or after `from` on which the activation is fixed.
pub open spec fn first_fixed(fields: Seq<FieldView>, activation: nat, from: int) -> Option<int>
    decreases 12 - from,
{
    if from >= 12 {
        None
    } else if fields[from].fixed() == Some(activation) {
        Some(from)
    } else {
        first_fixed(fields, activation, from + 1)
    }
}

/// What is wrong with an assumption, as the contracts see it.
pub enum SolverErrorView {
    AssumeAtOldAssumption { activation: nat, new_position: nat, old_assumption: nat },
    AssumeAtOldDeduction { activation: nat, new_position: nat, old_deduction: nat },
    ActivationAlreadyAssumed { activation: nat, new_position: nat, old_position: nat },
    ActivationAlreadyDeduced { activation: nat, new_position: nat, old_position: nat },
    PopInitialState,
}

impl View for SolverError {
    type V = SolverErrorView;

    open spec fn view(&self) -> SolverErrorView {
        match *self {
            SolverError::AssumeAtOldAssumption { activation, new_position, old_assumption } => {
                SolverErrorView::AssumeAtOldAssumption {
                    activation: activation@,
                    new_position: new_position@,
                    old_assumption: old_assumption@,
                }
            },
            SolverError::AssumeAtOldDeduction { activation, new_position, old_deduction } => {
                SolverErrorView::AssumeAtOldDeduction {
                    activation: activation@,
                    new_position: new_position@,
                    old_deduction: old_deduction@,
                }
            },
            SolverError::ActivationAlreadyAssumed { activation, new_position, old_position } => {
                SolverErrorView::ActivationAlreadyAssumed {
                    activation: activation@,
                    new_position: new_position@,
                    old_position: old_position@,
                }
            },
            SolverError::ActivationAlreadyDeduced { activation, new_position, old_position } => {
                SolverErrorView::ActivationAlreadyDeduced {
                    activation: activation@,
                    new_position: new_position@,
                    old_position: old_position@,
                }
            },
            SolverError::PopInitialState => SolverErrorView::PopInitialState,
        }
    }
}

/// What assuming an activation on a position comes to: the position must be
/// open, and the activation fixed nowhere; then the position holds the
/// assumption.
pub open spec fn assumed_fields(fields: Seq<FieldView>, position: nat, to_be: nat) -> Result<
    Seq<FieldView>,
    SolverErrorView,
> {
    match fields[position as int] {
        FieldView::Assumed(old) => Err(
            SolverErrorView::AssumeAtOldAssumption { activation: to_be, new_position: position, old_assumption: old },
        ),
        FieldView::Deduced(old) => Err(
            SolverErrorView::AssumeAtOldDeduction { activation: to_be, new_position: position, old_deduction: old },
        ),
        FieldView::Unsure(_) => match first_fixed(fields, to_be, 0) {
            Some(old_position) => if fields[old_position] is Assumed {
                Err(
                    SolverErrorView::ActivationAlreadyAssumed {
                        activation: to_be,
                        new_position: position,
                        old_position: old_position as nat,
                    },
                )
            } else {
                Err(
                    SolverErrorView::ActivationAlreadyDeduced {
                        activation: to_be,
                        new_position: position,
                        old_position: old_position as nat,
                    },
                )
            },
            None => Ok(fields.update(position as int, FieldView::Assumed(to_be))),
        },
    }
}

/// How many of the first `upto` positions are open.
pub open spec fn count_open(fields: Seq<FieldView>, upto: int) -> nat
    decreases upto,
{
    if upto <= 0 {
        0
    } else if fields[upto - 1] is Unsure {
        count_open(fields, upto - 1) + 1
    } else {
        count_open(fields, upto - 1)
    }
}

/// What one round of deduction makes of a state, as the contracts see it.
pub enum DeductionView {
    Unsolvable(UnsolvableView),
    MadeDeductions(SolverStateView),
    Indecisive,
}

/// One round of deduction: every activation that has one position only is
/// fixed there, and then the candidates are pruned. The state is unsolvable
/// if an activation has no position, or only one that is taken; it is
/// indecisive if nothing can be fixed.
pub open spec fn deduced(state: SolverStateView, runes: Seq<Rune>, rules: Seq<RuleKind>) -> DeductionView {
    match deduction(state.fields, entries_after(state.fields, 12), 12) {
        Err(why) => DeductionView::Unsolvable(why),
        Ok((fields, changed)) => if changed {
            DeductionView::MadeDeductions(
                SolverStateView { fields: pruned_fields(fields, runes, rules), action: state.action },
            )
        } else {
            DeductionView::Indecisive
        },
    }
}

/// Round after round of deduction, at most `fuel` of them, until one is
/// indecisive or finds the state unsolvable: the states that the rounds
/// made, in order.
pub open spec fn deductions(state: SolverStateView, runes: Seq<Rune>, rules: Seq<RuleKind>, fuel: nat) -> Result<
    Seq<SolverStateView>,
    UnsolvableView,
>
    decreases fuel,
{
    if fuel == 0 {
        Ok(Seq::empty())
    } else {
        match deduced(state, runes, rules) {
            DeductionView::Unsolvable(why) => Err(why),
            DeductionView::Indecisive => Ok(Seq::empty()),
            DeductionView::MadeDeductions(next) => match deductions(next, runes, rules, (fuel - 1) as nat) {
                Ok(rest) => Ok(seq![next] + rest),
                Err(why) => Err(why),
            },
        }
    }
}

/// The states of a list as the contracts see them.
pub open spec fn state_views(states: Seq<SolverState>) -> Seq<SolverStateView> {
    Seq::new(states.len(), |i: int| states[i]@)
}

/// An activation that is fixed on one of the first `upto` positions is left
/// as fixed when these positions have been gone through, provided that no
/// open field lists it.
pub proof fn lemma_fixed_stays_fixed(fields: Seq<FieldView>, activation: int, at: int, upto: int)
    requires
        valid(fields),
        pruned(fields),
        0 <= activation < 12,
        0 <= at < upto <= 12,
        fields[at].fixed() == Some(activation as nat),
    ensures
        entries_after(fields, upto)[activation] is AlreadyAssumed || entries_after(fields, upto)[activation]
            is AlreadyDeduced,
    decreases upto,
{
    if at < upto - 1 {
        lemma_fixed_stays_fixed(fields, activation, at, upto - 1);
        let field = fields[upto - 1];
        if lists(field, activation) {
            let slots = fixed_slots(fields);
            assert(slots[at] == Some(activation as nat));
        }
    }
}

/// Fixing an open position leaves one open position fewer.
pub proof fn lemma_count_open_after_fixing(fields: Seq<FieldView>, position: int, fixed: FieldView, upto: int)
    requires
        fields.len() == 12,
        0 <= position < 12,
        0 <= upto <= 12,
        fields[position] is Unsure,
        !(fixed is Unsure),
    ensures
        count_open(fields.update(position, fixed), upto) + (if position < upto {
            1nat
        } else {
            0nat
        }) == count_open(fields, upto),
    decreases upto,
{
    if upto > 0 {
        lemma_count_open_after_fixing(fields, position, fixed, upto - 1);
    }
}

/// Once an activation has made the state unsolvable, the activations after it
/// are not looked at.
pub proof fn lemma_unsolvable_sticks(fields: Seq<FieldView>, entries: Seq<PossibilityView>, at: int, upto: int)
    requires
        0 <= at <= upto,
        deduction(fields, entries, at) is Err,
    ensures
        deduction(fields, entries, upto) == deduction(fields, entries, at),
    decreases upto - at,
{
    if at < upto {
        lemma_unsolvable_sticks(fields, entries, at, upto - 1);
    }
}

/// At most twelve positions are open.
pub proof fn lemma_count_open_bounded(fields: Seq<FieldView>, upto: int)
    requires
        0 <= upto,
    ensures
        count_open(fields, upto) <= upto,
    decreases upto,
{
    if upto > 0 {
        lemma_count_open_bounded(fields, upto - 1);
    }
}

/// Pruning leaves as many positions open as there were.
pub proof fn lemma_count_open_pruned(fields: Seq<FieldView>, runes: Seq<Rune>, rules: Seq<RuleKind>, upto: int)
    requires
        fields.len() == 12,
        0 <= upto <= 12,
    ensures
        count_open(pruned_fields(fields, runes, rules), upto) == count_open(fields, upto),
    decreases upto,
{
    if upto > 0 {
        lemma_count_open_pruned(fields, runes, rules, upto - 1);
    }
}

impl View for SolverState {
    type V = SolverStateView;

    closed spec fn view(&self) -> SolverStateView {
        SolverStateView { fields: Seq::new(12, |p: int| self.state@[p]@), action: self.action@ }
    }
}

impl Default for SolverState {
    /// The state in which every position is open to every activation.
    fn default() -> (state: Self)
        ensures
            state@.action == StateActionView::Default,
            state@.fields == Seq::new(12, |p: int| FieldView::Unsure(Seq::new(12, |a: int| true))),
            valid(state@.fields),
            pruned(state@.fields),
    {
        let state = SolverState { action: SolverStateAction::Default, state: [FieldState::default();12] };
        proof {
            let fields = state@.fields;
            assert(fields =~= Seq::new(12, |p: int| FieldView::Unsure(Seq::new(12, |a: int| true))));
            lemma_nothing_fixed(fields);
        }
        state
    }
}

/// Where no field is fixed, no activation is placed.
pub proof fn lemma_nothing_fixed(fields: Seq<FieldView>)
    requires
        fields.len() == 12,
        forall|p: int| 0 <= p < 12 ==> (#[trigger] fields[p]) is Unsure,
    ensures
        injective(fixed_slots(fields)),
        forall|a: nat| place_of(fixed_slots(fields), a) is None,
{
    let slots = fixed_slots(fields);
    assert forall|p: int| 0 <= p < 12 implies (#[trigger] slots[p]) is None by {
        assert(fields[p] is Unsure);
    }
}

impl SolverState {
    /// What the state knows of a position.
    pub fn field(&self, position: RunePosition) -> (field: FieldState)
        ensures
            field@ == self@.fields[position@ as int],
            self@.fields.len() == 12,
    {
        self.state[position.index()]
    }

    /// The state as people read it, a line for each position.
    pub fn to_text(&self) -> (text: String)
        ensures
            text@ == fields_text(self@.fields, 12),
    {
        let mut text = String::from_str("");
        proof {
            reveal_strlit("");
        }
        assert(text@ =~= fields_text(self@.fields, 0));
        let mut p: usize = 0;
        while p < 12
            invariant
                p <= 12,
                text@ == fields_text(self@.fields, p as int),
            decreases 12 - p,
        {
            let number = RunePosition::new(p).to_text();
            let label = if p < 10 {
                String::from_str(" ").concat(number.as_str())
            } else {
                number
            };
            let field = self.state[p].to_text();
            text = text.concat(label.as_str()).concat(": ").concat(field.as_str()).concat("\n");
            p += 1;
        }
        text
    }

    /// What made the state.
    pub fn action(&self) -> (action: SolverStateAction)
        ensures
            action@ == self@.action,
    {
        self.action
    }

    /// The placement that the fixed fields make.
    pub fn fixed_assignments(&self) -> (assignment: Assignment)
        requires
            valid(self@.fields),
        ensures
            assignment@ == fixed_slots(self@.fields),
    {
        let mut target: [Option<Activation>; 12] = [None;12];
        let mut p: usize = 0;
        while p < 12
            invariant
                p <= 12,
                forall|q: int| 0 <= q < p ==> option_index(#[trigger] target@[q]) == self@.fields[q].fixed(),
            decreases 12 - p,
        {
            target[p] = self.state[p].fixed();
            p += 1;
        }
        assert(array_slots(target) =~= fixed_slots(self@.fields));
        Assignment::new(target).unwrap()
    }

    /// The activations that may still go on a position, in order; none if the
    /// position is fixed.
    pub fn possible_activations_of(&self, pos: RunePosition) -> (list: Vec<Activation>)
        ensures
            activation_indices(list@) == match self@.fields[pos@ as int] {
                FieldView::Unsure(set) => members_in_order(set, 12),
                _ => Seq::empty(),
            },
    {
        match &self.state[pos.index()] {
            FieldState::Unsure(possibilities) => possibilities.to_vec(),
            FieldState::Assumed(_) | FieldState::Deduced(_) => {
                let list: Vec<Activation> = Vec::new();
                assert(activation_indices(list@) =~= Seq::<nat>::empty());
                list
            },
        }
    }

    /// The positions that are open, in order, whatever may go on them.
    pub fn possible_positions_of(&self, activation: Activation) -> (list: Vec<RunePosition>)
        ensures
            position_indices(list@) == open_positions(self@.fields, 12),
    {
        let mut positions: Vec<RunePosition> = Vec::new();
        let mut p: usize = 0;
        assert(position_indices(positions@) =~= open_positions(self@.fields, 0));
        while p < 12
            invariant
                p <= 12,
                position_indices(positions@) == open_positions(self@.fields, p as int),
            decreases 12 - p,
        {
            match self.state[p] {
                FieldState::Unsure(_) => {
                    let ghost before = positions@;
                    positions.push(RunePosition::new(p));
                    assert(position_indices(positions@) =~= position_indices(before).push(p as nat));
                },
                FieldState::Assumed(_) | FieldState::Deduced(_) => {},
            }
            p += 1;
        }
        positions
    }

    /// Fixes the assumption on the position, if the position is open and the
    /// activation is fixed nowhere.
    fn assume_at(&mut self, position: RunePosition, to_be: Activation) -> (done: Result<(), SolverError>)
        requires
            valid(old(self)@.fields),
        ensures
            final(self)@.action == old(self)@.action,
            match done {
                Ok(_) => assumed_fields(old(self)@.fields, position@, to_be@) == Ok::<
                    Seq<FieldView>,
                    SolverErrorView,
                >(final(self)@.fields) && valid(final(self)@.fields),
                Err(e) => assumed_fields(old(self)@.fields, position@, to_be@) == Err::<
                    Seq<FieldView>,
                    SolverErrorView,
                >(e@) && final(self)@ == old(self)@,
            },
    {
        let ghost fields = self@.fields;
        let at = position.index();
        let want = to_be.index();
        match self.state[at] {
            FieldState::Assumed(old) => {
                return Err(
                    SolverError::AssumeAtOldAssumption {
                        activation: to_be,
                        new_position: position,
                        old_assumption: old,
                    },
                );
            },
            FieldState::Deduced(old) => {
                return Err(
                    SolverError::AssumeAtOldDeduction {
                        activation: to_be,
                        new_position: position,
                        old_deduction: old,
                    },
                );
            },
            FieldState::Unsure(_) => {},
        }
        let mut p: usize = 0;
        while p < 12
            invariant
                p <= 12,
                want == to_be@,
                fields == self@.fields,
                self@ == old(self)@,
                fields[at as int] is Unsure,
                at == position@,
                first_fixed(fields, to_be@, 0) == first_fixed(fields, to_be@, p as int),
                forall|q: int| 0 <= q < p ==> (#[trigger] fields[q]).fixed() != Some(to_be@),
            decreases 12 - p,
        {
            let old_position = RunePosition::new(p);
            match self.state[p] {
                FieldState::Assumed(old) => {
                    if old.index() == want {
                        return Err(
                            SolverError::ActivationAlreadyAssumed {
                                activation: to_be,
                                new_position: position,
                                old_position,
                            },
                        );
                    }
                },
                FieldState::Deduced(old) => {
                    if old.index() == want {
                        return Err(
                            SolverError::ActivationAlreadyDeduced {
                                activation: to_be,
                                new_position: position,
                                old_position,
                            },
                        );
                    }
                },
                _ => {},
            }
            p += 1;
        }
        let mut state = self.state;
        state[at] = FieldState::Assumed(to_be);
        *self = SolverState { state, action: self.action };
        proof {
            let after = self@.fields;
            assert(after =~= fields.update(at as int, FieldView::Assumed(to_be@)));
            let before_slots = fixed_slots(fields);
            let slots = fixed_slots(after);
            assert forall|i: int, j: int| 0 <= i < j < slots.len() && slots[i] is Some implies #[trigger] slots[i]
                != #[trigger] slots[j] by {
                if i != at && j != at {
                    assert(before_slots[i] != before_slots[j]);
                } else if i == at {
                    assert(fields[j].fixed() != Some(to_be@));
                } else {
                    assert(fields[i].fixed() != Some(to_be@));
                }
            }
        }
        Ok(())
    }

    /// Strikes from every open position the candidates that are fixed
    /// somewhere, and those with which some rule of the lock does not pass
    /// when they are placed on the position beside what is fixed.
    fn prune_state(&mut self, lock: &RuneLock)
        requires
            valid(old(self)@.fields),
        ensures
            final(self)@.action == old(self)@.action,
            final(self)@.fields == pruned_fields(old(self)@.fields, lock.runes(), lock.rules()),
            valid(final(self)@.fields),
            pruned(final(self)@.fields),
    {
        let ghost fields = self@.fields;
        let assignment = self.fixed_assignments();
        let mut state = self.state;
        let mut p: usize = 0;
        while p < 12
            invariant
                p <= 12,
                fields == self@.fields,
                valid(fields),
                assignment@ == fixed_slots(fields),
                forall|q: int|
                    0 <= q < 12 ==> (#[trigger] state@[q])@ == if q < p {
                        pruned_fields(fields, lock.runes(), lock.rules())[q]
                    } else {
                        fields[q]
                    },
            decreases 12 - p,
        {
            let position = RunePosition::new(p);
            match state[p] {
                FieldState::Deduced(_) => {},
                FieldState::Assumed(_) => {},
                FieldState::Unsure(possibilities) => {
                    let mut kept = possibilities;
                    let mut a: usize = 0;
                    while a < 12
                        invariant
                            a <= 12,
                            p < 12,
                            position@ == p,
                            valid(fields),
                            fields[p as int] == FieldView::Unsure(possibilities@),
                            assignment@ == fixed_slots(fields),
                            kept@.len() == 12,
                            forall|b: int|
                                0 <= b < 12 ==> (#[trigger] kept@[b]) == if b < a {
                                    pruned_set(fields, lock.runes(), lock.rules(), p as int, possibilities@)[b]
                                } else {
                                    possibilities@[b]
                                },
                        decreases 12 - a,
                    {
                        let possibility = Activation::new(a as u8).unwrap();
                        if kept.contains(possibility) {
                            let keep = if assignment.contains(possibility) {
                                false
                            } else {
                                let mut tried = assignment;
                                tried.assign(position, possibility);
                                lock.validate(&tried).is_ok()
                            };
                            if !keep {
                                kept.remove(possibility);
                            }
                        }
                        a += 1;
                    }
                    assert(kept@ =~= pruned_set(fields, lock.runes(), lock.rules(), p as int, possibilities@));
                    state[p] = FieldState::Unsure(kept);
                },
            }
            p += 1;
        }
        *self = SolverState { state, action: self.action };
        proof {
            let after = self@.fields;
            assert(after =~= pruned_fields(fields, lock.runes(), lock.rules()));
            lemma_pruned_fields(fields, lock.runes(), lock.rules());
        }
    }

    /// The state that comes of assuming the activation on the position: the
    /// assumption is fixed and the candidates are pruned.
    pub fn with_assumed(&self, lock: &RuneLock, position: RunePosition, to_be: Activation) -> (made: Result<
        SolverState,
        SolverError,
    >)
        requires
            valid(self@.fields),
        ensures
            match made {
                Ok(state) => {
                    &&& assumed_fields(self@.fields, position@, to_be@) matches Ok(fields)
                    &&& state@.fields == pruned_fields(fields, lock.runes(), lock.rules())
                    &&& state@.action == (StateActionView::Assume { activation: to_be@, position: position@ })
                    &&& valid(state@.fields)
                    &&& pruned(state@.fields)
                },
                Err(e) => assumed_fields(self@.fields, position@, to_be@) == Err::<Seq<FieldView>, SolverErrorView>(
                    e@,
                ),
            },
    {
        let mut new_state = *self;
        new_state.action = SolverStateAction::Assume { activation: to_be, position };
        assert(new_state@.fields =~= self@.fields);
        match new_state.assume_at(position, to_be) {
            Err(e) => {
                return Err(e);
            },
            Ok(_) => {},
        }
        new_state.prune_state(lock);
        Ok(new_state)
    }

    /// Goes through the positions and finds what they leave for each
    /// activation.
    fn survey(&self) -> (entries: [ActivationPossibility; 12])
        requires
            valid(self@.fields),
        ensures
            forall|a: int| 0 <= a < 12 ==> (#[trigger] entries@[a])@ == entries_after(self@.fields, 12)[a],
    {
        let ghost fields = self@.fields;
        let mut entries: [ActivationPossibility; 12] = [ActivationPossibility::Nowhere;12];
        let mut p: usize = 0;
        while p < 12
            invariant
                p <= 12,
                fields == self@.fields,
                valid(fields),
                forall|a: int| 0 <= a < 12 ==> (#[trigger] entries@[a])@ == entries_after(fields, p as int)[a],
            decreases 12 - p,
        {
            let position = RunePosition::new(p);
            let field = self.state[p];
            let ghost before = entries_after(fields, p as int);
            let single = match field {
                FieldState::Unsure(set) => set.len() == 1,
                _ => false,
            };
            let mut a: usize = 0;
            while a < 12
                invariant
                    a <= 12,
                    p < 12,
                    position@ == p,
                    fields == self@.fields,
                    valid(fields),
                    field@ == fields[p as int],
                    before == entries_after(fields, p as int),
                    field matches FieldState::Unsure(set) ==> single == (count_members(set@, 12) == 1),
                    forall|b: int|
                        0 <= b < 12 ==> (#[trigger] entries@[b])@ == if b < a {
                            entry_step(before[b], fields[p as int], p as nat, b as nat)
                        } else {
                            before[b]
                        },
                decreases 12 - a,
            {
                let activation = Activation::new(a as u8).unwrap();
                match field {
                    FieldState::Unsure(set) => {
                        if set.contains(activation) {
                            entries[a] = if single {
                                ActivationPossibility::ForcedAt(position)
                            } else {
                                match entries[a] {
                                    ActivationPossibility::Nowhere => ActivationPossibility::ExactlyOne(position),
                                    ActivationPossibility::ExactlyOne(_) => ActivationPossibility::MoreThanOne,
                                    other => other,
                                }
                            };
                        }
                    },
                    FieldState::Deduced(fixed) => {
                        if fixed.index() == a {
                            entries[a] = ActivationPossibility::AlreadyDeduced;
                        }
                    },
                    FieldState::Assumed(fixed) => {
                        if fixed.index() == a {
                            entries[a] = ActivationPossibility::AlreadyAssumed;
                        }
                    },
                }
                a += 1;
            }
            p += 1;
        }
        entries
    }

    /// One round of deduction: see [`deduced`].
    pub fn deduce(&self, lock: &RuneLock) -> (result: DeductionIterationResult)
        requires
            valid(self@.fields),
            pruned(self@.fields),
        ensures
            match result {
                DeductionIterationResult::Unsolvable { reason } => deduced(self@, lock.runes(), lock.rules())
                    matches DeductionView::Unsolvable(why) && reason@ == unsolvable_text(why),
                DeductionIterationResult::MadeDeductions(state) => {
                    &&& deduced(self@, lock.runes(), lock.rules()) == DeductionView::MadeDeductions(state@)
                    &&& valid(state@.fields)
                    &&& pruned(state@.fields)
                    &&& count_open(state@.fields, 12) < count_open(self@.fields, 12)
                },
                DeductionIterationResult::Indecisive => deduced(self@, lock.runes(), lock.rules())
                    is Indecisive,
            },
    {
        let ghost fields = self@.fields;
        let entries = self.survey();
        let ghost found = entries_after(fields, 12);
        let mut state = self.state;
        let mut changed = false;
        let mut a: usize = 0;
        assert(Seq::new(12, |p: int| state@[p]@) =~= fields);
        while a < 12
            invariant
                a <= 12,
                fields == self@.fields,
                valid(fields),
                pruned(fields),
                found == entries_after(fields, 12),
                forall|b: int| 0 <= b < 12 ==> (#[trigger] entries@[b])@ == found[b],
                deduction(fields, found, a as int) == Ok::<(Seq<FieldView>, bool), UnsolvableView>(
                    (Seq::new(12, |p: int| state@[p]@), changed),
                ),
                valid(Seq::new(12, |p: int| state@[p]@)),
                forall|q: int|
                    0 <= q < 12 ==> ((#[trigger] state@[q])@.fixed() matches Some(c) ==> fields[q].fixed() == Some(c)
                        || c < a),
                count_open(Seq::new(12, |p: int| state@[p]@), 12) <= count_open(fields, 12),
                changed ==> count_open(Seq::new(12, |p: int| state@[p]@), 12) < count_open(fields, 12),
            decreases 12 - a,
        {
            let activation = Activation::new(a as u8).unwrap();
            let ghost so_far = Seq::new(12, |p: int| state@[p]@);
            match entries[a] {
                ActivationPossibility::ForcedAt(pos) | ActivationPossibility::ExactlyOne(pos) => {
                    let at = pos.index();
                    match state[at] {
                        FieldState::Assumed(assumed) => {
                            let text = activation.to_text().concat(" has to be at ").concat(
                                pos.to_text().as_str(),
                            ).concat(", but that has been assumed to be ").concat(assumed.to_text().as_str());
                            proof {
                                assert(so_far[at as int] == FieldView::Assumed(assumed@));
                                let why = UnsolvableView::TakenByAssumption {
                                    activation: a as nat,
                                    position: at as nat,
                                    assumed: assumed@,
                                };
                                assert(deduction(fields, found, a + 1) == Err::<
                                    (Seq<FieldView>, bool),
                                    UnsolvableView,
                                >(why));
                                lemma_unsolvable_sticks(fields, found, a + 1, 12);
                            }
                            return DeductionIterationResult::Unsolvable { reason: text };
                        },
                        FieldState::Deduced(deduced) => {
                            let text = activation.to_text().concat(" has to be at ").concat(
                                pos.to_text().as_str(),
                            ).concat(", but that has been deduced to be ").concat(deduced.to_text().as_str());
                            proof {
                                assert(so_far[at as int] == FieldView::Deduced(deduced@));
                                let why = UnsolvableView::TakenByDeduction {
                                    activation: a as nat,
                                    position: at as nat,
                                    deduced: deduced@,
                                };
                                assert(deduction(fields, found, a + 1) == Err::<
                                    (Seq<FieldView>, bool),
                                    UnsolvableView,
                                >(why));
                                lemma_unsolvable_sticks(fields, found, a + 1, 12);
                            }
                            return DeductionIterationResult::Unsolvable { reason: text };
                        },
                        _ => {},
                    }
                    changed = true;
                    state[at] = FieldState::Deduced(activation);
                    proof {
                        let after = Seq::new(12, |p: int| state@[p]@);
                        assert(after =~= so_far.update(at as int, FieldView::Deduced(a as nat)));
                        lemma_count_open_after_fixing(so_far, at as int, FieldView::Deduced(a as nat), 12);
                        assert forall|q: int| 0 <= q < 12 implies so_far[q].fixed() != Some(a as nat) by {
                            if so_far[q].fixed() == Some(a as nat) {
                                lemma_fixed_stays_fixed(fields, a as int, q, 12);
                            }
                        }
                        let before_slots = fixed_slots(so_far);
                        let slots = fixed_slots(after);
                        assert forall|i: int, j: int|
                            0 <= i < j < slots.len() && slots[i] is Some implies #[trigger] slots[i]
                            != #[trigger] slots[j] by {
                            if i != at && j != at {
                                assert(before_slots[i] != before_slots[j]);
                            } else if i == at {
                                assert(so_far[j].fixed() != Some(a as nat));
                            } else {
                                assert(so_far[i].fixed() != Some(a as nat));
                            }
                        }
                        assert forall|p: int| 0 <= p < 12 implies match #[trigger] after[p] {
                            FieldView::Assumed(x) => x < 12,
                            FieldView::Deduced(x) => x < 12,
                            FieldView::Unsure(set) => set.len() == 12,
                        } by {
                            if p != at {
                                assert(after[p] == so_far[p]);
                            }
                        }
                    }
                },
                ActivationPossibility::Nowhere => {
                    let text = activation.to_text().concat(" has no possible position left.");
                    proof {
                        let why = UnsolvableView::NoPositionLeft { activation: a as nat };
                        assert(deduction(fields, found, a + 1) == Err::<(Seq<FieldView>, bool), UnsolvableView>(
                            why,
                        ));
                        lemma_unsolvable_sticks(fields, found, a + 1, 12);
                    }
                    return DeductionIterationResult::Unsolvable { reason: text };
                },
                _ => {},
            }
            a += 1;
        }
        if changed {
            let mut deduced_state = SolverState { state, action: self.action };
            let ghost unpruned = deduced_state@.fields;
            assert(unpruned =~= Seq::new(12, |p: int| state@[p]@));
            deduced_state.prune_state(lock);
            proof {
                lemma_count_open_pruned(unpruned, lock.runes(), lock.rules(), 12);
            }
            return DeductionIterationResult::MadeDeductions(deduced_state);
        } else {
            return DeductionIterationResult::Indecisive;
        }
    }

    /// Assumes the activation on the position and deduces from there, round
    /// after round. The result is the chain of states: the one that the
    /// assumption made, and after it what each round made of the one before.
    /// If a round finds its state unsolvable, the result says why instead.
    pub fn deduce_with_assumption(&self, lock: &RuneLock, position: RunePosition, to_be: Activation) -> (result:
        Result<DeduceWithAssumptionResult, SolverError>)
        requires
            valid(self@.fields),
        ensures
            match result {
                Err(e) => assumed_fields(self@.fields, position@, to_be@) == Err::<Seq<FieldView>, SolverErrorView>(
                    e@,
                ),
                Ok(outcome) => {
                    &&& assumed_fields(self@.fields, position@, to_be@) matches Ok(fields)
                    &&& {
                        let first = SolverStateView {
                            fields: pruned_fields(fields, lock.runes(), lock.rules()),
                            action: StateActionView::Assume { activation: to_be@, position: position@ },
                        };
                        match outcome {
                            DeduceWithAssumptionResult::Unsolvable { reason } => deductions(
                                first,
                                lock.runes(),
                                lock.rules(),
                                13,
                            ) matches Err(why) && reason@ == unsolvable_text(why),
                            DeduceWithAssumptionResult::Done(states) => {
                                &&& deductions(first, lock.runes(), lock.rules(), 13) matches Ok(rest)
                                &&& state_views(states@) == seq![first] + rest
                                &&& forall|i: int|
                                    0 <= i < states.len() ==> valid((#[trigger] states[i])@.fields) && pruned(
                                        states[i]@.fields,
                                    )
                            },
                            DeduceWithAssumptionResult::Solved(_) => false,
                        }
                    }
                },
            },
    {
        let first = match self.with_assumed(lock, position, to_be) {
            Ok(state) => state,
            Err(e) => {
                return Err(e);
            },
        };
        let mut substates: Vec<SolverState> = Vec::new();
        substates.push(first);
        let mut last = first;
        let ghost mut fuel: nat = 13;
        let ghost whole = deductions(first@, lock.runes(), lock.rules(), 13);
        proof {
            lemma_count_open_bounded(first@.fields, 12);
            assert(state_views(substates@) =~= seq![first@]);
            assert(state_views(substates@) + Seq::<SolverStateView>::empty() =~= state_views(substates@));
        }
        loop
            invariant
                substates.len() > 0,
                assumed_fields(self@.fields, position@, to_be@) is Ok,
                first@.fields == pruned_fields(
                    assumed_fields(self@.fields, position@, to_be@)->Ok_0,
                    lock.runes(),
                    lock.rules(),
                ),
                first@.action == (StateActionView::Assume { activation: to_be@, position: position@ }),
                state_views(substates@)[0] == first@,
                last == substates@[substates.len() - 1],
                valid(last@.fields),
                pruned(last@.fields),
                fuel >= count_open(last@.fields, 12) + 1,
                forall|i: int|
                    0 <= i < substates.len() ==> valid((#[trigger] substates[i])@.fields) && pruned(
                        substates[i]@.fields,
                    ),
                whole == deductions(first@, lock.runes(), lock.rules(), 13),
                match deductions(last@, lock.runes(), lock.rules(), fuel) {
                    Ok(rest) => whole == Ok::<Seq<SolverStateView>, UnsolvableView>(
                        state_views(substates@).skip(1) + rest,
                    ),
                    Err(why) => whole == Err::<Seq<SolverStateView>, UnsolvableView>(why),
                },
            decreases fuel,
        {
            match last.deduce(lock) {
                DeductionIterationResult::Unsolvable { reason } => {
                    return Ok(DeduceWithAssumptionResult::Unsolvable { reason });
                },
                DeductionIterationResult::MadeDeductions(deduced_state) => {
                    let ghost before = state_views(substates@);
                    substates.push(deduced_state);
                    proof {
                        let views = state_views(substates@);
                        assert(views =~= before.push(deduced_state@));
                        let rest = deductions(deduced_state@, lock.runes(), lock.rules(), (fuel - 1) as nat);
                        if rest is Ok {
                            assert(before.skip(1) + (seq![deduced_state@] + rest->Ok_0) =~= views.skip(1)
                                + rest->Ok_0);
                        }
                        fuel = (fuel - 1) as nat;
                    }
                    last = deduced_state;
                },
                DeductionIterationResult::Indecisive => {
                    proof {
                        let views = state_views(substates@);
                        assert(views.skip(1) + Seq::<SolverStateView>::empty() =~= views.skip(1));
                        assert(seq![first@] + views.skip(1) =~= views);
                    }
                    return Ok(DeduceWithAssumptionResult::Done(substates));
                },
            }
        }
    }

    /// The state in which the activation is no longer a candidate of the
    /// position.
    pub fn ruled_out(&self, position: RunePosition, assume_to_be: Activation) -> (state: SolverState)
        requires
            self@.fields[position@ as int] is Unsure,
        ensures
            state@.action == (StateActionView::RuleOut { activation: assume_to_be@, position: position@ }),
            state@.fields == self@.fields.update(
                position@ as int,
                FieldView::Unsure(self@.fields[position@ as int]->Unsure_0.update(assume_to_be@ as int, false)),
            ),
            valid(self@.fields) ==> valid(state@.fields),
            valid(self@.fields) && pruned(self@.fields) ==> pruned(state@.fields),
    {
        let mut state = self.state;
        let at = position.index();
        // Asking for the number shows that it is below twelve.
        let which = assume_to_be.index();
        let ghost before = self@.fields;
        let ghost candidates = before[at as int]->Unsure_0;
        let ghost struck = assume_to_be@ as int;
        match state[at] {
            FieldState::Assumed(_) | FieldState::Deduced(_) => {},
            FieldState::Unsure(probs) => {
                let mut left = probs;
                left.remove(assume_to_be);
                state[at] = FieldState::Unsure(left);
            },
        }
        let made = SolverState {
            state,
            action: SolverStateAction::RuleOut { activation: assume_to_be, position },
        };
        proof {
            let after = made@.fields;
            assert(before[at as int] == FieldView::Unsure(candidates));
            assert(after[at as int] == FieldView::Unsure(candidates.update(struck, false)));
            assert forall|p: int| 0 <= p < 12 && p != at implies after[p] == before[p] by {}
            assert(after =~= before.update(at as int, FieldView::Unsure(candidates.update(struck, false))));
            assert(fixed_slots(after) =~= fixed_slots(before));
            if valid(before) {
                assert forall|p: int| 0 <= p < 12 implies match #[trigger] after[p] {
                    FieldView::Assumed(a) => a < 12,
                    FieldView::Deduced(a) => a < 12,
                    FieldView::Unsure(set) => set.len() == 12,
                } by {
                    if p != at {
                        assert(after[p] == before[p]);
                        assert(match before[p] {
                            FieldView::Assumed(a) => a < 12,
                            FieldView::Deduced(a) => a < 12,
                            FieldView::Unsure(set) => set.len() == 12,
                        });
                    } else {
                        assert(match before[at as int] {
                            FieldView::Assumed(a) => a < 12,
                            FieldView::Deduced(a) => a < 12,
                            FieldView::Unsure(set) => set.len() == 12,
                        });
                        assert(candidates.len() == 12);
                    }
                }
                if pruned(before) {
                    assert forall|p: int, a: int|
                        0 <= p < 12 && 0 <= a < 12 && #[trigger] lists(after[p], a) implies place_of(
                            fixed_slots(after),
                            a as nat,
                        ) is None by {
                        if p != at {
                            assert(after[p] == before[p]);
                        }
                        assert(lists(before[p], a));
                    }
                }
            }
        }
        made
    }
}

/// The number of a position set to the right in a width of two.
pub open spec fn position_label(position: nat) -> Seq<char> {
    if position < 10 {
        " "@ + digits_of(position)
    } else {
        digits_of(position)
    }
}

/// The first `upto` positions as people read them, a line for each: the
/// number of the position and what is known of it.
pub open spec fn fields_text(fields: Seq<FieldView>, upto: int) -> Seq<char>
    decreases upto,
{
    if upto <= 0 {
        Seq::empty()
    } else {
        fields_text(fields, upto - 1) + position_label((upto - 1) as nat) + ": "@ + field_text(fields[upto - 1])
            + "\n"@
    }
}

/// The positions of a list by their numbers.
pub open spec fn position_indices(list: Seq<RunePosition>) -> Seq<nat> {
    Seq::new(list.len(), |i: int| list[i]@)
}

/// The open positions among the first `upto`, in order.
pub open spec fn open_positions(fields: Seq<FieldView>, upto: int) -> Seq<nat>
    decreases upto,
{
    if upto <= 0 {
        Seq::empty()
    } else if fields[upto - 1] is Unsure {
        open_positions(fields, upto - 1).push((upto - 1) as nat)
    } else {
        open_positions(fields, upto - 1)
    }
}

/// Pruning leaves what is fixed as it is, so the result is sound again, and
/// no open field lists an activation that is fixed.
pub proof fn lemma_pruned_fields(fields: Seq<FieldView>, runes: Seq<Rune>, rules: Seq<RuleKind>)
    requires
        valid(fields),
    ensures
        fixed_slots(pruned_fields(fields, runes, rules)) == fixed_slots(fields),
        valid(pruned_fields(fields, runes, rules)),
        pruned(pruned_fields(fields, runes, rules)),
{
    let after = pruned_fields(fields, runes, rules);
    assert(fixed_slots(after) =~= fixed_slots(fields)) by {
        assert forall|p: int| 0 <= p < 12 implies fixed_slots(after)[p] == fixed_slots(fields)[p] by {
            let was = fields[p];
        }
    }
    assert forall|p: int| 0 <= p < 12 implies match #[trigger] after[p] {
        FieldView::Assumed(a) => a < 12,
        FieldView::Deduced(a) => a < 12,
        FieldView::Unsure(set) => set.len() == 12,
    } by {
        let was = fields[p];
    }
}

} // verus!
