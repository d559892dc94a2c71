use vstd::prelude::*;
use vstd::string::StringExecFns;
use crate::activation::{activation_text, Activation};
use crate::assignment::{injective, Assignment, AssignmentError};
use crate::index::RunePosition;
use crate::lock::RuneLock;
use crate::rule::{verdict, RuleKind};
use crate::rune::Rune;
use crate::text::{digits_of, repeat_text, repeated};
use self::assumption_tree::{
    outline_of, outline_view, AssumptionTree, AssumptionTreeError, AssumptionTreeNodeHandle, NodeView,
};
use self::explainer::{explain_fact_d, explanation, line_views, ExplanationLine};
use self::fact_db::{complement_places, handle_text, FactDb, FactDbView, FactError, FactHandle};
use self::laws::{lemma_empty_is_settled, lemma_settled_places_no_activation_twice};
use self::view::ChooseView;

pub mod assumption_tree;
pub mod deduction;
pub mod explainer;
pub mod fact_db;
pub mod laws;
pub mod view;

verus! {

/// Where in the engine a justification was written down. It serves people
/// who read a fact; no deduction depends on it.
#[derive(Clone, Copy, Debug, Hash, PartialEq, Eq)]
pub struct DebugInfo {
    pub origin: &'static str,
}

/// Why a cell is impossible: two facts about it collided, or its whole line
/// ran out of candidates.
#[derive(PartialEq, Eq, Structural, Debug, Copy, Clone, Hash)]
pub enum ContradictionKind {
    ContradictingRequirements,
    NoOptionsLeft,
}

/// What a fact says of its cell: the activation must be on the position, it
/// cannot be, or the cell is impossible.
#[derive(PartialEq, Eq, Structural, Debug, Copy, Clone, Hash)]
pub enum FactKind {
    Contradiction(ContradictionKind),
    ActivationCannotBeOn,
    ActivationMustBeOn,
}

/// One justification of a fact: another fact, a rule of the lock by its
/// place in the list, or the bare word of whoever assumed it.
#[derive(Clone, Copy, Debug, Hash, PartialEq, Eq)]
pub enum FactReason {
    Fact(FactHandle, DebugInfo),
    Rule(usize),
    Assumption,
}

/// A statement about one cell, the pair of a position and an activation,
/// with its justifications in the order they were given.
#[derive(Debug)]
pub struct Fact {
    kind: FactKind,
    activation: Activation,
    position: RunePosition,
    reasons: Vec<FactReason>,
}

/// A fact as the contracts see it.
pub struct FactView {
    pub kind: FactKind,
    pub activation: nat,
    pub position: nat,
    pub reasons: Seq<FactReason>,
}

impl View for Fact {
    type V = FactView;

    closed spec fn view(&self) -> FactView {
        FactView {
            kind: self.kind,
            activation: self.activation@,
            position: self.position@,
            reasons: self.reasons@,
        }
    }
}

/// What facts of a kind say of an activation and of one position, or of
/// several positions written as one text, as people read it.
pub open spec fn fact_text(kind: FactKind, activation: nat, positions: Seq<char>) -> Seq<char> {
    match kind {
        FactKind::Contradiction(ContradictionKind::ContradictingRequirements) => activation_text(activation)
            + " has contradicting facts regarding position "@ + positions,
        FactKind::Contradiction(ContradictionKind::NoOptionsLeft) => activation_text(activation) + " or "@
            + positions + " has no options left to go"@,
        FactKind::ActivationCannotBeOn => activation_text(activation) + " cannot be on "@ + positions,
        FactKind::ActivationMustBeOn => activation_text(activation) + " must be on "@ + positions,
    }
}

/// Writes what facts of a kind say of an activation and of the positions
/// that `positions` names.
pub fn describe_fact(kind: FactKind, activation: Activation, positions: &str) -> (text: String)
    ensures
        text@ == fact_text(kind, activation@, positions@),
{
    let who = activation.to_text();
    match kind {
        FactKind::Contradiction(ContradictionKind::ContradictingRequirements) => who.concat(
            " has contradicting facts regarding position ",
        ).concat(positions),
        FactKind::Contradiction(ContradictionKind::NoOptionsLeft) => who.concat(" or ").concat(positions).concat(
            " has no options left to go",
        ),
        FactKind::ActivationCannotBeOn => who.concat(" cannot be on ").concat(positions),
        FactKind::ActivationMustBeOn => who.concat(" must be on ").concat(positions),
    }
}

/// The facts of a list as the contracts see them.
pub open spec fn fact_views(facts: Seq<Fact>) -> Seq<FactView> {
    Seq::new(facts.len(), |i: int| facts[i]@)
}

/// Two kinds are of the same strength when neither says more than the other:
/// both require, both exclude, or both are a contradiction of whatever kind.
pub open spec fn same_strength(a: FactKind, b: FactKind) -> bool {
    match (a, b) {
        (FactKind::ActivationMustBeOn, FactKind::ActivationMustBeOn) => true,
        (FactKind::ActivationCannotBeOn, FactKind::ActivationCannotBeOn) => true,
        (FactKind::Contradiction(_), FactKind::Contradiction(_)) => true,
        _ => false,
    }
}

impl FactKind {
    pub fn is_contradiction(&self) -> (yes: bool)
        ensures
            yes == (*self is Contradiction),
    {
        match self {
            FactKind::Contradiction(_) => true,
            _ => false,
        }
    }

    pub fn is_must_be(&self) -> (yes: bool)
        ensures
            yes == (*self is ActivationMustBeOn),
    {
        match self {
            FactKind::ActivationMustBeOn => true,
            _ => false,
        }
    }

    pub fn is_cannot_be(&self) -> (yes: bool)
        ensures
            yes == (*self is ActivationCannotBeOn),
    {
        match self {
            FactKind::ActivationCannotBeOn => true,
            _ => false,
        }
    }

    pub fn same_strength_as(&self, other: &FactKind) -> (yes: bool)
        ensures
            yes == same_strength(*self, *other),
    {
        match (self, other) {
            (FactKind::ActivationMustBeOn, FactKind::ActivationMustBeOn) => true,
            (FactKind::ActivationCannotBeOn, FactKind::ActivationCannotBeOn) => true,
            (FactKind::Contradiction(_), FactKind::Contradiction(_)) => true,
            _ => false,
        }
    }
}

impl Fact {
    /// A fact of the given kind about the cell of the activation and the
    /// position, justified as given.
    pub fn new(kind: FactKind, activation: Activation, position: RunePosition, reasons: Vec<FactReason>) -> (fact:
        Self)
        ensures
            fact@ == (FactView { kind, activation: activation@, position: position@, reasons: reasons@ }),
    {
        Fact { kind, activation, position, reasons }
    }

    pub fn kind(&self) -> (kind: FactKind)
        ensures
            kind == self@.kind,
    {
        self.kind
    }

    pub fn activation(&self) -> (activation: Activation)
        ensures
            activation@ == self@.activation,
    {
        self.activation
    }

    pub fn position(&self) -> (position: RunePosition)
        ensures
            position@ == self@.position,
    {
        self.position
    }

    pub fn reasons(&self) -> (reasons: &Vec<FactReason>)
        ensures
            reasons@ == self@.reasons,
    {
        &self.reasons
    }

    /// The fact as people read it.
    pub fn to_text(&self) -> (text: String)
        ensures
            text@ == fact_text(self@.kind, self@.activation, digits_of(self@.position)),
    {
        let position = self.position.to_text();
        describe_fact(self.kind, self.activation, position.as_str())
    }

    /// A second fact that says the same.
    pub fn duplicate(&self) -> (copy: Self)
        ensures
            copy@ == self@,
    {
        let mut reasons: Vec<FactReason> = Vec::new();
        let mut i: usize = 0;
        while i < self.reasons.len()
            invariant
                i <= self.reasons.len(),
                reasons@ == self.reasons@.take(i as int),
            decreases self.reasons.len() - i,
        {
            reasons.push(self.reasons[i]);
            assert(self.reasons@.take(i + 1) =~= self.reasons@.take(i as int).push(self.reasons@[i as int]));
            i += 1;
        }
        assert(self.reasons@.take(i as int) =~= self.reasons@);
        Fact { kind: self.kind, activation: self.activation, position: self.position, reasons }
    }
}

/// What made a node of the search: it is the root, or an assumption was made
/// at its parent.
#[derive(Debug, Clone, Copy)]
pub enum SolverAction {
    Assume { position: RunePosition, activation: Activation },
    Root,
}

/// How a node of the search stands: open for further assumptions, dead
/// because its facts contradict each other, or solved.
#[derive(Debug, Clone, Copy)]
pub enum SolverStateState {
    Unexplored,
    Contradicts(FactHandle),
    Solved,
}

/// An action as people read it.
pub open spec fn action_text(action: ActionView) -> Seq<char> {
    match action {
        ActionView::Assume { position, activation } => "Assume "@ + digits_of(position) + " = "@ + activation_text(
            activation,
        ),
        ActionView::Root => "Root"@,
    }
}

/// How a node stands, as people read it.
pub open spec fn state_text(state: SolverStateState) -> Seq<char> {
    match state {
        SolverStateState::Contradicts(fact) => "✘ ("@ + handle_text(fact.0) + ")"@,
        SolverStateState::Unexplored => " "@,
        SolverStateState::Solved => "✔"@,
    }
}

impl SolverAction {
    /// The action as people read it.
    pub fn to_text(&self) -> (text: String)
        ensures
            text@ == action_text(self@),
    {
        match self {
            SolverAction::Assume { position, activation } => {
                let position = position.to_text();
                let activation = activation.to_text();
                String::from_str("Assume ").concat(position.as_str()).concat(" = ").concat(activation.as_str())
            },
            SolverAction::Root => String::from_str("Root"),
        }
    }
}

impl SolverStateState {
    /// How the node stands, as people read it.
    pub fn to_text(&self) -> (text: String)
        ensures
            text@ == state_text(*self),
    {
        match self {
            SolverStateState::Contradicts(fact) => {
                let fact = fact.to_text();
                String::from_str("✘ (").concat(fact.as_str()).concat(")")
            },
            SolverStateState::Unexplored => String::from_str(" "),
            SolverStateState::Solved => String::from_str("✔"),
        }
    }
}

/// What a node of the search holds: the facts known there, what made the
/// node, and how it stands.
pub struct FactSolverState {
    facts: FactDb,
    action: SolverAction,
    state: SolverStateState,
}

/// An action as the contracts see it.
pub enum ActionView {
    Assume { position: nat, activation: nat },
    Root,
}

impl View for SolverAction {
    type V = ActionView;

    open spec fn view(&self) -> ActionView {
        match *self {
            SolverAction::Assume { position, activation } => ActionView::Assume {
                position: position@,
                activation: activation@,
            },
            SolverAction::Root => ActionView::Root,
        }
    }
}

/// A node's content as the contracts see it.
pub struct StateView {
    pub facts: FactDbView,
    pub action: ActionView,
    pub state: SolverStateState,
}

impl View for FactSolverState {
    type V = StateView;

    closed spec fn view(&self) -> StateView {
        StateView { facts: self.facts@, action: self.action@, state: self.state }
    }
}

impl FactSolverState {
    /// The facts are sound, each of them cites only facts written down
    /// before it, and the grid is twelve by twelve.
    pub closed spec fn wf(&self) -> bool {
        self.facts.wf() && self.facts@.well_founded() && self.facts@.rows == 12 && self.facts@.cols == 12
    }

    pub fn facts(&self) -> (facts: &FactDb)
        ensures
            facts@ == self@.facts,
            self.wf() ==> facts.wf() && facts@.well_founded() && facts@.rows == 12 && facts@.cols == 12,
    {
        &self.facts
    }

    pub fn action(&self) -> (action: SolverAction)
        ensures
            action@ == self@.action,
    {
        self.action
    }

    pub fn state(&self) -> (state: SolverStateState)
        ensures
            state == self@.state,
    {
        self.state
    }

    /// The node as people read it: how it stands, and what made it.
    pub fn to_text(&self) -> (text: String)
        ensures
            text@ == "["@ + state_text(self@.state) + "], "@ + action_text(self@.action),
    {
        let state = self.state.to_text();
        let action = self.action.to_text();
        String::from_str("[").concat(state.as_str()).concat("], ").concat(action.as_str())
    }
}

/// The fact that an assumption brings in: the activation must be on the
/// position, for no reason but that it was assumed.
pub open spec fn assumption(activation: nat, position: nat) -> FactView {
    FactView { kind: FactKind::ActivationMustBeOn, activation, position, reasons: seq![FactReason::Assumption] }
}

/// Every position has its activation, and every rule of the lock passes.
pub open spec fn solved(facts: FactDbView, runes: Seq<Rune>, rules: Seq<RuleKind>) -> bool {
    &&& forall|p: int| 0 <= p < 12 ==> (#[trigger] facts.fixed_slots()[p]) is Some
    &&& forall|i: int| 0 <= i < rules.len() ==> verdict(#[trigger] rules[i], runes, facts.fixed_slots()) is Ok
}

/// What the node holds that an assumption makes: the facts of the parent
/// with the assumption taken in, and how that went.
pub open spec fn assumed(parent: FactDbView, activation: nat, position: nat, lock: RuneLock) -> StateView {
    let (facts, status) = parent.integrated(assumption(activation, position), lock.runes(), lock.rules());
    StateView {
        facts,
        action: ActionView::Assume { position, activation },
        state: match status {
            Err(FactError::Contradiction(h)) => SolverStateState::Contradicts(h),
            Ok(_) => if solved(facts, lock.runes(), lock.rules()) {
                SolverStateState::Solved
            } else {
                SolverStateState::Unexplored
            },
        },
    }
}

/// The tree `later` is the tree `earlier` with `count` more nodes, all of
/// them children of `parent` and without children of their own. Nothing else
/// has changed.
pub open spec fn grown_by<T>(earlier: Seq<NodeView<T>>, later: Seq<NodeView<T>>, parent: nat, count: nat) -> bool {
    &&& later.len() == earlier.len() + count
    &&& forall|i: int|
        0 <= i < earlier.len() ==> (#[trigger] later[i]).data == earlier[i].data && later[i].parent
            == earlier[i].parent
    &&& forall|i: int| 0 <= i < earlier.len() && i != parent ==> (#[trigger] later[i]).children == earlier[i].children
    &&& later[parent as int].children == earlier[parent as int].children + Seq::new(
        count,
        |k: int| (earlier.len() + k) as nat,
    )
    &&& forall|k: int|
        0 <= k < count ==> (#[trigger] later[earlier.len() + k]).parent == Some(parent) && later[earlier.len()
            + k].children == Seq::<nat>::empty()
}

/// A tree that has grown below a node, and has then grown by one more node
/// below the same node, has grown by one more.
pub proof fn lemma_grown_by_one_more<T>(
    first: Seq<NodeView<T>>,
    second: Seq<NodeView<T>>,
    third: Seq<NodeView<T>>,
    parent: nat,
    count: nat,
)
    requires
        parent < first.len(),
        grown_by(first, second, parent, count),
        grown_by(second, third, parent, 1),
    ensures
        grown_by(first, third, parent, count + 1),
{
    assert forall|i: int| 0 <= i < first.len() implies (#[trigger] third[i]).data == first[i].data && third[i].parent
        == first[i].parent by {
        assert(second[i].data == first[i].data);
    }
    assert forall|i: int| 0 <= i < first.len() && i != parent implies (#[trigger] third[i]).children
        == first[i].children by {
        assert(second[i].children == first[i].children);
    }
    assert(third[parent as int].children =~= first[parent as int].children + Seq::new(
        count + 1,
        |k: int| (first.len() + k) as nat,
    ));
    assert forall|k: int| 0 <= k < count + 1 implies (#[trigger] third[first.len() + k]).parent == Some(parent)
        && third[first.len() + k].children == Seq::<nat>::empty() by {
        if k < count {
            assert(second[first.len() + k].parent == Some(parent));
            assert(third[first.len() + k].children == second[first.len() + k].children);
        } else {
            assert(third[second.len() as int + 0].parent == Some(parent));
        }
    }
}

/// A node of the tree as people read it: set in by its depth, its number in
/// brackets, how it stands, and what made it.
pub open spec fn tree_line_text(depth: nat, node: nat, state: StateView) -> Seq<char> {
    repeated("  "@, depth) + " - ("@ + digits_of(node) + ") "@ + ("["@ + state_text(state.state) + "], "@
        + action_text(state.action))
}

/// The search for a solution of a lock: a tree of nodes, each with the facts
/// known under the assumptions that lead to it, and a cursor that says at
/// which node the next assumption is made.
pub struct FactualSolver<'a> {
    lock: &'a RuneLock,
    states: AssumptionTree<FactSolverState>,
    current: AssumptionTreeNodeHandle,
}

impl<'a> FactualSolver<'a> {
    /// The nodes of the search, in the order in which they were made.
    pub closed spec fn nodes(&self) -> Seq<NodeView<FactSolverState>> {
        self.states.view()
    }

    /// The number of the node at which the cursor stands.
    pub closed spec fn cursor(&self) -> nat {
        self.current.0 as nat
    }

    /// The lock that is being solved.
    pub closed spec fn lock(&self) -> RuneLock {
        *self.lock
    }

    /// The tree is sound, the cursor stands at one of its nodes, every node
    /// holds sound facts over a grid of twelve by twelve, and at a node that
    /// is not dead nothing is left to derive from its facts.
    pub closed spec fn wf(&self) -> bool {
        &&& self.states.wf()
        &&& self.current.0 < self.states.view().len()
        &&& forall|i: int| 0 <= i < self.states.view().len() ==> (#[trigger] self.states.view()[i]).data.wf()
        &&& forall|i: int|
            0 <= i < self.states.view().len() && !((#[trigger] self.states.view()[i]).data@.state is Contradicts)
                ==> self.states.view()[i].data@.facts.settled(self.lock.runes(), self.lock.rules())
    }

    /// A search with just the root, at which nothing is known.
    pub fn new(lock: &'a RuneLock) -> (solver: Self)
        ensures
            solver.wf(),
            solver.lock() == *lock,
            solver.cursor() == 0,
            solver.nodes().len() == 1,
            solver.nodes()[0].parent is None,
            solver.nodes()[0].children == Seq::<nat>::empty(),
            solver.nodes()[0].data@.facts.facts.len() == 0,
            solver.nodes()[0].data@.action is Root,
            solver.nodes()[0].data@.state is Unexplored,
            forall|r: int, c: int| 0 <= r < 12 && 0 <= c < 12 ==> solver.nodes()[0].data@.facts.cells[r][c] is None,
    {
        let facts = FactDb::new(12, 12);
        proof {
            lemma_empty_is_settled(facts@, lock.runes(), lock.rules());
        }
        let (tree, root) = AssumptionTree::new(
            FactSolverState { facts, action: SolverAction::Root, state: SolverStateState::Unexplored },
        );
        Self { lock, states: tree, current: root }
    }

    /// Whether the facts leave nothing open: every position has its
    /// activation and every rule passes.
    fn is_solved(&self, facts: &FactDb) -> (yes: bool)
        requires
            facts.wf(),
            facts@.rows == 12,
            facts@.cols == 12,
            facts@.settled(self.lock().runes(), self.lock().rules()),
        ensures
            yes == solved(facts@, self.lock().runes(), self.lock().rules()),
    {
        proof {
            lemma_settled_places_no_activation_twice(facts@, self.lock().runes(), self.lock().rules());
        }
        match facts.fixed_assignment() {
            Err(_) => false,
            Ok(fixed) => {
                let mut p: usize = 0;
                while p < 12
                    invariant
                        p <= 12,
                        fixed@ == facts@.fixed_slots(),
                        forall|q: int| 0 <= q < p ==> (#[trigger] facts@.fixed_slots()[q]) is Some,
                    decreases 12 - p,
                {
                    if fixed.get(RunePosition::new(p)).is_none() {
                        return false;
                    }
                    p += 1;
                }
                self.lock.validate(&fixed).is_ok()
            },
        }
    }

    /// Assumes that the activation is on the position, at the node where the
    /// cursor stands. A node that is dead or solved takes no assumption:
    /// then nothing happens. Otherwise the node gets a new child, which holds
    /// the parent's facts with the assumption taken in, and the cursor moves
    /// to it. The result is how the child stands.
    pub fn assume_on(&mut self, activation: Activation, position: RunePosition) -> (outcome: Option<SolverStateState>)
        requires
            old(self).wf(),
        ensures
            final(self).wf(),
            final(self).lock() == old(self).lock(),
            match outcome {
                None => {
                    &&& !(old(self).nodes()[old(self).cursor() as int].data@.state is Unexplored)
                    &&& final(self).nodes() == old(self).nodes()
                    &&& final(self).cursor() == old(self).cursor()
                },
                Some(state) => {
                    &&& old(self).nodes()[old(self).cursor() as int].data@.state is Unexplored
                    &&& grown_by(old(self).nodes(), final(self).nodes(), old(self).cursor(), 1)
                    &&& final(self).cursor() == old(self).nodes().len()
                    &&& final(self).nodes().last().data@ == assumed(
                        old(self).nodes()[old(self).cursor() as int].data@.facts,
                        activation@,
                        position@,
                        old(self).lock(),
                    )
                    &&& state == final(self).nodes().last().data@.state
                },
            },
    {
        let ghost before = self.nodes();
        let parent = self.states.get(self.current);
        match parent.state {
            SolverStateState::Unexplored => {},
            _ => {
                return None;
            },
        }
        let mut derived_facts = parent.facts.duplicate();
        // Asking for the two numbers shows that both are below twelve.
        let row = position.index();
        let col = activation.index();
        let fact = Fact::new(FactKind::ActivationMustBeOn, activation, position, vec![FactReason::Assumption]);
        proof {
            assert(fact@.reasons =~= assumption(activation@, position@).reasons);
        }
        let state = match derived_facts.integrate_and_consolidate(fact, self.lock) {
            Err(FactError::Contradiction(reason)) => SolverStateState::Contradicts(reason),
            Ok(_) => {
                if self.is_solved(&derived_facts) {
                    SolverStateState::Solved
                } else {
                    SolverStateState::Unexplored
                }
            },
        };
        let child = FactSolverState {
            facts: derived_facts,
            action: SolverAction::Assume { position, activation },
            state,
        };
        self.current = self.states.insert_child(self.current, child);
        proof {
            let after = self.nodes();
            let cursor = old(self).cursor();
            assert(after[cursor as int].children =~= before[cursor as int].children + Seq::new(
                1,
                |k: int| (before.len() + k) as nat,
            ));
        }
        Some(state)
    }

    /// Tries every open possibility of a position or of an activation: for
    /// each cell of its line that holds no fact, in order, the assumption is
    /// made at the node where the cursor stands, and the cursor is put back.
    /// The node gets one child for each possibility, and the result says how
    /// each of them stands. A node that is dead or solved gets none.
    pub fn try_possibilities<T: ChooseView>(&mut self, it: T) -> (outcomes: Vec<SolverStateState>)
        requires
            old(self).wf(),
        ensures
            final(self).wf(),
            final(self).lock() == old(self).lock(),
            final(self).cursor() == old(self).cursor(),
            ({
                let parent = old(self).nodes()[old(self).cursor() as int].data@;
                let open = parent.facts.open_places(T::axis_of(), it.line() as int, 12);
                if parent.state is Unexplored {
                    &&& grown_by(old(self).nodes(), final(self).nodes(), old(self).cursor(), open.len())
                    &&& outcomes.len() == open.len()
                    &&& forall|k: int|
                        0 <= k < open.len() ==> {
                            let cell = T::axis_of().cell(it.line() as int, open[k]);
                            &&& (#[trigger] final(self).nodes()[old(self).nodes().len() + k]).data@ == assumed(
                                parent.facts,
                                cell.1 as nat,
                                cell.0 as nat,
                                old(self).lock(),
                            )
                            &&& outcomes[k] == final(self).nodes()[old(self).nodes().len() + k].data@.state
                        }
                } else {
                    final(self).nodes() == old(self).nodes() && outcomes.len() == 0
                }
            }),
    {
        let ghost before = self.nodes();
        let ghost cursor = self.cursor();
        let current = self.current;
        let node = self.states.get(current);
        let ghost parent = node@;
        let mut outcomes: Vec<SolverStateState> = Vec::new();
        match node.state {
            SolverStateState::Unexplored => {},
            _ => {
                return outcomes;
            },
        }
        let line = it.index();
        let possibilities = node.facts.possibilities_for(it);
        let ghost open = parent.facts.open_places(T::axis_of(), it.line() as int, 12);
        let mut k: usize = 0;
        assert(before[cursor as int].children + Seq::new(0, |j: int| (before.len() + j) as nat)
            =~= before[cursor as int].children);
        while k < possibilities.len()
            invariant
                self.wf(),
                self.lock() == old(self).lock(),
                self.cursor() == cursor,
                self.current == current,
                cursor < before.len(),
                before == old(self).nodes(),
                parent == before[cursor as int].data@,
                parent.state is Unexplored,
                open == parent.facts.open_places(T::axis_of(), it.line() as int, 12),
                complement_places::<T>(possibilities@) == open,
                k <= possibilities.len(),
                grown_by(before, self.nodes(), cursor, k as nat),
                outcomes.len() == k,
                forall|j: int|
                    0 <= j < k ==> {
                        let cell = T::axis_of().cell(it.line() as int, open[j]);
                        &&& (#[trigger] self.nodes()[before.len() + j]).data@ == assumed(
                            parent.facts,
                            cell.1 as nat,
                            cell.0 as nat,
                            old(self).lock(),
                        )
                        &&& outcomes[j] == self.nodes()[before.len() + j].data@.state
                    },
            decreases possibilities.len() - k,
        {
            let possibility = possibilities[k];
            let ghost so_far = self.nodes();
            assert(complement_places::<T>(possibilities@)[k as int] == T::place(possibility));
            let activation = T::choose_activation(it, possibility);
            let position = T::choose_position(it, possibility);
            let outcome = self.assume_on(activation, position);
            self.current = current;
            match outcome {
                Some(state) => {
                    outcomes.push(state);
                },
                None => {},
            }
            proof {
                let after = self.nodes();
                assert(after.len() == before.len() + k + 1);
                lemma_grown_by_one_more(before, so_far, after, cursor, k as nat);
                assert forall|j: int| 0 <= j < k + 1 implies {
                    let cell = T::axis_of().cell(it.line() as int, open[j]);
                    &&& (#[trigger] after[before.len() + j]).data@ == assumed(
                        parent.facts,
                        cell.1 as nat,
                        cell.0 as nat,
                        old(self).lock(),
                    )
                    &&& outcomes[j] == after[before.len() + j].data@.state
                } by {
                    if j < k {
                        assert(after[before.len() + j].data == so_far[before.len() + j].data);
                    }
                }
            }
            k += 1;
        }
        outcomes
    }

    /// Explains a fact of the node at which the cursor stands.
    pub fn explain(&self, fact_handle: FactHandle, max_depth: usize) -> (lines: Vec<ExplanationLine>)
        requires
            self.wf(),
            max_depth < usize::MAX,
        ensures
            line_views(lines@) == explanation(
                self.nodes()[self.cursor() as int].data@.facts,
                self.lock().rules(),
                fact_handle.0,
                max_depth as nat,
            ),
    {
        let db = &self.states.get(self.current).facts;
        explain_fact_d(fact_handle, db, self.lock, max_depth)
    }

    /// The tree as people read it, a line for each node: the root first,
    /// every node before its children, each set in by two spaces for each
    /// step of its depth.
    pub fn tree_lines(&self) -> (lines: Vec<String>)
        requires
            self.wf(),
        ensures
            lines.len() == outline_of(self.nodes(), 0, 0).len(),
            forall|i: int|
                0 <= i < lines.len() ==> (#[trigger] lines[i])@ == tree_line_text(
                    outline_of(self.nodes(), 0, 0)[i].0,
                    outline_of(self.nodes(), 0, 0)[i].1,
                    self.nodes()[outline_of(self.nodes(), 0, 0)[i].1 as int].data@,
                ),
    {
        let outline = self.states.outline();
        let ghost shape = outline_of(self.nodes(), 0, 0);
        let mut lines: Vec<String> = Vec::new();
        let mut i: usize = 0;
        while i < outline.len()
            invariant
                self.wf(),
                i <= outline.len(),
                shape == outline_of(self.nodes(), 0, 0),
                outline_view(outline@) == shape,
                forall|k: int| 0 <= k < outline.len() ==> self.states.contains(#[trigger] outline[k].1),
                lines.len() == i,
                forall|k: int|
                    0 <= k < i ==> (#[trigger] lines[k])@ == tree_line_text(
                        shape[k].0,
                        shape[k].1,
                        self.nodes()[shape[k].1 as int].data@,
                    ),
            decreases outline.len() - i,
        {
            let (depth, handle) = outline[i];
            assert(outline_view(outline@)[i as int] == (depth as nat, handle.0 as nat));
            let inset = repeat_text("  ", depth);
            let name = handle.to_text();
            let state = self.states.get(handle).to_text();
            let line = inset.concat(" - (").concat(name.as_str()).concat(") ").concat(state.as_str());
            lines.push(line);
            i += 1;
        }
        lines
    }

    /// The handle of the node with the given number, if there is such a node.
    pub fn get_tree_handle(&self, node_id: usize) -> (found: Result<AssumptionTreeNodeHandle, AssumptionTreeError>)
        ensures
            match found {
                Ok(handle) => handle.0 == node_id && node_id < self.nodes().len(),
                Err(e) => e == AssumptionTreeError::UnknownNode(node_id) && node_id >= self.nodes().len(),
            },
    {
        self.states.get_handle(node_id)
    }

    /// Moves the cursor to a node.
    pub fn set_current(&mut self, new: AssumptionTreeNodeHandle)
        requires
            old(self).wf(),
            new.0 < old(self).nodes().len(),
        ensures
            final(self).wf(),
            final(self).nodes() == old(self).nodes(),
            final(self).lock() == old(self).lock(),
            final(self).cursor() == new.0,
    {
        self.current = new;
    }

    /// The node at which the cursor stands.
    pub fn current(&self) -> (handle: AssumptionTreeNodeHandle)
        ensures
            handle.0 == self.cursor(),
    {
        self.current
    }

    /// What the node at the cursor holds. Unless the node is dead, nothing
    /// is left to derive from its facts.
    pub fn peek(&self) -> (state: &FactSolverState)
        requires
            self.wf(),
        ensures
            *state == self.nodes()[self.cursor() as int].data,
            state.wf(),
            !(state@.state is Contradicts) ==> state@.facts.settled(self.lock().runes(), self.lock().rules()),
    {
        self.states.get(self.current)
    }

    /// The placement that the facts at the cursor require. Unless the node
    /// is dead there is one: no activation is required on two positions.
    pub fn fixed_assignment(&self) -> (made: Result<Assignment, AssignmentError>)
        requires
            self.wf(),
        ensures
            made is Ok <==> injective(self.nodes()[self.cursor() as int].data@.facts.fixed_slots()),
            made matches Ok(a) ==> a@ == self.nodes()[self.cursor() as int].data@.facts.fixed_slots(),
            !(self.nodes()[self.cursor() as int].data@.state is Contradicts) ==> made is Ok,
    {
        let state = self.peek();
        proof {
            if !(state@.state is Contradicts) {
                lemma_settled_places_no_activation_twice(state@.facts, self.lock().runes(), self.lock().rules());
            }
        }
        state.facts.fixed_assignment()
    }

    /// The tree of the search.
    pub fn tree(&self) -> (tree: &AssumptionTree<FactSolverState>)
        ensures
            tree.view() == self.nodes(),
    {
        &self.states
    }
}

} // verus!
