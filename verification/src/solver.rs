use vstd::prelude::*;
use vstd::string::StringExecFns;
use crate::activation::{activation_text, Activation};
use crate::assignment::tuple_indices;
use crate::fact_solver::assumption_tree::{outline_of, with_child, NodeView};
use crate::index::RunePosition;
use crate::lock::RuneLock;
use crate::rule::RuleKind;
use crate::rune::Rune;
use crate::solver_nodes::{
    data_wf, node_action_text, node_state_text, struck, DataView, NodeActionView, SolverNodeAction,
    SolverNodeData, SolverNodeHandle, SolverNodeState, SolverNodes, SolverNodesError,
};
use crate::text::{digits_of, repeat_text, repeated};
use self::field_state::{activation_indices, members_in_order, FieldView};
use self::solver_state::{
    assumed_fields, deductions, open_positions, position_indices, pruned, pruned_fields, valid,
    SolverErrorView, SolverState, SolverStateView, StateActionView,
};

pub mod field_state;
pub mod solver_state;

verus! {

/// What the open fields leave for one activation while the positions are
/// gone through: nothing yet, exactly one position, more than one; a position
/// that has no other candidate; or the activation is fixed already.
#[derive(Clone, Copy, Debug)]
pub enum ActivationPossibility {
    AlreadyDeduced,
    Nowhere,
    ForcedAt(RunePosition),
    ExactlyOne(RunePosition),
    MoreThanOne,
    AlreadyAssumed,
}

/// A possibility as the contracts see it.
pub enum PossibilityView {
    AlreadyDeduced,
    Nowhere,
    ForcedAt(nat),
    ExactlyOne(nat),
    MoreThanOne,
    AlreadyAssumed,
}

impl View for ActivationPossibility {
    type V = PossibilityView;

    open spec fn view(&self) -> PossibilityView {
        match *self {
            ActivationPossibility::AlreadyDeduced => PossibilityView::AlreadyDeduced,
            ActivationPossibility::Nowhere => PossibilityView::Nowhere,
            ActivationPossibility::ForcedAt(p) => PossibilityView::ForcedAt(p@),
            ActivationPossibility::ExactlyOne(p) => PossibilityView::ExactlyOne(p@),
            ActivationPossibility::MoreThanOne => PossibilityView::MoreThanOne,
            ActivationPossibility::AlreadyAssumed => PossibilityView::AlreadyAssumed,
        }
    }
}

/// Why a state cannot be solved, as the contracts see it.
pub enum UnsolvableView {
    TakenByAssumption { activation: nat, position: nat, assumed: nat },
    TakenByDeduction { activation: nat, position: nat, deduced: nat },
    NoPositionLeft { activation: nat },
}

/// Why a state cannot be solved, as people read it.
pub open spec fn unsolvable_text(why: UnsolvableView) -> Seq<char> {
    match why {
        UnsolvableView::TakenByAssumption { activation, position, assumed } => activation_text(activation)
            + " has to be at "@ + digits_of(position) + ", but that has been assumed to be "@ + activation_text(
            assumed,
        ),
        UnsolvableView::TakenByDeduction { activation, position, deduced } => activation_text(activation)
            + " has to be at "@ + digits_of(position) + ", but that has been deduced to be "@ + activation_text(
            deduced,
        ),
        UnsolvableView::NoPositionLeft { activation } => activation_text(activation)
            + " has no possible position left."@,
    }
}

/// What one round of deduction made of a state.
pub enum DeductionIterationResult {
    Unsolvable { reason: String },
    MadeDeductions(SolverState),
    Indecisive,
}

/// How deduction ends when it finds no solution.
pub enum DeductionResult {
    Unsolvable,
    Indecisive,
}

/// What came of an assumption and the deductions from it.
pub enum DeduceWithAssumptionResult {
    Unsolvable { reason: String },
    Done(Vec<SolverState>),
    Solved(Vec<SolverState>),
}

/// Why an assumption cannot be made: the position is fixed already, or the
/// activation is.
#[derive(Debug, Clone, Copy)]
pub enum SolverError {
    AssumeAtOldAssumption { activation: Activation, new_position: RunePosition, old_assumption: Activation },
    AssumeAtOldDeduction { activation: Activation, new_position: RunePosition, old_deduction: Activation },
    ActivationAlreadyAssumed { activation: Activation, new_position: RunePosition, old_position: RunePosition },
    ActivationAlreadyDeduced { activation: Activation, new_position: RunePosition, old_position: RunePosition },
    PopInitialState,
}

/// What one position adds to what is left for an activation.
pub open spec fn entry_step(before: PossibilityView, field: FieldView, position: nat, activation: nat)
    -> PossibilityView {
    match field {
        FieldView::Unsure(set) => if set[activation as int] {
            if self::field_state::count_members(set, 12) == 1 {
                PossibilityView::ForcedAt(position)
            } else {
                match before {
                    PossibilityView::Nowhere => PossibilityView::ExactlyOne(position),
                    PossibilityView::ExactlyOne(_) => PossibilityView::MoreThanOne,
                    other => other,
                }
            }
        } else {
            before
        },
        FieldView::Deduced(a) => if a == activation {
            PossibilityView::AlreadyDeduced
        } else {
            before
        },
        FieldView::Assumed(a) => if a == activation {
            PossibilityView::AlreadyAssumed
        } else {
            before
        },
    }
}

/// What the first `upto` positions leave for each activation.
pub open spec fn entries_after(fields: Seq<FieldView>, upto: int) -> Seq<PossibilityView>
    decreases upto,
{
    if upto <= 0 {
        Seq::new(12, |a: int| PossibilityView::Nowhere)
    } else {
        Seq::new(
            12,
            |a: int| entry_step(entries_after(fields, upto - 1)[a], fields[upto - 1], (upto - 1) as nat, a as nat),
        )
    }
}

/// What the first `upto` activations are deduced to: an activation that has
/// one position only is fixed there, unless the position is taken; an
/// activation that has no position makes the state unsolvable. The result is
/// the fields and whether any was fixed.
pub open spec fn deduction(fields: Seq<FieldView>, entries: Seq<PossibilityView>, upto: int) -> Result<
    (Seq<FieldView>, bool),
    UnsolvableView,
>
    decreases upto,
{
    if upto <= 0 {
        Ok((fields, false))
    } else {
        match deduction(fields, entries, upto - 1) {
            Err(why) => Err(why),
            Ok((so_far, changed)) => {
                let activation = (upto - 1) as nat;
                match entries[upto - 1] {
                    PossibilityView::ForcedAt(position) | PossibilityView::ExactlyOne(position) => {
                        match so_far[position as int] {
                            FieldView::Assumed(assumed) => Err(
                                UnsolvableView::TakenByAssumption { activation, position, assumed },
                            ),
                            FieldView::Deduced(deduced) => Err(
                                UnsolvableView::TakenByDeduction { activation, position, deduced },
                            ),
                            FieldView::Unsure(_) => Ok(
                                (so_far.update(position as int, FieldView::Deduced(activation)), true),
                            ),
                        }
                    },
                    PossibilityView::Nowhere => Err(UnsolvableView::NoPositionLeft { activation }),
                    _ => Ok((so_far, changed)),
                }
            },
        }
    }
}

/// What came of exploring an assumption.
pub enum ExploreResult {
    Unsolvable { reason: String },
    Indecisive,
    Solved { solution: SolverNodeHandle },
}

/// What came of exploring an assumption, as the contracts see it.
pub enum ExploreView {
    Unsolvable(Seq<char>),
    Indecisive,
    Solved(nat),
}

impl View for ExploreResult {
    type V = ExploreView;

    open spec fn view(&self) -> ExploreView {
        match *self {
            ExploreResult::Unsolvable { reason } => ExploreView::Unsolvable(reason@),
            ExploreResult::Indecisive => ExploreView::Indecisive,
            ExploreResult::Solved { solution } => ExploreView::Solved(solution.0 as nat),
        }
    }
}

/// What came of exploring an assumption, as people read it.
pub open spec fn explore_text(result: ExploreView) -> Seq<char> {
    match result {
        ExploreView::Unsolvable(reason) => "This assignment turns out to be impossible. ("@ + reason + ")"@,
        ExploreView::Indecisive =>
            "This assignment leads to another unclear situation. More assumptions required."@,
        ExploreView::Solved(solution) => "The assignment "@ + digits_of(solution) + " solves the lock."@,
    }
}

impl ExploreResult {
    /// The result as people read it.
    pub fn to_text(&self) -> (text: String)
        ensures
            text@ == explore_text(self@),
    {
        match self {
            ExploreResult::Unsolvable { reason } => String::from_str(
                "This assignment turns out to be impossible. (",
            ).concat(reason.as_str()).concat(")"),
            ExploreResult::Indecisive => String::from_str(
                "This assignment leads to another unclear situation. More assumptions required.",
            ),
            ExploreResult::Solved { solution } => {
                let solution = solution.to_text();
                String::from_str("The assignment ").concat(solution.as_str()).concat(" solves the lock.")
            },
        }
    }
}

/// A search as the contracts see it: its nodes, and the number of the node
/// at which the cursor stands.
pub struct SolverView {
    pub nodes: Seq<NodeView<DataView>>,
    pub current: nat,
}

impl SolverView {
    /// The state that the search looks at: the last of the chain of the node
    /// at the cursor.
    pub open spec fn peek(self) -> SolverStateView {
        self.nodes[self.current as int].data.chain.last()
    }

    /// The search with a candidate struck at a node.
    pub open spec fn ruled_out(self, node: nat, position: nat, activation: nat) -> SolverView {
        let was = self.nodes[node as int];
        SolverView {
            nodes: self.nodes.update(
                node as int,
                NodeView {
                    data: DataView {
                        chain: was.data.chain.push(struck(was.data.chain.last(), position, activation)),
                        ..was.data
                    },
                    ..was
                },
            ),
            ..self
        }
    }

    /// What exploring an assumption does. An assumption that cannot be made
    /// changes nothing. One that leads to an unsolvable state is struck from
    /// the candidates at the cursor. Otherwise the node at the cursor gets a
    /// child that holds the chain of deductions, and the cursor moves there.
    pub open spec fn explored(self, runes: Seq<Rune>, rules: Seq<RuleKind>, position: nat, to_be: nat) -> (
        SolverView,
        Result<ExploreView, SolverErrorView>,
    ) {
        match assumed_fields(self.peek().fields, position, to_be) {
            Err(e) => (self, Err(e)),
            Ok(fields) => {
                let first = SolverStateView {
                    fields: pruned_fields(fields, runes, rules),
                    action: StateActionView::Assume { activation: to_be, position },
                };
                match deductions(first, runes, rules, 13) {
                    Err(why) => (
                        self.ruled_out(self.current, position, to_be),
                        Ok(ExploreView::Unsolvable(unsolvable_text(why))),
                    ),
                    Ok(rest) => (
                        SolverView {
                            nodes: with_child(
                                self.nodes,
                                self.current,
                                DataView {
                                    chain: seq![first] + rest,
                                    action: NodeActionView::Assume { position, activation: to_be },
                                    state: SolverNodeState::Alive,
                                },
                            ),
                            current: self.nodes.len(),
                        },
                        Ok(ExploreView::Indecisive),
                    ),
                }
            },
        }
    }

    /// What is noted of an assumption that turned out false.
    pub open spec fn note(position: nat, activation: nat, reason: Seq<char>) -> Seq<char> {
        "Assumption "@ + activation_text(activation) + " in "@ + digits_of(position) + " is false: "@ + reason
    }

    /// What trying the first `upto` of a list of assumptions does, one after
    /// the other: an assumption that turns out false is noted, and the next
    /// is tried; one that cannot be made ends the trying with its error; one
    /// that leads on ends it too. The result says whether one led on.
    pub open spec fn tried(self, runes: Seq<Rune>, rules: Seq<RuleKind>, candidates: Seq<(nat, nat)>, upto: int)
        -> (SolverView, Result<bool, SolverErrorView>, Seq<Seq<char>>)
        decreases upto,
    {
        if upto <= 0 {
            (self, Ok(false), Seq::empty())
        } else {
            let (before, status, notes) = self.tried(runes, rules, candidates, upto - 1);
            match status {
                Ok(false) => {
                    let (position, activation) = candidates[upto - 1];
                    let (after, outcome) = before.explored(runes, rules, position, activation);
                    match outcome {
                        Err(e) => (after, Err(e), notes),
                        Ok(ExploreView::Unsolvable(reason)) => (
                            after,
                            Ok(false),
                            notes.push(Self::note(position, activation, reason)),
                        ),
                        Ok(_) => (after, Ok(true), notes),
                    }
                },
                _ => (before, status, notes),
            }
        }
    }

    /// What giving up a node does: the node is marked unsolvable, and the
    /// cursor moves to its parent, where the assumption that made the node is
    /// struck from the candidates, if it still is one. The root, which has
    /// no parent, keeps the cursor.
    pub open spec fn given_up(self) -> SolverView {
        let was = self.nodes[self.current as int];
        let marked = SolverView {
            nodes: self.nodes.update(
                self.current as int,
                NodeView { data: DataView { state: SolverNodeState::Unsolvable, ..was.data }, ..was },
            ),
            ..self
        };
        match was.parent {
            None => marked,
            Some(parent) => {
                let above = SolverView { current: parent, ..marked };
                match was.data.action {
                    NodeActionView::Assume { position, activation } => if above.peek().fields[position as int]
                        is Unsure {
                        above.ruled_out(parent, position, activation)
                    } else {
                        above
                    },
                    NodeActionView::Root => above,
                }
            },
        }
    }

    /// What trying a list of assumptions comes to in the end. If one of them
    /// led on, or could not be made, that is the result. If every one turned
    /// out false, the node is given up, for the reason given.
    pub open spec fn tried_all(
        self,
        runes: Seq<Rune>,
        rules: Seq<RuleKind>,
        candidates: Seq<(nat, nat)>,
        reason: Seq<char>,
    ) -> (SolverView, Result<ExploreView, SolverErrorView>, Seq<Seq<char>>) {
        let (after, status, notes) = self.tried(runes, rules, candidates, candidates.len() as int);
        match status {
            Err(e) => (after, Err(e), notes),
            Ok(true) => (after, Ok(ExploreView::Indecisive), notes),
            Ok(false) => (after.given_up(), Ok(ExploreView::Unsolvable(reason)), notes),
        }
    }
}

/// The assumptions that trying an activation makes: the activation on each
/// open position, in order.
pub open spec fn activation_candidates(state: SolverStateView, activation: nat) -> Seq<(nat, nat)> {
    Seq::new(
        open_positions(state.fields, 12).len(),
        |i: int| (open_positions(state.fields, 12)[i], activation),
    )
}

/// The assumptions that trying a position makes: each of its candidates on
/// it, in order.
pub open spec fn position_candidates(state: SolverStateView, position: nat) -> Seq<(nat, nat)> {
    match state.fields[position as int] {
        FieldView::Unsure(set) => Seq::new(
            members_in_order(set, 12).len(),
            |i: int| (position, members_in_order(set, 12)[i]),
        ),
        _ => Seq::empty(),
    }
}

/// A node of the tree as people read it: set in by its depth, its number in
/// brackets, how it stands, and what made it.
pub open spec fn node_line_text(depth: nat, node: nat, data: DataView) -> Seq<char> {
    repeated("  "@, depth) + " - ("@ + digits_of(node) + ") "@ + ("["@ + node_state_text(data.state) + "] "@
        + node_action_text(data.action))
}

/// The texts of a list as the contracts see them.
pub open spec fn note_views(notes: Seq<String>) -> Seq<Seq<char>> {
    Seq::new(notes.len(), |i: int| notes[i]@)
}

/// A search by assumption and deduction: a tree of nodes, each with the
/// chain of states that deduction made of an assumption, and a cursor.
pub struct Solver {
    nodes: SolverNodes,
    current: SolverNodeHandle,
}

impl Solver {
    /// The search as the contracts see it.
    pub closed spec fn model(&self) -> SolverView {
        SolverView { nodes: self.nodes.view(), current: self.current.0 as nat }
    }

    /// The tree is sound and the cursor stands at one of its nodes.
    pub closed spec fn wf(&self) -> bool {
        self.nodes.wf() && self.current.0 < self.nodes.view().len()
    }

    /// A search with just the root, at which everything is open.
    pub fn new() -> (solver: Self)
        ensures
            solver.wf(),
            solver.model().current == 0,
            solver.model().nodes.len() == 1,
            solver.model().nodes[0].parent is None,
            solver.model().nodes[0].data.chain.len() == 1,
            solver.model().peek().fields == Seq::new(12, |p: int| FieldView::Unsure(Seq::new(12, |a: int| true))),
    {
        let (nodes, root) = SolverNodes::new(SolverState::default());
        Self { nodes, current: root }
    }

    /// The state that the search looks at.
    pub fn peek(&self) -> (state: &SolverState)
        requires
            self.wf(),
        ensures
            state@ == self.model().peek(),
            valid(state@.fields),
            pruned(state@.fields),
    {
        proof {
            self.nodes.lemma_wf();
        }
        let data = self.nodes.get(self.current);
        let count = data.deduction_chain.len();
        assert(data@.chain[count - 1] == data.deduction_chain@[count - 1]@);
        &data.deduction_chain[count - 1]
    }

    /// The tree of the search.
    pub fn nodes(&self) -> (nodes: &SolverNodes)
        ensures
            nodes.view() == self.model().nodes,
            self.wf() ==> nodes.wf(),
    {
        &self.nodes
    }

    /// The tree as people read it, a line for each node: the root first,
    /// every node before its children, each set in by two spaces for each
    /// step of its depth.
    pub fn tree_lines(&self) -> (lines: Vec<String>)
        requires
            self.wf(),
        ensures
            lines.len() == outline_of(self.model().nodes, 0, 0).len(),
            forall|i: int|
                0 <= i < lines.len() ==> (#[trigger] lines[i])@ == node_line_text(
                    outline_of(self.model().nodes, 0, 0)[i].0,
                    outline_of(self.model().nodes, 0, 0)[i].1,
                    self.model().nodes[outline_of(self.model().nodes, 0, 0)[i].1 as int].data,
                ),
    {
        let outline = self.nodes.outline();
        let ghost shape = outline_of(self.model().nodes, 0, 0);
        let mut lines: Vec<String> = Vec::new();
        let mut i: usize = 0;
        while i < outline.len()
            invariant
                self.wf(),
                i <= outline.len(),
                shape == outline_of(self.model().nodes, 0, 0),
                outline.len() == shape.len(),
                forall|k: int|
                    0 <= k < outline.len() ==> (#[trigger] outline[k].0 as nat, outline[k].1.0 as nat) == shape[k]
                        && self.nodes.contains(outline[k].1),
                lines.len() == i,
                forall|k: int|
                    0 <= k < i ==> (#[trigger] lines[k])@ == node_line_text(
                        shape[k].0,
                        shape[k].1,
                        self.model().nodes[shape[k].1 as int].data,
                    ),
            decreases outline.len() - i,
        {
            let (depth, handle) = outline[i];
            assert((outline[i as int].0 as nat, outline[i as int].1.0 as nat) == shape[i as int]);
            let inset = repeat_text("  ", depth);
            let name = handle.to_text();
            let data = self.nodes.get(handle).to_text();
            let line = inset.concat(" - (").concat(name.as_str()).concat(") ").concat(data.as_str());
            lines.push(line);
            i += 1;
        }
        lines
    }

    /// The node at which the cursor stands.
    pub fn current(&self) -> (handle: SolverNodeHandle)
        ensures
            handle.0 == self.model().current,
    {
        self.current
    }

    /// Moves the cursor to the node with the given number.
    pub fn view(&mut self, node: usize) -> (moved: Result<(), SolverNodesError>)
        requires
            old(self).wf(),
        ensures
            final(self).wf(),
            final(self).model().nodes == old(self).model().nodes,
            match moved {
                Ok(_) => node < old(self).model().nodes.len() && final(self).model().current == node,
                Err(e) => e == SolverNodesError::UnknownNode(node) && node >= old(self).model().nodes.len()
                    && final(self).model().current == old(self).model().current,
            },
    {
        match self.nodes.get_handle(node) {
            Ok(handle) => {
                self.current = handle;
                Ok(())
            },
            Err(e) => Err(e),
        }
    }

    /// Explores an assumption at the cursor: see [`SolverView::explored`].
    pub fn explore(&mut self, lock: &RuneLock, position: RunePosition, assume_to_be: Activation) -> (result: Result<
        ExploreResult,
        SolverError,
    >)
        requires
            old(self).wf(),
        ensures
            final(self).wf(),
            match result {
                Ok(found) => (final(self).model(), Ok::<ExploreView, SolverErrorView>(found@)) == old(self).model().explored(
                    lock.runes(),
                    lock.rules(),
                    position@,
                    assume_to_be@,
                ),
                Err(e) => (final(self).model(), Err::<ExploreView, SolverErrorView>(e@)) == old(self).model().explored(
                    lock.runes(),
                    lock.rules(),
                    position@,
                    assume_to_be@,
                ),
            },
    {
        let ghost before = self.model();
        let result = self.peek().deduce_with_assumption(lock, position, assume_to_be);
        match result {
            Ok(DeduceWithAssumptionResult::Unsolvable { reason }) => {
                self.nodes.rule_out(self.current, position, assume_to_be);
                Ok(ExploreResult::Unsolvable { reason })
            },
            Ok(DeduceWithAssumptionResult::Done(steps)) => {
                let data = SolverNodeData {
                    state: SolverNodeState::Alive,
                    deduction_chain: steps,
                    action: SolverNodeAction::Assume { position, activation: assume_to_be },
                };
                assert(data_wf(data@)) by {
                    assert forall|i: int| 0 <= i < data@.chain.len() implies valid(
                        (#[trigger] data@.chain[i]).fields,
                    ) && pruned(data@.chain[i].fields) by {
                        assert(data@.chain[i] == steps[i]@);
                    }
                }
                self.current = self.nodes.insert_child(self.current, data);
                Ok(ExploreResult::Indecisive)
            },
            // A chain of deductions never ends as solved.
            Ok(DeduceWithAssumptionResult::Solved(_)) => Ok(ExploreResult::Indecisive),
            Err(err) => Err(err),
        }
    }

    /// Gives up the node at the cursor: see [`SolverView::given_up`].
    fn give_up(&mut self)
        requires
            old(self).wf(),
        ensures
            final(self).wf(),
            final(self).model() == old(self).model().given_up(),
    {
        self.nodes.set_state(self.current, SolverNodeState::Unsolvable);
        let assumption = self.nodes.get(self.current).action;
        proof {
            self.nodes.lemma_wf();
        }
        match self.nodes.parent_of(self.current) {
            None => {},
            Some(parent) => {
                self.current = parent;
                if let SolverNodeAction::Assume { position, activation } = assumption {
                    let open = match self.peek().field(position) {
                        crate::solver::field_state::FieldState::Unsure(_) => true,
                        _ => false,
                    };
                    if open {
                        self.nodes.rule_out(self.current, position, activation);
                    }
                }
            },
        }
    }

    /// Tries a list of assumptions: see [`SolverView::tried_all`].
    fn try_all(
        &mut self,
        lock: &RuneLock,
        candidates: &Vec<(RunePosition, Activation)>,
        reason: String,
        notes: &mut Vec<String>,
    ) -> (result: Result<ExploreResult, SolverError>)
        requires
            old(self).wf(),
        ensures
            final(self).wf(),
            ({
                let (after, status, noted) = old(self).model().tried_all(
                    lock.runes(),
                    lock.rules(),
                    tuple_indices(candidates@),
                    reason@,
                );
                &&& final(self).model() == after
                &&& note_views(final(notes)@) == note_views(old(notes)@) + noted
                &&& match result {
                    Ok(found) => status == Ok::<ExploreView, SolverErrorView>(found@),
                    Err(e) => status == Err::<ExploreView, SolverErrorView>(e@),
                }
            }),
    {
        let ghost start = self.model();
        let ghost pairs = tuple_indices(candidates@);
        let ghost base = note_views(notes@);
        let mut i: usize = 0;
        assert(note_views(notes@) =~= base + Seq::<Seq<char>>::empty());
        while i < candidates.len()
            invariant
                self.wf(),
                start == old(self).model(),
                base == note_views(old(notes)@),
                pairs == tuple_indices(candidates@),
                i <= candidates.len(),
                start.tried(lock.runes(), lock.rules(), pairs, i as int).0 == self.model(),
                start.tried(lock.runes(), lock.rules(), pairs, i as int).1 == Ok::<bool, SolverErrorView>(false),
                note_views(notes@) == base + start.tried(lock.runes(), lock.rules(), pairs, i as int).2,
            decreases candidates.len() - i,
        {
            let (position, activation) = candidates[i];
            assert(pairs[i as int] == (position@, activation@));
            match self.explore(lock, position, activation) {
                Err(e) => {
                    proof {
                        lemma_tried_sticks(start, lock.runes(), lock.rules(), pairs, i + 1, pairs.len() as int);
                    }
                    return Err(e);
                },
                Ok(ExploreResult::Unsolvable { reason: why }) => {
                    let ghost before = notes@;
                    let note = String::from_str("Assumption ").concat(activation.to_text().as_str()).concat(
                        " in ",
                    ).concat(position.to_text().as_str()).concat(" is false: ").concat(why.as_str());
                    notes.push(note);
                    proof {
                        assert(note_views(notes@) =~= note_views(before).push(note@));
                        let so_far = start.tried(lock.runes(), lock.rules(), pairs, i as int).2;
                        assert(base + so_far.push(note@) =~= (base + so_far).push(note@));
                    }
                },
                Ok(_) => {
                    proof {
                        lemma_tried_sticks(start, lock.runes(), lock.rules(), pairs, i + 1, pairs.len() as int);
                    }
                    return Ok(ExploreResult::Indecisive);
                },
            }
            i += 1;
        }
        self.give_up();
        Ok(ExploreResult::Unsolvable { reason })
    }

    /// Tries the activation on every open position, in order, until an
    /// assumption leads on. For each assumption that turns out false a note
    /// is added to `notes`. If all turn out false, the node at the cursor is
    /// given up.
    pub fn try_activation(&mut self, lock: &RuneLock, activation: Activation, notes: &mut Vec<String>) -> (result:
        Result<ExploreResult, SolverError>)
        requires
            old(self).wf(),
        ensures
            final(self).wf(),
            ({
                let (after, status, noted) = old(self).model().tried_all(
                    lock.runes(),
                    lock.rules(),
                    activation_candidates(old(self).model().peek(), activation@),
                    "Activation "@ + activation_text(activation@) + " has no position it can be assigned to."@,
                );
                &&& final(self).model() == after
                &&& note_views(final(notes)@) == note_views(old(notes)@) + noted
                &&& match result {
                    Ok(found) => status == Ok::<ExploreView, SolverErrorView>(found@),
                    Err(e) => status == Err::<ExploreView, SolverErrorView>(e@),
                }
            }),
    {
        let to_try = self.peek().possible_positions_of(activation);
        let mut candidates: Vec<(RunePosition, Activation)> = Vec::new();
        let mut i: usize = 0;
        while i < to_try.len()
            invariant
                i <= to_try.len(),
                candidates.len() == i,
                forall|k: int| 0 <= k < i ==> (#[trigger] candidates[k]) == (to_try[k], activation),
            decreases to_try.len() - i,
        {
            candidates.push((to_try[i], activation));
            i += 1;
        }
        proof {
            let open = open_positions(self.model().peek().fields, 12);
            assert forall|k: int| 0 <= k < candidates.len() implies tuple_indices(
                candidates@,
            )[k] == activation_candidates(self.model().peek(), activation@)[k] by {
                assert(position_indices(to_try@)[k] == open[k]);
            }
            assert(tuple_indices(candidates@) =~= activation_candidates(
                self.model().peek(),
                activation@,
            ));
        }
        let reason = String::from_str("Activation ").concat(activation.to_text().as_str()).concat(
            " has no position it can be assigned to.",
        );
        self.try_all(lock, &candidates, reason, notes)
    }

    /// Tries every candidate of the position on it, in order, until an
    /// assumption leads on. For each assumption that turns out false a note
    /// is added to `notes`. If all turn out false, the node at the cursor is
    /// given up.
    pub fn try_in_position(&mut self, lock: &RuneLock, position: RunePosition, notes: &mut Vec<String>) -> (result:
        Result<ExploreResult, SolverError>)
        requires
            old(self).wf(),
        ensures
            final(self).wf(),
            ({
                let (after, status, noted) = old(self).model().tried_all(
                    lock.runes(),
                    lock.rules(),
                    position_candidates(old(self).model().peek(), position@),
                    "Positon "@ + digits_of(position@) + " has no activation that can be assigned to it."@,
                );
                &&& final(self).model() == after
                &&& note_views(final(notes)@) == note_views(old(notes)@) + noted
                &&& match result {
                    Ok(found) => status == Ok::<ExploreView, SolverErrorView>(found@),
                    Err(e) => status == Err::<ExploreView, SolverErrorView>(e@),
                }
            }),
    {
        let at = position.index();
        let to_try = self.peek().possible_activations_of(position);
        let mut candidates: Vec<(RunePosition, Activation)> = Vec::new();
        let mut i: usize = 0;
        while i < to_try.len()
            invariant
                i <= to_try.len(),
                candidates.len() == i,
                forall|k: int| 0 <= k < i ==> (#[trigger] candidates[k]) == (position, to_try[k]),
            decreases to_try.len() - i,
        {
            candidates.push((position, to_try[i]));
            i += 1;
        }
        proof {
            let expected = position_candidates(self.model().peek(), position@);
            let listed = activation_indices(to_try@);
            let pairs = tuple_indices(candidates@);
            assert(listed.len() == candidates.len());
            assert forall|k: int| 0 <= k < candidates.len() implies #[trigger] pairs[k] == (position@, listed[k]) by {
                assert(candidates[k] == (position, to_try[k]));
            }
            match self.model().peek().fields[position@ as int] {
                FieldView::Unsure(set) => {
                    assert(listed == members_in_order(set, 12));
                    assert(pairs =~= expected);
                },
                _ => {
                    assert(listed.len() == 0);
                    assert(pairs =~= expected);
                },
            }
        }
        let reason = String::from_str("Positon ").concat(position.to_text().as_str()).concat(
            " has no activation that can be assigned to it.",
        );
        self.try_all(lock, &candidates, reason, notes)
    }
}

/// Once the trying has ended, the assumptions that are left are not tried.
pub proof fn lemma_tried_sticks(
    start: SolverView,
    runes: Seq<Rune>,
    rules: Seq<RuleKind>,
    candidates: Seq<(nat, nat)>,
    at: int,
    upto: int,
)
    requires
        0 <= at <= upto,
        start.tried(runes, rules, candidates, at).1 != Ok::<bool, SolverErrorView>(false),
    ensures
        start.tried(runes, rules, candidates, upto) == start.tried(runes, rules, candidates, at),
    decreases upto - at,
{
    if at < upto {
        lemma_tried_sticks(start, runes, rules, candidates, at, upto - 1);
    }
}

} // verus!
