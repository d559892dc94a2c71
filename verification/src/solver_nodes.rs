use vstd::prelude::*;
use vstd::string::StringExecFns;
use crate::activation::{activation_text, Activation};
use crate::fact_solver::assumption_tree::{
    lemma_new_data_keeps_tree, outline_children, outline_of, outline_view, with_child, AssumptionTree,
    AssumptionTreeNodeHandle, NodeView,
};
use crate::index::RunePosition;
use crate::solver::field_state::FieldView;
use crate::solver::solver_state::{pruned, state_views, valid, SolverState, SolverStateView, StateActionView};
use crate::text::{decimal_text, digits_of};

verus! {

/// What made a node: it is the root, or an assumption was made at its
/// parent.
#[derive(Debug, Clone, Copy)]
pub enum SolverNodeAction {
    Assume { position: RunePosition, activation: Activation },
    Root,
}

/// How a node stands.
#[derive(Debug, Clone, Copy, PartialEq, Eq, Structural)]
pub enum SolverNodeState {
    Unsolvable,
    Alive,
    Solved,
}

/// An action as the contracts see it.
pub enum NodeActionView {
    Assume { position: nat, activation: nat },
    Root,
}

impl View for SolverNodeAction {
    type V = NodeActionView;

    open spec fn view(&self) -> NodeActionView {
        match *self {
            SolverNodeAction::Assume { position, activation } => NodeActionView::Assume {
                position: position@,
                activation: activation@,
            },
            SolverNodeAction::Root => NodeActionView::Root,
        }
    }
}

/// An action as people read it.
pub open spec fn node_action_text(action: NodeActionView) -> Seq<char> {
    match action {
        NodeActionView::Assume { position, activation } => "Assume "@ + digits_of(position) + " = "@
            + activation_text(activation),
        NodeActionView::Root => "Root"@,
    }
}

/// How a node stands, as people read it.
pub open spec fn node_state_text(state: SolverNodeState) -> Seq<char> {
    match state {
        SolverNodeState::Unsolvable => "✘"@,
        SolverNodeState::Alive => " "@,
        SolverNodeState::Solved => "✔"@,
    }
}

impl SolverNodeAction {
    /// The action as people read it.
    pub fn to_text(&self) -> (text: String)
        ensures
            text@ == node_action_text(self@),
    {
        match self {
            SolverNodeAction::Assume { position, activation } => {
                let position = position.to_text();
                let activation = activation.to_text();
                String::from_str("Assume ").concat(position.as_str()).concat(" = ").concat(activation.as_str())
            },
            SolverNodeAction::Root => String::from_str("Root"),
        }
    }
}

impl SolverNodeState {
    /// How the node stands, as people read it.
    pub fn to_text(&self) -> (text: String)
        ensures
            text@ == node_state_text(*self),
    {
        match self {
            SolverNodeState::Unsolvable => String::from_str("✘"),
            SolverNodeState::Alive => String::from_str(" "),
            SolverNodeState::Solved => String::from_str("✔"),
        }
    }
}

/// What a node of the search holds: the chain of states that deduction made
/// there, what made the node, and how it stands.
pub struct SolverNodeData {
    pub deduction_chain: Vec<SolverState>,
    pub action: SolverNodeAction,
    pub state: SolverNodeState,
}

/// What a node holds, as the contracts see it.
pub struct DataView {
    pub chain: Seq<SolverStateView>,
    pub action: NodeActionView,
    pub state: SolverNodeState,
}

impl View for SolverNodeData {
    type V = DataView;

    open spec fn view(&self) -> DataView {
        DataView { chain: state_views(self.deduction_chain@), action: self.action@, state: self.state }
    }
}

/// The chain has a state, and every state of it is sound and pruned.
pub open spec fn data_wf(data: DataView) -> bool {
    &&& data.chain.len() > 0
    &&& forall|i: int| 0 <= i < data.chain.len() ==> valid((#[trigger] data.chain[i]).fields) && pruned(
        data.chain[i].fields,
    )
}

/// A state with one candidate of one open position struck.
pub open spec fn struck(state: SolverStateView, position: nat, activation: nat) -> SolverStateView {
    SolverStateView {
        fields: state.fields.update(
            position as int,
            FieldView::Unsure(state.fields[position as int]->Unsure_0.update(activation as int, false)),
        ),
        action: StateActionView::RuleOut { activation, position },
    }
}

impl SolverNodeData {
    /// Adds to the chain the last state with the activation struck from the
    /// candidates of the position.
    pub fn rule_out(&mut self, position: RunePosition, activation: Activation)
        requires
            old(self)@.chain.len() > 0,
            old(self)@.chain.last().fields[position@ as int] is Unsure,
        ensures
            final(self)@ == (DataView {
                chain: old(self)@.chain.push(struck(old(self)@.chain.last(), position@, activation@)),
                ..old(self)@
            }),
            data_wf(old(self)@) ==> data_wf(final(self)@),
    {
        let ghost before = self@;
        let count = self.deduction_chain.len();
        let last_state = self.deduction_chain[count - 1].ruled_out(position, activation);
        self.deduction_chain.push(last_state);
        proof {
            assert(self@.chain =~= before.chain.push(struck(before.chain.last(), position@, activation@)));
        }
    }

    /// The node as people read it: how it stands, and what made it.
    pub fn to_text(&self) -> (text: String)
        ensures
            text@ == "["@ + node_state_text(self@.state) + "] "@ + node_action_text(self@.action),
    {
        let state = self.state.to_text();
        let action = self.action.to_text();
        String::from_str("[").concat(state.as_str()).concat("] ").concat(action.as_str())
    }
}

/// The number of a node of the search tree.
#[derive(Copy, Clone, Debug, PartialEq, Eq, Structural)]
pub struct SolverNodeHandle(pub usize);

impl SolverNodeHandle {
    /// The handle as people read it: its number.
    pub fn to_text(&self) -> (text: String)
        ensures
            text@ == digits_of(self.0 as nat),
    {
        decimal_text(self.0)
    }
}

/// The tree of the search: nodes are added below nodes and never taken away.
pub struct SolverNodes {
    nodes: AssumptionTree<SolverNodeData>,
}

/// No node of the tree has the number.
#[derive(Debug, Clone, Copy, PartialEq, Eq, Structural)]
pub enum SolverNodesError {
    UnknownNode(usize),
}

/// The nodes of a tree with what they hold as the contracts see it.
pub open spec fn data_views(nodes: Seq<NodeView<SolverNodeData>>) -> Seq<NodeView<DataView>> {
    Seq::new(
        nodes.len(),
        |i: int| NodeView { parent: nodes[i].parent, data: nodes[i].data@, children: nodes[i].children },
    )
}

impl SolverNodes {
    /// The nodes of the tree, in the order in which they were added.
    pub closed spec fn view(&self) -> Seq<NodeView<DataView>> {
        data_views(self.nodes.view())
    }

    /// The tree is well formed, and every node holds a chain of sound states.
    pub closed spec fn wf(&self) -> bool {
        &&& self.nodes.wf()
        &&& forall|i: int| 0 <= i < self.view().len() ==> data_wf((#[trigger] self.view()[i]).data)
    }

    /// What a well-formed tree is: it has a root, and every node holds a
    /// chain with at least one state.
    pub proof fn lemma_wf(&self)
        requires
            self.wf(),
        ensures
            self.view().len() > 0,
            forall|i: int| 0 <= i < self.view().len() ==> data_wf((#[trigger] self.view()[i]).data),
            forall|i: int| 0 < i < self.view().len() ==> (#[trigger] self.view()[i]).parent is Some && self.view()[i].parent->0 < i,
            self.view()[0].parent is None,
    {
        assert(self.nodes.view()[0].parent is None);
        assert forall|i: int| 0 < i < self.view().len() implies (#[trigger] self.view()[i]).parent is Some
            && self.view()[i].parent->0 < i by {
            assert(self.nodes.view()[i].parent is Some);
        }
    }

    /// A tree with just a root, which is alive and holds the one state.
    pub fn new(initial: SolverState) -> (made: (Self, SolverNodeHandle))
        requires
            valid(initial@.fields),
            pruned(initial@.fields),
        ensures
            made.0.wf(),
            made.0.view() == seq![
                NodeView {
                    parent: None::<nat>,
                    data: DataView {
                        chain: seq![initial@],
                        action: NodeActionView::Root,
                        state: SolverNodeState::Alive,
                    },
                    children: Seq::<nat>::empty(),
                },
            ],
            made.1 == SolverNodeHandle(0),
    {
        let mut chain: Vec<SolverState> = Vec::new();
        chain.push(initial);
        let data = SolverNodeData {
            state: SolverNodeState::Alive,
            deduction_chain: chain,
            action: SolverNodeAction::Root,
        };
        assert(data@.chain =~= seq![initial@]);
        let (tree, root) = AssumptionTree::new(data);
        let nodes = Self { nodes: tree };
        proof {
            assert(nodes.view() =~= seq![
                NodeView {
                    parent: None::<nat>,
                    data: DataView {
                        chain: seq![initial@],
                        action: NodeActionView::Root,
                        state: SolverNodeState::Alive,
                    },
                    children: Seq::<nat>::empty(),
                },
            ]);
        }
        (nodes, SolverNodeHandle(0))
    }

    /// The handle names a node of this tree.
    pub open spec fn contains(&self, node: SolverNodeHandle) -> bool {
        node.0 < self.view().len()
    }

    /// Adds a node below `parent` and returns its handle: the next number.
    pub fn insert_child(&mut self, parent: SolverNodeHandle, child: SolverNodeData) -> (handle: SolverNodeHandle)
        requires
            old(self).wf(),
            old(self).contains(parent),
            data_wf(child@),
        ensures
            final(self).wf(),
            final(self).view() == with_child(old(self).view(), parent.0 as nat, child@),
            handle.0 == old(self).view().len(),
    {
        let ghost before = self.view();
        let handle = self.nodes.insert_child(AssumptionTreeNodeHandle(parent.0), child);
        proof {
            assert(self.view() =~= with_child(before, parent.0 as nat, child@));
        }
        SolverNodeHandle(handle.0)
    }

    /// The handle of the node with the given number, if there is such a node.
    pub fn get_handle(&self, node: usize) -> (found: Result<SolverNodeHandle, SolverNodesError>)
        ensures
            match found {
                Ok(handle) => handle.0 == node && self.contains(handle),
                Err(e) => e == SolverNodesError::UnknownNode(node) && node >= self.view().len(),
            },
    {
        if node >= self.nodes.len() {
            return Err(SolverNodesError::UnknownNode(node));
        }
        return Ok(SolverNodeHandle(node));
    }

    /// The parent of a node; the root has none.
    pub fn parent_of(&self, node: SolverNodeHandle) -> (parent: Option<SolverNodeHandle>)
        requires
            self.contains(node),
        ensures
            match parent {
                Some(p) => self.view()[node.0 as int].parent == Some(p.0 as nat),
                None => self.view()[node.0 as int].parent is None,
            },
    {
        match self.nodes.parent_of(AssumptionTreeNodeHandle(node.0)) {
            Some(p) => Some(SolverNodeHandle(p.0)),
            None => None,
        }
    }

    /// What a node holds.
    pub fn get(&self, index: SolverNodeHandle) -> (data: &SolverNodeData)
        requires
            self.contains(index),
        ensures
            data@ == self.view()[index.0 as int].data,
    {
        self.nodes.get(AssumptionTreeNodeHandle(index.0))
    }

    /// Strikes a candidate at a node: see [`SolverNodeData::rule_out`].
    pub fn rule_out(&mut self, index: SolverNodeHandle, position: RunePosition, activation: Activation)
        requires
            old(self).wf(),
            old(self).contains(index),
            old(self).view()[index.0 as int].data.chain.last().fields[position@ as int] is Unsure,
        ensures
            final(self).wf(),
            final(self).view() == old(self).view().update(
                index.0 as int,
                NodeView {
                    data: DataView {
                        chain: old(self).view()[index.0 as int].data.chain.push(
                            struck(old(self).view()[index.0 as int].data.chain.last(), position@, activation@),
                        ),
                        ..old(self).view()[index.0 as int].data
                    },
                    ..old(self).view()[index.0 as int]
                },
            ),
    {
        let ghost before = self.view();
        let ghost raw = self.nodes.view();
        let data = self.nodes.get_mut(AssumptionTreeNodeHandle(index.0));
        data.rule_out(position, activation);
        proof {
            let i = index.0 as int;
            lemma_new_data_keeps_tree(raw, i, self.nodes.view()[i].data);
            assert(self.nodes.view() =~= raw.update(i, NodeView { data: self.nodes.view()[i].data, ..raw[i] }));
            let expected = before.update(
                i,
                NodeView {
                    data: DataView {
                        chain: before[i].data.chain.push(struck(before[i].data.chain.last(), position@, activation@)),
                        ..before[i].data
                    },
                    ..before[i]
                },
            );
            assert(self.view() =~= expected);
            assert forall|k: int| 0 <= k < self.view().len() implies data_wf((#[trigger] self.view()[k]).data) by {
                if k != i {
                    assert(self.view()[k] == before[k]);
                }
            }
        }
    }

    /// Says how a node stands.
    pub fn set_state(&mut self, index: SolverNodeHandle, state: SolverNodeState)
        requires
            old(self).wf(),
            old(self).contains(index),
        ensures
            final(self).wf(),
            final(self).view() == old(self).view().update(
                index.0 as int,
                NodeView {
                    data: DataView { state, ..old(self).view()[index.0 as int].data },
                    ..old(self).view()[index.0 as int]
                },
            ),
    {
        let ghost before = self.view();
        let ghost raw = self.nodes.view();
        let data = self.nodes.get_mut(AssumptionTreeNodeHandle(index.0));
        data.state = state;
        proof {
            let i = index.0 as int;
            lemma_new_data_keeps_tree(raw, i, self.nodes.view()[i].data);
            assert(self.nodes.view() =~= raw.update(i, NodeView { data: self.nodes.view()[i].data, ..raw[i] }));
            let expected = before.update(
                i,
                NodeView { data: DataView { state, ..before[i].data }, ..before[i] },
            );
            assert(self.view() =~= expected);
            assert forall|k: int| 0 <= k < self.view().len() implies data_wf((#[trigger] self.view()[k]).data) by {
                if k != i {
                    assert(self.view()[k] == before[k]);
                }
            }
        }
    }

    /// The whole tree, written down node by node from the root: each node
    /// with its depth, a parent before its children.
    pub fn outline(&self) -> (lines: Vec<(usize, SolverNodeHandle)>)
        requires
            self.wf(),
        ensures
            lines.len() == outline_of(self.view(), 0, 0).len(),
            forall|i: int|
                0 <= i < lines.len() ==> (#[trigger] lines[i].0 as nat, lines[i].1.0 as nat)
                    == outline_of(self.view(), 0, 0)[i] && self.contains(
                    lines[i].1,
                ),
    {
        let raw = self.nodes.outline();
        proof {
            lemma_same_outline(self.nodes.view(), 0, 0);
        }
        let mut lines: Vec<(usize, SolverNodeHandle)> = Vec::new();
        let mut i: usize = 0;
        while i < raw.len()
            invariant
                i <= raw.len(),
                lines.len() == i,
                forall|k: int| 0 <= k < i ==> (#[trigger] lines[k]) == (raw[k].0, SolverNodeHandle(raw[k].1.0)),
            decreases raw.len() - i,
        {
            lines.push((raw[i].0, SolverNodeHandle(raw[i].1.0)));
            i += 1;
        }
        proof {
            let shape = outline_of(self.view(), 0, 0);
            assert forall|k: int| 0 <= k < lines.len() implies (#[trigger] lines[k].0 as nat, lines[k].1.0 as nat)
                == shape[k] && self.contains(lines[k].1) by {
                assert(outline_view(raw@)[k] == (
                    raw[k].0 as nat,
                    raw[k].1.0 as nat,
                ));
                assert(self.nodes.contains(raw[k].1));
            }
        }
        lines
    }
}

/// The outline of a tree does not depend on what its nodes hold.
pub proof fn lemma_same_outline(nodes: Seq<NodeView<SolverNodeData>>, node: nat, depth: nat)
    ensures
        outline_of(data_views(nodes), node, depth)
            == outline_of(nodes, node, depth),
    decreases nodes.len() - node, 1nat, 0nat,
{
    if node < nodes.len() {
        lemma_same_outline_children(nodes, node, depth + 1, nodes[node as int].children.len());
    }
}

proof fn lemma_same_outline_children(nodes: Seq<NodeView<SolverNodeData>>, node: nat, depth: nat, upto: nat)
    ensures
        outline_children(data_views(nodes), node, depth, upto)
            == outline_children(nodes, node, depth, upto),
    decreases nodes.len() - node, 0nat, upto,
{
    if upto > 0 && node < nodes.len() {
        let child = nodes[node as int].children[upto - 1];
        lemma_same_outline_children(nodes, node, depth, (upto - 1) as nat);
        if node < child < nodes.len() {
            lemma_same_outline(nodes, child, depth);
        }
    }
}

} // verus!
