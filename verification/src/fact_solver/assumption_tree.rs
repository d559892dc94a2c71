use vstd::prelude::*;
use crate::text::{decimal_text, digits_of};

verus! {

struct AssumptionTreeNode<T> {
    pub parent: Option<AssumptionTreeNodeHandle>,
    pub data: T,
    children: Vec<AssumptionTreeNodeHandle>,
}

/// The number of a node of an assumption tree. The root is node zero, and
/// every other node has a larger number than its parent.
#[derive(Copy, Clone, Debug, PartialEq, Eq, Structural)]
pub struct AssumptionTreeNodeHandle(pub usize);

impl AssumptionTreeNodeHandle {
    /// The handle as people read it: its number.
    pub fn to_text(&self) -> (text: String)
        ensures
            text@ == digits_of(self.0 as nat),
    {
        decimal_text(self.0)
    }
}

/// A tree that only grows: nodes are added below existing nodes and never
/// taken away.
pub struct AssumptionTree<T> {
    nodes: Vec<AssumptionTreeNode<T>>,
}

/// No node of the tree has the number.
#[derive(Debug, Clone, Copy, PartialEq, Eq, Structural)]
pub enum AssumptionTreeError {
    UnknownNode(usize),
}

/// A node as the contracts see it.
pub struct NodeView<T> {
    pub parent: Option<nat>,
    pub data: T,
    pub children: Seq<nat>,
}

/// The children of `parent` among the first `upto` nodes, in order.
pub open spec fn children_among<T>(nodes: Seq<NodeView<T>>, parent: nat, upto: int) -> Seq<nat>
    decreases upto,
{
    if upto <= 0 {
        Seq::empty()
    } else {
        let before = children_among(nodes, parent, upto - 1);
        if nodes[upto - 1].parent == Some(parent) {
            before.push((upto - 1) as nat)
        } else {
            before
        }
    }
}

/// There is a root, which alone has no parent; every other node comes after
/// its parent; and each node lists its children in the order in which they
/// were added.
pub open spec fn well_formed<T>(nodes: Seq<NodeView<T>>) -> bool {
    &&& nodes.len() > 0
    &&& nodes[0].parent is None
    &&& forall|i: int| 0 < i < nodes.len() ==> (#[trigger] nodes[i]).parent is Some && nodes[i].parent->0 < i
    &&& forall|i: int|
        0 <= i < nodes.len() ==> (#[trigger] nodes[i]).children == children_among(nodes, i as nat, nodes.len() as int)
}

/// The nodes after a child with `data` is added below `parent`.
pub open spec fn with_child<T>(nodes: Seq<NodeView<T>>, parent: nat, data: T) -> Seq<NodeView<T>> {
    nodes.update(
        parent as int,
        NodeView { children: nodes[parent as int].children.push(nodes.len()), ..nodes[parent as int] },
    ).push(NodeView { parent: Some(parent), data, children: Seq::empty() })
}

proof fn lemma_children_unaffected<T>(a: Seq<NodeView<T>>, b: Seq<NodeView<T>>, parent: nat, upto: int)
    requires
        upto <= a.len(),
        upto <= b.len(),
        forall|i: int| 0 <= i < upto ==> (#[trigger] a[i]).parent == b[i].parent,
    ensures
        children_among(a, parent, upto) == children_among(b, parent, upto),
    decreases upto,
{
    if upto > 0 {
        lemma_children_unaffected(a, b, parent, upto - 1);
    }
}

/// Changing what a node holds keeps a tree well formed.
pub proof fn lemma_new_data_keeps_tree<T>(nodes: Seq<NodeView<T>>, node: int, data: T)
    requires
        well_formed(nodes),
        0 <= node < nodes.len(),
    ensures
        well_formed(nodes.update(node, NodeView { data, ..nodes[node] })),
{
    let after = nodes.update(node, NodeView { data, ..nodes[node] });
    assert forall|i: int| 0 <= i < after.len() implies (#[trigger] after[i]).children == children_among(
        after,
        i as nat,
        after.len() as int,
    ) by {
        lemma_children_unaffected(after, nodes, i as nat, nodes.len() as int);
    }
}

/// Adding a child keeps a tree well formed.
pub proof fn lemma_with_child_is_well_formed<T>(nodes: Seq<NodeView<T>>, parent: nat, data: T)
    requires
        well_formed(nodes),
        parent < nodes.len(),
    ensures
        well_formed(with_child(nodes, parent, data)),
{
    let after = with_child(nodes, parent, data);
    let n = nodes.len() as int;
    assert forall|i: int| 0 <= i < after.len() implies (#[trigger] after[i]).children == children_among(
        after,
        i as nat,
        after.len() as int,
    ) by {
        lemma_children_unaffected(after, nodes, i as nat, n);
        if i == n {
            lemma_no_children_yet(nodes, n);
        }
    }
}

proof fn lemma_no_children_yet<T>(nodes: Seq<NodeView<T>>, upto: int)
    requires
        well_formed(nodes),
        0 <= upto <= nodes.len(),
    ensures
        children_among(nodes, nodes.len(), upto) == Seq::<nat>::empty(),
    decreases upto,
{
    if upto > 0 {
        lemma_no_children_yet(nodes, upto - 1);
    }
}

/// Every child that a node lists among the first `upto` nodes is one of
/// them and has the node as its parent.
pub proof fn lemma_children_are_children<T>(nodes: Seq<NodeView<T>>, parent: nat, upto: int, k: int)
    requires
        0 <= upto <= nodes.len(),
        0 <= k < children_among(nodes, parent, upto).len(),
    ensures
        children_among(nodes, parent, upto)[k] < upto,
        nodes[children_among(nodes, parent, upto)[k] as int].parent == Some(parent),
    decreases upto,
{
    if upto > 0 {
        let before = children_among(nodes, parent, upto - 1);
        if k < before.len() {
            lemma_children_are_children(nodes, parent, upto - 1, k);
        }
    }
}

/// The tree below a node, written down node by node: each node with its
/// depth, and after it what is below each of its children, in the order in
/// which the children were added.
pub open spec fn outline_of<T>(nodes: Seq<NodeView<T>>, node: nat, depth: nat) -> Seq<(nat, nat)>
    decreases nodes.len() - node, 1nat, 0nat,
{
    if node >= nodes.len() {
        Seq::empty()
    } else {
        seq![(depth, node)] + outline_children(nodes, node, depth + 1, nodes[node as int].children.len())
    }
}

/// What is below the first `upto` children of a node.
pub open spec fn outline_children<T>(nodes: Seq<NodeView<T>>, node: nat, depth: nat, upto: nat) -> Seq<(nat, nat)>
    decreases nodes.len() - node, 0nat, upto,
{
    if upto == 0 || node >= nodes.len() {
        Seq::empty()
    } else {
        let child = nodes[node as int].children[upto - 1];
        let before = outline_children(nodes, node, depth, (upto - 1) as nat);
        if node < child < nodes.len() {
            before + outline_of(nodes, child, depth)
        } else {
            before
        }
    }
}

/// An outline names nodes of the tree only.
pub proof fn lemma_outline_names_nodes<T>(nodes: Seq<NodeView<T>>, node: nat, depth: nat)
    ensures
        forall|i: int|
            0 <= i < outline_of(nodes, node, depth).len() ==> (#[trigger] outline_of(nodes, node, depth)[i]).1
                < nodes.len(),
    decreases nodes.len() - node, 1nat, 0nat,
{
    if node < nodes.len() {
        let below = outline_children(nodes, node, depth + 1, nodes[node as int].children.len());
        lemma_outline_children_name_nodes(nodes, node, depth + 1, nodes[node as int].children.len());
        assert forall|i: int| 0 <= i < outline_of(nodes, node, depth).len() implies (#[trigger] outline_of(
            nodes,
            node,
            depth,
        )[i]).1 < nodes.len() by {
            if i > 0 {
                assert(outline_of(nodes, node, depth)[i] == below[i - 1]);
            }
        }
    }
}

proof fn lemma_outline_children_name_nodes<T>(nodes: Seq<NodeView<T>>, node: nat, depth: nat, upto: nat)
    ensures
        forall|i: int|
            0 <= i < outline_children(nodes, node, depth, upto).len() ==> (#[trigger] outline_children(
                nodes,
                node,
                depth,
                upto,
            )[i]).1 < nodes.len(),
    decreases nodes.len() - node, 0nat, upto,
{
    if upto > 0 && node < nodes.len() {
        let child = nodes[node as int].children[upto - 1];
        let before = outline_children(nodes, node, depth, (upto - 1) as nat);
        lemma_outline_children_name_nodes(nodes, node, depth, (upto - 1) as nat);
        if node < child < nodes.len() {
            lemma_outline_names_nodes(nodes, child, depth);
            let last = outline_of(nodes, child, depth);
            assert forall|i: int| 0 <= i < outline_children(nodes, node, depth, upto).len() implies (
            #[trigger] outline_children(nodes, node, depth, upto)[i]).1 < nodes.len() by {
                if i < before.len() {
                    assert(outline_children(nodes, node, depth, upto)[i] == before[i]);
                } else {
                    assert(outline_children(nodes, node, depth, upto)[i] == last[i - before.len()]);
                }
            }
        }
    }
}

/// An outline as the contracts see it.
pub open spec fn outline_view(lines: Seq<(usize, AssumptionTreeNodeHandle)>) -> Seq<(nat, nat)> {
    Seq::new(lines.len(), |i: int| (lines[i].0 as nat, lines[i].1.0 as nat))
}

impl<T> AssumptionTree<T> {
    /// Adds to `out` the outline of the tree below a node.
    fn outline_from(&self, node: usize, depth: usize, out: &mut Vec<(usize, AssumptionTreeNodeHandle)>)
        requires
            self.wf(),
            node < self.view().len(),
            depth <= node,
        ensures
            outline_view(final(out)@) == outline_view(old(out)@) + outline_of(self.view(), node as nat, depth as nat),
        decreases self.view().len() - node,
    {
        let ghost nodes = self.view();
        let ghost base = outline_view(out@);
        out.push((depth, AssumptionTreeNodeHandle(node)));
        assert(outline_view(out@) =~= base + seq![(depth as nat, node as nat)]);
        let count = self.nodes[node].children.len();
        let mut k: usize = 0;
        assert(outline_view(out@) =~= base + (seq![(depth as nat, node as nat)] + outline_children(
            nodes,
            node as nat,
            (depth + 1) as nat,
            0,
        )));
        while k < count
            invariant
                self.wf(),
                nodes == self.view(),
                node < nodes.len(),
                depth <= node,
                count == nodes[node as int].children.len(),
                k <= count,
                outline_view(out@) == base + (seq![(depth as nat, node as nat)] + outline_children(
                    nodes,
                    node as nat,
                    (depth + 1) as nat,
                    k as nat,
                )),
            decreases count - k,
        {
            let child = self.nodes[node].children[k].0;
            proof {
                lemma_children_are_children(nodes, node as nat, nodes.len() as int, k as int);
                assert(nodes[node as int].children[k as int] == child);
            }
            let ghost before = outline_view(out@);
            self.outline_from(child, depth + 1, out);
            assert(outline_view(out@) =~= base + (seq![(depth as nat, node as nat)] + outline_children(
                nodes,
                node as nat,
                (depth + 1) as nat,
                (k + 1) as nat,
            )));
            k += 1;
        }
    }

    /// The whole tree, written down node by node from the root: each node
    /// with its depth, a parent before its children, the children in the
    /// order in which they were added.
    pub fn outline(&self) -> (lines: Vec<(usize, AssumptionTreeNodeHandle)>)
        requires
            self.wf(),
        ensures
            outline_view(lines@) == outline_of(self.view(), 0, 0),
            forall|i: int| 0 <= i < lines.len() ==> self.contains(#[trigger] lines[i].1),
    {
        let mut lines: Vec<(usize, AssumptionTreeNodeHandle)> = Vec::new();
        assert(outline_view(lines@) =~= Seq::<(nat, nat)>::empty());
        self.outline_from(0, 0, &mut lines);
        proof {
            lemma_outline_names_nodes(self.view(), 0, 0);
            assert forall|i: int| 0 <= i < lines.len() implies self.contains(#[trigger] lines[i].1) by {
                assert(outline_view(lines@)[i].1 == lines[i].1.0);
            }
        }
        lines
    }

    /// The nodes of the tree, in the order in which they were added.
    pub closed spec fn view(&self) -> Seq<NodeView<T>> {
        Seq::new(
            self.nodes@.len(),
            |i: int|
                NodeView {
                    parent: match self.nodes@[i].parent {
                        Some(p) => Some(p.0 as nat),
                        None => None,
                    },
                    data: self.nodes@[i].data,
                    children: Seq::new(self.nodes@[i].children@.len(), |k: int| self.nodes@[i].children@[k].0 as nat),
                },
        )
    }

    /// The tree is sound as a value: see [`well_formed`].
    pub open spec fn wf(&self) -> bool {
        well_formed(self.view())
    }

    /// The handle names a node of this tree.
    pub open spec fn contains(&self, node: AssumptionTreeNodeHandle) -> bool {
        node.0 < self.view().len()
    }

    /// A tree with just a root, and the root's handle.
    pub fn new(initial: T) -> (made: (Self, AssumptionTreeNodeHandle))
        ensures
            made.0.wf(),
            made.0.view() == seq![NodeView { parent: None::<nat>, data: initial, children: Seq::<nat>::empty() }],
            made.1 == AssumptionTreeNodeHandle(0),
    {
        let mut nodes: Vec<AssumptionTreeNode<T>> = Vec::new();
        nodes.push(AssumptionTreeNode { parent: None, data: initial, children: Vec::new() });
        let tree = Self { nodes };
        proof {
            let expected = seq![NodeView { parent: None::<nat>, data: initial, children: Seq::<nat>::empty() }];
            assert(tree.view()[0].children =~= Seq::<nat>::empty());
            assert(tree.view() =~= expected);
            assert(children_among(expected, 0, 1) =~= Seq::<nat>::empty()) by {
                assert(children_among(expected, 0, 0) =~= Seq::<nat>::empty());
            }
        }
        (tree, AssumptionTreeNodeHandle(0))
    }

    /// Adds a node below `parent` and returns its handle: the next number.
    pub fn insert_child(&mut self, parent: AssumptionTreeNodeHandle, child: T) -> (handle:
        AssumptionTreeNodeHandle)
        requires
            old(self).wf(),
            old(self).contains(parent),
        ensures
            final(self).wf(),
            final(self).view() == with_child(old(self).view(), parent.0 as nat, child),
            handle.0 == old(self).view().len(),
    {
        let ghost before = self.view();
        let child_handle = AssumptionTreeNodeHandle(self.nodes.len());
        self.nodes.push(AssumptionTreeNode { parent: Some(parent), data: child, children: Vec::new() });
        self.nodes[parent.0].children.push(child_handle);
        proof {
            let after = with_child(before, parent.0 as nat, child);
            assert forall|i: int| 0 <= i < after.len() implies self.view()[i] == after[i] by {
                assert(self.view()[i].children =~= after[i].children);
            }
            assert(self.view() =~= after);
            lemma_with_child_is_well_formed(before, parent.0 as nat, child);
        }
        child_handle
    }

    /// The handle of the node with the given number, if there is such a node.
    pub fn get_handle(&self, node: usize) -> (found: Result<AssumptionTreeNodeHandle, AssumptionTreeError>)
        ensures
            match found {
                Ok(handle) => handle.0 == node && self.contains(handle),
                Err(e) => e == AssumptionTreeError::UnknownNode(node) && node >= self.view().len(),
            },
    {
        if node >= self.nodes.len() {
            return Err(AssumptionTreeError::UnknownNode(node));
        }
        return Ok(AssumptionTreeNodeHandle(node));
    }

    /// The parent of a node; the root has none.
    pub fn parent_of(&self, node: AssumptionTreeNodeHandle) -> (parent: Option<AssumptionTreeNodeHandle>)
        requires
            self.contains(node),
        ensures
            match parent {
                Some(p) => self.view()[node.0 as int].parent == Some(p.0 as nat),
                None => self.view()[node.0 as int].parent is None,
            },
    {
        self.nodes[node.0].parent
    }

    /// The number of nodes.
    pub fn len(&self) -> (count: usize)
        ensures
            count == self.view().len(),
    {
        self.nodes.len()
    }

    /// What a node holds.
    pub fn get(&self, index: AssumptionTreeNodeHandle) -> (data: &T)
        requires
            self.contains(index),
        ensures
            *data == self.view()[index.0 as int].data,
    {
        &self.nodes[index.0].data
    }

    /// What a node holds, to be changed in place. Nothing else changes.
    pub fn get_mut(&mut self, index: AssumptionTreeNodeHandle) -> (data: &mut T)
        requires
            old(self).contains(index),
        ensures
            *data == old(self).view()[index.0 as int].data,
            final(self).view() == old(self).view().update(
                index.0 as int,
                NodeView { data: *final(data), ..old(self).view()[index.0 as int] },
            ),
    {
        let node = &mut self.nodes[index.0];
        &mut node.data
    }

    /// The children of a node, in the order in which they were added.
    pub fn children_of(&self, node: AssumptionTreeNodeHandle) -> (children: &Vec<AssumptionTreeNodeHandle>)
        requires
            self.contains(node),
        ensures
            children@.len() == self.view()[node.0 as int].children.len(),
            forall|k: int| 0 <= k < children@.len() ==> (#[trigger] children@[k]).0 == self.view()[node.0 as int].children[k],
    {
        &self.nodes[node.0].children
    }
}

} // verus!
