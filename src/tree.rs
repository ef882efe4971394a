use vstd::prelude::*;

use crate::node::{INode, NodeId, NodeView};

verus! {

/// Why an insertion was refused. A refused insertion leaves the tree as it was.
#[derive(Debug, Clone, Copy, PartialEq, Eq, Structural)]
pub enum TreeError {
    /// The tree is not empty and the requested parent is not one of its nodes.
    OutOfRangeParent,
}

/// The identifiers, in increasing order, of those among the first `n` of
/// `nodes` whose parent is `p`.
pub open spec fn children_among<T>(nodes: Seq<NodeView<T>>, p: NodeId, n: nat) -> Seq<NodeId>
    decreases n,
{
    if n == 0 {
        Seq::empty()
    } else {
        let rest = children_among(nodes, p, (n - 1) as nat);
        if nodes[n - 1].parent == Some(p) {
            rest.push(NodeId((n - 1) as usize))
        } else {
            rest
        }
    }
}

/// The shape of a tree's node sequence: node 0 is the root and the only node
/// without a parent, every other node's parent comes before it, and each
/// node's children are the nodes whose parent it is, in the order in which
/// they were added.
pub open spec fn tree_wf<T>(nodes: Seq<NodeView<T>>) -> bool {
    &&& nodes.len() <= usize::MAX
    &&& nodes.len() > 0 ==> nodes[0].parent is None
    &&& forall|i: int|
        0 < i < nodes.len() ==> (#[trigger] nodes[i]).parent is Some && (nodes[i].parent->0).0 < i
    &&& forall|i: int|
        0 <= i < nodes.len() ==> (#[trigger] nodes[i]).children == children_among(
            nodes,
            NodeId(i as usize),
            nodes.len(),
        )
}

/// The node sequence after `value` is added under `parent`: on an empty
/// sequence the root, which has no parent; otherwise a new last node under
/// `parent`, whose identifier is appended to the parent's children.
pub open spec fn with_node_added<T>(nodes: Seq<NodeView<T>>, parent: NodeId, value: T) -> Seq<
    NodeView<T>,
> {
    if nodes.len() == 0 {
        seq![(NodeView { value, parent: None, children: Seq::empty() })]
    } else {
        let p = nodes[parent.0 as int];
        let id = NodeId(nodes.len() as usize);
        nodes.update(
            parent.0 as int,
            (NodeView { value: p.value, parent: p.parent, children: p.children.push(id) }),
        ).push((NodeView { value, parent: Some(parent), children: Seq::empty() }))
    }
}

/// `later` is `earlier` after some insertions: no node was lost, every node
/// keeps its value and parent, and every child list only grew at its end.
pub open spec fn extends<T>(earlier: Seq<NodeView<T>>, later: Seq<NodeView<T>>) -> bool {
    &&& earlier.len() <= later.len()
    &&& forall|i: int|
        0 <= i < earlier.len() ==> {
            &&& (#[trigger] later[i]).value == earlier[i].value
            &&& later[i].parent == earlier[i].parent
            &&& earlier[i].children.is_prefix_of(later[i].children)
        }
}

/// Two node sequences whose first `n` nodes have the same parents give those
/// nodes the same child lists.
proof fn lemma_children_among_same_parents<T>(
    a: Seq<NodeView<T>>,
    b: Seq<NodeView<T>>,
    p: NodeId,
    n: nat,
)
    requires
        n <= a.len(),
        n <= b.len(),
        forall|j: int| 0 <= j < n ==> (#[trigger] a[j]).parent == b[j].parent,
    ensures
        children_among(a, p, n) == children_among(b, p, n),
    decreases n,
{
    if n > 0 {
        lemma_children_among_same_parents(a, b, p, (n - 1) as nat);
    }
}

/// A node that is no one's parent among the first `n` has no children there.
proof fn lemma_children_among_none<T>(nodes: Seq<NodeView<T>>, p: NodeId, n: nat)
    requires
        n <= nodes.len(),
        forall|j: int| 0 <= j < n ==> (#[trigger] nodes[j]).parent != Some(p),
    ensures
        children_among(nodes, p, n) == Seq::<NodeId>::empty(),
    decreases n,
{
    if n > 0 {
        lemma_children_among_none(nodes, p, (n - 1) as nat);
    }
}

/// An append-only tree whose nodes are named by their index in insertion order.
#[derive(Debug, Clone)]
pub struct ITree<T> {
    nodes: Vec<INode<T>>,
}

impl<T> View for ITree<T> {
    type V = Seq<NodeView<T>>;

    closed spec fn view(&self) -> Seq<NodeView<T>> {
        self.nodes@.map_values(|n: INode<T>| n@)
    }
}

impl<T> ITree<T> {
    /// The tree's nodes have the shape that `tree_wf` describes.
    pub open spec fn wf(&self) -> bool {
        tree_wf(self@)
    }

    /// An empty tree: no root, and no identifier names a node.
    pub fn new() -> (t: Self)
        ensures
            t.wf(),
            t@ == Seq::<NodeView<T>>::empty(),
    {
        let t = ITree { nodes: Vec::new() };
        assert(t@ =~= Seq::<NodeView<T>>::empty());
        t
    }

    /// The root, node 0, if the tree has any node.
    pub fn root(&self) -> (r: Option<&INode<T>>)
        ensures
            r is Some <==> self@.len() > 0,
            r is Some ==> r->0@ == self@[0],
    {
        if self.nodes.len() > 0 {
            Some(&self.nodes[0])
        } else {
            None
        }
    }

    /// The node named by `node`, if it is one of this tree's.
    pub fn get(&self, node: NodeId) -> (r: Option<&INode<T>>)
        ensures
            r is Some <==> node.0 < self@.len(),
            r is Some ==> r->0@ == self@[node.0 as int],
    {
        let NodeId(x) = node;
        if x < self.nodes.len() {
            Some(&self.nodes[x])
        } else {
            None
        }
    }

    /// Adds `value` as the last child of `node` and returns the new node's
    /// identifier, which is the number of nodes before the call. On an empty
    /// tree `node` is ignored and `value` becomes the root, `NodeId(0)`. On a
    /// non-empty tree where `node` names no node, nothing changes and
    /// `OutOfRangeParent` is returned.
    pub fn add_node(&mut self, node: NodeId, value: T) -> (r: Result<NodeId, TreeError>)
        requires
            old(self).wf(),
        ensures
            final(self).wf(),
            old(self)@.len() == 0 || node.0 < old(self)@.len() ==> {
                &&& r == Ok::<NodeId, TreeError>(NodeId(old(self)@.len() as usize))
                &&& final(self)@ == with_node_added(old(self)@, node, value)
            },
            old(self)@.len() > 0 && node.0 >= old(self)@.len() ==> {
                &&& r == Err::<NodeId, TreeError>(TreeError::OutOfRangeParent)
                &&& final(self)@ == old(self)@
            },
            extends(old(self)@, final(self)@),
    {
        let ghost s = self@;
        let ghost v = value;
        if self.nodes.len() == 0 {
            self.nodes.push(INode::new(value, None));
            proof {
                let s2 = with_node_added(s, node, v);
                assert(self@ =~= s2);
                lemma_children_among_none(s2, NodeId(0), 1);
            }
            Ok(NodeId(0))
        } else if node.0 < self.nodes.len() {
            let NodeId(x) = node;
            let index = NodeId(self.nodes.len());
            self.nodes[x].insert(index);
            self.nodes.push(INode::new(value, Some(node)));
            proof {
                let s2 = with_node_added(s, node, v);
                assert(self@ =~= s2);
                assert(self.nodes@.len() == self.nodes.len());
                assert forall|i: int| 0 <= i < s2.len() implies (#[trigger] s2[i]).children
                    == children_among(s2, NodeId(i as usize), s2.len()) by {
                    lemma_children_among_same_parents(s, s2, NodeId(i as usize), s.len());
                    if i == s.len() {
                        lemma_children_among_none(s2, NodeId(i as usize), s2.len());
                    }
                }
                assert forall|i: int| 0 <= i < s.len() implies (#[trigger] s[i]).children.is_prefix_of(
                    s2[i].children,
                ) by {
                    if i == x {
                        assert(s[i].children =~= s2[i].children.subrange(0, s[i].children.len() as int));
                    }
                }
            }
            Ok(index)
        } else {
            proof {
                assert forall|i: int| 0 <= i < s.len() implies (#[trigger] s[i]).children.is_prefix_of(
                    s[i].children,
                ) by {
                    assert(s[i].children =~= s[i].children.subrange(0, s[i].children.len() as int));
                }
            }
            Err(TreeError::OutOfRangeParent)
        }
    }
}

} // verus!
