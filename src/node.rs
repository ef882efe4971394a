use vstd::prelude::*;

verus! {

/// The identifier of a node: its index in the owning tree's node sequence.
#[derive(Debug, Clone, Copy, PartialEq, Eq, Structural)]
pub struct NodeId(pub usize);

/// The abstract content of a node: its value, its parent, and its children
/// in the order in which they were added.
pub struct NodeView<T> {
    pub value: T,
    pub parent: Option<NodeId>,
    pub children: Seq<NodeId>,
}

/// A node of an [`ITree`](crate::ITree). Only the tree builds and extends one.
#[derive(Debug, Clone, PartialEq, Eq)]
pub struct INode<T> {
    value: T,
    parent: Option<NodeId>,
    children: Vec<NodeId>,
}

impl<T> View for INode<T> {
    type V = NodeView<T>;

    closed spec fn view(&self) -> NodeView<T> {
        NodeView { value: self.value, parent: self.parent, children: self.children@ }
    }
}

impl<T> INode<T> {
    /// A node with no children yet.
    pub(crate) fn new(value: T, parent: Option<NodeId>) -> (n: Self)
        ensures
            n@ == (NodeView { value, parent, children: Seq::<NodeId>::empty() }),
    {
        INode { value, parent, children: Vec::new() }
    }

    /// Appends `child` to the end of the child list.
    pub(crate) fn insert(&mut self, child: NodeId)
        ensures
            final(self)@ == (NodeView { children: old(self)@.children.push(child), ..old(self)@ }),
    {
        self.children.push(child);
    }

    /// The stored value.
    pub fn value(&self) -> (r: &T)
        ensures
            *r == self@.value,
    {
        &self.value
    }

    /// The parent's identifier; `None` only for the root.
    pub fn parent(&self) -> (r: Option<NodeId>)
        ensures
            r == self@.parent,
    {
        self.parent
    }

    /// The children's identifiers, in the order in which they were added.
    pub fn children(&self) -> (r: &Vec<NodeId>)
        ensures
            r@ == self@.children,
    {
        &self.children
    }
}

} // verus!
