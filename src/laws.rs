//! Properties of every tree built by the operations of [`ITree`].

use vstd::prelude::*;

use crate::node::{NodeId, NodeView};
use crate::tree::{children_among, extends, with_node_added, ITree};

verus! {

/// What `children_among` holds: only nodes under `p` among the first `n`,
/// every such node, in strictly increasing order of identifier.
proof fn lemma_children_among_facts<T>(nodes: Seq<NodeView<T>>, p: NodeId, n: nat)
    requires
        n <= nodes.len(),
        nodes.len() <= usize::MAX,
    ensures
        ({
            let c = children_among(nodes, p, n);
            &&& forall|k: int|
                0 <= k < c.len() ==> (#[trigger] c[k]).0 < n && nodes[c[k].0 as int].parent == Some(
                    p,
                )
            &&& forall|j: int|
                0 <= j < n && (#[trigger] nodes[j]).parent == Some(p) ==> c.contains(
                    NodeId(j as usize),
                )
            &&& forall|a: int, b: int| 0 <= a < b < c.len() ==> (#[trigger] c[a]).0 < (#[trigger] c[b]).0
        }),
    decreases n,
{
    if n > 0 {
        lemma_children_among_facts(nodes, p, (n - 1) as nat);
        let rest = children_among(nodes, p, (n - 1) as nat);
        let c = children_among(nodes, p, n);
        assert forall|j: int|
            0 <= j < n && (#[trigger] nodes[j]).parent == Some(p) implies c.contains(
            NodeId(j as usize),
        ) by {
            if j < n - 1 {
                assert(rest.contains(NodeId(j as usize)));
                let k = choose|k: int| 0 <= k < rest.len() && rest[k] == NodeId(j as usize);
                assert(c[k] == rest[k]);
            } else {
                assert(c[c.len() - 1] == NodeId(j as usize));
            }
        }
    }
}

/// The children of a node are exactly the nodes added under it, each once,
/// in the order in which they were added (which is increasing order of
/// identifier).
pub proof fn lemma_children_in_insertion_order<T>(tree: &ITree<T>, p: NodeId)
    requires
        tree.wf(),
        p.0 < tree@.len(),
    ensures
        ({
            let c = tree@[p.0 as int].children;
            &&& forall|k: int|
                0 <= k < c.len() ==> (#[trigger] c[k]).0 < tree@.len() && tree@[c[k].0 as int].parent
                    == Some(p)
            &&& forall|j: int|
                0 <= j < tree@.len() && (#[trigger] tree@[j]).parent == Some(p) ==> c.contains(
                    NodeId(j as usize),
                )
            &&& forall|a: int, b: int| 0 <= a < b < c.len() ==> (#[trigger] c[a]).0 < (#[trigger] c[b]).0
        }),
{
    assert(tree@[p.0 as int].children == children_among(tree@, NodeId(p.0), tree@.len()));
    lemma_children_among_facts(tree@, p, tree@.len());
}

/// Every node but the root appears in the child list of exactly one node,
/// its parent, and appears there exactly once.
pub proof fn lemma_unique_appearance<T>(tree: &ITree<T>, id: NodeId)
    requires
        tree.wf(),
        0 < id.0 < tree@.len(),
    ensures
        ({
            let p = tree@[id.0 as int].parent->0;
            &&& tree@[p.0 as int].children.contains(id)
            &&& tree@[p.0 as int].children.no_duplicates()
            &&& forall|q: int|
                0 <= q < tree@.len() && q != p.0 ==> !(#[trigger] tree@[q]).children.contains(id)
        }),
{
    let p = tree@[id.0 as int].parent->0;
    lemma_children_in_insertion_order(tree, p);
    assert(tree@[id.0 as int].parent == Some(p));
    assert forall|q: int|
        0 <= q < tree@.len() && q != p.0 implies !(#[trigger] tree@[q]).children.contains(id) by {
        lemma_children_in_insertion_order(tree, NodeId(q as usize));
        if tree@[q].children.contains(id) {
            let k = choose|k: int| 0 <= k < tree@[q].children.len() && tree@[q].children[k] == id;
            assert(tree@[id.0 as int].parent == Some(NodeId(q as usize)));
        }
    }
}

/// The root, node 0, is the only node without a parent.
pub proof fn lemma_root_rules<T>(tree: &ITree<T>)
    requires
        tree.wf(),
        tree@.len() > 0,
    ensures
        tree@[0].parent is None,
        forall|i: int| 0 < i < tree@.len() ==> (#[trigger] tree@[i]).parent is Some,
{
}

/// Every node's parent was added before it.
pub proof fn lemma_parent_precedes<T>(tree: &ITree<T>, id: NodeId)
    requires
        tree.wf(),
        0 < id.0 < tree@.len(),
    ensures
        tree@[id.0 as int].parent is Some,
        (tree@[id.0 as int].parent->0).0 < id.0,
{
}

/// Insertions compose: what a run of insertions keeps of the nodes before it,
/// a longer run keeps too.
pub proof fn lemma_extends_transitive<T>(
    a: Seq<NodeView<T>>,
    b: Seq<NodeView<T>>,
    c: Seq<NodeView<T>>,
)
    requires
        extends(a, b),
        extends(b, c),
    ensures
        extends(a, c),
{
    assert forall|i: int| 0 <= i < a.len() implies {
        &&& (#[trigger] c[i]).value == a[i].value
        &&& c[i].parent == a[i].parent
        &&& a[i].children.is_prefix_of(c[i].children)
    } by {
        assert(b[i].value == a[i].value);
        assert(c[i].value == b[i].value);
        assert(a[i].children =~= c[i].children.subrange(0, a[i].children.len() as int));
    }
}

/// A node present in a tree stays present, with the same value and parent,
/// in every tree that later insertions make of it.
pub proof fn lemma_node_stays<T>(earlier: &ITree<T>, later: &ITree<T>, id: NodeId)
    requires
        extends(earlier@, later@),
        id.0 < earlier@.len(),
    ensures
        id.0 < later@.len(),
        later@[id.0 as int].value == earlier@[id.0 as int].value,
        later@[id.0 as int].parent == earlier@[id.0 as int].parent,
{
}

/// The node sequence that the first `n` calls of `add_node` build on a new
/// tree, the `i`-th call with `parents[i]` and `values[i]`, when each call
/// succeeds.
pub open spec fn built<T>(parents: Seq<NodeId>, values: Seq<T>, n: nat) -> Seq<NodeView<T>>
    decreases n,
{
    if n == 0 {
        Seq::empty()
    } else {
        with_node_added(built(parents, values, (n - 1) as nat), parents[n - 1], values[n - 1])
    }
}

/// The identifiers returned by those of the first `n` calls that added a node
/// under `p`, in call order. The first call makes the root and is under no node.
pub open spec fn added_under(parents: Seq<NodeId>, p: NodeId, n: nat) -> Seq<NodeId>
    decreases n,
{
    if n <= 1 {
        Seq::empty()
    } else {
        let rest = added_under(parents, p, (n - 1) as nat);
        if parents[n - 1] == p {
            rest.push(NodeId((n - 1) as usize))
        } else {
            rest
        }
    }
}

/// No call among the first `n` after the first named `p` as parent.
proof fn lemma_added_under_none(parents: Seq<NodeId>, p: NodeId, n: nat)
    requires
        n <= parents.len(),
        forall|j: int| 0 < j < n ==> (#[trigger] parents[j]) != p,
    ensures
        added_under(parents, p, n) == Seq::<NodeId>::empty(),
    decreases n,
{
    if n > 1 {
        lemma_added_under_none(parents, p, (n - 1) as nat);
    }
}

/// After a run of successful insertions, each node holds the value it was
/// added with and the parent it was added under (none for the first), and
/// its children are exactly the identifiers that the insertions under it
/// returned, in the order in which they were returned.
pub proof fn lemma_children_follow_insertions<T>(parents: Seq<NodeId>, values: Seq<T>, n: nat)
    requires
        n <= parents.len(),
        n <= values.len(),
        n <= usize::MAX,
        forall|i: int| 0 < i < n ==> (#[trigger] parents[i]).0 < i,
    ensures
        built(parents, values, n).len() == n,
        forall|i: int|
            0 <= i < n ==> {
                &&& (#[trigger] built(parents, values, n)[i]).value == values[i]
                &&& built(parents, values, n)[i].parent == (if i == 0 {
                    None
                } else {
                    Some(parents[i])
                })
                &&& built(parents, values, n)[i].children == added_under(
                    parents,
                    NodeId(i as usize),
                    n,
                )
            },
    decreases n,
{
    if n > 0 {
        lemma_children_follow_insertions(parents, values, (n - 1) as nat);
        let t = built(parents, values, n);
        assert forall|i: int| 0 <= i < n implies {
            &&& (#[trigger] built(parents, values, n)[i]).value == values[i]
            &&& t[i].parent == (if i == 0 {
                None
            } else {
                Some(parents[i])
            })
            &&& t[i].children == added_under(parents, NodeId(i as usize), n)
        } by {
            if i == n - 1 {
                assert forall|j: int| 0 < j < n implies (#[trigger] parents[j]) != NodeId(
                    i as usize,
                ) by {
                    if j < n - 1 {
                        assert(parents[j].0 < j);
                    }
                }
                lemma_added_under_none(parents, NodeId(i as usize), n);
            }
        }
    }
}

} // verus!
