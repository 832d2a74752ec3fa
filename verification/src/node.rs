//! The two node kinds of the wire format's decoded tree.
//!
//! A [`Node`] is either an atomic byte payload (a value node) or an ordered
//! sequence of child nodes (a list node).  A node carries no inherent type;
//! meaning is imposed by the codec that decodes it.  The mathematical model
//! of a node is a [`NodeView`], the same shape over `Seq`.

use vstd::prelude::*;

verus! {

/// A decoded wire node: an atomic byte payload or an ordered list of
/// child nodes.
#[derive(Debug, PartialEq, Eq)]
pub enum Node {
    /// An atomic ordered byte payload.
    Value(Vec<u8>),
    /// An ordered sequence of child nodes.
    List(Vec<Node>),
}

/// The mathematical model of a [`Node`].
pub enum NodeView {
    /// An atomic ordered byte payload.
    Value(Seq<u8>),
    /// An ordered sequence of child nodes.
    List(Seq<NodeView>),
}

/// The model of a sequence of nodes: each node replaced by its model,
/// in order.
pub open spec fn nodes_view(nodes: Seq<Node>) -> Seq<NodeView>
    decreases nodes,
{
    if nodes.len() == 0 {
        Seq::empty()
    } else {
        nodes_view(nodes.drop_last()).push(node_view(nodes.last()))
    }
}

/// The model of a node: payload bytes become a `Seq<u8>`, children become
/// their models.
pub open spec fn node_view(node: Node) -> NodeView
    decreases node,
{
    match node {
        Node::Value(bytes) => NodeView::Value(bytes@),
        Node::List(children) => NodeView::List(nodes_view(children@)),
    }
}

impl View for Node {
    type V = NodeView;

    open spec fn view(&self) -> NodeView {
        node_view(*self)
    }
}

impl DeepView for Node {
    type V = NodeView;

    open spec fn deep_view(&self) -> NodeView {
        node_view(*self)
    }
}

/// The model of a node sequence has the same length, and models each
/// element in place.
pub proof fn lemma_nodes_view(nodes: Seq<Node>)
    ensures
        nodes_view(nodes).len() == nodes.len(),
        forall|i: int|
            0 <= i < nodes.len() ==> #[trigger] nodes_view(nodes)[i] == node_view(nodes[i]),
    decreases nodes,
{
    if nodes.len() > 0 {
        lemma_nodes_view(nodes.drop_last());
        assert forall|i: int| 0 <= i < nodes.len() implies #[trigger] nodes_view(nodes)[i]
            == node_view(nodes[i]) by {
            if i < nodes.len() - 1 {
                assert(nodes.drop_last()[i] == nodes[i]);
            }
        }
    }
}

} // verus!
