use vstd::prelude::*;
use vstd::string::*;
use crate::model::DomView;
use crate::name::{copy_opt_string, opt_str_view, Name};
use crate::node::{Node, NodeId, NodeType};
use crate::seqs::{lemma_index_of_unique, position};

verus! {

/// An arena of nodes. Nodes are made by a document's factory operations and
/// named by the handle that the operation returns; a handle stays good for as
/// long as the arena lives, whether or not the node is in a tree.
pub struct Dom {
    pub(crate) nodes: Vec<Node>,
    /// For each node a height above which none of its descendants lies. It
    /// shows that parent links never run in a circle.
    pub(crate) rank: Ghost<Seq<nat>>,
    /// A height that no rank exceeds.
    pub(crate) bound: Ghost<nat>,
}

impl View for Dom {
    type V = DomView;

    open(crate) spec fn view(&self) -> DomView {
        DomView { nodes: Seq::new(self.nodes@.len(), |i: int| self.nodes@[i]@) }
    }
}

impl Dom {
    /// The ranks witness that the parent links are free of cycles.
    pub open(crate) spec fn ranked(&self) -> bool {
        self@.ranked(self.rank@, self.bound@)
    }

    /// The height that the ranks give a node.
    pub open(crate) spec fn rank_of(&self, n: NodeId) -> nat {
        self.rank@[n as int]
    }

    /// The arena is well formed: its content satisfies the tree's invariant
    /// and no node lies below itself.
    pub open(crate) spec fn wf(&self) -> bool {
        &&& self@.inv()
        &&& self.ranked()
    }

    /// An arena without nodes.
    pub fn new() -> (res: Dom)
        ensures
            res.wf(),
            res@.nodes.len() == 0,
    {
        Dom { nodes: Vec::new(), rank: Ghost(Seq::empty()), bound: Ghost(0) }
    }

    /// The number of nodes ever made in this arena.
    pub fn len(&self) -> (res: usize)
        ensures
            res == self@.nodes.len(),
    {
        self.nodes.len()
    }

    /// Whether a handle names a node of this arena.
    pub fn contains(&self, node: NodeId) -> (res: bool)
        ensures
            res == self@.contains(node),
    {
        node < self.nodes.len()
    }

    pub fn name(&self, node: NodeId) -> (res: Name)
        requires
            self@.contains(node),
        ensures
            res@ == self@.name(node),
    {
        self.nodes[node].name.clone()
    }

    pub fn node_value(&self, node: NodeId) -> (res: Option<String>)
        requires
            self@.contains(node),
        ensures
            opt_str_view(res) == self@.value(node),
    {
        copy_opt_string(&self.nodes[node].value)
    }

    pub fn node_type(&self, node: NodeId) -> (res: NodeType)
        requires
            self@.contains(node),
        ensures
            res == self@.node_type(node),
    {
        self.nodes[node].node_type
    }

    /// The parent of a node. An attribute reports none, whatever it hangs on.
    pub fn parent_node(&self, node: NodeId) -> (res: Option<NodeId>)
        requires
            self@.contains(node),
        ensures
            res == self@.parent_node(node),
    {
        match self.nodes[node].node_type {
            NodeType::Attribute => None,
            _ => self.nodes[node].parent,
        }
    }

    pub fn owner_document(&self, node: NodeId) -> (res: Option<NodeId>)
        requires
            self@.contains(node),
        ensures
            res == self@.owner_document(node),
    {
        self.nodes[node].owner_document
    }

    /// The children of a node, in order.
    pub fn child_nodes(&self, node: NodeId) -> (res: Vec<NodeId>)
        requires
            self@.contains(node),
        ensures
            res@ == self@.children(node),
    {
        self.nodes[node].children.clone()
    }

    pub fn has_child_nodes(&self, node: NodeId) -> (res: bool)
        requires
            self@.contains(node),
        ensures
            res == (self@.children(node).len() > 0),
    {
        self.nodes[node].children.len() > 0
    }

    pub fn first_child(&self, node: NodeId) -> (res: Option<NodeId>)
        requires
            self@.contains(node),
        ensures
            res == self@.first_child(node),
    {
        if self.nodes[node].children.len() > 0 {
            Some(self.nodes[node].children[0])
        } else {
            None
        }
    }

    pub fn last_child(&self, node: NodeId) -> (res: Option<NodeId>)
        requires
            self@.contains(node),
        ensures
            res == self@.last_child(node),
    {
        let n: usize = self.nodes[node].children.len();
        if n > 0 {
            Some(self.nodes[node].children[n - 1])
        } else {
            None
        }
    }

    /// Where a node stands among the children of its parent.
    pub(crate) fn sibling_index(&self, node: NodeId) -> (res: Option<(NodeId, usize)>)
        requires
            self.wf(),
            self@.contains(node),
        ensures
            match res {
                Some((p, i)) => self@.parent_node(node) == Some(p) && self@.contains(p)
                    && self@.sibling_index(node) == Some(i as int) && i < self@.children(p).len(),
                None => self@.sibling_index(node) is None,
            },
    {
        match self.parent_node(node) {
            None => None,
            Some(p) => {
                proof {
                    assert(self@.node_inv(node));
                    assert(self@.node_inv(p));
                }
                match position(&self.nodes[p].children, node) {
                    None => None,
                    Some(i) => {
                        proof {
                            lemma_index_of_unique(self@.children(p), i as int);
                        }
                        Some((p, i))
                    },
                }
            },
        }
    }

    /// The child just before a node under the same parent. A node without a
    /// parent, an attribute and a first child have none.
    pub fn previous_sibling(&self, node: NodeId) -> (res: Option<NodeId>)
        requires
            self.wf(),
            self@.contains(node),
        ensures
            res == self@.previous_sibling(node),
    {
        match self.sibling_index(node) {
            None => None,
            Some((p, i)) => {
                if i == 0 {
                    None
                } else {
                    Some(self.nodes[p].children[i - 1])
                }
            },
        }
    }

    /// The child just after a node under the same parent. A node without a
    /// parent, an attribute and a last child have none.
    pub fn next_sibling(&self, node: NodeId) -> (res: Option<NodeId>)
        requires
            self.wf(),
            self@.contains(node),
        ensures
            res == self@.next_sibling(node),
    {
        match self.sibling_index(node) {
            None => None,
            Some((p, i)) => {
                let n: usize = self.nodes[p].children.len();
                assert(i < n);
                if i + 1 < n {
                    Some(self.nodes[p].children[i + 1])
                } else {
                    None
                }
            },
        }
    }
}

} // verus!
