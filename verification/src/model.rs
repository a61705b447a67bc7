use vstd::prelude::*;
use crate::name::NameView;
use crate::node::{child_allowed, ExtensionView, NodeId, NodeType, NodeView};

verus! {

/// The mathematical content of an arena of nodes: one [`NodeView`] per handle.
pub struct DomView {
    pub nodes: Seq<NodeView>,
}

/// The kinds of node that only a document's factory makes, and that therefore
/// always belong to a document.
pub open spec fn is_owned_type(t: NodeType) -> bool {
    !(t is Document || t is DocumentType || t is Entity || t is Notation)
}

/// The payload is the one that the node's kind calls for.
pub open spec fn extension_fits(t: NodeType, e: ExtensionView) -> bool {
    match t {
        NodeType::Document => e is Document,
        NodeType::Element => e is Element,
        NodeType::DocumentType => e is DocumentType,
        NodeType::Entity => e is Entity,
        NodeType::Notation => e is Notation,
        _ => e is Bare,
    }
}

impl DomView {
    /// The handle names a node of this arena.
    pub open spec fn contains(self, n: NodeId) -> bool {
        (n as int) < self.nodes.len()
    }

    pub open spec fn node(self, n: NodeId) -> NodeView {
        self.nodes[n as int]
    }

    pub open spec fn node_type(self, n: NodeId) -> NodeType {
        self.node(n).node_type
    }

    pub open spec fn name(self, n: NodeId) -> NameView {
        self.node(n).name
    }

    pub open spec fn value(self, n: NodeId) -> Option<Seq<char>> {
        self.node(n).value
    }

    /// The node's text, an absent value counting as empty.
    pub open spec fn text(self, n: NodeId) -> Seq<char> {
        match self.node(n).value {
            Some(s) => s,
            None => Seq::empty(),
        }
    }

    pub open spec fn children(self, n: NodeId) -> Seq<NodeId> {
        self.node(n).children
    }

    /// The upward link as it is stored.
    pub open spec fn parent_link(self, n: NodeId) -> Option<NodeId> {
        self.node(n).parent
    }

    /// The parent as navigation reports it: an attribute has none.
    pub open spec fn parent_node(self, n: NodeId) -> Option<NodeId> {
        if self.node_type(n) is Attribute {
            None
        } else {
            self.parent_link(n)
        }
    }

    pub open spec fn owner_document(self, n: NodeId) -> Option<NodeId> {
        self.node(n).owner_document
    }

    /// The document a node's children belong to: the node itself if it is a
    /// document, else its owner.
    pub open spec fn document_of(self, n: NodeId) -> Option<NodeId> {
        if self.node_type(n) is Document {
            Some(n)
        } else {
            self.owner_document(n)
        }
    }

    pub open spec fn is_child(self, parent: NodeId, child: NodeId) -> bool {
        self.children(parent).contains(child)
    }

    /// The attribute nodes of an element, in the order they were first set;
    /// none for any other kind of node.
    pub open spec fn attributes(self, n: NodeId) -> Seq<NodeId> {
        match self.node(n).extension {
            ExtensionView::Element { attributes, .. } => attributes,
            _ => Seq::empty(),
        }
    }

    /// The qualified names of an element's attributes, in order.
    pub open spec fn attribute_names(self, n: NodeId) -> Seq<Seq<char>> {
        Seq::new(
            self.attributes(n).len(),
            |i: int| self.name(self.attributes(n)[i]).qualified(),
        )
    }

    /// The namespace and local name of each of an element's attributes, in order.
    pub open spec fn attribute_ns_names(self, n: NodeId) -> Seq<(Option<Seq<char>>, Seq<char>)> {
        Seq::new(
            self.attributes(n).len(),
            |i: int|
                (
                    self.name(self.attributes(n)[i]).namespace_uri,
                    self.name(self.attributes(n)[i]).local_name,
                ),
        )
    }

    /// The namespace declarations of an element, prefix and URI.
    pub open spec fn namespaces(self, n: NodeId) -> Seq<(Option<Seq<char>>, Seq<char>)> {
        match self.node(n).extension {
            ExtensionView::Element { namespaces, .. } => namespaces,
            _ => Seq::empty(),
        }
    }

    pub open spec fn namespace_prefixes(self, n: NodeId) -> Seq<Option<Seq<char>>> {
        Seq::new(self.namespaces(n).len(), |i: int| self.namespaces(n)[i].0)
    }

    pub open spec fn document_element(self, n: NodeId) -> Option<NodeId> {
        match self.node(n).extension {
            ExtensionView::Document { document_element, .. } => document_element,
            _ => None,
        }
    }

    pub open spec fn document_type(self, n: NodeId) -> Option<NodeId> {
        match self.node(n).extension {
            ExtensionView::Document { document_type, .. } => document_type,
            _ => None,
        }
    }

    /// A document's ID map, value and element; empty for any other node.
    pub open spec fn id_map(self, n: NodeId) -> Seq<(Seq<char>, NodeId)> {
        match self.node(n).extension {
            ExtensionView::Document { id_map, .. } => id_map,
            _ => Seq::empty(),
        }
    }

    /// The ID values that a document has registered, in order.
    pub open spec fn id_values(self, n: NodeId) -> Seq<Seq<char>> {
        Seq::new(self.id_map(n).len(), |i: int| self.id_map(n)[i].0)
    }

    /// Whether a document takes attributes for IDs in the permissive way.
    pub open spec fn assumes_ids(self, n: NodeId) -> bool {
        match self.node(n).extension {
            ExtensionView::Document { options, .. } => options.assume_ids,
            _ => false,
        }
    }

    /// Where a node stands among the children of its parent, if it has a
    /// parent that lists it.
    pub open spec fn sibling_index(self, n: NodeId) -> Option<int> {
        match self.parent_node(n) {
            Some(p) => if self.contains(p) && self.is_child(p, n) {
                Some(self.children(p).index_of(n))
            } else {
                None
            },
            None => None,
        }
    }

    /// The child just before a node under the same parent.
    pub open spec fn previous_sibling(self, n: NodeId) -> Option<NodeId> {
        match self.sibling_index(n) {
            Some(i) => if i > 0 {
                Some(self.children(self.parent_node(n)->0)[i - 1])
            } else {
                None
            },
            None => None,
        }
    }

    /// The child just after a node under the same parent.
    pub open spec fn next_sibling(self, n: NodeId) -> Option<NodeId> {
        match self.sibling_index(n) {
            Some(i) => if i + 1 < self.children(self.parent_node(n)->0).len() {
                Some(self.children(self.parent_node(n)->0)[i + 1])
            } else {
                None
            },
            None => None,
        }
    }

    pub open spec fn first_child(self, n: NodeId) -> Option<NodeId> {
        if self.children(n).len() > 0 {
            Some(self.children(n).first())
        } else {
            None
        }
    }

    pub open spec fn last_child(self, n: NodeId) -> Option<NodeId> {
        if self.children(n).len() > 0 {
            Some(self.children(n).last())
        } else {
            None
        }
    }

    // ------------------------------------------------------------------
    // The invariant
    // ------------------------------------------------------------------
    /// What holds of a child listed under a parent: it exists, points back at
    /// the parent, is of a kind the parent takes, and belongs to the
    /// parent's document.
    pub open spec fn child_edge_ok(self, parent: NodeId, child: NodeId) -> bool {
        &&& self.contains(child)
        &&& self.parent_link(child) == Some(parent)
        &&& child_allowed(self.node_type(parent), self.node_type(child))
        &&& self.owner_document(child) == self.document_of(parent)
    }

    pub open spec fn children_inv(self, n: NodeId) -> bool {
        &&& self.children(n).no_duplicates()
        &&& forall|i: int|
            0 <= i < self.children(n).len() ==> self.child_edge_ok(
                n,
                #[trigger] self.children(n)[i],
            )
    }

    /// A parent link leads to a node that lists this one as a child, or to the
    /// document whose element this node is.
    pub open spec fn parent_inv(self, n: NodeId) -> bool {
        match self.parent_link(n) {
            Some(p) => self.contains(p) && (self.is_child(p, n) || self.document_element(p)
                == Some(n)),
            None => true,
        }
    }

    pub open spec fn owner_inv(self, n: NodeId) -> bool {
        &&& match self.owner_document(n) {
            Some(d) => self.contains(d) && self.node_type(d) is Document,
            None => !is_owned_type(self.node_type(n)),
        }
    }

    pub open spec fn payload_inv(self, n: NodeId) -> bool {
        match self.node(n).extension {
            ExtensionView::Document { document_type, document_element, id_map, .. } => {
                &&& match document_type {
                    Some(t) => self.contains(t) && self.node_type(t) is DocumentType,
                    None => true,
                }
                &&& match document_element {
                    Some(e) => self.contains(e) && self.node_type(e) is Element,
                    None => true,
                }
                &&& self.id_values(n).no_duplicates()
                &&& forall|i: int| 0 <= i < id_map.len() ==> self.contains((#[trigger] id_map[i]).1)
            },
            ExtensionView::Element { attributes, .. } => {
                &&& forall|i: int|
                    0 <= i < attributes.len() ==> self.contains(#[trigger] attributes[i])
                        && self.node_type(attributes[i]) is Attribute
                &&& self.attribute_names(n).no_duplicates()
                &&& self.namespace_prefixes(n).no_duplicates()
            },
            ExtensionView::DocumentType { entities, notations, .. } => {
                &&& forall|i: int| 0 <= i < entities.len() ==> self.contains(#[trigger] entities[i])
                &&& forall|i: int|
                    0 <= i < notations.len() ==> self.contains(#[trigger] notations[i])
            },
            _ => true,
        }
    }

    pub open spec fn node_inv(self, n: NodeId) -> bool {
        &&& extension_fits(self.node_type(n), self.node(n).extension)
        &&& self.children_inv(n)
        &&& self.parent_inv(n)
        &&& self.owner_inv(n)
        &&& self.payload_inv(n)
    }

    /// The invariant of the tree: every node's links and payload are in
    /// order, and every node has a handle.
    pub open spec fn inv(self) -> bool {
        &&& self.nodes.len() <= usize::MAX
        &&& forall|n: NodeId| self.contains(n) ==> #[trigger] self.node_inv(n)
    }

    /// `rank` gives every node a height below its parent's, and none above
    /// `bound`: a witness that parent links never run in a circle.
    pub open spec fn ranked(self, rank: Seq<nat>, bound: nat) -> bool {
        &&& rank.len() == self.nodes.len()
        &&& forall|n: NodeId| self.contains(n) ==> (#[trigger] rank[n as int]) <= bound
        &&& forall|n: NodeId|
            self.contains(n) ==> match #[trigger] self.parent_link(n) {
                Some(p) => self.contains(p) && rank[n as int] < rank[p as int],
                None => true,
            }
    }

    // ------------------------------------------------------------------
    // Ancestors
    // ------------------------------------------------------------------
    /// The node reached from `n` by following `k` parent links, if the chain
    /// is that long.
    pub open spec fn nth_ancestor(self, n: NodeId, k: nat) -> Option<NodeId>
        decreases k,
    {
        if k == 0 {
            Some(n)
        } else {
            match self.nth_ancestor(n, (k - 1) as nat) {
                Some(m) => if self.contains(m) {
                    self.parent_link(m)
                } else {
                    None
                },
                None => None,
            }
        }
    }

    /// `a` is `n` or lies above it.
    pub open spec fn is_ancestor_or_self(self, a: NodeId, n: NodeId) -> bool {
        exists|k: nat| self.nth_ancestor(n, k) == Some(a)
    }

    // ------------------------------------------------------------------
    // Building blocks of the operations
    // ------------------------------------------------------------------
    pub open spec fn with_node(self, n: NodeId, v: NodeView) -> DomView {
        DomView { nodes: self.nodes.update(n as int, v) }
    }

    pub open spec fn with_value(self, n: NodeId, value: Option<Seq<char>>) -> DomView {
        self.with_node(n, NodeView { value, ..self.node(n) })
    }

    pub open spec fn with_children(self, n: NodeId, children: Seq<NodeId>) -> DomView {
        self.with_node(n, NodeView { children, ..self.node(n) })
    }

    pub open spec fn with_parent(self, n: NodeId, parent: Option<NodeId>) -> DomView {
        self.with_node(n, NodeView { parent, ..self.node(n) })
    }

    pub open spec fn with_extension(self, n: NodeId, extension: ExtensionView) -> DomView {
        self.with_node(n, NodeView { extension, ..self.node(n) })
    }

    /// The arena with one more node; its handle is the old length.
    pub open spec fn with_new(self, v: NodeView) -> DomView {
        DomView { nodes: self.nodes.push(v) }
    }

    /// The previous sibling of a node is a node of the arena.
    pub proof fn lemma_previous_sibling(self, n: NodeId)
        requires
            self.inv(),
            self.contains(n),
        ensures
            match self.previous_sibling(n) {
                Some(p) => self.contains(p) && p != n,
                None => true,
            },
    {
        match self.sibling_index(n) {
            Some(i) => {
                let q = self.parent_node(n)->0;
                assert(self.node_inv(q));
                crate::seqs::lemma_first_index_found(self.children(q), n);
                assert(0 <= self.children(q).index_of(n) < self.children(q).len());
                if i > 0 {
                    assert(self.child_edge_ok(q, self.children(q)[i - 1]));
                }
            },
            None => {},
        }
    }

    /// Adding a node that is in order by itself keeps the whole arena in order.
    pub proof fn lemma_with_new_inv(self, v: NodeView)
        requires
            self.inv(),
            self.nodes.len() < usize::MAX,
            self.with_new(v).node_inv(self.nodes.len() as NodeId),
        ensures
            self.with_new(v).inv(),
    {
        let d = self.with_new(v);
        assert forall|n: NodeId| d.contains(n) implies #[trigger] d.node_inv(n) by {
            if n < self.nodes.len() {
                assert(self.node_inv(n));
                self.lemma_node_inv_extends(d, n);
            }
        }
    }

    /// A node whose own content is unchanged, in an arena that has only grown
    /// and kept what its links lead to, is still in order.
    pub proof fn lemma_node_inv_extends(self, d: DomView, n: NodeId)
        requires
            self.contains(n),
            self.node_inv(n),
            self.nodes.len() <= d.nodes.len(),
            d.node(n) == self.node(n),
            forall|i: int|
                0 <= i < self.children(n).len() ==> {
                    let c = #[trigger] self.children(n)[i];
                    d.node(c).parent == self.node(c).parent && d.node(c).node_type
                        == self.node(c).node_type && d.node(c).owner_document == self.node(
                        c,
                    ).owner_document
                },
            match self.parent_link(n) {
                Some(p) => (self.is_child(p, n) ==> d.is_child(p, n)) && (self.document_element(p)
                    == Some(n) ==> d.document_element(p) == Some(n)),
                None => true,
            },
            match self.owner_document(n) {
                Some(o) => d.node_type(o) == self.node_type(o),
                None => true,
            },
            match self.document_type(n) {
                Some(t) => d.node_type(t) == self.node_type(t),
                None => true,
            },
            match self.document_element(n) {
                Some(e) => d.node_type(e) == self.node_type(e),
                None => true,
            },
            forall|i: int|
                0 <= i < self.attributes(n).len() ==> {
                    let a = #[trigger] self.attributes(n)[i];
                    d.node_type(a) == self.node_type(a) && d.name(a) == self.name(a)
                },
        ensures
            d.node_inv(n),
    {
        assert(d.children(n) == self.children(n));
        assert forall|i: int| 0 <= i < d.children(n).len() implies d.child_edge_ok(
            n,
            #[trigger] d.children(n)[i],
        ) by {
            assert(self.child_edge_ok(n, self.children(n)[i]));
        }
        assert(d.attributes(n) == self.attributes(n));
        assert(d.attribute_names(n) =~= self.attribute_names(n));
        assert(d.namespace_prefixes(n) =~= self.namespace_prefixes(n));
        assert(d.id_values(n) =~= self.id_values(n));
    }
}

} // verus!
