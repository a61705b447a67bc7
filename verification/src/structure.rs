use vstd::prelude::*;
use crate::dom::Dom;
use crate::error::Error;
use crate::model::DomView;
use crate::node::{child_allowed, is_child_allowed, NodeId, NodeType, NodeView};
use crate::seqs::{
    lemma_index_of_unique, lemma_insert_no_duplicates, lemma_remove_no_duplicates, position,
};

verus! {

impl DomView {
    /// The arena after `child` has been taken out of the child list of
    /// `parent` and has lost its parent link.
    pub open spec fn detach(self, parent: NodeId, child: NodeId) -> DomView {
        self.with_children(
            parent,
            self.children(parent).remove(self.children(parent).index_of(child)),
        ).with_parent(child, None)
    }

    /// What `remove_child` does: a node that is no child of `parent` is not
    /// found; a child is detached.
    pub open spec fn remove_child(self, parent: NodeId, child: NodeId) -> Result<DomView, Error> {
        if self.is_child(parent, child) {
            Ok(self.detach(parent, child))
        } else {
            Err(Error::NotFound)
        }
    }

    /// Detaching a child keeps the arena in order.
    pub proof fn lemma_detach_inv(self, rank: Seq<nat>, bound: nat, parent: NodeId, child: NodeId)
        requires
            self.inv(),
            self.ranked(rank, bound),
            self.contains(parent),
            self.is_child(parent, child),
        ensures
            self.detach(parent, child).inv(),
            self.detach(parent, child).ranked(rank, bound),
            self.detach(parent, child).nodes.len() == self.nodes.len(),
            self.detach(parent, child).children(parent) == self.children(parent).remove(
                self.children(parent).index_of(child),
            ),
            !self.detach(parent, child).is_child(parent, child),
            self.detach(parent, child).parent_link(child) is None,
    {
        let d = self.detach(parent, child);
        let i = self.children(parent).index_of(child);
        assert(self.node_inv(parent));
        assert(self.child_edge_ok(parent, self.children(parent)[i]));
        assert(self.parent_link(child) == Some(parent));
        assert(rank[child as int] < rank[parent as int]);
        assert(child != parent);
        lemma_remove_no_duplicates(self.children(parent), i);
        assert(d.children(parent) == self.children(parent).remove(i));
        assert forall|n: NodeId| d.contains(n) implies #[trigger] d.node_inv(n) by {
            assert(self.node_inv(n));
            if n == parent {
                assert forall|k: int| 0 <= k < d.children(n).len() implies d.child_edge_ok(
                    n,
                    #[trigger] d.children(n)[k],
                ) by {
                    let k2 = if k < i {
                        k
                    } else {
                        k + 1
                    };
                    assert(d.children(n)[k] == self.children(n)[k2]);
                    assert(self.child_edge_ok(n, self.children(n)[k2]));
                }
                assert(d.attribute_names(n) =~= self.attribute_names(n));
                assert(d.namespace_prefixes(n) =~= self.namespace_prefixes(n));
                assert(d.id_values(n) =~= self.id_values(n));
                assert(d.node_inv(n));
            } else if n == child {
                assert forall|k: int| 0 <= k < d.children(n).len() implies d.child_edge_ok(
                    n,
                    #[trigger] d.children(n)[k],
                ) by {
                    assert(self.child_edge_ok(n, self.children(n)[k]));
                    assert(rank[self.children(n)[k] as int] < rank[n as int]);
                }
                assert(d.attribute_names(n) =~= self.attribute_names(n));
                assert(d.namespace_prefixes(n) =~= self.namespace_prefixes(n));
                assert(d.id_values(n) =~= self.id_values(n));
                assert(d.node_inv(n));
            } else {
                assert forall|k: int| 0 <= k < self.children(n).len() implies {
                    let c = #[trigger] self.children(n)[k];
                    d.node(c).parent == self.node(c).parent && d.node(c).node_type == self.node(
                        c,
                    ).node_type && d.node(c).owner_document == self.node(c).owner_document
                } by {
                    let c = self.children(n)[k];
                    assert(self.child_edge_ok(n, c));
                    if c == child {
                        assert(self.parent_link(c) == Some(n));
                    }
                }
                self.lemma_node_inv_extends(d, n);
            }
        }
        assert forall|n: NodeId| d.contains(n) implies match #[trigger] d.parent_link(n) {
            Some(p) => d.contains(p) && rank[n as int] < rank[p as int],
            None => true,
        } by {
            if n != child {
                assert(d.parent_link(n) == self.parent_link(n));
            }
        }
    }
}

impl DomView {
    /// Once the chain of parents has ended, it stays ended.
    pub proof fn lemma_nth_ancestor_none(self, n: NodeId, k: nat, j: nat)
        requires
            self.nth_ancestor(n, k) is None,
            k <= j,
        ensures
            self.nth_ancestor(n, j) is None,
        decreases j,
    {
        if j > k {
            self.lemma_nth_ancestor_none(n, k, (j - 1) as nat);
        }
    }

    /// The arena after `child`, which has no parent, has been put among the
    /// children of `parent` at place `pos`.
    pub open spec fn attach(self, parent: NodeId, child: NodeId, pos: int) -> DomView {
        self.with_children(parent, self.children(parent).insert(pos, child)).with_parent(
            child,
            Some(parent),
        )
    }

    /// The ranks after `child` has come under `parent`: `parent` and all
    /// above it rise over `child`.
    pub open spec fn raised(self, rank: Seq<nat>, parent: NodeId, child: NodeId) -> Seq<nat> {
        Seq::new(
            rank.len(),
            |x: int|
                if self.is_ancestor_or_self(x as NodeId, parent) {
                    rank[x] + rank[child as int] + 1
                } else {
                    rank[x]
                },
        )
    }

    /// Attaching a detached node below a node that it does not lie above
    /// keeps the arena in order.
    pub proof fn lemma_attach_inv(
        self,
        rank: Seq<nat>,
        bound: nat,
        parent: NodeId,
        child: NodeId,
        pos: int,
    )
        requires
            self.inv(),
            self.ranked(rank, bound),
            self.contains(parent),
            self.contains(child),
            self.parent_link(child) is None,
            child_allowed(self.node_type(parent), self.node_type(child)),
            self.owner_document(child) == self.document_of(parent),
            !self.is_ancestor_or_self(child, parent),
            0 <= pos <= self.children(parent).len(),
        ensures
            self.attach(parent, child, pos).inv(),
            self.attach(parent, child, pos).ranked(
                self.raised(rank, parent, child),
                bound + rank[child as int] + 1,
            ),
    {
        let d = self.attach(parent, child, pos);
        let up = self.raised(rank, parent, child);
        assert(self.nth_ancestor(parent, 0) == Some(parent));
        assert(self.is_ancestor_or_self(parent, parent));
        assert(child != parent);
        assert(self.node_inv(parent));
        assert(self.node_inv(child));
        if self.children(parent).contains(child) {
            let i = choose|i: int|
                0 <= i < self.children(parent).len() && self.children(parent)[i] == child;
            assert(self.child_edge_ok(parent, self.children(parent)[i]));
        }
        lemma_insert_no_duplicates(self.children(parent), pos, child);
        assert(d.children(parent) == self.children(parent).insert(pos, child));
        assert forall|n: NodeId| d.contains(n) implies #[trigger] d.node_inv(n) by {
            assert(self.node_inv(n));
            if n == parent {
                assert forall|k: int| 0 <= k < d.children(n).len() implies d.child_edge_ok(
                    n,
                    #[trigger] d.children(n)[k],
                ) by {
                    if k != pos {
                        let k2 = if k < pos {
                            k
                        } else {
                            k - 1
                        };
                        assert(d.children(n)[k] == self.children(n)[k2]);
                        assert(self.child_edge_ok(n, self.children(n)[k2]));
                    }
                }
                assert(d.attribute_names(n) =~= self.attribute_names(n));
                assert(d.namespace_prefixes(n) =~= self.namespace_prefixes(n));
                assert(d.id_values(n) =~= self.id_values(n));
                assert(d.node_inv(n));
            } else if n == child {
                assert forall|k: int| 0 <= k < d.children(n).len() implies d.child_edge_ok(
                    n,
                    #[trigger] d.children(n)[k],
                ) by {
                    assert(self.child_edge_ok(n, self.children(n)[k]));
                    assert(rank[self.children(n)[k] as int] < rank[n as int]);
                }
                assert(d.attribute_names(n) =~= self.attribute_names(n));
                assert(d.namespace_prefixes(n) =~= self.namespace_prefixes(n));
                assert(d.id_values(n) =~= self.id_values(n));
                assert(d.node_inv(n));
            } else {
                assert forall|k: int| 0 <= k < self.children(n).len() implies {
                    let c = #[trigger] self.children(n)[k];
                    d.node(c).parent == self.node(c).parent && d.node(c).node_type == self.node(
                        c,
                    ).node_type && d.node(c).owner_document == self.node(c).owner_document
                } by {
                    let c = self.children(n)[k];
                    assert(self.child_edge_ok(n, c));
                }
                self.lemma_node_inv_extends(d, n);
            }
        }
        assert forall|n: NodeId| d.contains(n) implies match #[trigger] d.parent_link(n) {
            Some(p) => d.contains(p) && up[n as int] < up[p as int],
            None => true,
        } by {
            if n == child {
            } else {
                assert(d.parent_link(n) == self.parent_link(n));
                match self.parent_link(n) {
                    Some(p) => {
                        if self.is_ancestor_or_self(n, parent) {
                            let k = choose|k: nat| self.nth_ancestor(parent, k) == Some(n);
                            assert(self.nth_ancestor(parent, k + 1) == Some(p));
                        }
                    },
                    None => {},
                }
            }
        }
        assert forall|n: NodeId| d.contains(n) implies (#[trigger] up[n as int]) <= bound
            + rank[child as int] + 1 by {
            assert(rank[n as int] <= bound);
        }
    }

    /// A node without a parent has no ancestor but itself.
    pub proof fn lemma_root_ancestors(self, n: NodeId, a: NodeId)
        requires
            self.contains(n),
            self.parent_link(n) is None,
        ensures
            self.is_ancestor_or_self(a, n) <==> a == n,
    {
        assert(self.nth_ancestor(n, 0) == Some(n));
        assert(self.nth_ancestor(n, 1) is None);
        if self.is_ancestor_or_self(a, n) {
            let k = choose|k: nat| self.nth_ancestor(n, k) == Some(a);
            if k > 0 {
                self.lemma_nth_ancestor_none(n, 1, k);
            }
        }
    }

    /// Detaching a node that does not lie above `n` leaves the chain of
    /// parents of `n` as it was.
    pub proof fn lemma_detach_ancestors(self, parent: NodeId, child: NodeId, n: NodeId, k: nat)
        requires
            !self.is_ancestor_or_self(child, n),
            self.contains(parent),
            self.contains(child),
        ensures
            self.detach(parent, child).nth_ancestor(n, k) == self.nth_ancestor(n, k),
        decreases k,
    {
        if k > 0 {
            self.lemma_detach_ancestors(parent, child, n, (k - 1) as nat);
            match self.nth_ancestor(n, (k - 1) as nat) {
                Some(m) => {
                    assert(m != child);
                },
                None => {},
            }
        }
    }

    /// The arena after `child` has left its parent, if it had one.
    pub open spec fn detached(self, child: NodeId) -> DomView {
        match self.parent_link(child) {
            Some(q) => self.detach(q, child),
            None => self,
        }
    }

    /// Why `insert_before` refuses, if it does. The checks come in this order:
    /// the child's kind under the parent's, the reference child, the
    /// documents, that the child can leave the parent it hangs on, and last
    /// that the child would not come to lie below itself.
    pub open spec fn insert_error(
        self,
        parent: NodeId,
        child: NodeId,
        ref_child: Option<NodeId>,
    ) -> Option<Error> {
        if !child_allowed(self.node_type(parent), self.node_type(child)) {
            Some(Error::HierarchyRequest)
        } else if ref_child is Some && !self.is_child(parent, ref_child->0) {
            Some(Error::NotFound)
        } else if self.owner_document(child) != self.document_of(parent) {
            Some(Error::WrongDocument)
        } else if self.parent_link(child) is Some && !self.is_child(
            self.parent_link(child)->0,
            child,
        ) {
            Some(Error::NotFound)
        } else if self.is_ancestor_or_self(child, parent) {
            Some(Error::HierarchyRequest)
        } else {
            None
        }
    }

    /// The place among the children of `parent`, once `child` has left its
    /// old parent, at which `child` goes in: before the reference child, at
    /// the end without one, and back where it was if it is its own reference.
    pub open spec fn insert_position(
        self,
        parent: NodeId,
        child: NodeId,
        ref_child: Option<NodeId>,
    ) -> int {
        match ref_child {
            None => self.detached(child).children(parent).len() as int,
            Some(r) => if r == child {
                self.children(parent).index_of(child)
            } else {
                self.detached(child).children(parent).index_of(r)
            },
        }
    }

    /// What `insert_before` does: it refuses and changes nothing, or moves
    /// `child` from where it was to its place under `parent`.
    pub open spec fn insert_before(
        self,
        parent: NodeId,
        child: NodeId,
        ref_child: Option<NodeId>,
    ) -> Result<DomView, Error> {
        match self.insert_error(parent, child, ref_child) {
            Some(e) => Err(e),
            None => Ok(
                self.detached(child).attach(
                    parent,
                    child,
                    self.insert_position(parent, child, ref_child),
                ),
            ),
        }
    }
}

impl DomView {
    /// A node reached by `k` parent links stands at least `k` ranks higher.
    pub proof fn lemma_ancestor_rank(self, rank: Seq<nat>, bound: nat, n: NodeId, k: nat)
        requires
            self.ranked(rank, bound),
            self.contains(n),
            self.nth_ancestor(n, k) is Some,
        ensures
            self.contains(self.nth_ancestor(n, k)->0),
            rank[self.nth_ancestor(n, k)->0 as int] >= rank[n as int] + k,
        decreases k,
    {
        if k > 0 {
            self.lemma_ancestor_rank(rank, bound, n, (k - 1) as nat);
            let m = self.nth_ancestor(n, (k - 1) as nat)->0;
            assert(self.parent_link(m) == self.nth_ancestor(n, k));
        }
    }

    /// What `replace_child` does: without `old_child` among the children
    /// nothing is found; else `old_child` is detached and `new_child` inserted
    /// before the node that followed it.
    pub open spec fn replace_child(self, parent: NodeId, new_child: NodeId, old_child: NodeId) -> Result<
        DomView,
        Error,
    > {
        if !self.is_child(parent, old_child) {
            Err(Error::NotFound)
        } else {
            self.detach(parent, old_child).insert_before(
                parent,
                new_child,
                self.next_sibling(old_child),
            )
        }
    }

    /// Why the insertion that completes a replacement would be refused, read
    /// off the arena before `old_child` is detached. The checks come in the
    /// order of `insert_error`; the reference child, which followed
    /// `old_child`, is always found.
    pub open spec fn replace_error(self, parent: NodeId, new_child: NodeId, old_child: NodeId) -> Option<
        Error,
    > {
        if !child_allowed(self.node_type(parent), self.node_type(new_child)) {
            Some(Error::HierarchyRequest)
        } else if self.owner_document(new_child) != self.document_of(parent) {
            Some(Error::WrongDocument)
        } else if new_child != old_child && self.parent_link(new_child) is Some && !self.is_child(
            self.parent_link(new_child)->0,
            new_child,
        ) {
            Some(Error::NotFound)
        } else if self.is_ancestor_or_self(new_child, parent) {
            Some(Error::HierarchyRequest)
        } else {
            None
        }
    }

    /// The insertion that completes a replacement is refused exactly when
    /// `replace_error` says so.
    pub proof fn lemma_replace_error(
        self,
        rank: Seq<nat>,
        bound: nat,
        parent: NodeId,
        new_child: NodeId,
        old_child: NodeId,
    )
        requires
            self.inv(),
            self.ranked(rank, bound),
            self.contains(parent),
            self.contains(new_child),
            self.is_child(parent, old_child),
        ensures
            self.detach(parent, old_child).insert_error(
                parent,
                new_child,
                self.next_sibling(old_child),
            ) == self.replace_error(parent, new_child, old_child),
    {
        let d = self.detach(parent, old_child);
        let next = self.next_sibling(old_child);
        let ch = self.children(parent);
        let i = ch.index_of(old_child);
        assert(self.node_inv(parent));
        assert(self.child_edge_ok(parent, ch[i]));
        assert(self.contains(old_child));
        self.lemma_detach_inv(rank, bound, parent, old_child);
        lemma_remove_no_duplicates(ch, i);
        // the chain of parents above `parent` does not pass through `old_child`
        assert(!self.is_ancestor_or_self(old_child, parent)) by {
            if self.is_ancestor_or_self(old_child, parent) {
                let k = choose|k: nat| self.nth_ancestor(parent, k) == Some(old_child);
                self.lemma_ancestor_rank(rank, bound, parent, k);
            }
        }
        assert(d.is_ancestor_or_self(new_child, parent) == self.is_ancestor_or_self(
            new_child,
            parent,
        )) by {
            if d.is_ancestor_or_self(new_child, parent) {
                let k = choose|k: nat| d.nth_ancestor(parent, k) == Some(new_child);
                self.lemma_detach_ancestors(parent, old_child, parent, k);
            }
            if self.is_ancestor_or_self(new_child, parent) {
                let k = choose|k: nat| self.nth_ancestor(parent, k) == Some(new_child);
                self.lemma_detach_ancestors(parent, old_child, parent, k);
            }
        }
        // the next sibling is still a child
        assert(self.node_type(old_child) != NodeType::Attribute);
        assert(self.sibling_index(old_child) == Some(i));
        if next is Some {
            assert(d.children(parent)[i] == ch[i + 1]);
            assert(d.is_child(parent, next->0));
        }
        if new_child != old_child {
            assert(d.parent_link(new_child) == self.parent_link(new_child));
            match self.parent_link(new_child) {
                Some(q) => {
                    if q != parent {
                        assert(d.children(q) == self.children(q));
                    }
                },
                None => {},
            }
        }
    }
}

impl Dom {
    /// Takes `old_child` out of the children of `node`. The removed node
    /// keeps its handle and can be inserted again.
    pub fn remove_child(&mut self, node: NodeId, old_child: NodeId) -> (res: Result<NodeId, Error>)
        requires
            old(self).wf(),
            old(self)@.contains(node),
        ensures
            final(self).wf(),
            match old(self)@.remove_child(node, old_child) {
                Ok(v) => res == Ok::<NodeId, Error>(old_child) && final(self)@ == v,
                Err(e) => res == Err::<NodeId, Error>(e) && final(self)@ == old(self)@,
            },
    {
        match position(&self.nodes[node].children, old_child) {
            None => Err(Error::NotFound),
            Some(i) => {
                proof {
                    assert(self@.node_inv(node));
                    lemma_index_of_unique(self@.children(node), i as int);
                    assert(self@.child_edge_ok(node, self@.children(node)[i as int]));
                    self@.lemma_detach_inv(self.rank@, self.bound@, node, old_child);
                }
                let removed = self.nodes[node].children.remove(i);
                self.nodes[removed].parent = None;
                proof {
                    assert(self@.nodes =~= old(self)@.detach(node, old_child).nodes);
                }
                Ok(removed)
            },
        }
    }

    /// Whether `ancestor` is `node` or lies above it.
    pub fn is_ancestor_or_self(&self, ancestor: NodeId, node: NodeId) -> (res: bool)
        requires
            self.wf(),
            self@.contains(node),
        ensures
            res == self@.is_ancestor_or_self(ancestor, node),
    {
        let mut cur: NodeId = node;
        let ghost k: nat = 0;
        loop
            invariant
                self.wf(),
                self@.contains(cur),
                self@.nth_ancestor(node, k) == Some(cur),
                forall|j: nat| j < k ==> self@.nth_ancestor(node, j) != Some(ancestor),
            decreases self.bound@ - self.rank@[cur as int],
        {
            if cur == ancestor {
                return true;
            }
            match self.nodes[cur].parent {
                None => {
                    proof {
                        assert(self@.nth_ancestor(node, k + 1) is None);
                        assert forall|j: nat| self@.nth_ancestor(node, j) != Some(ancestor) by {
                            if j > k {
                                self@.lemma_nth_ancestor_none(node, k + 1, j);
                            }
                        }
                    }
                    return false;
                },
                Some(p) => {
                    proof {
                        assert(self@.parent_link(cur) == Some(p));
                        assert(self@.nth_ancestor(node, k + 1) == Some(p));
                        k = k + 1;
                    }
                    cur = p;
                },
            }
        }
    }

    /// The document that the children of a node belong to.
    pub fn document_of(&self, node: NodeId) -> (res: Option<NodeId>)
        requires
            self@.contains(node),
        ensures
            res == self@.document_of(node),
    {
        match self.nodes[node].node_type {
            NodeType::Document => Some(node),
            _ => self.nodes[node].owner_document,
        }
    }

    /// Puts `new_child` among the children of `node`, before `ref_child` or,
    /// without one, at the end. A node that already hangs somewhere is moved.
    ///
    /// The insertion is refused, and nothing changes, with the first of
    /// these that applies:
    /// - `HierarchyRequest` if the kind of `new_child` is not allowed under the
    ///   kind of `node` (a document fragment is allowed nowhere);
    /// - `NotFound` if `ref_child` is given and is no child of `node`;
    /// - `WrongDocument` if `new_child` belongs to another document than the
    ///   children of `node` do;
    /// - `NotFound` if `new_child` hangs on a parent that does not list it as a
    ///   child, as a document's element does;
    /// - `HierarchyRequest` if `new_child` is `node` or lies above it, so
    ///   that it would come to lie below itself.
    pub fn insert_before(&mut self, node: NodeId, new_child: NodeId, ref_child: Option<NodeId>) -> (res:
        Result<NodeId, Error>)
        requires
            old(self).wf(),
            old(self)@.contains(node),
            old(self)@.contains(new_child),
        ensures
            final(self).wf(),
            match old(self)@.insert_before(node, new_child, ref_child) {
                Ok(v) => res == Ok::<NodeId, Error>(new_child) && final(self)@ == v,
                Err(e) => res == Err::<NodeId, Error>(e) && final(self)@ == old(self)@,
            },
            !child_allowed(old(self)@.node_type(node), old(self)@.node_type(new_child)) ==> res
                == Err::<NodeId, Error>(Error::HierarchyRequest),
            child_allowed(old(self)@.node_type(node), old(self)@.node_type(new_child))
                && ref_child is Some && !old(self)@.is_child(node, ref_child->0) ==> res == Err::<
                NodeId,
                Error,
            >(Error::NotFound),
            res is Ok ==> final(self)@.parent_node(new_child) == Some(node),
            res is Ok ==> final(self)@.is_child(node, new_child),
            res is Ok ==> forall|x: NodeId|
                old(self)@.contains(x) && x != node ==> !#[trigger] final(self)@.is_child(
                    x,
                    new_child,
                ),
    {
        proof {
            if self@.insert_before(node, new_child, ref_child) is Ok {
                crate::laws::law_insert_before_moves(self@, node, new_child, ref_child);
            }
        }
        if !is_child_allowed(self.nodes[node].node_type, self.nodes[new_child].node_type) {
            return Err(Error::HierarchyRequest);
        }
        let ref_index: Option<usize> = match ref_child {
            None => None,
            Some(r) => match position(&self.nodes[node].children, r) {
                None => {
                    return Err(Error::NotFound);
                },
                Some(j) => Some(j),
            },
        };
        if !same_handle(self.nodes[new_child].owner_document, self.document_of(node)) {
            return Err(Error::WrongDocument);
        }
        let old_parent = self.nodes[new_child].parent;
        let old_index: Option<usize> = match old_parent {
            None => None,
            Some(q) => match position(&self.nodes[q].children, new_child) {
                None => {
                    return Err(Error::NotFound);
                },
                Some(i) => Some(i),
            },
        };
        if self.is_ancestor_or_self(new_child, node) {
            return Err(Error::HierarchyRequest);
        }
        proof {
            assert(self@.insert_error(node, new_child, ref_child) is None);
            assert(self@.node_inv(node));
            assert(self@.node_inv(new_child));
        }
        // Detach.
        match (old_parent, old_index) {
            (Some(q), Some(i)) => {
                proof {
                    assert(self@.node_inv(q));
                    lemma_index_of_unique(self@.children(q), i as int);
                    self@.lemma_detach_inv(self.rank@, self.bound@, q, new_child);
                }
                self.nodes[q].children.remove(i);
                self.nodes[new_child].parent = None;
                proof {
                    assert(self@.nodes =~= old(self)@.detach(q, new_child).nodes);
                }
            },
            _ => {},
        }
        assert(self@ == old(self)@.detached(new_child));
        assert(self@.inv() && self@.ranked(self.rank@, self.bound@));
        assert(!self@.is_ancestor_or_self(new_child, node)) by {
            if self@.is_ancestor_or_self(new_child, node) {
                let k = choose|k: nat| self@.nth_ancestor(node, k) == Some(new_child);
                if old_parent is Some {
                    old(self)@.lemma_detach_ancestors(old_parent->0, new_child, node, k);
                }
                assert(old(self)@.nth_ancestor(node, k) == Some(new_child));
            }
        }
        // Find the place.
        let pos: usize = match ref_index {
            None => self.nodes[node].children.len(),
            Some(j) => match (old_parent, old_index) {
                (Some(q), Some(i)) => {
                    if q == node && i < j {
                        j - 1
                    } else {
                        j
                    }
                },
                _ => j,
            },
        };
        proof {
            assert(self@.node_inv(node));
            match ref_child {
                None => {},
                Some(r) => {
                    let j = ref_index->0 as int;
                    lemma_index_of_unique(old(self)@.children(node), j);
                    if r == new_child {
                        assert(old_parent == Some(node));
                        assert(pos == j);
                    } else {
                        assert(self@.children(node)[pos as int] == r);
                        lemma_index_of_unique(self@.children(node), pos as int);
                    }
                },
            }
            assert(pos == old(self)@.insert_position(node, new_child, ref_child));
        }
        self.attach(node, new_child, pos);
        Ok(new_child)
    }

    /// Hangs a detached node among the children of another, at a given place.
    pub(crate) fn attach(&mut self, node: NodeId, child: NodeId, pos: usize)
        requires
            old(self).wf(),
            old(self)@.contains(node),
            old(self)@.contains(child),
            old(self)@.parent_link(child) is None,
            child_allowed(old(self)@.node_type(node), old(self)@.node_type(child)),
            old(self)@.owner_document(child) == old(self)@.document_of(node),
            !old(self)@.is_ancestor_or_self(child, node),
            pos <= old(self)@.children(node).len(),
        ensures
            final(self).wf(),
            final(self)@ == old(self)@.attach(node, child, pos as int),
            final(self).rank@ == old(self)@.raised(old(self).rank@, node, child),
    {
        proof {
            self@.lemma_attach_inv(self.rank@, self.bound@, node, child, pos as int);
        }
        self.nodes[node].children.insert(pos, child);
        self.nodes[child].parent = Some(node);
        proof {
            assert(self@.nodes =~= old(self)@.attach(node, child, pos as int).nodes);
            self.bound@ = self.bound@ + self.rank@[child as int] + 1;
            self.rank@ = old(self)@.raised(self.rank@, node, child);
        }
    }

    /// Puts `new_child` at the end of the children of `node`.
    pub fn append_child(&mut self, node: NodeId, new_child: NodeId) -> (res: Result<NodeId, Error>)
        requires
            old(self).wf(),
            old(self)@.contains(node),
            old(self)@.contains(new_child),
        ensures
            final(self).wf(),
            match old(self)@.insert_before(node, new_child, None) {
                Ok(v) => res == Ok::<NodeId, Error>(new_child) && final(self)@ == v,
                Err(e) => res == Err::<NodeId, Error>(e) && final(self)@ == old(self)@,
            },
    {
        self.insert_before(node, new_child, None)
    }
}

impl Dom {
    /// Puts `new_child` in the place of `old_child` among the children of
    /// `node`, and hands back `old_child`, now detached.
    ///
    /// Without `old_child` among the children the result is `NotFound`.
    /// Otherwise `new_child` is held to what [`Dom::insert_before`] asks of
    /// it, in the same order: its kind, its document, that it can leave the
    /// parent it hangs on, and last that it would not come to lie below
    /// itself. Where the replacement is refused nothing changes.
    pub fn replace_child(&mut self, node: NodeId, new_child: NodeId, old_child: NodeId) -> (res:
        Result<NodeId, Error>)
        requires
            old(self).wf(),
            old(self)@.contains(node),
            old(self)@.contains(new_child),
        ensures
            final(self).wf(),
            match old(self)@.replace_child(node, new_child, old_child) {
                Ok(v) => res == Ok::<NodeId, Error>(old_child) && final(self)@ == v,
                Err(e) => res == Err::<NodeId, Error>(e) && final(self)@ == old(self)@,
            },
            !old(self)@.is_child(node, old_child) ==> res == Err::<NodeId, Error>(Error::NotFound)
                && final(self)@ == old(self)@,
    {
        let i: usize = match position(&self.nodes[node].children, old_child) {
            None => {
                return Err(Error::NotFound);
            },
            Some(i) => i,
        };
        proof {
            assert(self@.node_inv(node));
            lemma_index_of_unique(self@.children(node), i as int);
            assert(self@.child_edge_ok(node, self@.children(node)[i as int]));
            self@.lemma_replace_error(self.rank@, self.bound@, node, new_child, old_child);
            self@.lemma_detach_inv(self.rank@, self.bound@, node, old_child);
        }
        if !is_child_allowed(self.nodes[node].node_type, self.nodes[new_child].node_type) {
            return Err(Error::HierarchyRequest);
        }
        if !same_handle(self.nodes[new_child].owner_document, self.document_of(node)) {
            return Err(Error::WrongDocument);
        }
        if new_child != old_child {
            match self.nodes[new_child].parent {
                Some(q) => {
                    proof {
                        assert(self@.node_inv(new_child));
                    }
                    if position(&self.nodes[q].children, new_child).is_none() {
                        return Err(Error::NotFound);
                    }
                },
                None => {},
            }
        }
        if self.is_ancestor_or_self(new_child, node) {
            return Err(Error::HierarchyRequest);
        }
        let n: usize = self.nodes[node].children.len();
        let next: Option<NodeId> = if i + 1 < n {
            Some(self.nodes[node].children[i + 1])
        } else {
            None
        };
        assert(next == self@.next_sibling(old_child));
        let _ = self.remove_child(node, old_child);
        match self.insert_before(node, new_child, next) {
            Ok(_) => Ok(old_child),
            Err(e) => Err(e),
        }
    }
}

/// Whether two optional handles are the same.
pub(crate) fn same_handle(a: Option<NodeId>, b: Option<NodeId>) -> (res: bool)
    ensures
        res == (a == b),
{
    match (a, b) {
        (Some(x), Some(y)) => x == y,
        (None, None) => true,
        _ => false,
    }
}

} // verus!
