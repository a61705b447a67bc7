use vstd::prelude::*;
use vstd::string::*;
use crate::dom::Dom;
use crate::factory::fresh_node;
use crate::model::{is_owned_type, DomView};
use crate::name::{copy_opt_string, opt_str_view};
use crate::node::{
    child_allowed, empty_extension, Extension, Node, NodeId, NodeType, NodeView,
};

verus! {

/// Two nodes agree in all but their links upward.
pub open spec fn same_content(a: NodeView, b: NodeView) -> bool {
    &&& a.node_type == b.node_type
    &&& a.name == b.name
    &&& a.value == b.value
    &&& a.children == b.children
    &&& a.extension == b.extension
}

/// The handles from `lo` up to `hi`, in order.
pub open spec fn handles(lo: int, hi: int) -> Seq<NodeId> {
    Seq::new((hi - lo) as nat, |k: int| (lo + k) as NodeId)
}

impl DomView {
    /// Every child of a node with a handle from `lo` up to `hi` has a handle
    /// in that range too.
    pub open spec fn closed(self, lo: int, hi: int) -> bool {
        forall|x: NodeId, i: int|
            lo <= x < hi && 0 <= i < self.children(x).len() ==> lo <= (
            #[trigger] self.children(x)[i]) < hi
    }
}

impl Dom {
    /// The tree below `b` is a copy of the tree below `a`: node for node, at
    /// every place, the kind, the name and the value are the same, and each
    /// node of the copy has the payload that a new node of its kind starts
    /// with.
    pub open(crate) spec fn mirrors(&self, a: NodeId, b: NodeId) -> bool
        decreases self.rank_of(a), self@.children(a).len() + 1,
        when self.wf() && self@.contains(a)
    {
        &&& self@.contains(b)
        &&& self@.node_type(b) == self@.node_type(a)
        &&& self@.name(b) == self@.name(a)
        &&& self@.value(b) == self@.value(a)
        &&& self@.node(b).extension == empty_extension(self@.node_type(a))
        &&& self@.children(b).len() == self@.children(a).len()
        &&& self.mirrors_children(a, b, self@.children(a).len())
    }

    /// The trees below the first `k` children of `b` are copies of the trees
    /// below the first `k` children of `a`, child by child.
    pub open(crate) spec fn mirrors_children(&self, a: NodeId, b: NodeId, k: nat) -> bool
        decreases self.rank_of(a), k,
        when self.wf() && self@.contains(a) && k <= self@.children(a).len()
    {
        if k == 0 {
            true
        } else {
            proof {
                assert(self@.node_inv(a));
                assert(self@.child_edge_ok(a, self@.children(a)[k - 1]));
                assert(self@.parent_link(self@.children(a)[k - 1]) == Some(a));
            }
            self.mirrors_children(a, b, (k - 1) as nat) && self.mirrors(
                self@.children(a)[k - 1],
                self@.children(b)[k - 1],
            )
        }
    }

    /// The first `k` children are copies exactly when each of them is.
    pub proof fn lemma_mirrors_children(&self, a: NodeId, b: NodeId, k: nat)
        requires
            self.wf(),
            self@.contains(a),
            k <= self@.children(a).len(),
        ensures
            self.mirrors_children(a, b, k) <==> forall|i: int|
                0 <= i < k ==> self.mirrors(#[trigger] self@.children(a)[i], self@.children(b)[i]),
        decreases k,
    {
        if k > 0 {
            self.lemma_mirrors_children(a, b, (k - 1) as nat);
            assert(self@.node_inv(a));
            assert(self@.child_edge_ok(a, self@.children(a)[k - 1]));
            if self.mirrors_children(a, b, k) {
                assert forall|i: int| 0 <= i < k implies self.mirrors(
                    #[trigger] self@.children(a)[i],
                    self@.children(b)[i],
                ) by {
                    if i < k - 1 {
                    }
                }
            }
        }
    }

    /// The tree below a node stays as it is while its nodes keep their
    /// content, whatever else changes.
    pub proof fn lemma_subtree_frame(&self, after: &Dom, b: NodeId, lo: int, hi: int)
        requires
            self.wf(),
            after.wf(),
            0 <= lo <= b < hi <= self@.nodes.len() <= after@.nodes.len(),
            forall|x: NodeId|
                lo <= x < hi ==> same_content(#[trigger] self@.node(x), after@.node(x)),
            self@.closed(lo, hi),
        ensures
            after.subtree(b) == self.subtree(b),
        decreases self.rank_of(b), self@.children(b).len() + 1,
    {
        assert(same_content(self@.node(b), after@.node(b)));
        self.lemma_subtrees_frame(after, b, self@.children(b).len(), lo, hi);
    }

    /// The trees below the first `k` children of a node stay as they are
    /// while those children stay the first `k` and the nodes below them
    /// keep their content.
    pub proof fn lemma_subtrees_frame(&self, after: &Dom, n: NodeId, k: nat, lo: int, hi: int)
        requires
            self.wf(),
            after.wf(),
            self@.contains(n),
            0 <= lo <= hi <= self@.nodes.len() <= after@.nodes.len(),
            k <= self@.children(n).len(),
            k <= after@.children(n).len(),
            forall|j: int|
                0 <= j < k ==> after@.children(n)[j] == #[trigger] self@.children(n)[j] && lo
                    <= self@.children(n)[j] < hi,
            forall|x: NodeId|
                lo <= x < hi ==> same_content(#[trigger] self@.node(x), after@.node(x)),
            self@.closed(lo, hi),
        ensures
            after.subtrees(n, k) == self.subtrees(n, k),
        decreases self.rank_of(n), k,
    {
        if k > 0 {
            let c = self@.children(n)[k - 1];
            assert(self@.node_inv(n));
            assert(self@.child_edge_ok(n, c));
            assert(after@.node_inv(n));
            assert(after@.child_edge_ok(n, after@.children(n)[k - 1]));
            self.lemma_subtrees_frame(after, n, (k - 1) as nat, lo, hi);
            self.lemma_subtree_frame(after, c, lo, hi);
        }
    }

    /// A copy stays a copy while the nodes of the source tree and of the copy
    /// keep their content, whatever else changes.
    pub proof fn lemma_mirrors_frame(
        &self,
        after: &Dom,
        a: NodeId,
        b: NodeId,
        sources: int,
        lo: int,
        hi: int,
    )
        requires
            self.wf(),
            after.wf(),
            self.mirrors(a, b),
            0 <= a < sources <= self@.nodes.len(),
            0 <= lo <= b < hi <= self@.nodes.len(),
            self@.nodes.len() <= after@.nodes.len(),
            forall|x: NodeId| 0 <= x < sources ==> after@.node(x) == #[trigger] self@.node(x),
            self@.closed(0, sources),
            forall|x: NodeId|
                lo <= x < hi ==> same_content(#[trigger] self@.node(x), after@.node(x)),
            self@.closed(lo, hi),
        ensures
            after.mirrors(a, b),
        decreases self.rank_of(a), self@.children(a).len() + 1,
    {
        assert(self@.node(a) == after@.node(a));
        assert(same_content(self@.node(b), after@.node(b)));
        self.lemma_mirrors_children_frame(
            after,
            a,
            b,
            self@.children(a).len(),
            sources,
            lo,
            hi,
        );
    }

    /// The frame rule for the first `k` children.
    pub proof fn lemma_mirrors_children_frame(
        &self,
        after: &Dom,
        a: NodeId,
        b: NodeId,
        k: nat,
        sources: int,
        lo: int,
        hi: int,
    )
        requires
            self.wf(),
            after.wf(),
            self@.contains(a),
            k <= self@.children(a).len(),
            self@.children(b).len() == self@.children(a).len(),
            self.mirrors_children(a, b, k),
            0 <= a < sources <= self@.nodes.len(),
            0 <= lo <= b < hi <= self@.nodes.len(),
            self@.nodes.len() <= after@.nodes.len(),
            forall|x: NodeId| 0 <= x < sources ==> after@.node(x) == #[trigger] self@.node(x),
            self@.closed(0, sources),
            forall|x: NodeId|
                lo <= x < hi ==> same_content(#[trigger] self@.node(x), after@.node(x)),
            self@.closed(lo, hi),
        ensures
            after.mirrors_children(a, b, k),
        decreases self.rank_of(a), k,
    {
        assert(self@.node(a) == after@.node(a));
        assert(same_content(self@.node(b), after@.node(b)));
        if k > 0 {
            let c = self@.children(a)[k - 1];
            let cc = self@.children(b)[k - 1];
            assert(self@.node_inv(a));
            assert(self@.child_edge_ok(a, c));
            assert(self@.parent_link(c) == Some(a));
            assert(0 <= c < sources);
            assert(lo <= cc < hi);
            self.lemma_mirrors_children_frame(after, a, b, (k - 1) as nat, sources, lo, hi);
            self.lemma_mirrors_frame(after, c, cc, sources, lo, hi);
        }
    }
}

impl Dom {
    /// Copies the node `src`, and with `deep` the tree below it, into new
    /// nodes at the end of the arena. The copy of `src` belongs to `owner`;
    /// the copies below it belong to the document that their parent's
    /// children belong to.
    fn clone_tree(&mut self, src: NodeId, owner: Option<NodeId>, deep: bool) -> (res: NodeId)
        requires
            old(self).wf(),
            old(self)@.contains(src),
            match owner {
                Some(d) => old(self)@.contains(d) && old(self)@.node_type(d) is Document,
                None => !is_owned_type(old(self)@.node_type(src)),
            },
            old(self)@.node_type(src) is Document || old(self)@.children(src).len() == 0
                || owner is Some,
        ensures
            final(self).wf(),
            res == old(self)@.nodes.len(),
            final(self)@.nodes.len() > old(self)@.nodes.len(),
            forall|x: NodeId|
                0 <= x < old(self)@.nodes.len() ==> final(self)@.node(x) == #[trigger] old(
                    self,
                )@.node(x),
            forall|x: NodeId|
                0 <= x < old(self)@.nodes.len() ==> final(self).rank_of(x) == #[trigger] old(
                    self,
                ).rank_of(x),
            final(self)@.node(res) == (NodeView {
                children: final(self)@.children(res),
                ..fresh_node(
                    old(self)@.node_type(src),
                    old(self)@.name(src),
                    old(self)@.value(src),
                    owner,
                )
            }),
            final(self)@.closed(old(self)@.nodes.len() as int, final(self)@.nodes.len() as int),
            deep ==> final(self).mirrors(src, res),
            !deep ==> final(self)@.children(res).len() == 0,
            final(self).subtree(res) == handles(
                old(self)@.nodes.len() as int,
                final(self)@.nodes.len() as int,
            ),
        decreases old(self).rank_of(src),
    {
        let node_type = self.nodes[src].node_type;
        let copy = Node {
            node_type,
            name: self.nodes[src].name.clone(),
            value: copy_opt_string(&self.nodes[src].value),
            parent: None,
            owner_document: owner,
            children: Vec::new(),
            extension: Extension::empty(node_type),
        };
        let ghost base: int = self@.nodes.len() as int;
        let ghost root_view = fresh_node(
            node_type,
            self@.name(src),
            self@.value(src),
            owner,
        );
        proof {
            let d = self@.with_new(root_view);
            let id = self@.nodes.len() as NodeId;
            assert(self.nodes.len() == self.nodes@.len());
            assert(copy@ == root_view);
            assert(d.node(id) == root_view);
            assert(d.attribute_names(id) =~= Seq::empty());
            assert(d.namespace_prefixes(id) =~= Seq::empty());
            assert(d.id_values(id) =~= Seq::empty());
            assert(d.node_inv(id));
            assert(self@.node_inv(src));
        }
        let id = self.add_node(copy);
        proof {
            assert(self.subtrees(id, 0) =~= handles(base + 1, self@.nodes.len() as int));
        }
        if !deep {
            proof {
                assert(self.subtree(id) =~= handles(base, self@.nodes.len() as int));
            }
            return id;
        }
        let child_owner: Option<NodeId> = match node_type {
            NodeType::Document => Some(id),
            _ => owner,
        };
        let n: usize = self.nodes[src].children.len();
        let mut i: usize = 0;
        proof {
            assert(self@.node(src) == old(self)@.node(src));
            self.lemma_mirrors_children(src, id, 0);
            assert(old(self)@.closed(0, base)) by {
                assert forall|x: NodeId, k: int|
                    0 <= x < base && 0 <= k < old(self)@.children(x).len() implies 0 <= (
                #[trigger] old(self)@.children(x)[k]) < base by {
                    assert(old(self)@.node_inv(x));
                    assert(old(self)@.child_edge_ok(x, old(self)@.children(x)[k]));
                }
            }
        }
        while i < n
            invariant
                self.wf(),
                old(self).wf(),
                base == old(self)@.nodes.len(),
                id == base,
                src < base,
                self@.nodes.len() > base,
                n == old(self)@.children(src).len(),
                i <= n,
                old(self)@.closed(0, base),
                forall|x: NodeId|
                    0 <= x < base ==> self@.node(x) == #[trigger] old(self)@.node(x),
                forall|x: NodeId|
                    0 <= x < base ==> self.rank_of(x) == #[trigger] old(self).rank_of(x),
                self@.node(id) == (NodeView { children: self@.children(id), ..root_view }),
                root_view == fresh_node(
                    old(self)@.node_type(src),
                    old(self)@.name(src),
                    old(self)@.value(src),
                    owner,
                ),
                self@.children(id).len() == i,
                self@.closed(base + 1, self@.nodes.len() as int),
                self.subtrees(id, i as nat) == handles(base + 1, self@.nodes.len() as int),
                forall|j: int| 0 <= j < i ==> base < #[trigger] self@.children(id)[j],
                forall|j: int|
                    0 <= j < i ==> self.mirrors(
                        #[trigger] old(self)@.children(src)[j],
                        self@.children(id)[j],
                    ),
                child_owner == self@.document_of(id),
                match child_owner {
                    Some(d) => self@.contains(d) && self@.node_type(d) is Document,
                    None => n == 0,
                },
            decreases n - i,
        {
            let child: NodeId = self.nodes[src].children[i];
            let ghost s1 = *self;
            proof {
                assert(old(self)@.node_inv(src));
                assert(old(self)@.child_edge_ok(src, old(self)@.children(src)[i as int]));
                assert(self@.node(child) == old(self)@.node(child));
                assert(self@.node_inv(child));
            }
            let copy_of_child = self.clone_tree(child, child_owner, true);
            let ghost s2 = *self;
            proof {
                assert forall|j: int| 0 <= j < i implies s2.mirrors(
                    #[trigger] old(self)@.children(src)[j],
                    s1@.children(id)[j],
                ) by {
                    let a = old(self)@.children(src)[j];
                    assert(old(self)@.child_edge_ok(src, a));
                    assert forall|x: NodeId| 0 <= x < base implies s2@.node(x) == #[trigger] s1@.node(
                        x,
                    ) by {}
                    assert(s1@.closed(0, base)) by {
                        assert forall|x: NodeId, k: int|
                            0 <= x < base && 0 <= k < s1@.children(x).len() implies 0 <= (
                        #[trigger] s1@.children(x)[k]) < base by {
                            assert(s1@.node(x) == old(self)@.node(x));
                            assert(0 <= old(self)@.children(x)[k] < base);
                        }
                    }
                    s1.lemma_mirrors_frame(
                        &s2,
                        a,
                        s1@.children(id)[j],
                        base,
                        base + 1,
                        s1@.nodes.len() as int,
                    );
                }
                assert(s2@.closed(base + 1, s2@.nodes.len() as int)) by {
                    assert forall|x: NodeId, k: int|
                        base + 1 <= x < s2@.nodes.len() && 0 <= k < s2@.children(x).len() implies base
                        + 1 <= (#[trigger] s2@.children(x)[k]) < s2@.nodes.len() by {
                        if x < s1@.nodes.len() {
                            assert(s2@.node(x) == s1@.node(x));
                            assert(base + 1 <= s1@.children(x)[k] < s1@.nodes.len());
                        }
                    }
                }
                assert(s2@.node(id) == s1@.node(id));
                assert(s2.subtrees(id, i as nat) == s1.subtrees(id, i as nat)) by {
                    assert(s1@.node_inv(id));
                    assert forall|j: int| 0 <= j < i implies s2@.children(id)[j]
                        == #[trigger] s1@.children(id)[j] && base + 1 <= s1@.children(id)[j]
                        < s1@.nodes.len() by {
                        assert(s1@.child_edge_ok(id, s1@.children(id)[j]));
                    }
                    s1.lemma_subtrees_frame(
                        &s2,
                        id,
                        i as nat,
                        base + 1,
                        s1@.nodes.len() as int,
                    );
                }
                // the copy can be hung below the copy of its parent
                s2@.lemma_root_ancestors(id, copy_of_child);
                assert(child_allowed(s2@.node_type(id), s2@.node_type(copy_of_child)));
            }
            self.attach(id, copy_of_child, i);
            proof {
                assert forall|x: NodeId| 0 <= x < self@.nodes.len() && x != id implies self.rank_of(
                    x,
                ) == #[trigger] s2.rank_of(x) by {
                    s2@.lemma_root_ancestors(id, x);
                }
                assert forall|x: NodeId|
                    base + 1 <= x < s2@.nodes.len() implies same_content(
                    #[trigger] s2@.node(x),
                    self@.node(x),
                ) by {}
                assert(s2@.closed(0, base)) by {
                    assert forall|x: NodeId, k: int|
                        0 <= x < base && 0 <= k < s2@.children(x).len() implies 0 <= (
                    #[trigger] s2@.children(x)[k]) < base by {
                        assert(s2@.node(x) == s1@.node(x));
                        assert(s1@.node(x) == old(self)@.node(x));
                        assert(0 <= old(self)@.children(x)[k] < base);
                    }
                }
                assert forall|j: int| 0 <= j < i + 1 implies self.mirrors(
                    #[trigger] old(self)@.children(src)[j],
                    self@.children(id)[j],
                ) by {
                    let a = old(self)@.children(src)[j];
                    assert(old(self)@.child_edge_ok(src, a));
                    let b = if j < i {
                        s1@.children(id)[j]
                    } else {
                        copy_of_child
                    };
                    assert(self@.children(id)[j] == b);
                    s2.lemma_mirrors_frame(
                        self,
                        a,
                        b,
                        base,
                        base + 1,
                        s2@.nodes.len() as int,
                    );
                }
                assert(self@.closed(base + 1, self@.nodes.len() as int)) by {
                    assert forall|x: NodeId, k: int|
                        base + 1 <= x < self@.nodes.len() && 0 <= k < self@.children(
                            x,
                        ).len() implies base + 1 <= (#[trigger] self@.children(x)[k])
                        < self@.nodes.len() by {
                        assert(same_content(s2@.node(x), self@.node(x)));
                        assert(base + 1 <= s2@.children(x)[k] < s2@.nodes.len());
                    }
                }
                assert forall|j: int| 0 <= j < i + 1 implies base < #[trigger] self@.children(
                    id,
                )[j] by {
                    if j < i {
                        assert(self@.children(id)[j] == s1@.children(id)[j]);
                    }
                }
                assert(self.subtrees(id, (i + 1) as nat) == handles(
                    base + 1,
                    self@.nodes.len() as int,
                )) by {
                    assert(s2@.node_inv(id));
                    assert forall|j: int| 0 <= j < i implies self@.children(id)[j]
                        == #[trigger] s2@.children(id)[j] && base + 1 <= s2@.children(id)[j]
                        < s2@.nodes.len() by {
                        assert(s2@.child_edge_ok(id, s2@.children(id)[j]));
                    }
                    s2.lemma_subtrees_frame(
                        self,
                        id,
                        i as nat,
                        base + 1,
                        s2@.nodes.len() as int,
                    );
                    s2.lemma_subtree_frame(
                        self,
                        copy_of_child,
                        base + 1,
                        s2@.nodes.len() as int,
                    );
                    assert(self@.children(id)[i as int] == copy_of_child);
                    assert(self@.node_inv(id));
                    assert(self@.child_edge_ok(id, self@.children(id)[i as int]));
                    assert(self.subtrees(id, (i + 1) as nat) == self.subtrees(id, i as nat)
                        + self.subtree(copy_of_child));
                    assert(handles(base + 1, s1@.nodes.len() as int) + handles(
                        s1@.nodes.len() as int,
                        s2@.nodes.len() as int,
                    ) =~= handles(base + 1, s2@.nodes.len() as int));
                }
            }
            i += 1;
        }
        proof {
            self.lemma_mirrors_children(src, id, n as nat);
            assert(self@.node(src) == old(self)@.node(src));
            assert(self.subtree(id) =~= handles(base, self@.nodes.len() as int));
            assert(self@.closed(base, self@.nodes.len() as int)) by {
                assert forall|x: NodeId, k: int|
                    base <= x < self@.nodes.len() && 0 <= k < self@.children(x).len() implies base
                    <= (#[trigger] self@.children(x)[k]) < self@.nodes.len() by {
                    if x == id {
                        assert(self@.node_inv(id));
                        assert(self@.child_edge_ok(id, self@.children(id)[k]));
                    } else {
                        assert(base + 1 <= self@.children(x)[k] < self@.nodes.len());
                    }
                }
            }
        }
        id
    }

    /// Copies a node into a new node at the end of the arena: the kind, the
    /// name and the value are those of `node`, the payload the one a new
    /// node of the kind starts with. The copy belongs to the document that
    /// `node` belongs to and has no parent. Without `deep` it has no
    /// children. With `deep` the tree below `node` is copied with it, node
    /// for node into new nodes: no node of the copy is a node of the
    /// source tree. Nothing that was in the arena changes.
    pub fn clone_node(&mut self, node: NodeId, deep: bool) -> (res: Option<NodeId>)
        requires
            old(self).wf(),
            old(self)@.contains(node),
        ensures
            final(self).wf(),
            res == Some(old(self)@.nodes.len() as NodeId),
            final(self)@.nodes.len() > old(self)@.nodes.len(),
            forall|x: NodeId|
                0 <= x < old(self)@.nodes.len() ==> final(self)@.node(x) == #[trigger] old(
                    self,
                )@.node(x),
            final(self)@.node(res->0) == (NodeView {
                children: final(self)@.children(res->0),
                ..fresh_node(
                    old(self)@.node_type(node),
                    old(self)@.name(node),
                    old(self)@.value(node),
                    old(self)@.owner_document(node),
                )
            }),
            final(self)@.closed(old(self)@.nodes.len() as int, final(self)@.nodes.len() as int),
            deep ==> final(self).mirrors(node, res->0),
            !deep ==> final(self)@.children(res->0).len() == 0,
            final(self).subtree(res->0) == handles(
                old(self)@.nodes.len() as int,
                final(self)@.nodes.len() as int,
            ),
            forall|i: int|
                0 <= i < final(self)@.children(res->0).len() && i < final(self)@.children(
                    node,
                ).len() ==> final(self)@.children(res->0)[i] != final(self)@.children(node)[i],
    {
        proof {
            assert(self@.node_inv(node));
            if self@.children(node).len() > 0 {
                assert(self@.child_edge_ok(node, self@.children(node)[0]));
                assert(self@.node_inv(self@.children(node)[0]));
            }
        }
        let owner = self.nodes[node].owner_document;
        let id = self.clone_tree(node, owner, deep);
        proof {
            assert(self@.node(node) == old(self)@.node(node));
            assert forall|i: int|
                0 <= i < self@.children(id).len() && i < self@.children(
                    node,
                ).len() implies self@.children(id)[i] != self@.children(node)[i] by {
                assert(old(self)@.child_edge_ok(node, old(self)@.children(node)[i]));
                assert(old(self)@.nodes.len() <= self@.children(id)[i]);
            }
        }
        Some(id)
    }
}

} // verus!
