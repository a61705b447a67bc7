use vstd::prelude::*;
use vstd::string::*;
use crate::dom::Dom;
use crate::matcher::{
    namespaced_name_match, namespaced_name_matches, tag_name_match, tag_name_matches, wild_card,
};
use crate::model::DomView;
use crate::node::{NodeId, NodeType};

verus! {

impl DomView {
    /// The test that a tag-name query puts to a node: an element whose
    /// qualified name matches the pattern.
    pub open spec fn tag_matcher(self, pattern: Seq<char>) -> spec_fn(NodeId) -> bool {
        |x: NodeId|
            self.node_type(x) is Element && tag_name_matches(self.name(x).qualified(), pattern)
    }

    /// The test that a namespaced query puts to a node: an element whose
    /// namespace and local name match those asked for.
    pub open spec fn ns_matcher(self, ns: Seq<char>, local: Seq<char>) -> spec_fn(NodeId) -> bool {
        |x: NodeId|
            self.node_type(x) is Element && namespaced_name_matches(
                self.name(x).namespace_uri,
                self.name(x).local_name,
                ns,
                local,
            )
    }

    /// The test that picks the elements.
    pub open spec fn element_test(self) -> spec_fn(NodeId) -> bool {
        |x: NodeId| self.node_type(x) is Element
    }

    /// The node at which a query on `n` starts: a document hands the query on
    /// to its element; any other node starts it at itself.
    pub open spec fn query_root(self, n: NodeId) -> Option<NodeId> {
        if self.node_type(n) is Document {
            self.document_element(n)
        } else {
            Some(n)
        }
    }
}

impl Dom {
    /// The nodes of the tree below and including `n`, in document order: each
    /// node before its children, and the children in their order.
    pub open(crate) spec fn subtree(&self, n: NodeId) -> Seq<NodeId>
        decreases self.rank_of(n), self@.children(n).len() + 1,
        when self.wf() && self@.contains(n)
    {
        seq![n] + self.subtrees(n, self@.children(n).len())
    }

    /// The subtrees of the first `k` children of `n`, one after the other.
    pub open(crate) spec fn subtrees(&self, n: NodeId, k: nat) -> Seq<NodeId>
        decreases self.rank_of(n), k,
        when self.wf() && self@.contains(n) && k <= self@.children(n).len()
    {
        if k == 0 {
            Seq::empty()
        } else {
            proof {
                assert(self@.node_inv(n));
                assert(self@.child_edge_ok(n, self@.children(n)[k - 1]));
                assert(self@.parent_link(self@.children(n)[k - 1]) == Some(n));
            }
            self.subtrees(n, (k - 1) as nat) + self.subtree(self@.children(n)[k - 1])
        }
    }

    /// What `get_elements_by_tag_name` returns: the elements of the tree that
    /// the query starts at whose name matches, in document order.
    pub open(crate) spec fn elements_by_tag_name(&self, n: NodeId, pattern: Seq<char>) -> Seq<
        NodeId,
    > {
        match self@.query_root(n) {
            Some(r) => self.subtree(r).filter(self@.tag_matcher(pattern)),
            None => Seq::empty(),
        }
    }

    /// What `get_elements_by_tag_name_ns` returns.
    pub open(crate) spec fn elements_by_tag_name_ns(
        &self,
        n: NodeId,
        ns: Seq<char>,
        local: Seq<char>,
    ) -> Seq<NodeId> {
        match self@.query_root(n) {
            Some(r) => self.subtree(r).filter(self@.ns_matcher(ns, local)),
            None => Seq::empty(),
        }
    }

    /// The nodes of the tree below and including `node`, in document order.
    pub fn subtree_nodes(&self, node: NodeId) -> (res: Vec<NodeId>)
        requires
            self.wf(),
            self@.contains(node),
        ensures
            res@ == self.subtree(node),
        decreases self.rank_of(node),
    {
        let mut out: Vec<NodeId> = Vec::new();
        out.push(node);
        let n: usize = self.nodes[node].children.len();
        let mut i: usize = 0;
        proof {
            assert(out@ =~= seq![node] + self.subtrees(node, 0));
        }
        while i < n
            invariant
                self.wf(),
                self@.contains(node),
                n == self@.children(node).len(),
                i <= n,
                out@ == seq![node] + self.subtrees(node, i as nat),
            decreases n - i,
        {
            let child: NodeId = self.nodes[node].children[i];
            proof {
                assert(self@.node_inv(node));
                assert(self@.child_edge_ok(node, self@.children(node)[i as int]));
                assert(self@.parent_link(child) == Some(node));
            }
            let mut below = self.subtree_nodes(child);
            out.append(&mut below);
            i += 1;
            proof {
                assert(out@ =~= seq![node] + self.subtrees(node, i as nat));
            }
        }
        out
    }

    /// The items of a list of nodes that pass a test, in the order of the
    /// list.
    fn elements_matching_tag(&self, all: &Vec<NodeId>, pattern: &String) -> (res: Vec<NodeId>)
        requires
            forall|i: int| 0 <= i < all.len() ==> self@.contains(#[trigger] all[i]),
        ensures
            res@ == all@.filter(self@.tag_matcher(pattern@)),
    {
        let ghost pred = self@.tag_matcher(pattern@);
        let mut out: Vec<NodeId> = Vec::new();
        let mut i: usize = 0;
        proof {
            assert(all@.take(0) =~= Seq::empty());
            assert(Seq::<NodeId>::empty().filter(pred) =~= Seq::empty()) by {
                reveal(Seq::filter);
            }
        }
        while i < all.len()
            invariant
                i <= all.len(),
                pred == self@.tag_matcher(pattern@),
                forall|j: int| 0 <= j < all.len() ==> self@.contains(#[trigger] all[j]),
                out@ == all@.take(i as int).filter(pred),
            decreases all.len() - i,
        {
            let x: NodeId = all[i];
            let hit = matches!(self.nodes[x].node_type, NodeType::Element) && tag_name_match(
                &self.nodes[x].name.to_string(),
                pattern,
            );
            proof {
                assert(all@.take(i + 1) =~= all@.take(i as int).push(x));
                all@.take(i as int).lemma_filter_push(x, pred);
                assert(hit == pred(x));
            }
            if hit {
                out.push(x);
            }
            i += 1;
        }
        proof {
            assert(all@.take(all.len() as int) =~= all@);
        }
        out
    }

    /// The items of a list of nodes that are elements with a matching
    /// namespace and local name, in the order of the list.
    fn elements_matching_ns(&self, all: &Vec<NodeId>, ns: &String, local: &String) -> (res: Vec<
        NodeId,
    >)
        requires
            forall|i: int| 0 <= i < all.len() ==> self@.contains(#[trigger] all[i]),
        ensures
            res@ == all@.filter(self@.ns_matcher(ns@, local@)),
    {
        let ghost pred = self@.ns_matcher(ns@, local@);
        let mut out: Vec<NodeId> = Vec::new();
        let mut i: usize = 0;
        proof {
            assert(all@.take(0) =~= Seq::empty());
            assert(Seq::<NodeId>::empty().filter(pred) =~= Seq::empty()) by {
                reveal(Seq::filter);
            }
        }
        while i < all.len()
            invariant
                i <= all.len(),
                pred == self@.ns_matcher(ns@, local@),
                forall|j: int| 0 <= j < all.len() ==> self@.contains(#[trigger] all[j]),
                out@ == all@.take(i as int).filter(pred),
            decreases all.len() - i,
        {
            let x: NodeId = all[i];
            let hit = matches!(self.nodes[x].node_type, NodeType::Element)
                && namespaced_name_match(
                self.nodes[x].name.namespace_uri(),
                self.nodes[x].name.local_name(),
                ns,
                local,
            );
            proof {
                assert(all@.take(i + 1) =~= all@.take(i as int).push(x));
                all@.take(i as int).lemma_filter_push(x, pred);
                assert(hit == pred(x));
            }
            if hit {
                out.push(x);
            }
            i += 1;
        }
        proof {
            assert(all@.take(all.len() as int) =~= all@);
        }
        out
    }

    /// Every node of a subtree is a node of the arena.
    pub proof fn lemma_subtree_contained(&self, n: NodeId)
        requires
            self.wf(),
            self@.contains(n),
        ensures
            forall|i: int|
                0 <= i < self.subtree(n).len() ==> self@.contains(#[trigger] self.subtree(n)[i]),
        decreases self.rank_of(n), self@.children(n).len() + 1,
    {
        self.lemma_subtrees_contained(n, self@.children(n).len());
        let rest = self.subtrees(n, self@.children(n).len());
        assert forall|i: int| 0 <= i < self.subtree(n).len() implies self@.contains(
            #[trigger] self.subtree(n)[i],
        ) by {
            if i > 0 {
                assert(self.subtree(n)[i] == rest[i - 1]);
            }
        }
    }

    /// Every node of the subtrees of the first children is a node of the arena.
    pub proof fn lemma_subtrees_contained(&self, n: NodeId, k: nat)
        requires
            self.wf(),
            self@.contains(n),
            k <= self@.children(n).len(),
        ensures
            forall|i: int|
                0 <= i < self.subtrees(n, k).len() ==> self@.contains(
                    #[trigger] self.subtrees(n, k)[i],
                ),
        decreases self.rank_of(n), k,
    {
        if k > 0 {
            let c = self@.children(n)[k - 1];
            assert(self@.node_inv(n));
            assert(self@.child_edge_ok(n, c));
            assert(self@.parent_link(c) == Some(n));
            self.lemma_subtrees_contained(n, (k - 1) as nat);
            self.lemma_subtree_contained(c);
            let head = self.subtrees(n, (k - 1) as nat);
            assert forall|i: int| 0 <= i < self.subtrees(n, k).len() implies self@.contains(
                #[trigger] self.subtrees(n, k)[i],
            ) by {
                if i < head.len() {
                    assert(self.subtrees(n, k)[i] == head[i]);
                } else {
                    assert(self.subtrees(n, k)[i] == self.subtree(c)[i - head.len()]);
                }
            }
        }
    }

    /// The elements of the tree below and including a node whose qualified
    /// name matches `tag_name`, in document order; `*` matches every name. A
    /// document hands the query on to its element.
    pub fn get_elements_by_tag_name(&self, node: NodeId, tag_name: &str) -> (res: Vec<NodeId>)
        requires
            self.wf(),
            self@.contains(node),
        ensures
            res@ == self.elements_by_tag_name(node, tag_name@),
    {
        let root: NodeId = match self.nodes[node].node_type {
            NodeType::Document => match self.document_element(node) {
                Some(r) => r,
                None => {
                    return Vec::new();
                },
            },
            _ => node,
        };
        proof {
            assert(self@.node_inv(node));
            self.lemma_subtree_contained(root);
        }
        let all = self.subtree_nodes(root);
        self.elements_matching_tag(&all, &tag_name.to_string())
    }

    /// The elements of the tree below and including a node whose namespace
    /// and local name match those given, in document order; `*` matches
    /// every namespace, and every local name. An element without a
    /// namespace is matched by the namespace `*` only. A document hands the
    /// query on to its element.
    pub fn get_elements_by_tag_name_ns(&self, node: NodeId, namespace_uri: &str, local_name: &str) -> (res:
        Vec<NodeId>)
        requires
            self.wf(),
            self@.contains(node),
        ensures
            res@ == self.elements_by_tag_name_ns(node, namespace_uri@, local_name@),
    {
        let root: NodeId = match self.nodes[node].node_type {
            NodeType::Document => match self.document_element(node) {
                Some(r) => r,
                None => {
                    return Vec::new();
                },
            },
            _ => node,
        };
        proof {
            assert(self@.node_inv(node));
            self.lemma_subtree_contained(root);
        }
        let all = self.subtree_nodes(root);
        self.elements_matching_ns(&all, &namespace_uri.to_string(), &local_name.to_string())
    }
}

} // verus!
