use vstd::prelude::*;
use vstd::string::*;
use crate::dom::Dom;
use crate::model::DomView;
use crate::node::{NodeId, NodeType};
use crate::seqs::{lemma_index_of_unique, lemma_remove_no_duplicates};

verus! {

impl DomView {
    /// What `normalize` does with one child of `n`: a text node without text
    /// is detached; a text node that stands right after another text node
    /// gives its text to that node and is detached; any other child stays.
    pub open spec fn normalize_child(self, n: NodeId, c: NodeId) -> DomView {
        if !(self.node_type(c) is Text) {
            self
        } else if self.text(c).len() == 0 {
            self.detach(n, c)
        } else {
            match self.previous_sibling(c) {
                Some(p) => if self.node_type(p) is Text {
                    self.append(p, self.text(c)).detach(n, c)
                } else {
                    self
                },
                None => self,
            }
        }
    }

    /// What `normalize` does with the children that are still to be looked
    /// at, in order.
    pub open spec fn normalize_from(self, n: NodeId, todo: Seq<NodeId>) -> DomView
        decreases todo.len(),
    {
        if todo.len() == 0 {
            self
        } else {
            self.normalize_child(n, todo[0]).normalize_from(n, todo.drop_first())
        }
    }

    /// What `normalize` does: it walks the children of `n` as they were when
    /// it began.
    pub open spec fn normalize(self, n: NodeId) -> DomView {
        self.normalize_from(n, self.children(n))
    }

    /// The child of `n` at place `i` is a text node without text.
    pub open spec fn empty_text_at(self, n: NodeId, i: int) -> bool {
        self.node_type(self.children(n)[i]) is Text && self.text(self.children(n)[i]).len() == 0
    }

    /// The child of `n` at place `i` is a text node and stands right after
    /// a text node.
    pub open spec fn text_after_text_at(self, n: NodeId, i: int) -> bool {
        i > 0 && self.node_type(self.children(n)[i]) is Text && self.node_type(
            self.children(n)[i - 1],
        ) is Text
    }

    /// Among the first `m` children of `n` no text node is empty and no text
    /// node stands right after another.
    pub open spec fn merged_upto(self, n: NodeId, m: int) -> bool {
        &&& forall|i: int| 0 <= i < m ==> !#[trigger] self.empty_text_at(n, i)
        &&& forall|i: int| 0 <= i < m ==> !#[trigger] self.text_after_text_at(n, i)
    }

    /// What `normalize` does with the child at place `m`, spelled out by
    /// what stands before it.
    pub proof fn lemma_normalize_child(self, rank: Seq<nat>, bound: nat, n: NodeId, m: int)
        requires
            self.inv(),
            self.ranked(rank, bound),
            self.contains(n),
            0 <= m < self.children(n).len(),
        ensures
            ({
                let c = self.children(n)[m];
                self.normalize_child(n, c) == if !(self.node_type(c) is Text) {
                    self
                } else if self.text(c).len() == 0 {
                    self.detach(n, c)
                } else if m > 0 && self.node_type(self.children(n)[m - 1]) is Text {
                    self.with_value(
                        self.children(n)[m - 1],
                        Some(self.text(self.children(n)[m - 1]) + self.text(c)),
                    ).detach(n, c)
                } else {
                    self
                }
            }),
    {
        let ch = self.children(n);
        let c = ch[m];
        assert(self.node_inv(n));
        assert(self.child_edge_ok(n, ch[m]));
        lemma_index_of_unique(ch, m);
        assert(!(self.node_type(c) is Attribute));
        assert(self.sibling_index(c) == Some(m));
    }

    /// Taking out the child at place `m` leaves the children before it as
    /// they were.
    pub proof fn lemma_drop_child(self, rank: Seq<nat>, bound: nat, n: NodeId, m: int)
        requires
            self.inv(),
            self.ranked(rank, bound),
            self.contains(n),
            0 <= m < self.children(n).len(),
            self.merged_upto(n, m),
        ensures
            self.detach(n, self.children(n)[m]).inv(),
            self.detach(n, self.children(n)[m]).ranked(rank, bound),
            self.detach(n, self.children(n)[m]).contains(n),
            self.detach(n, self.children(n)[m]).children(n) == self.children(n).remove(m),
            self.detach(n, self.children(n)[m]).merged_upto(n, m),
    {
        let ch = self.children(n);
        let c = ch[m];
        let next = self.detach(n, c);
        assert(self.node_inv(n));
        assert(self.child_edge_ok(n, ch[m]));
        lemma_index_of_unique(ch, m);
        self.lemma_detach_inv(rank, bound, n, c);
        assert(c != n);
        assert forall|i: int| 0 <= i < m implies !#[trigger] next.empty_text_at(n, i) by {
            let x = self.children(n)[i];
            assert(!self.empty_text_at(n, i));
            assert(!self.text_after_text_at(n, i));
            assert(next.children(n)[i] == x);
            assert(self.node_type(x) == next.node_type(x));
            assert(self.text(x) == next.text(x));
            if i > 0 {
                let y = self.children(n)[i - 1];
                assert(next.children(n)[i - 1] == y);
                assert(self.node_type(y) == next.node_type(y));
            }
        }
        assert forall|i: int| 0 <= i < m implies !#[trigger] next.text_after_text_at(n, i) by {
            let x = self.children(n)[i];
            assert(!self.empty_text_at(n, i));
            assert(!self.text_after_text_at(n, i));
            assert(next.children(n)[i] == x);
            assert(self.node_type(x) == next.node_type(x));
            assert(self.text(x) == next.text(x));
            if i > 0 {
                let y = self.children(n)[i - 1];
                assert(next.children(n)[i - 1] == y);
                assert(self.node_type(y) == next.node_type(y));
            }
        }
    }

    /// Giving the child at place `m - 1` more text leaves the children up to
    /// `m` in normal form.
    pub proof fn lemma_grow_child(
        self,
        rank: Seq<nat>,
        bound: nat,
        n: NodeId,
        m: int,
        text: Seq<char>,
    )
        requires
            self.inv(),
            self.ranked(rank, bound),
            self.contains(n),
            0 < m <= self.children(n).len(),
            self.merged_upto(n, m),
            text.len() > 0,
        ensures
            self.with_value(self.children(n)[m - 1], Some(text)).inv(),
            self.with_value(self.children(n)[m - 1], Some(text)).ranked(rank, bound),
            self.with_value(self.children(n)[m - 1], Some(text)).children(n) == self.children(n),
            self.with_value(self.children(n)[m - 1], Some(text)).merged_upto(n, m),
    {
        let ch = self.children(n);
        let p = ch[m - 1];
        let next = self.with_value(p, Some(text));
        assert(self.node_inv(n));
        assert(self.child_edge_ok(n, ch[m - 1]));
        self.lemma_with_value_inv(rank, bound, p, Some(text));
        assert(next.children(n) == ch);
        assert forall|i: int| 0 <= i < m implies !#[trigger] next.empty_text_at(n, i) by {
            let x = self.children(n)[i];
            assert(!self.empty_text_at(n, i));
            assert(!self.text_after_text_at(n, i));
            assert(self.child_edge_ok(n, ch[i]));
            assert(self.node_type(x) == next.node_type(x));
            if x != p {
                assert(self.text(x) == next.text(x));
            }
            if i > 0 {
                let y = self.children(n)[i - 1];
                assert(self.child_edge_ok(n, ch[i - 1]));
                assert(self.node_type(y) == next.node_type(y));
            }
        }
        assert forall|i: int| 0 <= i < m implies !#[trigger] next.text_after_text_at(n, i) by {
            let x = self.children(n)[i];
            assert(!self.empty_text_at(n, i));
            assert(!self.text_after_text_at(n, i));
            assert(self.child_edge_ok(n, ch[i]));
            assert(self.node_type(x) == next.node_type(x));
            if x != p {
                assert(self.text(x) == next.text(x));
            }
            if i > 0 {
                let y = self.children(n)[i - 1];
                assert(self.child_edge_ok(n, ch[i - 1]));
                assert(self.node_type(y) == next.node_type(y));
            }
        }
    }

    /// Walking the children that are left, after the first `m` are in
    /// normal form, brings all of them into normal form.
    pub proof fn lemma_normalize_from(
        self,
        rank: Seq<nat>,
        bound: nat,
        n: NodeId,
        todo: Seq<NodeId>,
        m: int,
    )
        requires
            self.inv(),
            self.ranked(rank, bound),
            self.contains(n),
            0 <= m <= self.children(n).len(),
            self.children(n).skip(m) == todo,
            self.merged_upto(n, m),
        ensures
            self.normalize_from(n, todo).merged_upto(
                n,
                self.normalize_from(n, todo).children(n).len() as int,
            ),
        decreases todo.len(),
    {
        let ch = self.children(n);
        if todo.len() > 0 {
            let c = todo[0];
            let rest = todo.drop_first();
            assert(ch[m] == c);
            self.lemma_normalize_child(rank, bound, n, m);
            let next = self.normalize_child(n, c);
            if !(self.node_type(c) is Text) || (self.text(c).len() > 0 && !(m > 0
                && self.node_type(ch[m - 1]) is Text)) {
                assert(next == self);
                assert(ch.skip(m + 1) =~= rest);
                assert forall|i: int| 0 <= i < m + 1 implies !#[trigger] self.empty_text_at(n, i) by {
                    if i < m {
                        assert(!self.empty_text_at(n, i));
                        assert(!self.text_after_text_at(n, i));
                    }
                }
                assert forall|i: int| 0 <= i < m + 1 implies !#[trigger] self.text_after_text_at(n, i) by {
                    if i < m {
                        assert(!self.empty_text_at(n, i));
                        assert(!self.text_after_text_at(n, i));
                    }
                }
                self.lemma_normalize_from(rank, bound, n, rest, m + 1);
            } else if self.text(c).len() == 0 {
                self.lemma_drop_child(rank, bound, n, m);
                assert(ch.remove(m).skip(m) =~= rest);
                next.lemma_normalize_from(rank, bound, n, rest, m);
            } else {
                let grown = self.with_value(ch[m - 1], Some(self.text(ch[m - 1]) + self.text(c)));
                self.lemma_grow_child(rank, bound, n, m, self.text(ch[m - 1]) + self.text(c));
                assert(grown.children(n)[m] == c);
                assert(grown.merged_upto(n, m));
                grown.lemma_drop_child(rank, bound, n, m);
                assert(ch.remove(m).skip(m) =~= rest);
                next.lemma_normalize_from(rank, bound, n, rest, m);
            }
        } else {
            assert(m == ch.len());
        }
    }
}

impl Dom {
    /// The text of a node; empty without a value.
    fn text_of(&self, node: NodeId) -> (res: String)
        requires
            self@.contains(node),
        ensures
            res@ == self@.text(node),
    {
        match &self.nodes[node].value {
            Some(s) => s.clone(),
            None => String::new(),
        }
    }

    /// Brings one child of `node` into normal form.
    fn normalize_child(&mut self, node: NodeId, child: NodeId)
        requires
            old(self).wf(),
            old(self)@.contains(node),
            old(self)@.is_child(node, child),
        ensures
            final(self).wf(),
            final(self)@ == old(self)@.normalize_child(node, child),
            final(self)@.nodes.len() == old(self)@.nodes.len(),
            forall|x: NodeId|
                x != child && old(self)@.is_child(node, x) ==> final(self)@.is_child(node, x),
    {
        proof {
            assert(self@.node_inv(node));
            let i = self@.children(node).index_of(child);
            assert(self@.child_edge_ok(node, self@.children(node)[i]));
            lemma_remove_no_duplicates(self@.children(node), i);
        }
        if !matches!(self.nodes[child].node_type, NodeType::Text) {
            return ;
        }
        if self.length(child) == 0 {
            let _ = self.remove_child(node, child);
            return ;
        }
        match self.previous_sibling(child) {
            Some(p) => {
                proof {
                    self@.lemma_previous_sibling(child);
                }
                if matches!(self.nodes[p].node_type, NodeType::Text) {
                    let data = self.text_of(child);
                    let _ = self.append(p, data.as_str());
                    let _ = self.remove_child(node, child);
                }
            },
            None => {},
        }
    }

    /// Merges runs of text among the children of a node: a text node
    /// without text is taken out, and a text node that stands right after
    /// another text node gives it its text and is taken out. Only the
    /// node's own children are looked at. A node that is taken out keeps its
    /// handle and its value.
    pub fn normalize(&mut self, node: NodeId)
        requires
            old(self).wf(),
            old(self)@.contains(node),
        ensures
            final(self).wf(),
            final(self)@ == old(self)@.normalize(node),
    {
        let snapshot = self.child_nodes(node);
        let n: usize = snapshot.len();
        let mut i: usize = 0;
        proof {
            assert(self@.node_inv(node));
            assert(snapshot@.skip(0) =~= snapshot@);
            assert forall|j: int| 0 <= j < n implies self@.is_child(
                node,
                #[trigger] snapshot@[j],
            ) by {
                lemma_index_of_unique(snapshot@, j);
            }
        }
        while i < n
            invariant
                self.wf(),
                self@.contains(node),
                n == snapshot.len(),
                i <= n,
                snapshot@.no_duplicates(),
                forall|j: int| i <= j < n ==> self@.is_child(node, #[trigger] snapshot@[j]),
                self@.normalize_from(node, snapshot@.skip(i as int)) == old(self)@.normalize(
                    node,
                ),
            decreases n - i,
        {
            let child: NodeId = snapshot[i];
            proof {
                assert(snapshot@.skip(i as int)[0] == child);
                assert(snapshot@.skip(i as int).drop_first() =~= snapshot@.skip(i + 1));
            }
            self.normalize_child(node, child);
            i += 1;
        }
        proof {
            assert(snapshot@.skip(n as int).len() == 0);
        }
    }
}

} // verus!
