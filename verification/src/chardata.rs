use vstd::prelude::*;
use vstd::string::*;
use crate::dom::Dom;
use crate::error::Error;
use crate::factory::fresh_node;
use crate::model::DomView;
use crate::name::opt_str_view;
use crate::node::{Extension, Node, NodeId, NodeType, NodeView};

verus! {

/// The text `s` with the stretch of `count` characters from `offset`, cut off
/// at the end of the text, given over to `data`.
pub open spec fn splice(s: Seq<char>, offset: int, count: int, data: Seq<char>) -> Seq<char> {
    let end = if offset + count < s.len() {
        offset + count
    } else {
        s.len() as int
    };
    s.subrange(0, offset) + data + s.subrange(end, s.len() as int)
}

impl DomView {
    /// What `substring` returns: up to `count` characters from `offset`. A node
    /// without a value has none to give, and `offset` must lie before the end.
    pub open spec fn substring(self, n: NodeId, offset: int, count: int) -> Result<
        Seq<char>,
        Error,
    > {
        match self.value(n) {
            None => Err(Error::IndexSize),
            Some(s) => if offset >= s.len() {
                Err(Error::IndexSize)
            } else if offset + count < s.len() {
                Ok(s.subrange(offset, offset + count))
            } else {
                Ok(s.subrange(offset, s.len() as int))
            },
        }
    }

    /// What `append` does: empty data changes nothing, other data is added
    /// at the end of the text.
    pub open spec fn append(self, n: NodeId, data: Seq<char>) -> DomView {
        if data.len() == 0 {
            self
        } else {
            self.with_value(n, Some(self.text(n) + data))
        }
    }

    /// What `replace` does. With a value, `offset` may be anywhere up to its
    /// end; without one, only the replacement of nothing at offset 0 is in
    /// range, and it sets the value.
    pub open spec fn replace(self, n: NodeId, offset: int, count: int, data: Seq<char>) -> Result<
        DomView,
        Error,
    > {
        match self.value(n) {
            None => if offset == 0 && count == 0 {
                Ok(self.with_value(n, Some(data)))
            } else {
                Err(Error::IndexSize)
            },
            Some(s) => if offset > s.len() {
                Err(Error::IndexSize)
            } else {
                Ok(self.with_value(n, Some(splice(s, offset, count, data))))
            },
        }
    }

    /// What `insert` does: empty data changes nothing; other data replaces
    /// nothing at `offset`.
    pub open spec fn insert(self, n: NodeId, offset: int, data: Seq<char>) -> Result<
        DomView,
        Error,
    > {
        if data.len() == 0 {
            Ok(self)
        } else {
            self.replace(n, offset, 0, data)
        }
    }

    /// What `delete` does: a count of zero changes nothing; otherwise the
    /// stretch is replaced by nothing.
    pub open spec fn delete(self, n: NodeId, offset: int, count: int) -> Result<DomView, Error> {
        if count == 0 {
            Ok(self)
        } else {
            self.replace(n, offset, count, Seq::empty())
        }
    }

    /// What `split` does to a text or CDATA node: the text from `offset` on
    /// moves to a new node of the same kind, made at the end of the arena and
    /// put right after the node under its parent, if it has one. An offset at
    /// or past the end leaves the node's value as it is and makes the new
    /// node empty. Any other kind of node cannot be split.
    pub open spec fn split(self, n: NodeId, offset: int) -> Result<DomView, Error> {
        if !(self.node_type(n) is Text || self.node_type(n) is CData) {
            Err(Error::InvalidState)
        } else {
            let s = self.text(n);
            let id = self.nodes.len() as NodeId;
            let cut = if offset >= s.len() {
                self.with_new(
                    fresh_node(
                        self.node_type(n),
                        self.name(n),
                        Some(Seq::empty()),
                        self.owner_document(n),
                    ),
                )
            } else {
                self.with_value(n, Some(s.subrange(0, offset))).with_new(
                    fresh_node(
                        self.node_type(n),
                        self.name(n),
                        Some(s.subrange(offset, s.len() as int)),
                        self.owner_document(n),
                    ),
                )
            };
            match self.parent_link(n) {
                Some(p) => Ok(cut.attach(p, id, self.children(p).index_of(n) + 1)),
                None => Ok(cut),
            }
        }
    }

    /// Changing a node's value keeps the arena in order.
    pub proof fn lemma_with_value_inv(
        self,
        rank: Seq<nat>,
        bound: nat,
        n: NodeId,
        value: Option<Seq<char>>,
    )
        requires
            self.inv(),
            self.ranked(rank, bound),
            self.contains(n),
        ensures
            self.with_value(n, value).inv(),
            self.with_value(n, value).ranked(rank, bound),
    {
        let d = self.with_value(n, value);
        assert forall|m: NodeId| d.contains(m) implies #[trigger] d.node_inv(m) by {
            assert(self.node_inv(m));
            assert forall|k: int| 0 <= k < self.children(m).len() implies {
                let c = #[trigger] self.children(m)[k];
                d.node(c).parent == self.node(c).parent && d.node(c).node_type == self.node(
                    c,
                ).node_type && d.node(c).owner_document == self.node(c).owner_document
            } by {}
            if m == n {
                assert forall|k: int| 0 <= k < d.children(m).len() implies d.child_edge_ok(
                    m,
                    #[trigger] d.children(m)[k],
                ) by {
                    assert(self.child_edge_ok(m, self.children(m)[k]));
                }
                assert(d.attribute_names(m) =~= self.attribute_names(m));
                assert(d.namespace_prefixes(m) =~= self.namespace_prefixes(m));
                assert(d.id_values(m) =~= self.id_values(m));
            } else {
                self.lemma_node_inv_extends(d, m);
            }
        }
        assert forall|m: NodeId| d.contains(m) implies match #[trigger] d.parent_link(m) {
            Some(p) => d.contains(p) && rank[m as int] < rank[p as int],
            None => true,
        } by {
            assert(d.parent_link(m) == self.parent_link(m));
        }
    }
}

impl Dom {
    /// Gives a node a new value, or none.
    pub(crate) fn put_value(&mut self, node: NodeId, value: Option<String>)
        requires
            old(self).wf(),
            old(self)@.contains(node),
        ensures
            final(self).wf(),
            final(self)@ == old(self)@.with_value(node, opt_str_view(value)),
    {
        proof {
            self@.lemma_with_value_inv(self.rank@, self.bound@, node, opt_str_view(value));
        }
        self.nodes[node].value = value;
        proof {
            assert(self@.nodes =~= old(self)@.with_value(node, opt_str_view(value)).nodes);
        }
    }

    /// Sets a node's value.
    pub fn set_node_value(&mut self, node: NodeId, value: &str) -> (res: Result<(), Error>)
        requires
            old(self).wf(),
            old(self)@.contains(node),
        ensures
            final(self).wf(),
            res is Ok,
            final(self)@ == old(self)@.with_value(node, Some(value@)),
    {
        self.put_value(node, Some(value.to_string()));
        Ok(())
    }

    /// Leaves a node without a value.
    pub fn unset_node_value(&mut self, node: NodeId) -> (res: Result<(), Error>)
        requires
            old(self).wf(),
            old(self)@.contains(node),
        ensures
            final(self).wf(),
            res is Ok,
            final(self)@ == old(self)@.with_value(node, None),
    {
        self.put_value(node, None);
        Ok(())
    }

    /// The number of characters of a node's text; zero without a value.
    pub fn length(&self, node: NodeId) -> (res: usize)
        requires
            self@.contains(node),
        ensures
            res == self@.text(node).len(),
    {
        match &self.nodes[node].value {
            None => 0,
            Some(s) => s.as_str().unicode_len(),
        }
    }

    /// Up to `count` characters of a node's text from the character at
    /// `offset`; fewer where the text ends before that. Offsets count
    /// characters. An `offset` at or past the end of the text, or a node
    /// without a value, is out of range.
    pub fn substring(&self, node: NodeId, offset: usize, count: usize) -> (res: Result<
        String,
        Error,
    >)
        requires
            self@.contains(node),
        ensures
            match self@.substring(node, offset as int, count as int) {
                Ok(s) => res is Ok && res->Ok_0@ == s,
                Err(e) => res == Err::<String, Error>(e),
            },
    {
        match &self.nodes[node].value {
            None => Err(Error::IndexSize),
            Some(data) => {
                let len: usize = data.as_str().unicode_len();
                if offset >= len {
                    Err(Error::IndexSize)
                } else if count < len - offset {
                    Ok(data.as_str().substring_char(offset, offset + count).to_string())
                } else {
                    Ok(data.as_str().substring_char(offset, len).to_string())
                }
            },
        }
    }

    /// Adds `new_data` at the end of a node's text. Empty data changes
    /// nothing: a node without a value stays without one.
    pub fn append(&mut self, node: NodeId, new_data: &str) -> (res: Result<(), Error>)
        requires
            old(self).wf(),
            old(self)@.contains(node),
        ensures
            final(self).wf(),
            res is Ok,
            final(self)@ == old(self)@.append(node, new_data@),
    {
        if new_data.unicode_len() == 0 {
            return Ok(());
        }
        let value = match &self.nodes[node].value {
            None => new_data.to_string(),
            Some(old_data) => {
                let mut s = old_data.clone();
                s.append(new_data);
                s
            },
        };
        assert(value@ =~= self@.text(node) + new_data@);
        self.put_value(node, Some(value));
        Ok(())
    }

    /// Puts `new_data` into a node's text before the character at `offset`.
    /// Empty data changes nothing and is never out of range.
    pub fn insert(&mut self, node: NodeId, offset: usize, new_data: &str) -> (res: Result<
        (),
        Error,
    >)
        requires
            old(self).wf(),
            old(self)@.contains(node),
        ensures
            final(self).wf(),
            match old(self)@.insert(node, offset as int, new_data@) {
                Ok(v) => res is Ok && final(self)@ == v,
                Err(e) => res == Err::<(), Error>(e) && final(self)@ == old(self)@,
            },
    {
        if new_data.unicode_len() == 0 {
            return Ok(());
        }
        self.replace(node, offset, 0, new_data)
    }

    /// Takes `count` characters out of a node's text from the character at
    /// `offset`. A count of zero changes nothing and is never out of range.
    pub fn delete(&mut self, node: NodeId, offset: usize, count: usize) -> (res: Result<(), Error>)
        requires
            old(self).wf(),
            old(self)@.contains(node),
        ensures
            final(self).wf(),
            match old(self)@.delete(node, offset as int, count as int) {
                Ok(v) => res is Ok && final(self)@ == v,
                Err(e) => res == Err::<(), Error>(e) && final(self)@ == old(self)@,
            },
    {
        if count == 0 {
            return Ok(());
        }
        proof {
            reveal_strlit("");
            assert(""@ =~= Seq::<char>::empty());
        }
        self.replace(node, offset, count, "")
    }

    /// Puts `replace_data` in the place of the `count` characters of a node's
    /// text from the character at `offset`; where the text ends before that,
    /// in the place of what is left of it. An `offset` past the end of the
    /// text is out of range. In a node without a value only offset 0 with
    /// count 0 is in range, and sets the value.
    pub fn replace(&mut self, node: NodeId, offset: usize, count: usize, replace_data: &str) -> (res:
        Result<(), Error>)
        requires
            old(self).wf(),
            old(self)@.contains(node),
        ensures
            final(self).wf(),
            match old(self)@.replace(node, offset as int, count as int, replace_data@) {
                Ok(v) => res is Ok && final(self)@ == v,
                Err(e) => res == Err::<(), Error>(e) && final(self)@ == old(self)@,
            },
    {
        let value = match &self.nodes[node].value {
            None => {
                if offset != 0 || count != 0 {
                    return Err(Error::IndexSize);
                }
                replace_data.to_string()
            },
            Some(old_data) => {
                let len: usize = old_data.as_str().unicode_len();
                if offset > len {
                    return Err(Error::IndexSize);
                }
                let end: usize = if count < len - offset {
                    offset + count
                } else {
                    len
                };
                let mut s = old_data.as_str().substring_char(0, offset).to_string();
                s.append(replace_data);
                s.append(old_data.as_str().substring_char(end, len));
                assert(s@ =~= splice(old_data@, offset as int, count as int, replace_data@));
                s
            },
        };
        self.put_value(node, Some(value));
        Ok(())
    }

    /// Splits a text or CDATA node in two at the character at `offset`. The
    /// node keeps the text before it; a new node of the same kind takes the
    /// rest and, if the node has a parent, stands right after it. With an
    /// `offset` at or past the end the node is unchanged and the new node is
    /// empty. The result is the new node. Any other kind of node is in an
    /// invalid state for this.
    pub fn split(&mut self, node: NodeId, offset: usize) -> (res: Result<NodeId, Error>)
        requires
            old(self).wf(),
            old(self)@.contains(node),
        ensures
            final(self).wf(),
            match old(self)@.split(node, offset as int) {
                Ok(v) => res == Ok::<NodeId, Error>(old(self)@.nodes.len() as NodeId)
                    && final(self)@ == v,
                Err(e) => res == Err::<NodeId, Error>(e) && final(self)@ == old(self)@,
            },
    {
        let node_type = self.nodes[node].node_type;
        match node_type {
            NodeType::Text | NodeType::CData => {},
            _ => {
                return Err(Error::InvalidState);
            },
        }
        let (head, tail): (Option<String>, String) = match &self.nodes[node].value {
            None => (None, String::new()),
            Some(s) => {
                let len: usize = s.as_str().unicode_len();
                if offset >= len {
                    (None, String::new())
                } else {
                    (
                        Some(s.as_str().substring_char(0, offset).to_string()),
                        s.as_str().substring_char(offset, len).to_string(),
                    )
                }
            },
        };
        match head {
            Some(h) => {
                self.put_value(node, Some(h));
            },
            None => {},
        }
        let sibling = Node {
            node_type,
            name: self.nodes[node].name.clone(),
            value: Some(tail),
            parent: None,
            owner_document: self.nodes[node].owner_document,
            children: Vec::new(),
            extension: Extension::Bare,
        };
        proof {
            let v = fresh_node(
                node_type,
                self@.name(node),
                Some(tail@),
                self@.owner_document(node),
            );
            let d = self@.with_new(v);
            let id = self@.nodes.len() as NodeId;
            assert(self.nodes.len() == self.nodes@.len());
            assert(sibling@ == v);
            assert(d.node(id) == v);
            assert(self@.node_inv(node));
            assert(old(self)@.node_inv(node));
            assert(d.node_inv(id));
        }
        let place = self.sibling_index(node);
        proof {
            assert(self@.node_inv(node));
            match self@.parent_link(node) {
                Some(p) => {
                    assert(self@.node_inv(p));
                    assert(self@.is_child(p, node));
                    assert(self@.child_edge_ok(
                        p,
                        self@.children(p)[self@.children(p).index_of(node)],
                    ));
                },
                None => {},
            }
        }
        let id = self.add_node(sibling);
        match place {
            None => {},
            Some((p, i)) => {
                proof {
                    assert(!self@.is_ancestor_or_self(id, p)) by {
                        if self@.is_ancestor_or_self(id, p) {
                            let k = choose|k: nat| self@.nth_ancestor(p, k) == Some(id);
                            self@.lemma_ancestor_rank(self.rank@, self.bound@, p, k);
                        }
                    }
                    assert(old(self)@.children(p) == self@.children(p));
                }
                let n: usize = self.nodes[p].children.len();
                assert(i < n);
                self.attach(p, id, i + 1);
            },
        }
        Ok(id)
    }
}

} // verus!
