use vstd::prelude::*;
use vstd::string::*;
use crate::dom::Dom;
use crate::error::Error;
use crate::factory::fresh_node;
use crate::model::DomView;
use crate::name::{copy_opt_string, opt_str_view, parse_name, parse_name_ns, Name, NameView};
use crate::node::{
    Extension, ExtensionView, IdEntry, NamespaceEntry, Node, NodeId, NodeType, NodeView,
};
use crate::seqs::{lemma_first_index, lemma_first_index_found, lemma_no_first_index};

verus! {

/// The namespace declarations after one more: a prefix that is already
/// declared gets the new URI, a new prefix is added at the end.
pub open spec fn declared(
    namespaces: Seq<(Option<Seq<char>>, Seq<char>)>,
    prefix: Option<Seq<char>>,
    uri: Seq<char>,
) -> Seq<(Option<Seq<char>>, Seq<char>)> {
    match Seq::new(namespaces.len(), |i: int| namespaces[i].0).index_of_first(prefix) {
        Some(i) => namespaces.update(i, (prefix, uri)),
        None => namespaces.push((prefix, uri)),
    }
}

impl NameView {
    /// The prefix that an attribute of this name declares: the local part of
    /// a name prefixed with `xmlns`; none, for the default namespace, where
    /// the name is `xmlns` itself.
    pub open spec fn declared_prefix(self) -> Option<Seq<char>> {
        match self.prefix {
            Some(_) => Some(self.local_name),
            None => None,
        }
    }
}

impl DomView {
    /// The attribute of an element that goes by a qualified name.
    pub open spec fn attribute_named(self, e: NodeId, qualified: Seq<char>) -> Option<NodeId> {
        match self.attribute_names(e).index_of_first(qualified) {
            Some(i) => Some(self.attributes(e)[i]),
            None => None,
        }
    }

    /// What `get_attribute_node` returns: nothing for a node that is no
    /// element and for a string that is no name.
    pub open spec fn get_attribute_node(self, e: NodeId, name: Seq<char>) -> Option<NodeId> {
        if !(self.node_type(e) is Element) {
            None
        } else {
            match parse_name(name) {
                Some(n) => self.attribute_named(e, n.qualified()),
                None => None,
            }
        }
    }

    /// What `get_attribute` returns: the value of the attribute of that name.
    pub open spec fn get_attribute(self, e: NodeId, name: Seq<char>) -> Option<Seq<char>> {
        match self.get_attribute_node(e, name) {
            Some(a) => self.value(a),
            None => None,
        }
    }

    /// What `get_attribute_node_ns` returns: the first attribute with that
    /// namespace whose local name is `local` as it is given. Where `local`
    /// does not spell a name there is none.
    pub open spec fn get_attribute_node_ns(self, e: NodeId, ns: Seq<char>, local: Seq<char>) -> Option<
        NodeId,
    > {
        if !(self.node_type(e) is Element) || parse_name_ns(ns, local) is None {
            None
        } else {
            match self.attribute_ns_names(e).index_of_first((Some(ns), local)) {
                Some(i) => Some(self.attributes(e)[i]),
                None => None,
            }
        }
    }

    pub open spec fn get_attribute_ns(self, e: NodeId, ns: Seq<char>, local: Seq<char>) -> Option<
        Seq<char>,
    > {
        match self.get_attribute_node_ns(e, ns, local) {
            Some(a) => self.value(a),
            None => None,
        }
    }

    /// What `has_attribute_ns` returns: whether an attribute of the element
    /// has the namespace and the local part of the name that `local` spells
    /// within the namespace. A prefix in `local` plays no part.
    pub open spec fn has_attribute_ns(self, e: NodeId, ns: Seq<char>, local: Seq<char>) -> bool {
        self.node_type(e) is Element && match parse_name_ns(ns, local) {
            Some(n) => self.attribute_ns_names(e).contains((n.namespace_uri, n.local_name)),
            None => false,
        }
    }

    /// The URI that an element declares for a prefix, or for the default
    /// namespace.
    pub open spec fn get_namespace(self, e: NodeId, prefix: Option<Seq<char>>) -> Option<
        Seq<char>,
    > {
        match self.namespace_prefixes(e).index_of_first(prefix) {
            Some(i) => Some(self.namespaces(e)[i].1),
            None => None,
        }
    }

    /// The element that a document has registered under an ID value.
    pub open spec fn get_element_by_id(self, d: NodeId, id: Seq<char>) -> Option<NodeId> {
        match self.id_values(d).index_of_first(id) {
            Some(i) => Some(self.id_map(d)[i].1),
            None => None,
        }
    }

    /// The document and value under which storing an attribute registers an
    /// ID: the attribute's name carries an ID and the attribute has a value.
    pub open spec fn id_registration(self, a: NodeId) -> Option<(NodeId, Seq<char>)> {
        if self.name(a).is_id_attribute() && self.owner_document(a) is Some && self.value(a)
            is Some {
            Some((self.owner_document(a)->0, self.value(a)->0))
        } else {
            None
        }
    }

    /// The ID that storing an attribute would register is already registered
    /// in its document.
    pub open spec fn id_taken(self, a: NodeId) -> bool {
        match self.id_registration(a) {
            Some((d, v)) => self.id_values(d).contains(v),
            None => false,
        }
    }

    /// The arena after an element has declared a namespace.
    pub open spec fn with_namespace(self, e: NodeId, prefix: Option<Seq<char>>, uri: Seq<char>) -> DomView {
        match self.node(e).extension {
            ExtensionView::Element { attributes, namespaces } => self.with_extension(
                e,
                ExtensionView::Element {
                    attributes,
                    namespaces: declared(namespaces, prefix, uri),
                },
            ),
            _ => self,
        }
    }

    /// The arena after an element has stored an attribute under its qualified
    /// name: in the place of the attribute that had the name, or at the end.
    pub open spec fn with_attribute(self, e: NodeId, a: NodeId) -> DomView {
        match self.node(e).extension {
            ExtensionView::Element { attributes, namespaces } => self.with_extension(
                e,
                ExtensionView::Element {
                    attributes: match self.attribute_names(e).index_of_first(
                        self.name(a).qualified(),
                    ) {
                        Some(i) => attributes.update(i, a),
                        None => attributes.push(a),
                    },
                    namespaces,
                },
            ),
            _ => self,
        }
    }

    /// The arena after an element has dropped the attribute of a qualified name.
    pub open spec fn without_attribute(self, e: NodeId, qualified: Seq<char>) -> DomView {
        match self.node(e).extension {
            ExtensionView::Element { attributes, namespaces } => self.with_extension(
                e,
                ExtensionView::Element {
                    attributes: match self.attribute_names(e).index_of_first(qualified) {
                        Some(i) => attributes.remove(i),
                        None => attributes,
                    },
                    namespaces,
                },
            ),
            _ => self,
        }
    }

    /// The arena after a document has registered an ID value for an element.
    pub open spec fn with_id(self, d: NodeId, value: Seq<char>, e: NodeId) -> DomView {
        match self.node(d).extension {
            ExtensionView::Document {
                document_type,
                document_element,
                id_map,
                xml_declaration,
                options,
            } => self.with_extension(
                d,
                ExtensionView::Document {
                    document_type,
                    document_element,
                    id_map: id_map.push((value, e)),
                    xml_declaration,
                    options,
                },
            ),
            _ => self,
        }
    }

    /// The arena after the namespace that an attribute declares, if it
    /// declares one and has a value, has been registered on an element.
    pub open spec fn with_declaration(self, e: NodeId, a: NodeId) -> DomView {
        if self.name(a).is_namespace_attribute() && self.value(a) is Some {
            self.with_namespace(e, self.name(a).declared_prefix(), self.value(a)->0)
        } else {
            self
        }
    }

    /// The arena after the ID that an attribute carries, if it carries one,
    /// has been registered for an element.
    pub open spec fn with_registration(self, e: NodeId, a: NodeId) -> DomView {
        match self.id_registration(a) {
            Some((d, v)) => self.with_id(d, v, e),
            None => self,
        }
    }

    /// What `set_attribute_node` does. Only an element takes attributes, and
    /// only attribute nodes. An attribute that carries an ID whose value its
    /// document has already registered is refused as a syntax error, before
    /// anything is stored. Otherwise the namespace that the attribute
    /// declares is registered, the attribute is stored under its qualified
    /// name, and its ID is registered for the element.
    pub open spec fn set_attribute_node(self, e: NodeId, a: NodeId) -> Result<DomView, Error> {
        if !(self.node_type(e) is Element) || !(self.node_type(a) is Attribute) {
            Err(Error::InvalidState)
        } else if self.id_taken(a) {
            Err(Error::Syntax)
        } else {
            Ok(self.with_declaration(e, a).with_attribute(e, a).with_registration(e, a))
        }
    }

    /// What `set_attribute` does: the name is read, a new attribute node with
    /// the value is made for the element's document, and stored as
    /// `set_attribute_node` stores it.
    pub open spec fn set_attribute_named(self, e: NodeId, name: Option<NameView>, value: Seq<char>) -> Result<
        DomView,
        Error,
    > {
        match name {
            None => Err(Error::Syntax),
            Some(n) => if !(self.node_type(e) is Element) {
                Err(Error::InvalidState)
            } else {
                self.with_new(
                    fresh_node(NodeType::Attribute, n, Some(value), self.owner_document(e)),
                ).set_attribute_node(e, self.nodes.len() as NodeId)
            },
        }
    }

    pub open spec fn set_attribute(self, e: NodeId, name: Seq<char>, value: Seq<char>) -> Result<
        DomView,
        Error,
    > {
        self.set_attribute_named(e, parse_name(name), value)
    }

    pub open spec fn set_attribute_ns(
        self,
        e: NodeId,
        ns: Seq<char>,
        qualified_name: Seq<char>,
        value: Seq<char>,
    ) -> Result<DomView, Error> {
        self.set_attribute_named(e, parse_name_ns(ns, qualified_name), value)
    }

    /// What `remove_attribute_node` does: the element drops the attribute
    /// that goes by the node's qualified name, and the node loses its parent
    /// link. What storing the attribute registered stays registered.
    pub open spec fn remove_attribute_node(self, e: NodeId, a: NodeId) -> Result<DomView, Error> {
        if !(self.node_type(e) is Element) || !(self.node_type(a) is Attribute) {
            Err(Error::InvalidState)
        } else {
            Ok(self.without_attribute(e, self.name(a).qualified()).with_parent(a, None))
        }
    }

    /// What `remove_attribute` does: the attribute that goes by the name, if
    /// there is one, is removed as `remove_attribute_node` removes it.
    pub open spec fn remove_attribute(self, e: NodeId, name: Seq<char>) -> Result<DomView, Error> {
        match self.get_attribute_node(e, name) {
            Some(a) => self.remove_attribute_node(e, a),
            None => Ok(self),
        }
    }

    pub open spec fn remove_attribute_ns(self, e: NodeId, ns: Seq<char>, local: Seq<char>) -> Result<
        DomView,
        Error,
    > {
        match self.get_attribute_node_ns(e, ns, local) {
            Some(a) => self.remove_attribute_node(e, a),
            None => Ok(self),
        }
    }

    /// Clearing the parent link of an attribute node keeps the arena in
    /// order: no child list holds an attribute.
    pub proof fn lemma_orphan_inv(self, rank: Seq<nat>, bound: nat, a: NodeId)
        requires
            self.inv(),
            self.ranked(rank, bound),
            self.contains(a),
            self.node_type(a) is Attribute,
        ensures
            self.with_parent(a, None).inv(),
            self.with_parent(a, None).ranked(rank, bound),
    {
        let d = self.with_parent(a, None);
        assert forall|m: NodeId| d.contains(m) implies #[trigger] d.node_inv(m) by {
            assert(self.node_inv(m));
            assert forall|k: int| 0 <= k < self.children(m).len() implies {
                let c = #[trigger] self.children(m)[k];
                d.node(c).parent == self.node(c).parent && d.node(c).node_type == self.node(
                    c,
                ).node_type && d.node(c).owner_document == self.node(c).owner_document
            } by {
                assert(self.child_edge_ok(m, self.children(m)[k]));
            }
            if m == a {
                assert forall|k: int| 0 <= k < d.children(m).len() implies d.child_edge_ok(
                    m,
                    #[trigger] d.children(m)[k],
                ) by {
                    assert(self.child_edge_ok(m, self.children(m)[k]));
                }
                assert(d.attribute_names(m) =~= self.attribute_names(m));
                assert(d.namespace_prefixes(m) =~= self.namespace_prefixes(m));
                assert(d.id_values(m) =~= self.id_values(m));
            } else {
                self.lemma_node_inv_extends(d, m);
            }
        }
        assert forall|m: NodeId| d.contains(m) implies match #[trigger] d.parent_link(m) {
            Some(p) => d.contains(p) && rank[m as int] < rank[p as int],
            None => true,
        } by {
            if m != a {
                assert(d.parent_link(m) == self.parent_link(m));
            }
        }
    }

    /// Giving a node another payload that is in order keeps the arena in order.
    pub proof fn lemma_with_extension_inv(
        self,
        rank: Seq<nat>,
        bound: nat,
        n: NodeId,
        extension: ExtensionView,
    )
        requires
            self.inv(),
            self.ranked(rank, bound),
            self.contains(n),
            crate::model::extension_fits(self.node_type(n), extension),
            self.with_extension(n, extension).payload_inv(n),
            self.with_extension(n, extension).document_element(n) == self.document_element(n),
        ensures
            self.with_extension(n, extension).inv(),
            self.with_extension(n, extension).ranked(rank, bound),
    {
        let d = self.with_extension(n, extension);
        assert forall|m: NodeId| d.contains(m) implies #[trigger] d.node_inv(m) by {
            assert(self.node_inv(m));
            assert forall|k: int| 0 <= k < self.children(m).len() implies {
                let c = #[trigger] self.children(m)[k];
                d.node(c).parent == self.node(c).parent && d.node(c).node_type == self.node(
                    c,
                ).node_type && d.node(c).owner_document == self.node(c).owner_document
            } by {}
            if m == n {
                assert forall|k: int| 0 <= k < d.children(m).len() implies d.child_edge_ok(
                    m,
                    #[trigger] d.children(m)[k],
                ) by {
                    assert(self.child_edge_ok(m, self.children(m)[k]));
                }
            } else {
                self.lemma_node_inv_extends(d, m);
            }
        }
        assert forall|m: NodeId| d.contains(m) implies match #[trigger] d.parent_link(m) {
            Some(p) => d.contains(p) && rank[m as int] < rank[p as int],
            None => true,
        } by {
            assert(d.parent_link(m) == self.parent_link(m));
        }
    }
}

/// Whether two optional strings hold the same text, or both none.
pub(crate) fn same_opt_string(a: &Option<String>, b: &Option<String>) -> (res: bool)
    ensures
        res == (opt_str_view(*a) == opt_str_view(*b)),
{
    match (a, b) {
        (Some(x), Some(y)) => *x == *y,
        (None, None) => true,
        _ => false,
    }
}

impl Dom {
    /// The place of the attribute of an element that goes by a qualified name.
    fn find_attribute(&self, e: NodeId, qualified: &String) -> (res: Option<(usize, NodeId)>)
        requires
            self.wf(),
            self@.contains(e),
        ensures
            match res {
                Some((i, a)) => self@.attribute_names(e).index_of_first(qualified@) == Some(
                    i as int,
                ) && i < self@.attributes(e).len() && a == self@.attributes(e)[i as int],
                None => self@.attribute_names(e).index_of_first(qualified@) is None,
            },
    {
        proof {
            assert(self@.node_inv(e));
        }
        match &self.nodes[e].extension {
            Extension::Element { attributes, .. } => {
                assert(attributes@ == self@.attributes(e));
                let mut i: usize = 0;
                while i < attributes.len()
                    invariant
                        self.wf(),
                        self@.contains(e),
                        self@.payload_inv(e),
                        attributes@ == self@.attributes(e),
                        self@.node(e).extension is Element,
                        i <= attributes.len(),
                        forall|j: int| 0 <= j < i ==> self@.attribute_names(e)[j] != qualified@,
                    decreases attributes.len() - i,
                {
                    let a: NodeId = attributes[i];
                    assert(self@.contains(self@.attributes(e)[i as int]));
                    if self.nodes[a].name.to_string() == *qualified {
                        proof {
                            lemma_first_index(self@.attribute_names(e), qualified@, i as int);
                        }
                        return Some((i, a));
                    }
                    i += 1;
                }
                proof {
                    lemma_no_first_index(self@.attribute_names(e), qualified@);
                }
                None
            },
            _ => {
                proof {
                    lemma_no_first_index(self@.attribute_names(e), qualified@);
                }
                None
            },
        }
    }

    /// The place of the first attribute of an element with a namespace and a
    /// local name.
    fn find_attribute_ns(&self, e: NodeId, ns: &String, local: &String) -> (res: Option<NodeId>)
        requires
            self.wf(),
            self@.contains(e),
        ensures
            match res {
                Some(a) => {
                    let found = self@.attribute_ns_names(e).index_of_first((Some(ns@), local@));
                    found is Some && a == self@.attributes(e)[found->0]
                },
                None => self@.attribute_ns_names(e).index_of_first((Some(ns@), local@)) is None,
            },
    {
        proof {
            assert(self@.node_inv(e));
        }
        let ghost key = (Some(ns@), local@);
        match &self.nodes[e].extension {
            Extension::Element { attributes, .. } => {
                assert(attributes@ == self@.attributes(e));
                let mut i: usize = 0;
                while i < attributes.len()
                    invariant
                        self.wf(),
                        self@.contains(e),
                        self@.payload_inv(e),
                        attributes@ == self@.attributes(e),
                        self@.node(e).extension is Element,
                        key == (Some(ns@), local@),
                        i <= attributes.len(),
                        forall|j: int| 0 <= j < i ==> self@.attribute_ns_names(e)[j] != key,
                    decreases attributes.len() - i,
                {
                    let a: NodeId = attributes[i];
                    assert(self@.contains(self@.attributes(e)[i as int]));
                    let name = &self.nodes[a].name;
                    let same_ns = match name.namespace_uri() {
                        Some(u) => *u == *ns,
                        None => false,
                    };
                    if same_ns && *name.local_name() == *local {
                        proof {
                            lemma_first_index(self@.attribute_ns_names(e), key, i as int);
                        }
                        return Some(a);
                    }
                    i += 1;
                }
                proof {
                    lemma_no_first_index(self@.attribute_ns_names(e), key);
                }
                None
            },
            _ => {
                proof {
                    lemma_no_first_index(self@.attribute_ns_names(e), key);
                }
                None
            },
        }
    }

    /// The place of an ID value in a document's ID map.
    fn find_id(&self, d: NodeId, value: &String) -> (res: Option<usize>)
        requires
            self@.contains(d),
        ensures
            match res {
                Some(i) => self@.id_values(d).index_of_first(value@) == Some(i as int) && i
                    < self@.id_map(d).len(),
                None => self@.id_values(d).index_of_first(value@) is None,
            },
    {
        match &self.nodes[d].extension {
            Extension::Document { id_map, .. } => {
                assert(self@.id_map(d) == crate::node::id_map_view(id_map@));
                let mut i: usize = 0;
                while i < id_map.len()
                    invariant
                        self@.contains(d),
                        self@.id_map(d) == crate::node::id_map_view(id_map@),
                        i <= id_map.len(),
                        forall|j: int| 0 <= j < i ==> self@.id_values(d)[j] != value@,
                    decreases id_map.len() - i,
                {
                    if id_map[i].value == *value {
                        proof {
                            lemma_first_index(self@.id_values(d), value@, i as int);
                        }
                        return Some(i);
                    }
                    i += 1;
                }
                proof {
                    lemma_no_first_index(self@.id_values(d), value@);
                }
                None
            },
            _ => {
                proof {
                    lemma_no_first_index(self@.id_values(d), value@);
                }
                None
            },
        }
    }

    /// The place of a prefix among an element's namespace declarations.
    fn find_namespace(&self, e: NodeId, prefix: &Option<String>) -> (res: Option<usize>)
        requires
            self@.contains(e),
        ensures
            match res {
                Some(i) => self@.namespace_prefixes(e).index_of_first(opt_str_view(*prefix))
                    == Some(i as int) && i < self@.namespaces(e).len(),
                None => self@.namespace_prefixes(e).index_of_first(opt_str_view(*prefix))
                    is None,
            },
    {
        let ghost key = opt_str_view(*prefix);
        match &self.nodes[e].extension {
            Extension::Element { namespaces, .. } => {
                assert(self@.namespaces(e) == crate::node::namespaces_view(namespaces@));
                let mut i: usize = 0;
                while i < namespaces.len()
                    invariant
                        self@.contains(e),
                        self@.namespaces(e) == crate::node::namespaces_view(namespaces@),
                        key == opt_str_view(*prefix),
                        i <= namespaces.len(),
                        forall|j: int| 0 <= j < i ==> self@.namespace_prefixes(e)[j] != key,
                    decreases namespaces.len() - i,
                {
                    if same_opt_string(&namespaces[i].prefix, prefix) {
                        proof {
                            lemma_first_index(self@.namespace_prefixes(e), key, i as int);
                        }
                        return Some(i);
                    }
                    i += 1;
                }
                proof {
                    lemma_no_first_index(self@.namespace_prefixes(e), key);
                }
                None
            },
            _ => {
                proof {
                    lemma_no_first_index(self@.namespace_prefixes(e), key);
                }
                None
            },
        }
    }
}

impl Dom {
    /// The attribute nodes of an element, in the order in which their names
    /// were first set; none for any other kind of node.
    pub fn attributes(&self, node: NodeId) -> (res: Vec<NodeId>)
        requires
            self@.contains(node),
        ensures
            res@ == self@.attributes(node),
    {
        match &self.nodes[node].extension {
            Extension::Element { attributes, .. } => attributes.clone(),
            _ => Vec::new(),
        }
    }

    pub fn has_attributes(&self, node: NodeId) -> (res: bool)
        requires
            self@.contains(node),
        ensures
            res == (self@.attributes(node).len() > 0),
    {
        match &self.nodes[node].extension {
            Extension::Element { attributes, .. } => attributes.len() > 0,
            _ => false,
        }
    }

    /// The attribute node of an element that goes by `name`. A string that
    /// is no name, and a node that is no element, have none.
    pub fn get_attribute_node(&self, node: NodeId, name: &str) -> (res: Option<NodeId>)
        requires
            self.wf(),
            self@.contains(node),
        ensures
            res == self@.get_attribute_node(node, name@),
    {
        if !matches!(self.nodes[node].node_type, NodeType::Element) {
            return None;
        }
        match Name::from_str(name) {
            Ok(n) => match self.find_attribute(node, &n.to_string()) {
                Some((_, a)) => Some(a),
                None => None,
            },
            Err(_) => None,
        }
    }

    /// The value of the attribute of an element that goes by `name`.
    pub fn get_attribute(&self, node: NodeId, name: &str) -> (res: Option<String>)
        requires
            self.wf(),
            self@.contains(node),
        ensures
            opt_str_view(res) == self@.get_attribute(node, name@),
    {
        match self.get_attribute_node(node, name) {
            None => None,
            Some(a) => {
                proof {
                    self.lemma_attribute_found(node, name@);
                }
                copy_opt_string(&self.nodes[a].value)
            },
        }
    }

    /// Whether an element has an attribute that goes by `name`.
    pub fn has_attribute(&self, node: NodeId, name: &str) -> (res: bool)
        requires
            self.wf(),
            self@.contains(node),
        ensures
            res == (self@.get_attribute_node(node, name@) is Some),
    {
        self.get_attribute_node(node, name).is_some()
    }

    /// The first attribute node of an element with the given namespace whose
    /// local name is `local_name` as it is given. Where the two do not make
    /// a name, and for a node that is no element, there is none.
    pub fn get_attribute_node_ns(&self, node: NodeId, namespace_uri: &str, local_name: &str) -> (res:
        Option<NodeId>)
        requires
            self.wf(),
            self@.contains(node),
        ensures
            res == self@.get_attribute_node_ns(node, namespace_uri@, local_name@),
    {
        if !matches!(self.nodes[node].node_type, NodeType::Element) {
            return None;
        }
        match Name::new_ns(namespace_uri, local_name) {
            Ok(_) => self.find_attribute_ns(
                node,
                &namespace_uri.to_string(),
                &local_name.to_string(),
            ),
            Err(_) => None,
        }
    }

    /// The value of the first attribute of an element with the given
    /// namespace and local name.
    pub fn get_attribute_ns(&self, node: NodeId, namespace_uri: &str, local_name: &str) -> (res:
        Option<String>)
        requires
            self.wf(),
            self@.contains(node),
        ensures
            opt_str_view(res) == self@.get_attribute_ns(node, namespace_uri@, local_name@),
    {
        match self.get_attribute_node_ns(node, namespace_uri, local_name) {
            None => None,
            Some(a) => {
                proof {
                    self.lemma_attribute_ns_found(node, namespace_uri@, local_name@);
                }
                copy_opt_string(&self.nodes[a].value)
            },
        }
    }

    /// Whether an element has an attribute with the given namespace and with
    /// the local part of the name that `local_name` spells: a prefix in
    /// `local_name` is read and set aside. Where the two do not make a
    /// name, and for a node that is no element, the answer is no.
    pub fn has_attribute_ns(&self, node: NodeId, namespace_uri: &str, local_name: &str) -> (res:
        bool)
        requires
            self.wf(),
            self@.contains(node),
        ensures
            res == self@.has_attribute_ns(node, namespace_uri@, local_name@),
    {
        if !matches!(self.nodes[node].node_type, NodeType::Element) {
            return false;
        }
        match Name::new_ns(namespace_uri, local_name) {
            Ok(name) => {
                let found = self.find_attribute_ns(
                    node,
                    &namespace_uri.to_string(),
                    name.local_name(),
                );
                proof {
                    lemma_first_index_found(
                        self@.attribute_ns_names(node),
                        (Some(namespace_uri@), name@.local_name),
                    );
                }
                found.is_some()
            },
            Err(_) => false,
        }
    }

    /// The URI that an element declares for a prefix or, without a prefix,
    /// for the default namespace.
    pub fn get_namespace(&self, node: NodeId, prefix: Option<&str>) -> (res: Option<String>)
        requires
            self@.contains(node),
        ensures
            opt_str_view(res) == self@.get_namespace(
                node,
                match prefix {
                    Some(p) => Some(p@),
                    None => None,
                },
            ),
    {
        let key = crate::name::own_opt_str(prefix);
        match self.find_namespace(node, &key) {
            None => None,
            Some(i) => match &self.nodes[node].extension {
                Extension::Element { namespaces, .. } => Some(namespaces[i].uri.clone()),
                _ => None,
            },
        }
    }

    /// The element that a document has registered under an ID value. A node
    /// that is no document has registered none.
    pub fn get_element_by_id(&self, node: NodeId, id: &str) -> (res: Option<NodeId>)
        requires
            self@.contains(node),
        ensures
            res == self@.get_element_by_id(node, id@),
    {
        match self.find_id(node, &id.to_string()) {
            None => None,
            Some(i) => match &self.nodes[node].extension {
                Extension::Document { id_map, .. } => Some(id_map[i].element),
                _ => None,
            },
        }
    }

    /// An attribute that a lookup by name finds is a node of the arena.
    pub proof fn lemma_attribute_found(&self, node: NodeId, name: Seq<char>)
        requires
            self.wf(),
            self@.contains(node),
        ensures
            match self@.get_attribute_node(node, name) {
                Some(a) => self@.contains(a) && self@.node_type(a) is Attribute
                    && self@.attributes(node).contains(a),
                None => true,
            },
    {
        assert(self@.node_inv(node));
        if self@.node_type(node) is Element && parse_name(name) is Some {
            lemma_first_index_found(
                self@.attribute_names(node),
                parse_name(name)->0.qualified(),
            );
        }
    }

    /// An attribute that a lookup by namespace finds is a node of the arena.
    pub proof fn lemma_attribute_ns_found(&self, node: NodeId, ns: Seq<char>, local: Seq<char>)
        requires
            self.wf(),
            self@.contains(node),
        ensures
            match self@.get_attribute_node_ns(node, ns, local) {
                Some(a) => self@.contains(a) && self@.node_type(a) is Attribute
                    && self@.attributes(node).contains(a),
                None => true,
            },
    {
        assert(self@.node_inv(node));
        lemma_first_index_found(self@.attribute_ns_names(node), (Some(ns), local));
    }
}

impl Dom {
    /// Registers a namespace on an element.
    fn declare_namespace(&mut self, e: NodeId, prefix: Option<String>, uri: String)
        requires
            old(self).wf(),
            old(self)@.contains(e),
        ensures
            final(self).wf(),
            final(self)@ == old(self)@.with_namespace(e, opt_str_view(prefix), uri@),
    {
        let found = self.find_namespace(e, &prefix);
        let ghost before = self@;
        let ghost key = opt_str_view(prefix);
        let ghost text = uri@;
        proof {
            assert(before.node_inv(e));
            lemma_first_index_found(before.namespace_prefixes(e), key);
            match before.node(e).extension {
                ExtensionView::Element { attributes, namespaces } => {
                    let ext = ExtensionView::Element {
                        attributes,
                        namespaces: declared(namespaces, key, text),
                    };
                    let d = before.with_extension(e, ext);
                    assert(Seq::new(namespaces.len(), |i: int| namespaces[i].0)
                        =~= before.namespace_prefixes(e));
                    assert(d.attribute_names(e) =~= before.attribute_names(e));
                    match before.namespace_prefixes(e).index_of_first(key) {
                        Some(i) => {
                            assert(d.namespace_prefixes(e) =~= before.namespace_prefixes(e));
                        },
                        None => {
                            assert(d.namespace_prefixes(e) =~= before.namespace_prefixes(e).push(
                                key,
                            ));
                        },
                    }
                    assert(d.payload_inv(e));
                    before.lemma_with_extension_inv(self.rank@, self.bound@, e, ext);
                },
                _ => {},
            }
        }
        match &mut self.nodes[e].extension {
            Extension::Element { namespaces, .. } => {
                let entry = NamespaceEntry { prefix, uri };
                match found {
                    Some(i) => {
                        namespaces.set(i, entry);
                    },
                    None => {
                        namespaces.push(entry);
                    },
                }
            },
            _ => {},
        }
        proof {
            match (old(self).nodes[e as int].extension, self.nodes[e as int].extension) {
                (
                    Extension::Element { namespaces: m0, .. },
                    Extension::Element { namespaces: m1, .. },
                ) => {
                    assert(Seq::new(
                        crate::node::namespaces_view(m0@).len(),
                        |i: int| crate::node::namespaces_view(m0@)[i].0,
                    ) =~= before.namespace_prefixes(e));
                    assert(crate::node::namespaces_view(m1@) =~= declared(
                        crate::node::namespaces_view(m0@),
                        key,
                        text,
                    ));
                },
                _ => {},
            }
            assert(self@.node(e).extension == before.with_namespace(e, key, text).node(
                e,
            ).extension);
            assert(self@.nodes =~= before.with_namespace(e, key, text).nodes);
        }
    }

    /// Stores an attribute node on an element under its qualified name.
    fn store_attribute(&mut self, e: NodeId, a: NodeId)
        requires
            old(self).wf(),
            old(self)@.contains(e),
            old(self)@.contains(a),
            old(self)@.node_type(a) is Attribute,
        ensures
            final(self).wf(),
            final(self)@ == old(self)@.with_attribute(e, a),
    {
        let qualified = self.nodes[a].name.to_string();
        let found = self.find_attribute(e, &qualified);
        let ghost before = self@;
        proof {
            assert(before.node_inv(e));
            lemma_first_index_found(before.attribute_names(e), qualified@);
            match before.node(e).extension {
                ExtensionView::Element { attributes, namespaces } => {
                    let d = before.with_attribute(e, a);
                    assert(d.namespace_prefixes(e) =~= before.namespace_prefixes(e));
                    match before.attribute_names(e).index_of_first(qualified@) {
                        Some(i) => {
                            assert(d.attributes(e) == attributes.update(i, a));
                            assert(d.attribute_names(e) =~= before.attribute_names(e));
                        },
                        None => {
                            assert(d.attributes(e) == attributes.push(a));
                            assert(d.attribute_names(e) =~= before.attribute_names(e).push(
                                qualified@,
                            ));
                        },
                    }
                    assert forall|i: int| 0 <= i < d.attributes(e).len() implies d.contains(
                        #[trigger] d.attributes(e)[i],
                    ) && d.node_type(d.attributes(e)[i]) is Attribute by {
                        if i < attributes.len() && d.attributes(e)[i] != a {
                            assert(d.attributes(e)[i] == attributes[i]);
                        }
                    }
                    assert(d.payload_inv(e));
                    before.lemma_with_extension_inv(
                        self.rank@,
                        self.bound@,
                        e,
                        d.node(e).extension,
                    );
                },
                _ => {},
            }
        }
        match &mut self.nodes[e].extension {
            Extension::Element { attributes, .. } => {
                match found {
                    Some((i, _)) => {
                        attributes.set(i, a);
                    },
                    None => {
                        attributes.push(a);
                    },
                }
            },
            _ => {},
        }
        proof {
            assert(self@.node(e).extension =~= before.with_attribute(e, a).node(e).extension);
            assert(self@.nodes =~= before.with_attribute(e, a).nodes);
        }
    }

    /// Registers an ID value for an element in a document's ID map.
    fn register_id(&mut self, d: NodeId, value: String, e: NodeId)
        requires
            old(self).wf(),
            old(self)@.contains(d),
            old(self)@.contains(e),
            !old(self)@.id_values(d).contains(value@),
        ensures
            final(self).wf(),
            final(self)@ == old(self)@.with_id(d, value@, e),
    {
        let ghost before = self@;
        let ghost text = value@;
        proof {
            assert(before.node_inv(d));
            match before.node(d).extension {
                ExtensionView::Document { .. } => {
                    let after = before.with_id(d, text, e);
                    assert(after.id_values(d) =~= before.id_values(d).push(text));
                    assert forall|i: int| 0 <= i < after.id_map(d).len() implies after.contains(
                        (#[trigger] after.id_map(d)[i]).1,
                    ) by {
                        if i < before.id_map(d).len() {
                            assert(after.id_map(d)[i] == before.id_map(d)[i]);
                        }
                    }
                    assert(after.payload_inv(d));
                    before.lemma_with_extension_inv(
                        self.rank@,
                        self.bound@,
                        d,
                        after.node(d).extension,
                    );
                },
                _ => {},
            }
        }
        match &mut self.nodes[d].extension {
            Extension::Document { id_map, .. } => {
                id_map.push(IdEntry { value, element: e });
            },
            _ => {},
        }
        proof {
            match (old(self).nodes[d as int].extension, self.nodes[d as int].extension) {
                (Extension::Document { id_map: m0, .. }, Extension::Document { id_map: m1, .. }) => {
                    assert(crate::node::id_map_view(m1@) =~= crate::node::id_map_view(m0@).push(
                        (text, e),
                    ));
                },
                _ => {},
            }
            assert(self@.node(d).extension == before.with_id(d, text, e).node(d).extension);
            assert(self@.nodes =~= before.with_id(d, text, e).nodes);
        }
    }

    /// Whether a document takes attributes for IDs in the permissive way.
    pub fn assumes_ids(&self, node: NodeId) -> (res: bool)
        requires
            self@.contains(node),
        ensures
            res == self@.assumes_ids(node),
    {
        match &self.nodes[node].extension {
            Extension::Document { options, .. } => options.has_assume_ids(),
            _ => false,
        }
    }

    /// The document and the value under which storing an attribute would
    /// register an ID.
    fn id_registration(&self, a: NodeId) -> (res: Option<(NodeId, String)>)
        requires
            self@.contains(a),
        ensures
            match res {
                Some((d, v)) => self@.id_registration(a) == Some((d, v@)),
                None => self@.id_registration(a) is None,
            },
    {
        match (self.nodes[a].owner_document, &self.nodes[a].value) {
            (Some(d), Some(v)) => {
                let lax = d < self.nodes.len() && self.assumes_ids(d);
                if self.nodes[a].name.is_id_attribute(lax) {
                    Some((d, v.clone()))
                } else {
                    None
                }
            },
            _ => None,
        }
    }

    /// Stores an attribute node on an element, in the place of the attribute
    /// that has the same qualified name, if there is one.
    ///
    /// An attribute named `xmlns`, or prefixed with it, that has a value
    /// also declares a namespace on the element. An attribute whose local
    /// name is `id` and that has a value also registers the value as an ID
    /// of the element in the attribute's document; a value that the document
    /// has already registered is a syntax error. A node that is no element
    /// takes no attribute, and only an attribute node is one: an invalid
    /// state. Where the call fails nothing has changed.
    pub fn set_attribute_node(&mut self, node: NodeId, new_attribute: NodeId) -> (res: Result<
        NodeId,
        Error,
    >)
        requires
            old(self).wf(),
            old(self)@.contains(node),
            old(self)@.contains(new_attribute),
        ensures
            final(self).wf(),
            match old(self)@.set_attribute_node(node, new_attribute) {
                Ok(v) => res == Ok::<NodeId, Error>(new_attribute) && final(self)@ == v,
                Err(e) => res == Err::<NodeId, Error>(e) && final(self)@ == old(self)@,
            },
    {
        if !matches!(self.nodes[node].node_type, NodeType::Element) || !matches!(
            self.nodes[new_attribute].node_type,
            NodeType::Attribute
        ) {
            return Err(Error::InvalidState);
        }
        proof {
            assert(self@.node_inv(new_attribute));
            assert(self@.node_inv(node));
        }
        let registration = self.id_registration(new_attribute);
        match &registration {
            Some((d, v)) => {
                let taken = self.find_id(*d, v).is_some();
                proof {
                    lemma_first_index_found(self@.id_values(*d), v@);
                }
                if taken {
                    return Err(Error::Syntax);
                }
            },
            None => {},
        }
        let ghost before = self@;
        if self.nodes[new_attribute].name.is_namespace_attribute() {
            match &self.nodes[new_attribute].value {
                Some(uri) => {
                    let uri = uri.clone();
                    let prefix = match self.nodes[new_attribute].name.prefix() {
                        Some(_) => Some(self.nodes[new_attribute].name.local_name().clone()),
                        None => None,
                    };
                    self.declare_namespace(node, prefix, uri);
                },
                None => {},
            }
        }
        assert(self@ == before.with_declaration(node, new_attribute));
        self.store_attribute(node, new_attribute);
        let ghost stored = self@;
        match registration {
            Some((d, v)) => {
                proof {
                    assert(stored.id_registration(new_attribute) == Some((d, v@)));
                    assert(d != node);
                    assert(stored.id_values(d) =~= before.id_values(d));
                }
                self.register_id(d, v, node);
            },
            None => {
                assert(stored.id_registration(new_attribute) is None);
            },
        }
        Ok(new_attribute)
    }

    /// Stores an attribute node on an element as [`Dom::set_attribute_node`] does.
    pub fn set_attribute_node_ns(&mut self, node: NodeId, new_attribute: NodeId) -> (res: Result<
        NodeId,
        Error,
    >)
        requires
            old(self).wf(),
            old(self)@.contains(node),
            old(self)@.contains(new_attribute),
        ensures
            final(self).wf(),
            match old(self)@.set_attribute_node(node, new_attribute) {
                Ok(v) => res == Ok::<NodeId, Error>(new_attribute) && final(self)@ == v,
                Err(e) => res == Err::<NodeId, Error>(e) && final(self)@ == old(self)@,
            },
    {
        self.set_attribute_node(node, new_attribute)
    }
}

impl Dom {
    /// Makes an attribute node for an element under a name that was read,
    /// and stores it.
    fn set_attribute_named(&mut self, node: NodeId, name: Result<Name, Error>, value: &str) -> (res:
        Result<(), Error>)
        requires
            old(self).wf(),
            old(self)@.contains(node),
        ensures
            final(self).wf(),
            match old(self)@.set_attribute_named(
                node,
                match name {
                    Ok(n) => Some(n@),
                    Err(_) => None,
                },
                value@,
            ) {
                Ok(v) => res is Ok && final(self)@ == v,
                Err(e) => res == Err::<(), Error>(e) && final(self)@ == old(self)@,
            },
    {
        let name = match name {
            Ok(n) => n,
            Err(_) => {
                return Err(Error::Syntax);
            },
        };
        if !matches!(self.nodes[node].node_type, NodeType::Element) {
            return Err(Error::InvalidState);
        }
        proof {
            assert(self@.node_inv(node));
        }
        let owner = self.nodes[node].owner_document;
        let text = value.to_string();
        match owner {
            Some(d) => {
                if name.is_id_attribute(self.assumes_ids(d)) {
                    let taken = self.find_id(d, &text).is_some();
                    proof {
                        lemma_first_index_found(self@.id_values(d), text@);
                        let v = fresh_node(NodeType::Attribute, name@, Some(value@), owner);
                        let d1 = self@.with_new(v);
                        let id = self@.nodes.len() as NodeId;
                        assert(self.nodes.len() == self.nodes@.len());
                        assert(d1.node(id) == v);
                        assert(d1.node(node) == self@.node(node));
                        assert(d1.id_values(d) =~= self@.id_values(d));
                        assert(d1.id_registration(id) == Some((d, value@)));
                    }
                    if taken {
                        return Err(Error::Syntax);
                    }
                }
            },
            None => {},
        }
        let attribute = Node {
            node_type: NodeType::Attribute,
            name,
            value: Some(text),
            parent: None,
            owner_document: owner,
            children: Vec::new(),
            extension: Extension::Bare,
        };
        let ghost v = fresh_node(NodeType::Attribute, name@, Some(value@), owner);
        proof {
            let d = self@.with_new(v);
            let id = self@.nodes.len() as NodeId;
            assert(self.nodes.len() == self.nodes@.len());
            assert(attribute@ == v);
            assert(d.node(id) == v);
            assert(d.node_inv(id));
            match owner {
                Some(doc) => {
                    assert(d.id_values(doc) =~= self@.id_values(doc));
                },
                None => {},
            }
        }
        let a = self.add_node(attribute);
        match self.set_attribute_node(node, a) {
            Ok(_) => Ok(()),
            Err(e) => Err(e),
        }
    }

    /// Gives an element an attribute of a name and a value, in the place of
    /// the attribute that has the name, if there is one. The attribute is a
    /// new node of the element's document, stored as
    /// [`Dom::set_attribute_node`] stores it. A string that is no name is a
    /// syntax error; a node that is no element is in an invalid state.
    /// Where the call fails nothing has changed.
    pub fn set_attribute(&mut self, node: NodeId, name: &str, value: &str) -> (res: Result<
        (),
        Error,
    >)
        requires
            old(self).wf(),
            old(self)@.contains(node),
        ensures
            final(self).wf(),
            match old(self)@.set_attribute(node, name@, value@) {
                Ok(v) => res is Ok && final(self)@ == v,
                Err(e) => res == Err::<(), Error>(e) && final(self)@ == old(self)@,
            },
    {
        self.set_attribute_named(node, Name::from_str(name), value)
    }

    /// Gives an element an attribute of a qualified name within a namespace,
    /// as [`Dom::set_attribute`] does.
    pub fn set_attribute_ns(
        &mut self,
        node: NodeId,
        namespace_uri: &str,
        qualified_name: &str,
        value: &str,
    ) -> (res: Result<(), Error>)
        requires
            old(self).wf(),
            old(self)@.contains(node),
        ensures
            final(self).wf(),
            match old(self)@.set_attribute_ns(node, namespace_uri@, qualified_name@, value@) {
                Ok(v) => res is Ok && final(self)@ == v,
                Err(e) => res == Err::<(), Error>(e) && final(self)@ == old(self)@,
            },
    {
        self.set_attribute_named(node, Name::new_ns(namespace_uri, qualified_name), value)
    }

    /// Takes from an element the attribute that goes by the qualified name
    /// of `old_attribute`, and clears the parent link of `old_attribute`.
    /// The namespace and the ID that storing the attribute registered stay
    /// registered. A node that is no element, and an `old_attribute` that is
    /// no attribute node, are in an invalid state.
    pub fn remove_attribute_node(&mut self, node: NodeId, old_attribute: NodeId) -> (res: Result<
        NodeId,
        Error,
    >)
        requires
            old(self).wf(),
            old(self)@.contains(node),
            old(self)@.contains(old_attribute),
        ensures
            final(self).wf(),
            match old(self)@.remove_attribute_node(node, old_attribute) {
                Ok(v) => res == Ok::<NodeId, Error>(old_attribute) && final(self)@ == v,
                Err(e) => res == Err::<NodeId, Error>(e) && final(self)@ == old(self)@,
            },
    {
        if !matches!(self.nodes[node].node_type, NodeType::Element) || !matches!(
            self.nodes[old_attribute].node_type,
            NodeType::Attribute
        ) {
            return Err(Error::InvalidState);
        }
        let qualified = self.nodes[old_attribute].name.to_string();
        let found = self.find_attribute(node, &qualified);
        let ghost before = self@;
        let ghost dropped = before.without_attribute(node, qualified@);
        proof {
            assert(before.node_inv(node));
            lemma_first_index_found(before.attribute_names(node), qualified@);
            match before.node(node).extension {
                ExtensionView::Element { attributes, namespaces } => {
                    assert(dropped.namespace_prefixes(node) =~= before.namespace_prefixes(node));
                    match before.attribute_names(node).index_of_first(qualified@) {
                        Some(i) => {
                            assert(dropped.attributes(node) == attributes.remove(i));
                            assert(dropped.attribute_names(node) =~= before.attribute_names(
                                node,
                            ).remove(i));
                            crate::seqs::lemma_remove_no_duplicates(
                                before.attribute_names(node),
                                i,
                            );
                            assert forall|k: int|
                                0 <= k < dropped.attributes(node).len() implies dropped.contains(
                                #[trigger] dropped.attributes(node)[k],
                            ) && dropped.node_type(dropped.attributes(node)[k]) is Attribute by {
                                let k2 = if k < i {
                                    k
                                } else {
                                    k + 1
                                };
                                assert(dropped.attributes(node)[k] == attributes[k2]);
                            }
                        },
                        None => {
                            assert(dropped.attributes(node) == attributes);
                            assert(dropped.attribute_names(node) =~= before.attribute_names(node));
                        },
                    }
                    assert(dropped.payload_inv(node));
                    before.lemma_with_extension_inv(
                        self.rank@,
                        self.bound@,
                        node,
                        dropped.node(node).extension,
                    );
                    dropped.lemma_orphan_inv(self.rank@, self.bound@, old_attribute);
                },
                _ => {},
            }
        }
        match found {
            Some((i, _)) => match &mut self.nodes[node].extension {
                Extension::Element { attributes, .. } => {
                    attributes.remove(i);
                },
                _ => {},
            },
            None => {},
        }
        proof {
            assert(self@.node(node).extension == dropped.node(node).extension);
            assert(self@.nodes =~= dropped.nodes);
        }
        self.nodes[old_attribute].parent = None;
        proof {
            assert(self@.nodes =~= dropped.with_parent(old_attribute, None).nodes);
        }
        Ok(old_attribute)
    }

    /// Takes from an element the attribute that goes by `name`, if there is
    /// one.
    pub fn remove_attribute(&mut self, node: NodeId, name: &str) -> (res: Result<(), Error>)
        requires
            old(self).wf(),
            old(self)@.contains(node),
        ensures
            final(self).wf(),
            match old(self)@.remove_attribute(node, name@) {
                Ok(v) => res is Ok && final(self)@ == v,
                Err(e) => res == Err::<(), Error>(e) && final(self)@ == old(self)@,
            },
    {
        match self.get_attribute_node(node, name) {
            None => Ok(()),
            Some(a) => {
                proof {
                    self.lemma_attribute_found(node, name@);
                }
                match self.remove_attribute_node(node, a) {
                    Ok(_) => Ok(()),
                    Err(e) => Err(e),
                }
            },
        }
    }

    /// Takes from an element the first attribute with the given namespace
    /// and local name, if there is one.
    pub fn remove_attribute_ns(&mut self, node: NodeId, namespace_uri: &str, local_name: &str) -> (res:
        Result<(), Error>)
        requires
            old(self).wf(),
            old(self)@.contains(node),
        ensures
            final(self).wf(),
            match old(self)@.remove_attribute_ns(node, namespace_uri@, local_name@) {
                Ok(v) => res is Ok && final(self)@ == v,
                Err(e) => res == Err::<(), Error>(e) && final(self)@ == old(self)@,
            },
    {
        match self.get_attribute_node_ns(node, namespace_uri, local_name) {
            None => Ok(()),
            Some(a) => {
                proof {
                    self.lemma_attribute_ns_found(node, namespace_uri@, local_name@);
                }
                match self.remove_attribute_node(node, a) {
                    Ok(_) => Ok(()),
                    Err(e) => Err(e),
                }
            },
        }
    }
}

} // verus!
