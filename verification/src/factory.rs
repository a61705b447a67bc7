use vstd::prelude::*;
use vstd::string::*;
use crate::dom::Dom;
use crate::error::Error;
use crate::model::{is_owned_type, DomView};
use crate::name::{chars_of, opt_str_view, own_opt_str, parse_name, parse_name_ns, Name, NameView};
use crate::node::{
    empty_extension, Extension, ExtensionView, Node, NodeId, NodeType, NodeView,
    ProcessingOptions,
};

verus! {

/// A node as a factory makes it: detached, without children, with the payload
/// its kind starts with.
pub open spec fn fresh_node(
    t: NodeType,
    name: NameView,
    value: Option<Seq<char>>,
    owner: Option<NodeId>,
) -> NodeView {
    NodeView {
        node_type: t,
        name,
        value,
        parent: None,
        owner_document: owner,
        children: Seq::empty(),
        extension: empty_extension(t),
    }
}

/// The name of a node that is named after its kind.
pub open spec fn fixed_name(s: Seq<char>) -> NameView {
    NameView { prefix: None, local_name: s, namespace_uri: None }
}

/// A processing instruction may not be aimed at `xml`, in any mix of cases.
pub open spec fn is_reserved_target(s: Seq<char>) -> bool {
    &&& s.len() == 3
    &&& (s[0] == 'x' || s[0] == 'X')
    &&& (s[1] == 'm' || s[1] == 'M')
    &&& (s[2] == 'l' || s[2] == 'L')
}

/// The features and versions that this implementation supports.
pub open spec fn feature_supported(feature: Seq<char>, version: Seq<char>) -> bool {
    (feature == "Core"@ || feature == "XML"@) && (version == "1.0"@ || version == "2.0"@)
}

/// Whether the implementation supports a feature at a version.
pub fn has_feature(feature: &str, version: &str) -> (res: bool)
    ensures
        res == feature_supported(feature@, version@),
{
    let f = feature.to_string();
    let v = version.to_string();
    (f == "Core".to_string() || f == "XML".to_string()) && (v == "1.0".to_string() || v
        == "2.0".to_string())
}

impl DomView {
    /// What a document's factory does, given the name it has read: the new
    /// node is added at the end of the arena. Only a document makes nodes, and
    /// only under a well-formed name.
    pub open spec fn create(
        self,
        doc: NodeId,
        t: NodeType,
        name: Option<NameView>,
        value: Option<Seq<char>>,
    ) -> Result<DomView, Error> {
        if !(self.node_type(doc) is Document) {
            Err(Error::InvalidState)
        } else {
            match name {
                Some(n) => Ok(self.with_new(fresh_node(t, n, value, Some(doc)))),
                None => Err(Error::Syntax),
            }
        }
    }

    /// What `create_processing_instruction` does.
    pub open spec fn create_processing_instruction(
        self,
        doc: NodeId,
        target: Seq<char>,
        data: Option<Seq<char>>,
    ) -> Result<DomView, Error> {
        if !(self.node_type(doc) is Document) {
            Err(Error::InvalidState)
        } else if is_reserved_target(target) {
            Err(Error::Syntax)
        } else {
            self.create(doc, NodeType::ProcessingInstruction, parse_name(target), data)
        }
    }

    /// What `create_document_type` does.
    pub open spec fn create_document_type(
        self,
        qualified_name: Seq<char>,
        public_id: Option<Seq<char>>,
        system_id: Option<Seq<char>>,
    ) -> Result<DomView, Error> {
        match parse_name(qualified_name) {
            Some(n) => Ok(
                self.with_new(
                    NodeView {
                        extension: ExtensionView::DocumentType {
                            entities: Seq::empty(),
                            notations: Seq::empty(),
                            public_id,
                            system_id,
                            internal_subset: None,
                        },
                        ..fresh_node(NodeType::DocumentType, n, None, None)
                    },
                ),
            ),
            None => Err(Error::Syntax),
        }
    }

    /// What `create_document_with_options` does: the document comes first, its
    /// element right after it, attached to the document and owned by it.
    pub open spec fn create_document(
        self,
        namespace_uri: Seq<char>,
        qualified_name: Seq<char>,
        doc_type: Option<NodeId>,
        options: ProcessingOptions,
    ) -> Result<DomView, Error> {
        let doc = self.nodes.len() as NodeId;
        let root = (self.nodes.len() + 1) as NodeId;
        if doc_type is Some && !(self.node_type(doc_type->0) is DocumentType) {
            Err(Error::InvalidState)
        } else {
            match parse_name_ns(namespace_uri, qualified_name) {
                Some(n) => Ok(
                    self.with_new(
                        NodeView {
                            extension: ExtensionView::Document {
                                document_type: doc_type,
                                document_element: Some(root),
                                id_map: Seq::empty(),
                                xml_declaration: None,
                                options,
                            },
                            ..fresh_node(NodeType::Document, n, None, None)
                        },
                    ).with_new(
                        NodeView {
                            parent: Some(doc),
                            ..fresh_node(NodeType::Element, n, None, Some(doc))
                        },
                    ),
                ),
                None => Err(Error::Syntax),
            }
        }
    }
}

/// Whether a target is `xml` in some mix of cases.
fn reserved_target(target: &str) -> (res: bool)
    ensures
        res == is_reserved_target(target@),
{
    let v = chars_of(target);
    v.len() == 3 && (v[0] == 'x' || v[0] == 'X') && (v[1] == 'm' || v[1] == 'M') && (v[2] == 'l'
        || v[2] == 'L')
}

impl Dom {
    /// Puts a node at the end of the arena.
    pub(crate) fn add_node(&mut self, node: Node) -> (id: NodeId)
        requires
            old(self).wf(),
            node@.parent is None,
            old(self)@.with_new(node@).node_inv(old(self)@.nodes.len() as NodeId),
        ensures
            final(self).wf(),
            final(self)@ == old(self)@.with_new(node@),
            final(self).rank@ == old(self).rank@.push(0),
            id == old(self)@.nodes.len(),
    {
        let id = self.nodes.len();
        let ghost v = node@;
        self.nodes.push(node);
        proof {
            self.rank@ = self.rank@.push(0);
            assert(self.nodes.len() == self.nodes@.len());
            assert(self@.nodes =~= old(self)@.with_new(v).nodes);
            old(self)@.lemma_with_new_inv(v);
            assert forall|n: NodeId| self@.contains(n) implies match #[trigger] self@.parent_link(
                n,
            ) {
                Some(p) => self@.contains(p) && self.rank@[n as int] < self.rank@[p as int],
                None => true,
            } by {
                if n < id {
                    assert(old(self)@.parent_link(n) == self@.parent_link(n));
                }
            }
        }
        id
    }

    /// Makes a node of a kind for a document, under the name that was read.
    fn create(
        &mut self,
        doc: NodeId,
        t: NodeType,
        name: Result<Name, Error>,
        value: Option<String>,
    ) -> (res: Result<NodeId, Error>)
        requires
            old(self).wf(),
            old(self)@.contains(doc),
            is_owned_type(t),
        ensures
            final(self).wf(),
            match old(self)@.create(
                doc,
                t,
                match name {
                    Ok(n) => Some(n@),
                    Err(_) => None,
                },
                opt_str_view(value),
            ) {
                Ok(v) => res == Ok::<NodeId, Error>(old(self)@.nodes.len() as NodeId)
                    && final(self)@ == v,
                Err(e) => res == Err::<NodeId, Error>(e) && final(self)@ == old(self)@,
            },
    {
        if !matches!(self.nodes[doc].node_type, NodeType::Document) {
            return Err(Error::InvalidState);
        }
        match name {
            Ok(n) => {
                let node = Node {
                    node_type: t,
                    name: n,
                    value,
                    parent: None,
                    owner_document: Some(doc),
                    children: Vec::new(),
                    extension: Extension::empty(t),
                };
                proof {
                    let v = fresh_node(t, n@, opt_str_view(value), Some(doc));
                    let d = self@.with_new(v);
                    let id = self@.nodes.len() as NodeId;
                    assert(self.nodes.len() == self.nodes@.len());
                    assert(node@ == v);
                    assert(d.node(id) == v);
                    assert(d.attribute_names(id) =~= Seq::empty());
                    assert(d.namespace_prefixes(id) =~= Seq::empty());
                    assert(d.node_inv(id));
                }
                Ok(self.add_node(node))
            },
            Err(_) => Err(Error::Syntax),
        }
    }

    /// Makes an element named `tag_name`.
    pub fn create_element(&mut self, doc: NodeId, tag_name: &str) -> (res: Result<NodeId, Error>)
        requires
            old(self).wf(),
            old(self)@.contains(doc),
        ensures
            final(self).wf(),
            made(
                old(self)@,
                final(self)@,
                res,
                old(self)@.create(doc, NodeType::Element, parse_name(tag_name@), None),
            ),
    {
        self.create(doc, NodeType::Element, Name::from_str(tag_name), None)
    }

    /// Makes an element whose qualified name is bound to a namespace.
    pub fn create_element_ns(&mut self, doc: NodeId, namespace_uri: &str, qualified_name: &str) -> (res:
        Result<NodeId, Error>)
        requires
            old(self).wf(),
            old(self)@.contains(doc),
        ensures
            final(self).wf(),
            made(
                old(self)@,
                final(self)@,
                res,
                old(self)@.create(
                    doc,
                    NodeType::Element,
                    parse_name_ns(namespace_uri@, qualified_name@),
                    None,
                ),
            ),
    {
        self.create(doc, NodeType::Element, Name::new_ns(namespace_uri, qualified_name), None)
    }

    /// Makes an attribute without a value.
    pub fn create_attribute(&mut self, doc: NodeId, name: &str) -> (res: Result<NodeId, Error>)
        requires
            old(self).wf(),
            old(self)@.contains(doc),
        ensures
            final(self).wf(),
            made(
                old(self)@,
                final(self)@,
                res,
                old(self)@.create(doc, NodeType::Attribute, parse_name(name@), None),
            ),
    {
        self.create(doc, NodeType::Attribute, Name::from_str(name), None)
    }

    /// Makes an attribute with a value.
    pub fn create_attribute_with(&mut self, doc: NodeId, name: &str, value: &str) -> (res: Result<
        NodeId,
        Error,
    >)
        requires
            old(self).wf(),
            old(self)@.contains(doc),
        ensures
            final(self).wf(),
            made(
                old(self)@,
                final(self)@,
                res,
                old(self)@.create(doc, NodeType::Attribute, parse_name(name@), Some(value@)),
            ),
    {
        self.create(doc, NodeType::Attribute, Name::from_str(name), Some(value.to_string()))
    }

    /// Makes an attribute whose qualified name is bound to a namespace.
    pub fn create_attribute_ns(&mut self, doc: NodeId, namespace_uri: &str, qualified_name: &str) -> (res:
        Result<NodeId, Error>)
        requires
            old(self).wf(),
            old(self)@.contains(doc),
        ensures
            final(self).wf(),
            made(
                old(self)@,
                final(self)@,
                res,
                old(self)@.create(
                    doc,
                    NodeType::Attribute,
                    parse_name_ns(namespace_uri@, qualified_name@),
                    None,
                ),
            ),
    {
        self.create(doc, NodeType::Attribute, Name::new_ns(namespace_uri, qualified_name), None)
    }

    /// Makes a text node.
    pub fn create_text_node(&mut self, doc: NodeId, data: &str) -> (res: Result<NodeId, Error>)
        requires
            old(self).wf(),
            old(self)@.contains(doc),
        ensures
            final(self).wf(),
            made(
                old(self)@,
                final(self)@,
                res,
                old(self)@.create(
                    doc,
                    NodeType::Text,
                    Some(fixed_name("#text"@)),
                    Some(data@),
                ),
            ),
    {
        self.create(doc, NodeType::Text, Ok(Name::unqualified("#text")), Some(data.to_string()))
    }

    /// Makes a comment.
    pub fn create_comment(&mut self, doc: NodeId, data: &str) -> (res: Result<NodeId, Error>)
        requires
            old(self).wf(),
            old(self)@.contains(doc),
        ensures
            final(self).wf(),
            made(
                old(self)@,
                final(self)@,
                res,
                old(self)@.create(
                    doc,
                    NodeType::Comment,
                    Some(fixed_name("#comment"@)),
                    Some(data@),
                ),
            ),
    {
        self.create(
            doc,
            NodeType::Comment,
            Ok(Name::unqualified("#comment")),
            Some(data.to_string()),
        )
    }

    /// Makes a CDATA section.
    pub fn create_cdata_section(&mut self, doc: NodeId, data: &str) -> (res: Result<NodeId, Error>)
        requires
            old(self).wf(),
            old(self)@.contains(doc),
        ensures
            final(self).wf(),
            made(
                old(self)@,
                final(self)@,
                res,
                old(self)@.create(
                    doc,
                    NodeType::CData,
                    Some(fixed_name("#cdata-section"@)),
                    Some(data@),
                ),
            ),
    {
        self.create(
            doc,
            NodeType::CData,
            Ok(Name::unqualified("#cdata-section")),
            Some(data.to_string()),
        )
    }

    /// Makes an empty document fragment.
    pub fn create_document_fragment(&mut self, doc: NodeId) -> (res: Result<NodeId, Error>)
        requires
            old(self).wf(),
            old(self)@.contains(doc),
        ensures
            final(self).wf(),
            made(
                old(self)@,
                final(self)@,
                res,
                old(self)@.create(
                    doc,
                    NodeType::DocumentFragment,
                    Some(fixed_name("#document-fragment"@)),
                    None,
                ),
            ),
    {
        self.create(
            doc,
            NodeType::DocumentFragment,
            Ok(Name::unqualified("#document-fragment")),
            None,
        )
    }

    /// Makes a reference to the entity of the given name.
    pub fn create_entity_reference(&mut self, doc: NodeId, name: &str) -> (res: Result<
        NodeId,
        Error,
    >)
        requires
            old(self).wf(),
            old(self)@.contains(doc),
        ensures
            final(self).wf(),
            made(
                old(self)@,
                final(self)@,
                res,
                old(self)@.create(doc, NodeType::EntityReference, parse_name(name@), None),
            ),
    {
        self.create(doc, NodeType::EntityReference, Name::from_str(name), None)
    }

    /// Makes a processing instruction. The target `xml`, in any mix of cases,
    /// is reserved and refused as a syntax error.
    pub fn create_processing_instruction(
        &mut self,
        doc: NodeId,
        target: &str,
        data: Option<&str>,
    ) -> (res: Result<NodeId, Error>)
        requires
            old(self).wf(),
            old(self)@.contains(doc),
        ensures
            final(self).wf(),
            made(
                old(self)@,
                final(self)@,
                res,
                old(self)@.create_processing_instruction(
                    doc,
                    target@,
                    match data {
                        Some(d) => Some(d@),
                        None => None,
                    },
                ),
            ),
    {
        if !matches!(self.nodes[doc].node_type, NodeType::Document) {
            return Err(Error::InvalidState);
        }
        if reserved_target(target) {
            return Err(Error::Syntax);
        }
        self.create(doc, NodeType::ProcessingInstruction, Name::from_str(target), own_opt_str(data))
    }

    /// Makes a document type node. It belongs to no document.
    pub fn create_document_type(
        &mut self,
        qualified_name: &str,
        public_id: Option<&str>,
        system_id: Option<&str>,
    ) -> (res: Result<NodeId, Error>)
        requires
            old(self).wf(),
        ensures
            final(self).wf(),
            made(
                old(self)@,
                final(self)@,
                res,
                old(self)@.create_document_type(
                    qualified_name@,
                    match public_id {
                        Some(d) => Some(d@),
                        None => None,
                    },
                    match system_id {
                        Some(d) => Some(d@),
                        None => None,
                    },
                ),
            ),
    {
        match Name::from_str(qualified_name) {
            Ok(n) => {
                let node = Node {
                    node_type: NodeType::DocumentType,
                    name: n,
                    value: None,
                    parent: None,
                    owner_document: None,
                    children: Vec::new(),
                    extension: Extension::DocumentType {
                        entities: Vec::new(),
                        notations: Vec::new(),
                        public_id: own_opt_str(public_id),
                        system_id: own_opt_str(system_id),
                        internal_subset: None,
                    },
                };
                proof {
                    let d = self@.with_new(node@);
                    let id = self@.nodes.len() as NodeId;
                    assert(self.nodes.len() == self.nodes@.len());
                    assert(d.node(id) == node@);
                    assert(node@.extension->entities =~= Seq::empty());
                    assert(node@.extension->notations =~= Seq::empty());
                    assert(d.node_inv(id));
                }
                Ok(self.add_node(node))
            },
            Err(_) => Err(Error::Syntax),
        }
    }

    /// Makes a document under the strict options. See
    /// [`Dom::create_document_with_options`].
    pub fn create_document(
        &mut self,
        namespace_uri: &str,
        qualified_name: &str,
        doc_type: Option<NodeId>,
    ) -> (res: Result<NodeId, Error>)
        requires
            old(self).wf(),
            doc_type is Some ==> old(self)@.contains(doc_type->0),
        ensures
            final(self).wf(),
            made(
                old(self)@,
                final(self)@,
                res,
                old(self)@.create_document(
                    namespace_uri@,
                    qualified_name@,
                    doc_type,
                    ProcessingOptions { assume_ids: false },
                ),
            ),
    {
        self.create_document_with_options(
            namespace_uri,
            qualified_name,
            doc_type,
            ProcessingOptions::new(),
        )
    }

    /// Makes a document and, with it, its element, named by the qualified name
    /// within the namespace. The result is the document; its element is the
    /// node made right after it. A `doc_type` that is no document type node is
    /// an invalid state.
    pub fn create_document_with_options(
        &mut self,
        namespace_uri: &str,
        qualified_name: &str,
        doc_type: Option<NodeId>,
        options: ProcessingOptions,
    ) -> (res: Result<NodeId, Error>)
        requires
            old(self).wf(),
            doc_type is Some ==> old(self)@.contains(doc_type->0),
        ensures
            final(self).wf(),
            made(
                old(self)@,
                final(self)@,
                res,
                old(self)@.create_document(namespace_uri@, qualified_name@, doc_type, options),
            ),
    {
        match doc_type {
            Some(t) => {
                if !matches!(self.nodes[t].node_type, NodeType::DocumentType) {
                    return Err(Error::InvalidState);
                }
            },
            None => {},
        }
        let name = match Name::new_ns(namespace_uri, qualified_name) {
            Ok(n) => n,
            Err(_) => {
                return Err(Error::Syntax);
            },
        };
        let doc = self.nodes.len();
        let document = Node {
            node_type: NodeType::Document,
            name: name.clone(),
            value: None,
            parent: None,
            owner_document: None,
            children: Vec::new(),
            extension: Extension::Document {
                document_type: doc_type,
                document_element: None,
                id_map: Vec::new(),
                xml_declaration: None,
                options,
            },
        };
        let element = Node {
            node_type: NodeType::Element,
            name,
            value: None,
            parent: Some(doc),
            owner_document: Some(doc),
            children: Vec::new(),
            extension: Extension::empty(NodeType::Element),
        };
        self.nodes.push(document);
        let root = self.nodes.len();
        self.nodes.push(element);
        match &mut self.nodes[doc].extension {
            Extension::Document { document_element, .. } => {
                *document_element = Some(root);
            },
            _ => {},
        }
        proof {
            let before = old(self)@;
            let after = before.create_document(
                namespace_uri@,
                qualified_name@,
                doc_type,
                options,
            )->Ok_0;
            self.rank@ = self.rank@.push(1).push(0);
            if self.bound@ < 1 {
                self.bound@ = 1;
            }
            assert(self.nodes.len() == self.nodes@.len());
            assert(self@.node(doc).extension->id_map =~= Seq::empty());
            assert(self@.node(doc) == after.node(doc));
            assert(self@.node(root) == after.node(root));
            assert(self@.nodes =~= after.nodes);
            assert forall|n: NodeId| after.contains(n) implies #[trigger] after.node_inv(n) by {
                if n < doc {
                    assert(before.node_inv(n));
                    before.lemma_node_inv_extends(after, n);
                } else if n == doc {
                    assert(after.id_values(n) =~= Seq::empty());
                } else {
                    assert(after.attribute_names(n) =~= Seq::empty());
                    assert(after.namespace_prefixes(n) =~= Seq::empty());
                }
            }
            assert forall|n: NodeId| self@.contains(n) implies match #[trigger] self@.parent_link(
                n,
            ) {
                Some(p) => self@.contains(p) && self.rank@[n as int] < self.rank@[p as int],
                None => true,
            } by {
                if n < doc {
                    assert(before.parent_link(n) == self@.parent_link(n));
                }
            }
        }
        Ok(doc)
    }
}

/// How the result of a factory operation and the arena after it follow from
/// what the operation is to do: on success the new node is the first one
/// added, on failure nothing has changed.
pub open spec fn made(
    before: DomView,
    after: DomView,
    res: Result<NodeId, Error>,
    model: Result<DomView, Error>,
) -> bool {
    match model {
        Ok(v) => res == Ok::<NodeId, Error>(before.nodes.len() as NodeId) && after == v,
        Err(e) => res == Err::<NodeId, Error>(e) && after == before,
    }
}

} // verus!
