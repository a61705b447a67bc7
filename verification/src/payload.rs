use vstd::prelude::*;
use vstd::string::*;
use crate::dom::Dom;
use crate::error::Error;
use crate::factory::has_feature;
use crate::factory::feature_supported;
use crate::model::DomView;
use crate::name::{copy_opt_string, opt_str_view};
use crate::node::{xml_decl_view, Extension, ExtensionView, NodeId, XmlDecl, XmlDeclView};

verus! {

impl DomView {
    /// A document's XML declaration; none for any other node.
    pub open spec fn xml_declaration(self, n: NodeId) -> Option<XmlDeclView> {
        match self.node(n).extension {
            ExtensionView::Document { xml_declaration, .. } => xml_declaration,
            _ => None,
        }
    }

    /// The arena after a document has been given an XML declaration.
    pub open spec fn with_xml_declaration(self, n: NodeId, decl: XmlDeclView) -> DomView {
        match self.node(n).extension {
            ExtensionView::Document {
                document_type,
                document_element,
                id_map,
                xml_declaration,
                options,
            } => self.with_extension(
                n,
                ExtensionView::Document {
                    document_type,
                    document_element,
                    id_map,
                    xml_declaration: Some(decl),
                    options,
                },
            ),
            _ => self,
        }
    }

    /// The entity nodes of a document type; none for any other node.
    pub open spec fn entities(self, n: NodeId) -> Seq<NodeId> {
        match self.node(n).extension {
            ExtensionView::DocumentType { entities, .. } => entities,
            _ => Seq::empty(),
        }
    }

    /// The notation nodes of a document type; none for any other node.
    pub open spec fn notations(self, n: NodeId) -> Seq<NodeId> {
        match self.node(n).extension {
            ExtensionView::DocumentType { notations, .. } => notations,
            _ => Seq::empty(),
        }
    }

    /// The public identifier of a document type, an entity or a notation.
    pub open spec fn public_id(self, n: NodeId) -> Option<Seq<char>> {
        match self.node(n).extension {
            ExtensionView::DocumentType { public_id, .. } => public_id,
            ExtensionView::Entity { public_id, .. } => public_id,
            ExtensionView::Notation { public_id, .. } => public_id,
            _ => None,
        }
    }

    /// The system identifier of a document type, an entity or a notation.
    pub open spec fn system_id(self, n: NodeId) -> Option<Seq<char>> {
        match self.node(n).extension {
            ExtensionView::DocumentType { system_id, .. } => system_id,
            ExtensionView::Entity { system_id, .. } => system_id,
            ExtensionView::Notation { system_id, .. } => system_id,
            _ => None,
        }
    }

    /// The internal subset of a document type.
    pub open spec fn internal_subset(self, n: NodeId) -> Option<Seq<char>> {
        match self.node(n).extension {
            ExtensionView::DocumentType { internal_subset, .. } => internal_subset,
            _ => None,
        }
    }

    /// The name of the notation of an entity.
    pub open spec fn notation_name(self, n: NodeId) -> Option<Seq<char>> {
        match self.node(n).extension {
            ExtensionView::Entity { notation_name, .. } => notation_name,
            _ => None,
        }
    }
}

impl Dom {
    /// The document type of a document; none for any other node.
    pub fn doc_type(&self, node: NodeId) -> (res: Option<NodeId>)
        requires
            self@.contains(node),
        ensures
            res == self@.document_type(node),
    {
        match &self.nodes[node].extension {
            Extension::Document { document_type, .. } => *document_type,
            _ => None,
        }
    }

    /// The element of a document; none for any other node.
    pub fn document_element(&self, node: NodeId) -> (res: Option<NodeId>)
        requires
            self@.contains(node),
        ensures
            res == self@.document_element(node),
    {
        match &self.nodes[node].extension {
            Extension::Document { document_element, .. } => *document_element,
            _ => None,
        }
    }

    /// The XML declaration of a document; none for any other node.
    pub fn xml_declaration(&self, node: NodeId) -> (res: Option<XmlDecl>)
        requires
            self@.contains(node),
        ensures
            xml_decl_view(res) == self@.xml_declaration(node),
    {
        match &self.nodes[node].extension {
            Extension::Document { xml_declaration, .. } => match xml_declaration {
                Some(d) => Some(d.clone()),
                None => None,
            },
            _ => None,
        }
    }

    /// Gives a document an XML declaration. Any other node is in an invalid
    /// state for this.
    pub fn set_xml_declaration(&mut self, node: NodeId, xml_decl: XmlDecl) -> (res: Result<
        (),
        Error,
    >)
        requires
            old(self).wf(),
            old(self)@.contains(node),
        ensures
            final(self).wf(),
            match old(self)@.node(node).extension {
                ExtensionView::Document { .. } => res is Ok && final(self)@ == old(
                    self,
                )@.with_xml_declaration(node, xml_decl@),
                _ => res == Err::<(), Error>(Error::InvalidState) && final(self)@ == old(self)@,
            },
    {
        if !matches!(self.nodes[node].extension, Extension::Document { .. }) {
            return Err(Error::InvalidState);
        }
        let ghost before = self@;
        let ghost after = before.with_xml_declaration(node, xml_decl@);
        proof {
            assert(before.node_inv(node));
            match before.node(node).extension {
                ExtensionView::Document { .. } => {
                    assert(after.id_values(node) =~= before.id_values(node));
                    assert(after.id_map(node) == before.id_map(node));
                    assert(after.payload_inv(node));
                    before.lemma_with_extension_inv(
                        self.rank@,
                        self.bound@,
                        node,
                        after.node(node).extension,
                    );
                },
                _ => {},
            }
        }
        match &mut self.nodes[node].extension {
            Extension::Document { xml_declaration, .. } => {
                *xml_declaration = Some(xml_decl);
            },
            _ => {},
        }
        proof {
            assert(self@.node(node).extension == after.node(node).extension);
            assert(self@.nodes =~= after.nodes);
        }
        Ok(())
    }

    /// The entity nodes of a document type; none for any other node.
    pub fn entities(&self, node: NodeId) -> (res: Vec<NodeId>)
        requires
            self@.contains(node),
        ensures
            res@ == self@.entities(node),
    {
        match &self.nodes[node].extension {
            Extension::DocumentType { entities, .. } => entities.clone(),
            _ => Vec::new(),
        }
    }

    /// The notation nodes of a document type; none for any other node.
    pub fn notations(&self, node: NodeId) -> (res: Vec<NodeId>)
        requires
            self@.contains(node),
        ensures
            res@ == self@.notations(node),
    {
        match &self.nodes[node].extension {
            Extension::DocumentType { notations, .. } => notations.clone(),
            _ => Vec::new(),
        }
    }

    /// The public identifier of a document type, an entity or a notation;
    /// none for any other node.
    pub fn public_id(&self, node: NodeId) -> (res: Option<String>)
        requires
            self@.contains(node),
        ensures
            opt_str_view(res) == self@.public_id(node),
    {
        match &self.nodes[node].extension {
            Extension::DocumentType { public_id, .. } => copy_opt_string(public_id),
            Extension::Entity { public_id, .. } => copy_opt_string(public_id),
            Extension::Notation { public_id, .. } => copy_opt_string(public_id),
            _ => None,
        }
    }

    /// The system identifier of a document type, an entity or a notation;
    /// none for any other node.
    pub fn system_id(&self, node: NodeId) -> (res: Option<String>)
        requires
            self@.contains(node),
        ensures
            opt_str_view(res) == self@.system_id(node),
    {
        match &self.nodes[node].extension {
            Extension::DocumentType { system_id, .. } => copy_opt_string(system_id),
            Extension::Entity { system_id, .. } => copy_opt_string(system_id),
            Extension::Notation { system_id, .. } => copy_opt_string(system_id),
            _ => None,
        }
    }

    /// The internal subset of a document type; none for any other node.
    pub fn internal_subset(&self, node: NodeId) -> (res: Option<String>)
        requires
            self@.contains(node),
        ensures
            opt_str_view(res) == self@.internal_subset(node),
    {
        match &self.nodes[node].extension {
            Extension::DocumentType { internal_subset, .. } => copy_opt_string(internal_subset),
            _ => None,
        }
    }

    /// The name of the notation of an entity; none for any other node.
    pub fn notation_name(&self, node: NodeId) -> (res: Option<String>)
        requires
            self@.contains(node),
        ensures
            opt_str_view(res) == self@.notation_name(node),
    {
        match &self.nodes[node].extension {
            Extension::Entity { notation_name, .. } => copy_opt_string(notation_name),
            _ => None,
        }
    }

    /// Whether the implementation behind a node supports a feature at a
    /// version.
    pub fn is_supported(&self, node: NodeId, feature: &str, version: &str) -> (res: bool)
        ensures
            res == feature_supported(feature@, version@),
    {
        has_feature(feature, version)
    }
}

} // verus!
