use vstd::prelude::*;
use vstd::string::*;
use crate::name::{copy_opt_string, opt_str_view, own_opt_str, Name, NameView};

verus! {

/// A handle on a node: its place in the arena that owns it.
pub type NodeId = usize;

/// The kinds of node.
#[derive(Clone, Copy, Debug, PartialEq, Eq, Structural)]
pub enum NodeType {
    Element,
    Attribute,
    Text,
    CData,
    EntityReference,
    Entity,
    ProcessingInstruction,
    Comment,
    Document,
    DocumentType,
    DocumentFragment,
    Notation,
}

/// The kinds of node that make up the content of an element.
pub open spec fn is_content_type(t: NodeType) -> bool {
    t is Element || t is Text || t is Comment || t is ProcessingInstruction || t is CData
        || t is EntityReference
}

/// The hierarchy table: which kinds of child each kind of parent takes. A
/// document's element and document type are not children in this sense, and
/// a document fragment is nowhere a child.
pub open spec fn child_allowed(parent: NodeType, child: NodeType) -> bool {
    if parent is Document {
        child is Comment || child is ProcessingInstruction
    } else if parent is DocumentFragment || parent is Element || parent is EntityReference
        || parent is Entity {
        is_content_type(child)
    } else if parent is Attribute {
        child is Text || child is EntityReference
    } else {
        false
    }
}

pub fn is_child_allowed(parent: NodeType, child: NodeType) -> (res: bool)
    ensures
        res == child_allowed(parent, child),
{
    match parent {
        NodeType::Element
        | NodeType::EntityReference
        | NodeType::Entity
        | NodeType::DocumentFragment => match child {
            NodeType::Element
            | NodeType::Text
            | NodeType::Comment
            | NodeType::ProcessingInstruction
            | NodeType::CData
            | NodeType::EntityReference => true,
            _ => false,
        },
        NodeType::Attribute => match child {
            NodeType::Text | NodeType::EntityReference => true,
            _ => false,
        },
        NodeType::Document => match child {
            NodeType::Comment | NodeType::ProcessingInstruction => true,
            _ => false,
        },
        NodeType::Text
        | NodeType::CData
        | NodeType::ProcessingInstruction
        | NodeType::Comment
        | NodeType::DocumentType
        | NodeType::Notation => false,
    }
}

/// The options a document is processed under.
#[derive(Clone, Copy, Debug, PartialEq, Eq, Structural)]
pub struct ProcessingOptions {
    pub assume_ids: bool,
}

impl ProcessingOptions {
    /// The strict options.
    pub fn new() -> (res: ProcessingOptions)
        ensures
            res == (ProcessingOptions { assume_ids: false }),
    {
        ProcessingOptions { assume_ids: false }
    }

    /// Whether attributes are taken for IDs by their local name alone.
    pub fn has_assume_ids(&self) -> (res: bool)
        ensures
            res == self.assume_ids,
    {
        self.assume_ids
    }

    /// Switches the permissive ID mode on.
    pub fn set_assume_ids(&mut self)
        ensures
            *final(self) == (ProcessingOptions { assume_ids: true }),
    {
        self.assume_ids = true;
    }
}

/// What an XML declaration holds.
pub struct XmlDeclView {
    pub version: Seq<char>,
    pub encoding: Option<Seq<char>>,
    pub standalone: Option<bool>,
}

/// The XML declaration at the head of a document.
pub struct XmlDecl {
    version: String,
    encoding: Option<String>,
    standalone: Option<bool>,
}

impl View for XmlDecl {
    type V = XmlDeclView;

    closed spec fn view(&self) -> XmlDeclView {
        XmlDeclView {
            version: self.version@,
            encoding: opt_str_view(self.encoding),
            standalone: self.standalone,
        }
    }
}

impl XmlDecl {
    pub fn new(version: &str, encoding: Option<&str>, standalone: Option<bool>) -> (res: XmlDecl)
        ensures
            res@.version == version@,
            match encoding {
                Some(e) => res@.encoding == Some(e@),
                None => res@.encoding is None,
            },
            res@.standalone == standalone,
    {
        XmlDecl { version: version.to_string(), encoding: own_opt_str(encoding), standalone }
    }

    pub fn version(&self) -> (r: &String)
        ensures
            r@ == self@.version,
    {
        &self.version
    }

    pub fn encoding(&self) -> (r: &Option<String>)
        ensures
            opt_str_view(*r) == self@.encoding,
    {
        &self.encoding
    }

    pub fn standalone(&self) -> (r: Option<bool>)
        ensures
            r == self@.standalone,
    {
        self.standalone
    }
}

impl Clone for XmlDecl {
    fn clone(&self) -> (r: XmlDecl)
        ensures
            r@ == self@,
    {
        XmlDecl {
            version: self.version.clone(),
            encoding: copy_opt_string(&self.encoding),
            standalone: self.standalone,
        }
    }
}

/// One entry of a document's ID map: an ID value and the element that carries it.
pub struct IdEntry {
    pub(crate) value: String,
    pub(crate) element: NodeId,
}

/// One namespace declaration of an element: a prefix, or none for the default
/// namespace, and the URI it stands for.
pub struct NamespaceEntry {
    pub(crate) prefix: Option<String>,
    pub(crate) uri: String,
}

/// What a node holds beyond the common fields, by kind.
pub enum Extension {
    Bare,
    Document {
        document_type: Option<NodeId>,
        document_element: Option<NodeId>,
        id_map: Vec<IdEntry>,
        xml_declaration: Option<XmlDecl>,
        options: ProcessingOptions,
    },
    Element { attributes: Vec<NodeId>, namespaces: Vec<NamespaceEntry> },
    DocumentType {
        entities: Vec<NodeId>,
        notations: Vec<NodeId>,
        public_id: Option<String>,
        system_id: Option<String>,
        internal_subset: Option<String>,
    },
    Entity { public_id: Option<String>, system_id: Option<String>, notation_name: Option<String> },
    Notation { public_id: Option<String>, system_id: Option<String> },
}

/// The mathematical content of an [`Extension`].
pub enum ExtensionView {
    Bare,
    Document {
        document_type: Option<NodeId>,
        document_element: Option<NodeId>,
        id_map: Seq<(Seq<char>, NodeId)>,
        xml_declaration: Option<XmlDeclView>,
        options: ProcessingOptions,
    },
    Element { attributes: Seq<NodeId>, namespaces: Seq<(Option<Seq<char>>, Seq<char>)> },
    DocumentType {
        entities: Seq<NodeId>,
        notations: Seq<NodeId>,
        public_id: Option<Seq<char>>,
        system_id: Option<Seq<char>>,
        internal_subset: Option<Seq<char>>,
    },
    Entity {
        public_id: Option<Seq<char>>,
        system_id: Option<Seq<char>>,
        notation_name: Option<Seq<char>>,
    },
    Notation { public_id: Option<Seq<char>>, system_id: Option<Seq<char>> },
}

pub open(crate) spec fn id_map_view(m: Seq<IdEntry>) -> Seq<(Seq<char>, NodeId)> {
    Seq::new(m.len(), |i: int| (m[i].value@, m[i].element))
}

pub open(crate) spec fn namespaces_view(m: Seq<NamespaceEntry>) -> Seq<
    (Option<Seq<char>>, Seq<char>),
> {
    Seq::new(m.len(), |i: int| (opt_str_view(m[i].prefix), m[i].uri@))
}

pub open(crate) spec fn xml_decl_view(d: Option<XmlDecl>) -> Option<XmlDeclView> {
    match d {
        Some(x) => Some(x@),
        None => None,
    }
}

impl View for Extension {
    type V = ExtensionView;

    open(crate) spec fn view(&self) -> ExtensionView {
        match *self {
            Extension::Bare => ExtensionView::Bare,
            Extension::Document {
                document_type,
                document_element,
                id_map,
                xml_declaration,
                options,
            } => ExtensionView::Document {
                document_type,
                document_element,
                id_map: id_map_view(id_map@),
                xml_declaration: xml_decl_view(xml_declaration),
                options,
            },
            Extension::Element { attributes, namespaces } => ExtensionView::Element {
                attributes: attributes@,
                namespaces: namespaces_view(namespaces@),
            },
            Extension::DocumentType {
                entities,
                notations,
                public_id,
                system_id,
                internal_subset,
            } => ExtensionView::DocumentType {
                entities: entities@,
                notations: notations@,
                public_id: opt_str_view(public_id),
                system_id: opt_str_view(system_id),
                internal_subset: opt_str_view(internal_subset),
            },
            Extension::Entity { public_id, system_id, notation_name } => ExtensionView::Entity {
                public_id: opt_str_view(public_id),
                system_id: opt_str_view(system_id),
                notation_name: opt_str_view(notation_name),
            },
            Extension::Notation { public_id, system_id } => ExtensionView::Notation {
                public_id: opt_str_view(public_id),
                system_id: opt_str_view(system_id),
            },
        }
    }
}

/// The payload that a fresh node of a kind starts with.
pub open spec fn empty_extension(t: NodeType) -> ExtensionView {
    match t {
        NodeType::Document => ExtensionView::Document {
            document_type: None,
            document_element: None,
            id_map: Seq::empty(),
            xml_declaration: None,
            options: ProcessingOptions { assume_ids: false },
        },
        NodeType::Element => ExtensionView::Element {
            attributes: Seq::empty(),
            namespaces: Seq::empty(),
        },
        NodeType::DocumentType => ExtensionView::DocumentType {
            entities: Seq::empty(),
            notations: Seq::empty(),
            public_id: None,
            system_id: None,
            internal_subset: None,
        },
        NodeType::Entity => ExtensionView::Entity {
            public_id: None,
            system_id: None,
            notation_name: None,
        },
        NodeType::Notation => ExtensionView::Notation { public_id: None, system_id: None },
        _ => ExtensionView::Bare,
    }
}

impl Extension {
    /// The payload that a fresh node of a kind starts with.
    pub fn empty(t: NodeType) -> (res: Extension)
        ensures
            res@ == empty_extension(t),
    {
        let res = match t {
            NodeType::Document => Extension::Document {
                document_type: None,
                document_element: None,
                id_map: Vec::new(),
                xml_declaration: None,
                options: ProcessingOptions::new(),
            },
            NodeType::Element => Extension::Element {
                attributes: Vec::new(),
                namespaces: Vec::new(),
            },
            NodeType::DocumentType => Extension::DocumentType {
                entities: Vec::new(),
                notations: Vec::new(),
                public_id: None,
                system_id: None,
                internal_subset: None,
            },
            NodeType::Entity => Extension::Entity {
                public_id: None,
                system_id: None,
                notation_name: None,
            },
            NodeType::Notation => Extension::Notation { public_id: None, system_id: None },
            _ => Extension::Bare,
        };
        proof {
            match t {
                NodeType::Document => {
                    assert(res@->id_map =~= Seq::empty());
                },
                NodeType::Element => {
                    assert(res@->attributes =~= Seq::empty());
                    assert(res@->namespaces =~= Seq::empty());
                },
                NodeType::DocumentType => {
                    assert(res@->entities =~= Seq::empty());
                    assert(res@->notations =~= Seq::empty());
                },
                _ => {},
            }
        }
        res
    }
}

/// The mathematical content of a node.
pub struct NodeView {
    pub node_type: NodeType,
    pub name: NameView,
    pub value: Option<Seq<char>>,
    pub parent: Option<NodeId>,
    pub owner_document: Option<NodeId>,
    pub children: Seq<NodeId>,
    pub extension: ExtensionView,
}

/// A node as the arena stores it.
pub struct Node {
    pub(crate) node_type: NodeType,
    pub(crate) name: Name,
    pub(crate) value: Option<String>,
    pub(crate) parent: Option<NodeId>,
    pub(crate) owner_document: Option<NodeId>,
    pub(crate) children: Vec<NodeId>,
    pub(crate) extension: Extension,
}

impl View for Node {
    type V = NodeView;

    open(crate) spec fn view(&self) -> NodeView {
        NodeView {
            node_type: self.node_type,
            name: self.name@,
            value: opt_str_view(self.value),
            parent: self.parent,
            owner_document: self.owner_document,
            children: self.children@,
            extension: self.extension@,
        }
    }
}

} // verus!
