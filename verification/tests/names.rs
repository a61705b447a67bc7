use xml_dom::dom::Dom;
use xml_dom::error::Error;
use xml_dom::factory::has_feature;
use xml_dom::name::Name;
use xml_dom::node::{NodeType, ProcessingOptions, XmlDecl};

#[test]
fn from_str_reads_simple_and_prefixed_names() {
    let n = Name::from_str("root").unwrap();
    assert_eq!(n.prefix(), &None);
    assert_eq!(n.local_name(), &"root".to_string());
    assert_eq!(n.namespace_uri(), &None);
    assert_eq!(n.to_string(), "root".to_string());
    let p = Name::from_str("ex:root-1.a_b").unwrap();
    assert_eq!(p.prefix(), &Some("ex".to_string()));
    assert_eq!(p.local_name(), &"root-1.a_b".to_string());
    assert_eq!(p.to_string(), "ex:root-1.a_b".to_string());
    let u = Name::from_str("\u{e9}l\u{e9}ment").unwrap();
    assert_eq!(u.local_name(), &"\u{e9}l\u{e9}ment".to_string());
}

#[test]
fn from_str_rejects_what_is_no_name() {
    for bad in ["", ":", "a:", ":a", "a:b:c", "1a", "-a", ".a", "a b", "a:1b", "a\u{d7}", "<a>"] {
        assert!(matches!(Name::from_str(bad), Err(Error::Syntax)));
    }
}

#[test]
fn new_ns_binds_the_namespace() {
    let n = Name::new_ns("urn:x", "x:a").unwrap();
    assert_eq!(n.namespace_uri(), &Some("urn:x".to_string()));
    assert_eq!(n.prefix(), &Some("x".to_string()));
    assert_eq!(n.local_name(), &"a".to_string());
    assert!(matches!(Name::new_ns("urn:x", "x:"), Err(Error::Syntax)));
}

#[test]
fn names_are_the_same_by_their_qualified_form() {
    let a = Name::from_str("x:a").unwrap();
    let b = Name::new_ns("urn:x", "x:a").unwrap();
    let c = Name::from_str("a").unwrap();
    assert!(a.same_as(&b));
    assert!(!a.same_as(&c));
    assert!(a.clone().same_as(&a));
}

#[test]
fn namespace_and_id_attributes() {
    assert!(Name::from_str("xmlns").unwrap().is_namespace_attribute());
    assert!(Name::from_str("xmlns:a").unwrap().is_namespace_attribute());
    assert!(!Name::from_str("a:xmlns").unwrap().is_namespace_attribute());
    assert!(!Name::from_str("xmlnsa").unwrap().is_namespace_attribute());
    assert!(Name::from_str("id").unwrap().is_id_attribute(false));
    assert!(Name::from_str("id").unwrap().is_id_attribute(true));
    assert!(Name::from_str("xml:id").unwrap().is_id_attribute(false));
    assert!(!Name::from_str("ID").unwrap().is_id_attribute(true));
    assert!(!Name::from_str("id:x").unwrap().is_id_attribute(true));
}

#[test]
fn has_feature_knows_core_and_xml() {
    assert!(has_feature("Core", "1.0"));
    assert!(has_feature("Core", "2.0"));
    assert!(has_feature("XML", "1.0"));
    assert!(has_feature("XML", "2.0"));
    assert!(!has_feature("XML", "3.0"));
    assert!(!has_feature("core", "1.0"));
    assert!(!has_feature("HTML", "1.0"));
    assert!(!has_feature("", ""));
}

#[test]
fn factories_make_detached_nodes_of_the_document() {
    let mut dom = Dom::new();
    let doc = dom.create_document("urn:r", "root", None).unwrap();
    let e = dom.create_element_ns(doc, "urn:x", "x:e").unwrap();
    let a = dom.create_attribute_ns(doc, "urn:x", "x:k").unwrap();
    let t = dom.create_text_node(doc, "t").unwrap();
    let c = dom.create_comment(doc, "c").unwrap();
    let d = dom.create_cdata_section(doc, "d").unwrap();
    let f = dom.create_document_fragment(doc).unwrap();
    let r = dom.create_entity_reference(doc, "amp").unwrap();
    let kinds = [
        (e, NodeType::Element, "x:e", None),
        (a, NodeType::Attribute, "x:k", None),
        (t, NodeType::Text, "#text", Some("t")),
        (c, NodeType::Comment, "#comment", Some("c")),
        (d, NodeType::CData, "#cdata-section", Some("d")),
        (f, NodeType::DocumentFragment, "#document-fragment", None),
        (r, NodeType::EntityReference, "amp", None),
    ];
    for (n, kind, name, value) in kinds {
        assert_eq!(dom.node_type(n), kind);
        assert_eq!(dom.name(n).to_string(), name.to_string());
        assert_eq!(dom.node_value(n), value.map(|v| v.to_string()));
        assert_eq!(dom.owner_document(n), Some(doc));
        assert_eq!(dom.parent_node(n), None);
        assert!(!dom.has_child_nodes(n));
    }
    assert_eq!(dom.name(e).namespace_uri(), &Some("urn:x".to_string()));
}

#[test]
fn factories_need_a_document_and_a_name() {
    let mut dom = Dom::new();
    let doc = dom.create_document("urn:r", "root", None).unwrap();
    let root = dom.document_element(doc).unwrap();
    let n = dom.len();
    assert_eq!(dom.create_element(root, "a"), Err(Error::InvalidState));
    assert_eq!(dom.create_text_node(root, "a"), Err(Error::InvalidState));
    assert_eq!(dom.create_processing_instruction(root, "xml", None), Err(Error::InvalidState));
    assert_eq!(dom.create_element(doc, "a b"), Err(Error::Syntax));
    assert_eq!(dom.create_attribute(doc, ""), Err(Error::Syntax));
    assert_eq!(dom.create_attribute_with(doc, ":", "v"), Err(Error::Syntax));
    assert_eq!(dom.create_entity_reference(doc, "1"), Err(Error::Syntax));
    assert_eq!(dom.create_processing_instruction(doc, "a:b:c", None), Err(Error::Syntax));
    assert_eq!(dom.create_document("urn:r", "", None), Err(Error::Syntax));
    assert_eq!(dom.create_document("urn:r", "a", Some(root)), Err(Error::InvalidState));
    assert_eq!(dom.create_document_type("1", None, None), Err(Error::Syntax));
    assert_eq!(dom.len(), n);
}

#[test]
fn document_type_and_declaration() {
    let mut dom = Dom::new();
    let dt = dom.create_document_type("html", Some("-//W3C//DTD"), Some("http://dtd")).unwrap();
    assert_eq!(dom.node_type(dt), NodeType::DocumentType);
    assert_eq!(dom.public_id(dt), Some("-//W3C//DTD".to_string()));
    assert_eq!(dom.system_id(dt), Some("http://dtd".to_string()));
    assert_eq!(dom.internal_subset(dt), None);
    assert_eq!(dom.notation_name(dt), None);
    assert_eq!(dom.entities(dt), Vec::<usize>::new());
    assert_eq!(dom.notations(dt), Vec::<usize>::new());
    assert_eq!(dom.owner_document(dt), None);
    let mut options = ProcessingOptions::new();
    assert!(!options.has_assume_ids());
    options.set_assume_ids();
    let doc = dom.create_document_with_options("urn:r", "root", Some(dt), options).unwrap();
    assert_eq!(dom.doc_type(doc), Some(dt));
    assert!(dom.assumes_ids(doc));
    assert_eq!(dom.name(doc).to_string(), "root".to_string());
    let root = dom.document_element(doc).unwrap();
    assert_eq!(dom.doc_type(root), None);
    assert_eq!(dom.document_element(root), None);
    assert_eq!(dom.public_id(root), None);
    assert!(dom.xml_declaration(doc).is_none());
    let decl = XmlDecl::new("1.0", Some("UTF-8"), Some(true));
    assert_eq!(dom.set_xml_declaration(root, decl.clone()), Err(Error::InvalidState));
    assert_eq!(dom.set_xml_declaration(doc, decl), Ok(()));
    let got = dom.xml_declaration(doc).unwrap();
    assert_eq!(got.version(), &"1.0".to_string());
    assert_eq!(got.encoding(), &Some("UTF-8".to_string()));
    assert_eq!(got.standalone(), Some(true));
    assert!(dom.is_supported(root, "XML", "1.0"));
    assert!(!dom.is_supported(root, "XML", "1.1"));
}
