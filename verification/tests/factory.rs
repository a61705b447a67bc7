use xml_dom::dom::Dom;
use xml_dom::error::Error;
use xml_dom::node::NodeType;

#[test]
fn create_document_makes_document_and_element() {
    let mut dom = Dom::new();
    let doc = dom.create_document("http://example.org/ns", "ex:root", None).unwrap();
    assert_eq!(doc, 0);
    assert_eq!(dom.len(), 2);
    assert_eq!(dom.node_type(doc), NodeType::Document);
    assert_eq!(dom.node_type(1), NodeType::Element);
    assert_eq!(dom.parent_node(1), Some(doc));
    assert_eq!(dom.owner_document(1), Some(doc));
    assert_eq!(dom.name(1).to_string(), "ex:root".to_string());
}

#[test]
fn create_processing_instruction_rejects_reserved_target() {
    let mut dom = Dom::new();
    let doc = dom.create_document("http://example.org/ns", "root", None).unwrap();
    assert_eq!(dom.create_processing_instruction(doc, "xMl", None), Err(Error::Syntax));
    assert_eq!(dom.create_processing_instruction(doc, "xml", Some("a")), Err(Error::Syntax));
    let pi = dom.create_processing_instruction(doc, "xml-stylesheet", Some("a")).unwrap();
    assert_eq!(dom.node_type(pi), NodeType::ProcessingInstruction);
    assert_eq!(dom.node_value(pi), Some("a".to_string()));
}
