use xml_dom::dom::Dom;
use xml_dom::error::Error;

fn setup() -> (Dom, usize, usize) {
    let mut dom = Dom::new();
    let doc = dom.create_document("http://example.org/ns", "root", None).unwrap();
    let root = dom.document_element(doc).unwrap();
    (dom, doc, root)
}

#[test]
fn set_attribute_then_get_attribute() {
    let (mut dom, _, root) = setup();
    assert_eq!(dom.get_attribute(root, "k"), None);
    assert!(!dom.has_attribute(root, "k"));
    assert!(!dom.has_attributes(root));
    assert_eq!(dom.set_attribute(root, "k", "v"), Ok(()));
    assert_eq!(dom.get_attribute(root, "k"), Some("v".to_string()));
    assert!(dom.has_attribute(root, "k"));
    assert!(dom.has_attributes(root));
    assert_eq!(dom.set_attribute(root, "p:k", "w"), Ok(()));
    assert_eq!(dom.get_attribute(root, "p:k"), Some("w".to_string()));
    assert_eq!(dom.get_attribute(root, "k"), Some("v".to_string()));
    assert_eq!(dom.attributes(root).len(), 2);
}

#[test]
fn set_attribute_replaces_in_place() {
    let (mut dom, _, root) = setup();
    dom.set_attribute(root, "a", "1").unwrap();
    dom.set_attribute(root, "b", "2").unwrap();
    let first = dom.attributes(root);
    dom.set_attribute(root, "a", "3").unwrap();
    let second = dom.attributes(root);
    assert_eq!(second.len(), 2);
    assert_ne!(second[0], first[0]);
    assert_eq!(second[1], first[1]);
    assert_eq!(dom.get_attribute(root, "a"), Some("3".to_string()));
    assert_eq!(dom.get_attribute_node(root, "a"), Some(second[0]));
    assert_eq!(dom.parent_node(second[0]), None);
}

#[test]
fn malformed_names_are_rejected_or_not_found() {
    let (mut dom, _, root) = setup();
    let n = dom.len();
    assert_eq!(dom.set_attribute(root, "1bad", "v"), Err(Error::Syntax));
    assert_eq!(dom.set_attribute(root, "", "v"), Err(Error::Syntax));
    assert_eq!(dom.set_attribute(root, "a:b:c", "v"), Err(Error::Syntax));
    assert_eq!(dom.set_attribute(root, ":b", "v"), Err(Error::Syntax));
    assert_eq!(dom.set_attribute(root, "a:", "v"), Err(Error::Syntax));
    assert_eq!(dom.len(), n);
    assert_eq!(dom.get_attribute(root, "1bad"), None);
    assert!(!dom.has_attribute(root, "a b"));
    assert_eq!(dom.get_attribute_ns(root, "urn:x", "1bad"), None);
    assert!(!dom.has_attribute_ns(root, "urn:x", ""));
}

#[test]
fn attributes_of_a_node_that_is_no_element() {
    let (mut dom, doc, root) = setup();
    let t = dom.create_text_node(doc, "t").unwrap();
    let a = dom.create_attribute_with(doc, "k", "v").unwrap();
    let n = dom.len();
    assert_eq!(dom.set_attribute(t, "k", "v"), Err(Error::InvalidState));
    assert_eq!(dom.len(), n);
    assert_eq!(dom.set_attribute_node(t, a), Err(Error::InvalidState));
    assert_eq!(dom.set_attribute_node(root, t), Err(Error::InvalidState));
    assert_eq!(dom.remove_attribute_node(t, a), Err(Error::InvalidState));
    assert_eq!(dom.remove_attribute_node(root, t), Err(Error::InvalidState));
    assert_eq!(dom.get_attribute(t, "k"), None);
    assert!(!dom.has_attribute(t, "k"));
    assert_eq!(dom.attributes(t), Vec::<usize>::new());
    assert_eq!(dom.remove_attribute(t, "k"), Ok(()));
}

#[test]
fn duplicate_id_is_a_syntax_error() {
    let (mut dom, doc, root) = setup();
    let a = dom.create_element(doc, "a").unwrap();
    let b = dom.create_element(doc, "b").unwrap();
    dom.append_child(root, a).unwrap();
    dom.append_child(root, b).unwrap();
    assert_eq!(dom.get_element_by_id(doc, "x1"), None);
    assert_eq!(dom.set_attribute(a, "id", "x1"), Ok(()));
    let n = dom.len();
    assert_eq!(dom.set_attribute(b, "id", "x1"), Err(Error::Syntax));
    assert_eq!(dom.len(), n);
    assert_eq!(dom.get_element_by_id(doc, "x1"), Some(a));
    assert_eq!(dom.get_attribute(b, "id"), None);
    assert!(!dom.has_attributes(b));
    assert_eq!(dom.set_attribute(b, "id", "x2"), Ok(()));
    assert_eq!(dom.get_element_by_id(doc, "x2"), Some(b));
    assert_eq!(dom.get_element_by_id(a, "x1"), None);
}

#[test]
fn ids_are_kept_per_document() {
    let (mut dom, doc, root) = setup();
    let other = dom.create_document("http://example.org/o", "o", None).unwrap();
    let other_root = dom.document_element(other).unwrap();
    assert_eq!(dom.set_attribute(root, "id", "same"), Ok(()));
    assert_eq!(dom.set_attribute(other_root, "id", "same"), Ok(()));
    assert_eq!(dom.get_element_by_id(doc, "same"), Some(root));
    assert_eq!(dom.get_element_by_id(other, "same"), Some(other_root));
}

#[test]
fn set_attribute_node_with_duplicate_id_changes_nothing() {
    let (mut dom, doc, root) = setup();
    let e = dom.create_element(doc, "e").unwrap();
    dom.set_attribute(root, "id", "x").unwrap();
    let attr = dom.create_attribute_with(doc, "xmlns:id", "x").unwrap();
    assert_eq!(dom.set_attribute_node(e, attr), Err(Error::Syntax));
    assert!(!dom.has_attributes(e));
    assert_eq!(dom.get_namespace(e, Some("id")), None);
    let free = dom.create_attribute_with(doc, "xmlns:id", "y").unwrap();
    assert_eq!(dom.set_attribute_node(e, free), Ok(free));
    assert_eq!(dom.get_namespace(e, Some("id")), Some("y".to_string()));
    assert_eq!(dom.get_element_by_id(doc, "y"), Some(e));
}

#[test]
fn an_id_attribute_without_value_registers_nothing() {
    let (mut dom, doc, root) = setup();
    let attr = dom.create_attribute(doc, "id").unwrap();
    assert_eq!(dom.set_attribute_node(root, attr), Ok(attr));
    assert_eq!(dom.get_attribute_node(root, "id"), Some(attr));
    assert_eq!(dom.get_attribute(root, "id"), None);
    assert_eq!(dom.get_element_by_id(doc, ""), None);
}

#[test]
fn namespace_declarations_are_registered() {
    let (mut dom, _, root) = setup();
    assert_eq!(dom.get_namespace(root, None), None);
    dom.set_attribute(root, "xmlns", "urn:default").unwrap();
    dom.set_attribute(root, "xmlns:a", "urn:a").unwrap();
    dom.set_attribute(root, "plain", "urn:no").unwrap();
    assert_eq!(dom.get_namespace(root, None), Some("urn:default".to_string()));
    assert_eq!(dom.get_namespace(root, Some("a")), Some("urn:a".to_string()));
    assert_eq!(dom.get_namespace(root, Some("plain")), None);
    dom.set_attribute(root, "xmlns:a", "urn:a2").unwrap();
    assert_eq!(dom.get_namespace(root, Some("a")), Some("urn:a2".to_string()));
    dom.remove_attribute(root, "xmlns:a").unwrap();
    assert_eq!(dom.get_attribute(root, "xmlns:a"), None);
    assert_eq!(dom.get_namespace(root, Some("a")), Some("urn:a2".to_string()));
}

#[test]
fn namespaced_lookup_goes_by_namespace_and_local_name() {
    let (mut dom, _, root) = setup();
    dom.set_attribute(root, "k", "plain").unwrap();
    dom.set_attribute_ns(root, "urn:a", "a:k", "first").unwrap();
    dom.set_attribute_ns(root, "urn:b", "b:k", "second").unwrap();
    assert_eq!(dom.get_attribute_ns(root, "urn:a", "k"), Some("first".to_string()));
    assert_eq!(dom.get_attribute_ns(root, "urn:b", "k"), Some("second".to_string()));
    assert_eq!(dom.get_attribute_ns(root, "urn:c", "k"), None);
    assert_eq!(dom.get_attribute_ns(root, "urn:a", "a:k"), None);
    assert!(dom.has_attribute_ns(root, "urn:a", "k"));
    assert!(!dom.has_attribute_ns(root, "urn:a", "j"));
    assert!(dom.has_attribute_ns(root, "urn:a", "a:k"));
    assert!(dom.has_attribute_ns(root, "urn:a", "other:k"));
    assert!(!dom.has_attribute_ns(root, "urn:a", "a:j"));
    assert!(!dom.has_attribute_ns(root, "urn:c", "a:k"));
    assert!(!dom.has_attribute_ns(root, "urn:a", "a:k:x"));
    assert_eq!(dom.get_attribute_node_ns(root, "urn:a", "a:k"), None);
    assert_eq!(dom.get_attribute(root, "a:k"), Some("first".to_string()));
    let node = dom.get_attribute_node_ns(root, "urn:b", "k").unwrap();
    assert_eq!(dom.name(node).to_string(), "b:k".to_string());
    assert_eq!(dom.remove_attribute_ns(root, "urn:a", "k"), Ok(()));
    assert_eq!(dom.get_attribute(root, "a:k"), None);
    assert_eq!(dom.attributes(root).len(), 2);
    assert_eq!(dom.remove_attribute_ns(root, "urn:a", "k"), Ok(()));
    assert_eq!(dom.attributes(root).len(), 2);
}

#[test]
fn remove_attribute_node_goes_by_name_and_keeps_the_id() {
    let (mut dom, doc, root) = setup();
    dom.set_attribute(root, "id", "x").unwrap();
    dom.set_attribute(root, "k", "v").unwrap();
    let id_attr = dom.get_attribute_node(root, "id").unwrap();
    assert_eq!(dom.remove_attribute_node(root, id_attr), Ok(id_attr));
    assert_eq!(dom.get_attribute(root, "id"), None);
    assert_eq!(dom.get_element_by_id(doc, "x"), Some(root));
    assert_eq!(dom.attributes(root).len(), 1);
    let stranger = dom.create_attribute_with(doc, "k", "other").unwrap();
    assert_eq!(dom.remove_attribute_node(root, stranger), Ok(stranger));
    assert!(!dom.has_attributes(root));
    assert_eq!(dom.remove_attribute(root, "k"), Ok(()));
}

#[test]
fn attribute_nodes_report_no_parent() {
    let (mut dom, _, root) = setup();
    dom.set_attribute(root, "k", "v").unwrap();
    let a = dom.get_attribute_node(root, "k").unwrap();
    assert_eq!(dom.parent_node(a), None);
    assert_eq!(dom.previous_sibling(a), None);
    assert_eq!(dom.next_sibling(a), None);
    assert_eq!(dom.child_nodes(root), Vec::<usize>::new());
}
