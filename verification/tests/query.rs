use xml_dom::dom::Dom;
use xml_dom::matcher::{namespaced_name_match, tag_name_match};
use xml_dom::node::{is_child_allowed, NodeType};

fn s(x: &str) -> String {
    x.to_string()
}

#[test]
fn tag_name_match_knows_the_wild_card() {
    assert!(tag_name_match(&s("a"), &s("a")));
    assert!(!tag_name_match(&s("a"), &s("b")));
    assert!(tag_name_match(&s("*"), &s("b")));
    assert!(tag_name_match(&s("a"), &s("*")));
    assert!(tag_name_match(&s("*"), &s("*")));
    assert!(!tag_name_match(&s("a"), &s("A")));
    assert!(!tag_name_match(&s("**"), &s("a")));
}

#[test]
fn namespaced_name_match_without_test_namespace_needs_wild_namespace() {
    assert!(namespaced_name_match(&None, &s("a"), &s("*"), &s("a")));
    assert!(namespaced_name_match(&None, &s("a"), &s("*"), &s("*")));
    assert!(!namespaced_name_match(&None, &s("a"), &s("urn:x"), &s("a")));
    assert!(!namespaced_name_match(&None, &s("a"), &s("*"), &s("b")));
}

#[test]
fn namespaced_name_match_with_test_namespace() {
    let ns = Some(s("urn:x"));
    assert!(namespaced_name_match(&ns, &s("a"), &s("urn:x"), &s("a")));
    assert!(namespaced_name_match(&ns, &s("a"), &s("*"), &s("a")));
    assert!(namespaced_name_match(&ns, &s("a"), &s("urn:x"), &s("*")));
    assert!(namespaced_name_match(&Some(s("*")), &s("a"), &s("urn:y"), &s("a")));
    assert!(!namespaced_name_match(&ns, &s("a"), &s("urn:y"), &s("a")));
    assert!(!namespaced_name_match(&ns, &s("a"), &s("urn:x"), &s("b")));
    assert!(namespaced_name_match(&ns, &s("*"), &s("urn:x"), &s("b")));
}

#[test]
fn is_child_allowed_follows_the_table() {
    let all = [
        NodeType::Element,
        NodeType::Attribute,
        NodeType::Text,
        NodeType::CData,
        NodeType::EntityReference,
        NodeType::Entity,
        NodeType::ProcessingInstruction,
        NodeType::Comment,
        NodeType::Document,
        NodeType::DocumentType,
        NodeType::DocumentFragment,
        NodeType::Notation,
    ];
    let content = [
        NodeType::Element,
        NodeType::Text,
        NodeType::Comment,
        NodeType::ProcessingInstruction,
        NodeType::CData,
        NodeType::EntityReference,
    ];
    for parent in all {
        for child in all {
            let expected = match parent {
                NodeType::Document => {
                    child == NodeType::Comment || child == NodeType::ProcessingInstruction
                }
                NodeType::DocumentFragment
                | NodeType::Element
                | NodeType::EntityReference
                | NodeType::Entity => content.contains(&child),
                NodeType::Attribute => {
                    child == NodeType::Text || child == NodeType::EntityReference
                }
                _ => false,
            };
            assert_eq!(is_child_allowed(parent, child), expected);
        }
    }
}

fn tree() -> (Dom, usize, Vec<usize>) {
    // root(a(b, #text, c(a)), ref(a), #comment)
    let mut dom = Dom::new();
    let doc = dom.create_document("urn:r", "root", None).unwrap();
    let root = dom.document_element(doc).unwrap();
    let a1 = dom.create_element(doc, "a").unwrap();
    let b = dom.create_element_ns(doc, "urn:x", "x:b").unwrap();
    let t = dom.create_text_node(doc, "t").unwrap();
    let c = dom.create_element_ns(doc, "urn:y", "c").unwrap();
    let a2 = dom.create_element_ns(doc, "urn:x", "x:a").unwrap();
    let r = dom.create_entity_reference(doc, "ent").unwrap();
    let a3 = dom.create_element(doc, "a").unwrap();
    let k = dom.create_comment(doc, "k").unwrap();
    dom.append_child(root, a1).unwrap();
    dom.append_child(root, r).unwrap();
    dom.append_child(root, k).unwrap();
    dom.append_child(a1, b).unwrap();
    dom.append_child(a1, t).unwrap();
    dom.append_child(a1, c).unwrap();
    dom.append_child(c, a2).unwrap();
    dom.append_child(r, a3).unwrap();
    (dom, doc, vec![root, a1, b, t, c, a2, r, a3, k])
}

#[test]
fn subtree_nodes_are_in_document_order() {
    let (dom, _, n) = tree();
    assert_eq!(dom.subtree_nodes(n[0]), n);
    assert_eq!(dom.subtree_nodes(n[1]), vec![n[1], n[2], n[3], n[4], n[5]]);
    assert_eq!(dom.subtree_nodes(n[3]), vec![n[3]]);
}

#[test]
fn wild_card_returns_every_element_in_document_order() {
    let (dom, doc, n) = tree();
    assert_eq!(dom.get_elements_by_tag_name(n[0], "*"), vec![n[0], n[1], n[2], n[4], n[5], n[7]]);
    assert_eq!(dom.get_elements_by_tag_name(doc, "*"), vec![n[0], n[1], n[2], n[4], n[5], n[7]]);
    assert_eq!(dom.get_elements_by_tag_name(n[4], "*"), vec![n[4], n[5]]);
    assert_eq!(dom.get_elements_by_tag_name(n[3], "*"), Vec::<usize>::new());
    assert_eq!(dom.get_elements_by_tag_name(n[6], "*"), vec![n[7]]);
}

#[test]
fn tag_name_query_goes_by_qualified_name() {
    let (dom, doc, n) = tree();
    assert_eq!(dom.get_elements_by_tag_name(doc, "a"), vec![n[1], n[7]]);
    assert_eq!(dom.get_elements_by_tag_name(doc, "x:a"), vec![n[5]]);
    assert_eq!(dom.get_elements_by_tag_name(doc, "root"), vec![n[0]]);
    assert_eq!(dom.get_elements_by_tag_name(n[1], "root"), Vec::<usize>::new());
    assert_eq!(dom.get_elements_by_tag_name(doc, "nothing"), Vec::<usize>::new());
}

#[test]
fn namespaced_query() {
    let (dom, doc, n) = tree();
    assert_eq!(dom.get_elements_by_tag_name_ns(doc, "urn:x", "*"), vec![n[2], n[5]]);
    assert_eq!(dom.get_elements_by_tag_name_ns(doc, "urn:x", "a"), vec![n[5]]);
    assert_eq!(dom.get_elements_by_tag_name_ns(doc, "urn:y", "c"), vec![n[4]]);
    assert_eq!(dom.get_elements_by_tag_name_ns(doc, "urn:z", "c"), Vec::<usize>::new());
    assert_eq!(
        dom.get_elements_by_tag_name_ns(doc, "*", "*"),
        vec![n[0], n[1], n[2], n[4], n[5], n[7]]
    );
    assert_eq!(dom.get_elements_by_tag_name_ns(doc, "*", "a"), vec![n[1], n[5], n[7]]);
    assert_eq!(dom.get_elements_by_tag_name_ns(n[1], "urn:r", "root"), Vec::<usize>::new());
    assert_eq!(dom.get_elements_by_tag_name_ns(doc, "urn:r", "root"), vec![n[0]]);
}
