use xml_dom::dom::Dom;
use xml_dom::node::NodeType;

fn setup() -> (Dom, usize, usize) {
    let mut dom = Dom::new();
    let doc = dom.create_document("http://example.org/ns", "root", None).unwrap();
    let root = dom.document_element(doc).unwrap();
    (dom, doc, root)
}

fn same_shape(dom: &Dom, a: usize, b: usize) -> bool {
    let ca = dom.child_nodes(a);
    let cb = dom.child_nodes(b);
    dom.node_type(a) == dom.node_type(b)
        && dom.name(a).to_string() == dom.name(b).to_string()
        && dom.node_value(a) == dom.node_value(b)
        && ca.len() == cb.len()
        && ca.iter().zip(cb.iter()).all(|(x, y)| x != y && same_shape(dom, *x, *y))
}

#[test]
fn shallow_clone_copies_the_node_alone() {
    let (mut dom, doc, root) = setup();
    let a = dom.create_element(doc, "a").unwrap();
    let t = dom.create_text_node(doc, "t").unwrap();
    dom.append_child(root, a).unwrap();
    dom.append_child(a, t).unwrap();
    dom.set_attribute(a, "k", "v").unwrap();
    let n = dom.len();
    let c = dom.clone_node(a, false).unwrap();
    assert_eq!(c, n);
    assert_eq!(dom.len(), n + 1);
    assert_eq!(dom.node_type(c), NodeType::Element);
    assert_eq!(dom.name(c).to_string(), "a".to_string());
    assert_eq!(dom.child_nodes(c), Vec::<usize>::new());
    assert_eq!(dom.parent_node(c), None);
    assert_eq!(dom.owner_document(c), Some(doc));
    assert!(!dom.has_attributes(c));
    assert_eq!(dom.child_nodes(a), vec![t]);
    let ct = dom.clone_node(t, false).unwrap();
    assert_eq!(dom.node_value(ct), Some("t".to_string()));
    assert_eq!(dom.node_type(ct), NodeType::Text);
}

#[test]
fn deep_clone_copies_the_tree_into_new_nodes() {
    let (mut dom, doc, root) = setup();
    let a = dom.create_element(doc, "a").unwrap();
    let b = dom.create_element(doc, "b").unwrap();
    let t = dom.create_text_node(doc, "t").unwrap();
    let k = dom.create_comment(doc, "k").unwrap();
    let u = dom.create_text_node(doc, "u").unwrap();
    dom.append_child(root, a).unwrap();
    dom.append_child(a, b).unwrap();
    dom.append_child(a, k).unwrap();
    dom.append_child(b, t).unwrap();
    dom.append_child(b, u).unwrap();
    let n = dom.len();
    let c = dom.clone_node(a, true).unwrap();
    assert_eq!(c, n);
    assert_eq!(dom.len(), n + 5);
    assert!(same_shape(&dom, a, c));
    assert_eq!(dom.parent_node(c), None);
    let cc = dom.child_nodes(c);
    assert_eq!(cc.len(), 2);
    assert_eq!(dom.parent_node(cc[0]), Some(c));
    assert_eq!(dom.owner_document(cc[0]), Some(doc));
    assert_eq!(dom.subtree_nodes(c), vec![n, n + 1, n + 2, n + 3, n + 4]);
    assert_eq!(dom.subtree_nodes(a), vec![a, b, t, u, k]);
    assert_eq!(dom.child_nodes(root), vec![a]);
    assert_eq!(dom.append_child(root, c), Ok(c));
    assert_eq!(dom.child_nodes(root), vec![a, c]);
    dom.set_node_value(t, "changed").unwrap();
    let ct = dom.child_nodes(cc[0])[0];
    assert_eq!(dom.node_value(ct), Some("t".to_string()));
}

#[test]
fn deep_clone_of_a_document_owns_its_children() {
    let (mut dom, doc, root) = setup();
    let k = dom.create_comment(doc, "k").unwrap();
    dom.append_child(doc, k).unwrap();
    let c = dom.clone_node(doc, true).unwrap();
    assert_eq!(dom.node_type(c), NodeType::Document);
    assert_eq!(dom.owner_document(c), None);
    assert_eq!(dom.document_element(c), None);
    let cc = dom.child_nodes(c);
    assert_eq!(cc.len(), 1);
    assert_eq!(dom.owner_document(cc[0]), Some(c));
    assert_eq!(dom.node_value(cc[0]), Some("k".to_string()));
    assert_eq!(dom.document_element(doc), Some(root));
}
