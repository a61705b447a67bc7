use xml_dom::dom::Dom;

fn setup() -> (Dom, usize, usize) {
    let mut dom = Dom::new();
    let doc = dom.create_document("http://example.org/ns", "root", None).unwrap();
    let root = dom.document_element(doc).unwrap();
    (dom, doc, root)
}

#[test]
fn normalize_merges_text_and_drops_empty_text() {
    let (mut dom, doc, root) = setup();
    let e = dom.create_text_node(doc, "").unwrap();
    let a = dom.create_text_node(doc, "a").unwrap();
    let b = dom.create_text_node(doc, "b").unwrap();
    let x = dom.create_comment(doc, "x").unwrap();
    for n in [e, a, b, x] {
        dom.append_child(root, n).unwrap();
    }
    dom.normalize(root);
    assert_eq!(dom.child_nodes(root), vec![a, x]);
    assert_eq!(dom.node_value(a), Some("ab".to_string()));
    assert_eq!(dom.node_value(x), Some("x".to_string()));
    assert_eq!(dom.parent_node(e), None);
    assert_eq!(dom.parent_node(b), None);
    assert_eq!(dom.node_value(b), Some("b".to_string()));
}

#[test]
fn normalize_merges_across_an_empty_text() {
    let (mut dom, doc, root) = setup();
    let a = dom.create_text_node(doc, "a").unwrap();
    let e = dom.create_text_node(doc, "").unwrap();
    let b = dom.create_text_node(doc, "b").unwrap();
    let c = dom.create_text_node(doc, "c").unwrap();
    for n in [a, e, b, c] {
        dom.append_child(root, n).unwrap();
    }
    dom.normalize(root);
    assert_eq!(dom.child_nodes(root), vec![a]);
    assert_eq!(dom.node_value(a), Some("abc".to_string()));
}

#[test]
fn normalize_keeps_text_that_other_nodes_separate() {
    let (mut dom, doc, root) = setup();
    let a = dom.create_text_node(doc, "a").unwrap();
    let el = dom.create_element(doc, "e").unwrap();
    let b = dom.create_text_node(doc, "b").unwrap();
    let cd = dom.create_cdata_section(doc, "cd").unwrap();
    let c = dom.create_text_node(doc, "c").unwrap();
    let inner1 = dom.create_text_node(doc, "x").unwrap();
    let inner2 = dom.create_text_node(doc, "y").unwrap();
    for n in [a, el, b, cd, c] {
        dom.append_child(root, n).unwrap();
    }
    dom.append_child(el, inner1).unwrap();
    dom.append_child(el, inner2).unwrap();
    dom.normalize(root);
    assert_eq!(dom.child_nodes(root), vec![a, el, b, cd, c]);
    assert_eq!(dom.child_nodes(el), vec![inner1, inner2]);
    assert_eq!(dom.node_value(inner1), Some("x".to_string()));
}

#[test]
fn normalize_counts_a_text_node_without_value_as_empty() {
    let (mut dom, doc, root) = setup();
    let a = dom.create_text_node(doc, "a").unwrap();
    dom.unset_node_value(a).unwrap();
    dom.append_child(root, a).unwrap();
    dom.normalize(root);
    assert_eq!(dom.child_nodes(root), Vec::<usize>::new());
    dom.normalize(root);
    assert_eq!(dom.child_nodes(root), Vec::<usize>::new());
}
