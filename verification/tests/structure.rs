use xml_dom::dom::Dom;
use xml_dom::error::Error;
use xml_dom::node::NodeType;

fn setup() -> (Dom, usize, usize) {
    let mut dom = Dom::new();
    let doc = dom.create_document("http://example.org/ns", "root", None).unwrap();
    let root = dom.document_element(doc).unwrap();
    (dom, doc, root)
}

#[test]
fn append_child_sets_parent_and_order() {
    let (mut dom, doc, root) = setup();
    let a = dom.create_element(doc, "a").unwrap();
    let b = dom.create_element(doc, "b").unwrap();
    assert_eq!(dom.append_child(root, a), Ok(a));
    assert_eq!(dom.append_child(root, b), Ok(b));
    assert_eq!(dom.child_nodes(root), vec![a, b]);
    assert_eq!(dom.parent_node(a), Some(root));
    assert_eq!(dom.first_child(root), Some(a));
    assert_eq!(dom.last_child(root), Some(b));
    assert_eq!(dom.next_sibling(a), Some(b));
    assert_eq!(dom.previous_sibling(b), Some(a));
    assert_eq!(dom.previous_sibling(a), None);
    assert_eq!(dom.next_sibling(b), None);
    assert!(dom.has_child_nodes(root));
    assert!(!dom.has_child_nodes(a));
}

#[test]
fn insert_before_moves_a_node_between_parents() {
    let (mut dom, doc, root) = setup();
    let a = dom.create_element(doc, "a").unwrap();
    let b = dom.create_element(doc, "b").unwrap();
    let c = dom.create_text_node(doc, "c").unwrap();
    dom.append_child(root, a).unwrap();
    dom.append_child(root, b).unwrap();
    dom.append_child(a, c).unwrap();
    assert_eq!(dom.child_nodes(a), vec![c]);
    assert_eq!(dom.insert_before(root, c, Some(b)), Ok(c));
    assert_eq!(dom.child_nodes(a), Vec::<usize>::new());
    assert_eq!(dom.child_nodes(root), vec![a, c, b]);
    assert_eq!(dom.parent_node(c), Some(root));
}

#[test]
fn insert_before_within_one_parent_lands_before_the_reference() {
    let (mut dom, doc, root) = setup();
    let a = dom.create_element(doc, "a").unwrap();
    let b = dom.create_element(doc, "b").unwrap();
    let c = dom.create_element(doc, "c").unwrap();
    dom.append_child(root, a).unwrap();
    dom.append_child(root, b).unwrap();
    dom.append_child(root, c).unwrap();
    assert_eq!(dom.insert_before(root, a, Some(c)), Ok(a));
    assert_eq!(dom.child_nodes(root), vec![b, a, c]);
    assert_eq!(dom.insert_before(root, c, Some(b)), Ok(c));
    assert_eq!(dom.child_nodes(root), vec![c, b, a]);
    assert_eq!(dom.insert_before(root, b, Some(b)), Ok(b));
    assert_eq!(dom.child_nodes(root), vec![c, b, a]);
    assert_eq!(dom.append_child(root, c), Ok(c));
    assert_eq!(dom.child_nodes(root), vec![b, a, c]);
}

#[test]
fn insert_before_rejects_disallowed_types() {
    let (mut dom, doc, root) = setup();
    let text = dom.create_text_node(doc, "t").unwrap();
    let el = dom.create_element(doc, "a").unwrap();
    let attr = dom.create_attribute(doc, "k").unwrap();
    let frag = dom.create_document_fragment(doc).unwrap();
    assert_eq!(dom.append_child(text, el), Err(Error::HierarchyRequest));
    assert_eq!(dom.append_child(root, attr), Err(Error::HierarchyRequest));
    assert_eq!(dom.append_child(doc, el), Err(Error::HierarchyRequest));
    assert_eq!(dom.append_child(root, frag), Err(Error::HierarchyRequest));
    assert_eq!(dom.append_child(attr, el), Err(Error::HierarchyRequest));
    assert_eq!(dom.append_child(attr, text), Ok(text));
    assert_eq!(dom.child_nodes(root), Vec::<usize>::new());
    assert_eq!(dom.parent_node(el), None);
    let comment = dom.create_comment(doc, "c").unwrap();
    assert_eq!(dom.append_child(doc, comment), Ok(comment));
    assert_eq!(dom.child_nodes(doc), vec![comment]);
}

#[test]
fn insert_before_rejects_a_node_below_itself() {
    let (mut dom, doc, root) = setup();
    let a = dom.create_element(doc, "a").unwrap();
    let b = dom.create_element(doc, "b").unwrap();
    dom.append_child(root, a).unwrap();
    dom.append_child(a, b).unwrap();
    assert_eq!(dom.append_child(b, a), Err(Error::HierarchyRequest));
    assert_eq!(dom.append_child(a, a), Err(Error::HierarchyRequest));
    assert_eq!(dom.replace_child(a, a, b), Err(Error::HierarchyRequest));
    assert_eq!(dom.replace_child(a, root, b), Err(Error::NotFound));
    assert_eq!(dom.append_child(b, root), Err(Error::NotFound));
    assert_eq!(dom.child_nodes(root), vec![a]);
    assert_eq!(dom.child_nodes(a), vec![b]);
    assert!(dom.is_ancestor_or_self(root, b));
    assert!(!dom.is_ancestor_or_self(b, root));
}

#[test]
fn missing_reference_comes_before_a_node_below_itself() {
    let (mut dom, doc, root) = setup();
    let e = dom.create_element(doc, "e").unwrap();
    let x = dom.create_element(doc, "x").unwrap();
    let inner = dom.create_element(doc, "inner").unwrap();
    dom.append_child(root, e).unwrap();
    dom.append_child(e, inner).unwrap();
    assert_eq!(dom.insert_before(e, e, Some(x)), Err(Error::NotFound));
    assert_eq!(dom.insert_before(inner, e, Some(x)), Err(Error::NotFound));
    assert_eq!(dom.insert_before(inner, root, Some(x)), Err(Error::NotFound));
    assert_eq!(dom.insert_before(e, e, Some(inner)), Err(Error::HierarchyRequest));
    assert_eq!(dom.insert_before(e, e, None), Err(Error::HierarchyRequest));
    assert_eq!(dom.child_nodes(root), vec![e]);
    assert_eq!(dom.child_nodes(e), vec![inner]);
    assert_eq!(dom.parent_node(e), Some(root));
}

#[test]
fn other_document_comes_before_a_node_below_itself() {
    let (mut dom, _, root) = setup();
    let other = dom.create_document("http://example.org/other", "other", None).unwrap();
    let foreign = dom.create_element(other, "x").unwrap();
    let inner = dom.create_element(other, "y").unwrap();
    dom.append_child(foreign, inner).unwrap();
    assert_eq!(dom.append_child(root, foreign), Err(Error::WrongDocument));
    assert_eq!(dom.append_child(inner, foreign), Err(Error::HierarchyRequest));
    assert_eq!(dom.child_nodes(foreign), vec![inner]);
}

#[test]
fn insert_before_rejects_missing_reference() {
    let (mut dom, doc, root) = setup();
    let a = dom.create_element(doc, "a").unwrap();
    let b = dom.create_element(doc, "b").unwrap();
    assert_eq!(dom.insert_before(root, a, Some(b)), Err(Error::NotFound));
    assert_eq!(dom.child_nodes(root), Vec::<usize>::new());
    assert_eq!(dom.parent_node(a), None);
}

#[test]
fn insert_before_rejects_other_document() {
    let (mut dom, doc, root) = setup();
    let other = dom.create_document("http://example.org/other", "other", None).unwrap();
    let foreign = dom.create_element(other, "x").unwrap();
    assert_eq!(dom.append_child(root, foreign), Err(Error::WrongDocument));
    assert_eq!(dom.child_nodes(root), Vec::<usize>::new());
    let own = dom.create_element(doc, "x").unwrap();
    assert_eq!(dom.append_child(root, own), Ok(own));
}

#[test]
fn insert_before_cannot_detach_a_document_element() {
    let (mut dom, doc, root) = setup();
    let a = dom.create_element(doc, "a").unwrap();
    assert_eq!(dom.parent_node(root), Some(doc));
    assert_eq!(dom.append_child(a, root), Err(Error::NotFound));
    assert_eq!(dom.parent_node(root), Some(doc));
}

#[test]
fn remove_child_detaches() {
    let (mut dom, doc, root) = setup();
    let a = dom.create_element(doc, "a").unwrap();
    let b = dom.create_element(doc, "b").unwrap();
    dom.append_child(root, a).unwrap();
    dom.append_child(root, b).unwrap();
    assert_eq!(dom.remove_child(root, a), Ok(a));
    assert_eq!(dom.child_nodes(root), vec![b]);
    assert_eq!(dom.parent_node(a), None);
    assert_eq!(dom.remove_child(root, a), Err(Error::NotFound));
    assert_eq!(dom.append_child(b, a), Ok(a));
    assert_eq!(dom.parent_node(a), Some(b));
}

#[test]
fn replace_child_puts_new_in_place_of_old() {
    let (mut dom, doc, root) = setup();
    let a = dom.create_element(doc, "a").unwrap();
    let b = dom.create_element(doc, "b").unwrap();
    let c = dom.create_element(doc, "c").unwrap();
    let n = dom.create_element(doc, "n").unwrap();
    dom.append_child(root, a).unwrap();
    dom.append_child(root, b).unwrap();
    dom.append_child(root, c).unwrap();
    assert_eq!(dom.replace_child(root, n, b), Ok(b));
    assert_eq!(dom.child_nodes(root), vec![a, n, c]);
    assert_eq!(dom.parent_node(b), None);
    assert_eq!(dom.parent_node(n), Some(root));
    assert_eq!(dom.replace_child(root, a, c), Ok(c));
    assert_eq!(dom.child_nodes(root), vec![n, a]);
    assert_eq!(dom.replace_child(root, n, n), Ok(n));
    assert_eq!(dom.child_nodes(root), vec![n, a]);
    assert_eq!(dom.replace_child(root, a, n), Ok(n));
    assert_eq!(dom.child_nodes(root), vec![a]);
}

#[test]
fn replace_child_without_old_child_is_not_found() {
    let (mut dom, doc, root) = setup();
    let a = dom.create_element(doc, "a").unwrap();
    let b = dom.create_element(doc, "b").unwrap();
    let attr = dom.create_attribute(doc, "k").unwrap();
    dom.append_child(root, a).unwrap();
    assert_eq!(dom.replace_child(root, b, b), Err(Error::NotFound));
    assert_eq!(dom.replace_child(root, attr, b), Err(Error::NotFound));
    assert_eq!(dom.child_nodes(root), vec![a]);
    assert_eq!(dom.replace_child(root, attr, a), Err(Error::HierarchyRequest));
    assert_eq!(dom.child_nodes(root), vec![a]);
    assert_eq!(dom.parent_node(a), Some(root));
    assert_eq!(dom.node_type(a), NodeType::Element);
}
