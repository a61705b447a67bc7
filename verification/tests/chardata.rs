use xml_dom::dom::Dom;
use xml_dom::error::Error;
use xml_dom::node::NodeType;

fn text(data: &str) -> (Dom, usize, usize, usize) {
    let mut dom = Dom::new();
    let doc = dom.create_document("http://example.org/ns", "root", None).unwrap();
    let root = dom.document_element(doc).unwrap();
    let t = dom.create_text_node(doc, data).unwrap();
    (dom, doc, root, t)
}

#[test]
fn substring_clamps_count() {
    let (dom, _, _, t) = text("hello");
    assert_eq!(dom.substring(t, 1, 3), Ok("ell".to_string()));
    assert_eq!(dom.substring(t, 1, 100), Ok("ello".to_string()));
    assert_eq!(dom.substring(t, 0, 0), Ok(String::new()));
    assert_eq!(dom.substring(t, 4, usize::MAX), Ok("o".to_string()));
    assert_eq!(dom.substring(t, 5, 1), Err(Error::IndexSize));
    assert_eq!(dom.substring(t, 6, 0), Err(Error::IndexSize));
}

#[test]
fn substring_without_value_is_out_of_range() {
    let (mut dom, doc, _, _) = text("x");
    let e = dom.create_element(doc, "e").unwrap();
    assert_eq!(dom.node_value(e), None);
    assert_eq!(dom.substring(e, 0, 1), Err(Error::IndexSize));
    assert_eq!(dom.length(e), 0);
}

#[test]
fn offsets_count_characters() {
    let (mut dom, _, _, t) = text("a\u{e9}\u{4e2d}z");
    assert_eq!(dom.length(t), 4);
    assert_eq!(dom.substring(t, 1, 2), Ok("\u{e9}\u{4e2d}".to_string()));
    assert_eq!(dom.replace(t, 2, 1, "--"), Ok(()));
    assert_eq!(dom.node_value(t), Some("a\u{e9}--z".to_string()));
}

#[test]
fn append_concatenates() {
    let (mut dom, doc, _, t) = text("ab");
    assert_eq!(dom.append(t, "cd"), Ok(()));
    assert_eq!(dom.node_value(t), Some("abcd".to_string()));
    assert_eq!(dom.append(t, ""), Ok(()));
    assert_eq!(dom.node_value(t), Some("abcd".to_string()));
    let e = dom.create_element(doc, "e").unwrap();
    assert_eq!(dom.append(e, ""), Ok(()));
    assert_eq!(dom.node_value(e), None);
    assert_eq!(dom.append(e, "x"), Ok(()));
    assert_eq!(dom.node_value(e), Some("x".to_string()));
}

#[test]
fn insert_and_delete() {
    let (mut dom, _, _, t) = text("hello");
    assert_eq!(dom.insert(t, 2, "XY"), Ok(()));
    assert_eq!(dom.node_value(t), Some("heXYllo".to_string()));
    assert_eq!(dom.insert(t, 7, "!"), Ok(()));
    assert_eq!(dom.node_value(t), Some("heXYllo!".to_string()));
    assert_eq!(dom.insert(t, 9, "?"), Err(Error::IndexSize));
    assert_eq!(dom.insert(t, 100, ""), Ok(()));
    assert_eq!(dom.delete(t, 2, 2), Ok(()));
    assert_eq!(dom.node_value(t), Some("hello!".to_string()));
    assert_eq!(dom.delete(t, 100, 0), Ok(()));
    assert_eq!(dom.delete(t, 100, 1), Err(Error::IndexSize));
    assert_eq!(dom.delete(t, 4, 100), Ok(()));
    assert_eq!(dom.node_value(t), Some("hell".to_string()));
}

#[test]
fn replace_splices() {
    let (mut dom, doc, _, t) = text("hello");
    assert_eq!(dom.replace(t, 1, 3, "ipp"), Ok(()));
    assert_eq!(dom.node_value(t), Some("hippo".to_string()));
    assert_eq!(dom.replace(t, 3, usize::MAX, "s"), Ok(()));
    assert_eq!(dom.node_value(t), Some("hips".to_string()));
    assert_eq!(dom.replace(t, 5, 0, "x"), Err(Error::IndexSize));
    assert_eq!(dom.node_value(t), Some("hips".to_string()));
    let e = dom.create_element(doc, "e").unwrap();
    assert_eq!(dom.replace(e, 0, 1, "x"), Err(Error::IndexSize));
    assert_eq!(dom.replace(e, 1, 0, "x"), Err(Error::IndexSize));
    assert_eq!(dom.node_value(e), None);
    assert_eq!(dom.replace(e, 0, 0, "x"), Ok(()));
    assert_eq!(dom.node_value(e), Some("x".to_string()));
}

#[test]
fn set_and_unset_node_value() {
    let (mut dom, _, _, t) = text("hello");
    assert_eq!(dom.set_node_value(t, "bye"), Ok(()));
    assert_eq!(dom.node_value(t), Some("bye".to_string()));
    assert_eq!(dom.unset_node_value(t), Ok(()));
    assert_eq!(dom.node_value(t), None);
}

#[test]
fn split_moves_the_tail_to_a_new_sibling() {
    let (mut dom, doc, root, t) = text("hello");
    let after = dom.create_comment(doc, "c").unwrap();
    dom.append_child(root, t).unwrap();
    dom.append_child(root, after).unwrap();
    let s = dom.split(t, 2).unwrap();
    assert_eq!(dom.node_value(t), Some("he".to_string()));
    assert_eq!(dom.node_value(s), Some("llo".to_string()));
    assert_eq!(dom.node_type(s), NodeType::Text);
    assert_eq!(dom.child_nodes(root), vec![t, s, after]);
    assert_eq!(dom.parent_node(s), Some(root));
    assert_eq!(dom.owner_document(s), Some(doc));
}

#[test]
fn split_past_the_end_makes_an_empty_sibling() {
    let (mut dom, _, root, t) = text("hello");
    dom.append_child(root, t).unwrap();
    let s = dom.split(t, 5).unwrap();
    assert_eq!(dom.node_value(t), Some("hello".to_string()));
    assert_eq!(dom.node_value(s), Some(String::new()));
    assert_eq!(dom.child_nodes(root), vec![t, s]);
    let s2 = dom.split(t, 99).unwrap();
    assert_eq!(dom.node_value(t), Some("hello".to_string()));
    assert_eq!(dom.node_value(s2), Some(String::new()));
    assert_eq!(dom.child_nodes(root), vec![t, s2, s]);
}

#[test]
fn split_of_a_detached_node_leaves_the_sibling_detached() {
    let (mut dom, doc, _, _) = text("x");
    let c = dom.create_cdata_section(doc, "abcd").unwrap();
    let s = dom.split(c, 1).unwrap();
    assert_eq!(dom.node_type(s), NodeType::CData);
    assert_eq!(dom.node_value(c), Some("a".to_string()));
    assert_eq!(dom.node_value(s), Some("bcd".to_string()));
    assert_eq!(dom.parent_node(s), None);
}

#[test]
fn split_of_another_kind_is_an_invalid_state() {
    let (mut dom, doc, _, _) = text("x");
    let c = dom.create_comment(doc, "abcd").unwrap();
    let n = dom.len();
    assert_eq!(dom.split(c, 1), Err(Error::InvalidState));
    assert_eq!(dom.node_value(c), Some("abcd".to_string()));
    assert_eq!(dom.len(), n);
}
