use vstd::prelude::*;
use crate::dom::Dom;
use crate::error::Error;
use crate::factory::fresh_node;
use crate::matcher::{tag_name_matches, wild_card};
use crate::model::DomView;
use crate::name::parse_name;
use crate::node::{child_allowed, ExtensionView, NodeId, NodeType};
use crate::seqs::{
    lemma_first_index, lemma_first_index_found, lemma_index_of, lemma_remove_no_duplicates,
};

verus! {

/// An attribute that has been set can be read back: where `set_attribute`
/// succeeds on an element, `get_attribute` for the same name then returns
/// the value that was set.
pub proof fn law_set_attribute_then_get(d: DomView, e: NodeId, name: Seq<char>, value: Seq<char>)
    requires
        d.inv(),
        d.contains(e),
        d.nodes.len() < usize::MAX,
        d.set_attribute(e, name, value) is Ok,
    ensures
        d.set_attribute(e, name, value)->Ok_0.get_attribute(e, name) == Some(value),
{
    let n = parse_name(name)->0;
    let q = n.qualified();
    let a = d.nodes.len() as NodeId;
    let d1 = d.with_new(fresh_node(NodeType::Attribute, n, Some(value), d.owner_document(e)));
    let d2 = d1.with_declaration(e, a);
    let d3 = d2.with_attribute(e, a);
    let v = d3.with_registration(e, a);
    assert(d.node_inv(e));
    assert(d1.node(e) == d.node(e));
    assert(d2.name(a) == n && d2.value(a) == Some(value));
    assert(d2.node(e).extension is Element);
    lemma_first_index_found(d2.attribute_names(e), q);
    match d2.attribute_names(e).index_of_first(q) {
        Some(i) => {
            assert(d3.attributes(e) == d2.attributes(e).update(i, a));
            assert(d3.attribute_names(e) =~= d2.attribute_names(e));
            assert(d3.attribute_named(e, q) == Some(a));
        },
        None => {
            let k = d2.attributes(e).len() as int;
            assert(d3.attributes(e) == d2.attributes(e).push(a));
            assert(d3.attribute_names(e) =~= d2.attribute_names(e).push(q));
            lemma_first_index(d3.attribute_names(e), q, k);
            assert(d3.attribute_named(e, q) == Some(a));
        },
    }
    assert(v.node(e) == d3.node(e));
    assert(v.node(a) == d3.node(a));
    assert(v.attribute_names(e) =~= d3.attribute_names(e));
}

/// Insertion moves, it does not copy: where `insert_before` succeeds, the
/// child's parent is the node it was inserted under, that node lists it,
/// and no other node does.
pub proof fn law_insert_before_moves(
    d: DomView,
    parent: NodeId,
    child: NodeId,
    ref_child: Option<NodeId>,
)
    requires
        d.inv(),
        d.contains(parent),
        d.contains(child),
        d.insert_before(parent, child, ref_child) is Ok,
    ensures
        d.insert_before(parent, child, ref_child)->Ok_0.parent_node(child) == Some(parent),
        d.insert_before(parent, child, ref_child)->Ok_0.is_child(parent, child),
        forall|x: NodeId|
            d.contains(x) && x != parent ==> !(#[trigger] d.insert_before(
                parent,
                child,
                ref_child,
            )->Ok_0.is_child(x, child)),
{
    let v = d.insert_before(parent, child, ref_child)->Ok_0;
    let d1 = d.detached(child);
    let pos = d.insert_position(parent, child, ref_child);
    assert(d.nth_ancestor(parent, 0) == Some(parent));
    assert(child != parent);
    assert(d.node_inv(child));
    assert(d1.nodes.len() == d.nodes.len());
    assert(d1.node_type(child) == d.node_type(child));
    assert(d1.node_type(parent) == d.node_type(parent));
    assert(0 <= pos <= d1.children(parent).len()) by {
        lemma_detached_children(d, parent, child);
        if ref_child is Some {
            let r = ref_child->0;
            if r == child {
                lemma_index_of(d.children(parent), child);
                assert(d.node_inv(parent));
                assert(d.child_edge_ok(parent, d.children(parent)[pos]));
                assert(d1.children(parent) == d.children(parent).remove(pos));
            } else {
                assert(d1.is_child(parent, r));
                lemma_index_of(d1.children(parent), r);
            }
        }
    }
    assert(v.children(parent) == d1.children(parent).insert(pos, child));
    assert(v.children(parent)[pos] == child);
    assert forall|x: NodeId| d.contains(x) && x != parent implies !(#[trigger] v.is_child(
        x,
        child,
    )) by {
        lemma_detached_children(d, x, child);
        assert(v.children(x) == d1.children(x));
    }
}

/// After a node has left its parent no child list holds it, and the other
/// lists are as they were.
proof fn lemma_detached_children(d: DomView, x: NodeId, child: NodeId)
    requires
        d.inv(),
        d.contains(x),
        d.contains(child),
        d.parent_link(child) is Some ==> d.is_child(d.parent_link(child)->0, child),
    ensures
        !d.detached(child).is_child(x, child),
        d.detached(child).children(x).len() <= d.children(x).len(),
        forall|y: NodeId|
            y != child ==> (d.detached(child).is_child(x, y) <==> d.is_child(x, y)),
{
    assert(d.node_inv(x));
    assert(d.node_inv(child));
    if d.is_child(x, child) {
        let i = d.children(x).index_of(child);
        assert(d.child_edge_ok(x, d.children(x)[i]));
        assert(d.parent_link(child) == Some(x));
        lemma_remove_no_duplicates(d.children(x), i);
        assert(d.detached(child).children(x) == d.children(x).remove(i));
    } else {
        match d.parent_link(child) {
            Some(q) => {
                assert(q != x);
                assert(d.detached(child).children(x) == d.children(x));
            },
            None => {},
        }
    }
}

/// A child whose kind the hierarchy table does not allow under the parent's
/// kind is always refused as a hierarchy error. (That a refused insertion
/// changes nothing is part of what `insert_before` ensures.)
pub proof fn law_disallowed_child_is_refused(
    d: DomView,
    parent: NodeId,
    child: NodeId,
    ref_child: Option<NodeId>,
)
    requires
        !child_allowed(d.node_type(parent), d.node_type(child)),
    ensures
        d.insert_before(parent, child, ref_child) == Err::<DomView, Error>(Error::HierarchyRequest),
{
}

/// A reference child that is no child of the node is not found, whenever
/// the kind of the new child is allowed under the kind of the node, and
/// whatever else holds of the new child.
pub proof fn law_missing_reference_is_not_found(
    d: DomView,
    parent: NodeId,
    child: NodeId,
    ref_child: NodeId,
)
    requires
        child_allowed(d.node_type(parent), d.node_type(child)),
        !d.is_child(parent, ref_child),
    ensures
        d.insert_before(parent, child, Some(ref_child)) == Err::<DomView, Error>(Error::NotFound),
{
}

/// A document fragment is refused wherever it is inserted.
pub proof fn law_fragment_is_refused(
    d: DomView,
    parent: NodeId,
    child: NodeId,
    ref_child: Option<NodeId>,
)
    requires
        d.node_type(child) is DocumentFragment,
    ensures
        d.insert_before(parent, child, ref_child) == Err::<DomView, Error>(Error::HierarchyRequest),
{
}

/// A replacement whose old child is not among the children finds nothing,
/// whatever the new child is. (That a refused replacement changes nothing is
/// part of what `replace_child` ensures.)
pub proof fn law_replace_child_not_found(
    d: DomView,
    parent: NodeId,
    new_child: NodeId,
    old_child: NodeId,
)
    requires
        !d.is_child(parent, old_child),
    ensures
        d.replace_child(parent, new_child, old_child) == Err::<DomView, Error>(Error::NotFound),
{
}

/// ID values are unique in a document: when two elements of one document
/// are each given an attribute named `id` with the same value, which the
/// document has not registered before, the first `set_attribute` succeeds,
/// the second is a syntax error, and the document resolves the value to the
/// first element.
pub proof fn law_duplicate_id_is_refused(
    d: DomView,
    first: NodeId,
    second: NodeId,
    value: Seq<char>,
)
    requires
        d.inv(),
        d.contains(first),
        d.contains(second),
        d.node_type(first) is Element,
        d.node_type(second) is Element,
        d.owner_document(first) == d.owner_document(second),
        !d.id_values(d.owner_document(first)->0).contains(value),
        d.nodes.len() + 1 < usize::MAX,
    ensures
        d.set_attribute(first, seq!['i', 'd'], value) is Ok,
        d.set_attribute(first, seq!['i', 'd'], value)->Ok_0.set_attribute(
            second,
            seq!['i', 'd'],
            value,
        ) == Err::<DomView, Error>(Error::Syntax),
        d.set_attribute(first, seq!['i', 'd'], value)->Ok_0.get_element_by_id(
            d.owner_document(first)->0,
            value,
        ) == Some(first),
{
    let id = seq!['i', 'd'];
    lemma_id_is_a_name();
    let n = parse_name(id)->0;
    let doc = d.owner_document(first)->0;
    assert(d.node_inv(first));
    assert(d.node_inv(second));
    assert(d.node_inv(doc));
    let a = d.nodes.len() as NodeId;
    let d1 = d.with_new(fresh_node(NodeType::Attribute, n, Some(value), Some(doc)));
    assert(d1.node(doc) == d.node(doc));
    assert(d1.id_values(doc) =~= d.id_values(doc));
    assert(d1.id_registration(a) == Some((doc, value)));
    let d2 = d1.with_declaration(first, a);
    assert(!n.is_namespace_attribute()) by {
        assert(n.local_name.len() == 2);
        assert(crate::name::xmlns().len() == 5);
    }
    assert(d2 == d1);
    let d3 = d2.with_attribute(first, a);
    let v = d3.with_registration(first, a);
    assert(d3.node(doc) == d1.node(doc));
    assert(d3.node(a) == d1.node(a));
    assert(d3.id_registration(a) == Some((doc, value)));
    assert(v == d3.with_id(doc, value, first));
    assert(d.set_attribute(first, id, value) == Ok::<DomView, Error>(v));
    assert(v.id_map(doc) == d.id_map(doc).push((value, first)));
    assert(v.id_values(doc) =~= d.id_values(doc).push(value));
    let k = d.id_values(doc).len() as int;
    assert(v.id_values(doc)[k] == value);
    assert forall|j: int| 0 <= j < k implies v.id_values(doc)[j] != value by {
        assert(d.id_values(doc)[j] == v.id_values(doc)[j]);
        assert(d.id_values(doc).contains(d.id_values(doc)[j]));
    }
    lemma_first_index(v.id_values(doc), value, k);
    // the second attempt
    let b = v.nodes.len() as NodeId;
    let w1 = v.with_new(fresh_node(NodeType::Attribute, n, Some(value), v.owner_document(second)));
    assert(v.node(second).node_type == d.node(second).node_type);
    assert(v.node(second).owner_document == d.node(second).owner_document);
    assert(w1.node(doc) == v.node(doc));
    assert(w1.id_values(doc) =~= v.id_values(doc));
    assert(w1.id_registration(b) == Some((doc, value)));
    assert(w1.id_values(doc).contains(value));
    assert(w1.id_taken(b));
}

/// The string `id` spells the name with the local part `id` and no prefix.
proof fn lemma_id_is_a_name()
    ensures
        parse_name(seq!['i', 'd']) == Some(
            crate::name::NameView {
                prefix: None,
                local_name: seq!['i', 'd'],
                namespace_uri: None,
            },
        ),
{
    let s = seq!['i', 'd'];
    crate::seqs::lemma_no_first_index(s, ':');
    assert(s[0] == 'i' && s[1] == 'd');
    assert(crate::name::is_name_start_char('i')) by {
        assert('i' as u32 == 0x69);
    }
    assert(crate::name::is_name_char('i'));
    assert(crate::name::is_name_char('d')) by {
        assert('d' as u32 == 0x64);
    }
    assert(crate::name::is_name_part(s));
}

/// The wild card finds every element: a tag-name query for `*` returns the
/// elements of the tree that it starts at, that node included, in document
/// order.
pub proof fn law_wild_card_finds_every_element(d: &Dom, n: NodeId)
    requires
        d.wf(),
        d@.contains(n),
    ensures
        d.elements_by_tag_name(n, wild_card()) == match d@.query_root(n) {
            Some(r) => d.subtree(r).filter(d@.element_test()),
            None => Seq::<NodeId>::empty(),
        },
{
    assert(d@.tag_matcher(wild_card()) =~= d@.element_test());
}

/// Document order: the tree below a node lists the node first, and then the
/// trees below its children, one after the other in the children's order.
pub proof fn law_subtree_is_in_document_order(d: &Dom, n: NodeId)
    requires
        d.wf(),
        d@.contains(n),
    ensures
        d.subtree(n) == seq![n] + d.subtrees(n, d@.children(n).len()),
        d.subtrees(n, 0) == Seq::<NodeId>::empty(),
        forall|k: nat|
            0 < k <= d@.children(n).len() ==> #[trigger] d.subtrees(n, k) == d.subtrees(
                n,
                (k - 1) as nat,
            ) + d.subtree(d@.children(n)[k - 1]),
{
    assert forall|k: nat| 0 < k <= d@.children(n).len() implies #[trigger] d.subtrees(n, k)
        == d.subtrees(n, (k - 1) as nat) + d.subtree(d@.children(n)[k - 1]) by {
        let c = d@.children(n)[k - 1];
        assert(d@.node_inv(n));
        assert(d@.child_edge_ok(n, c));
        assert(d.subtrees(n, k) =~= d.subtrees(n, (k - 1) as nat) + d.subtree(c));
    }
}

/// A copy is node for node like its source: the two roots have the same
/// kind, name and value, the copy's payload is the one a new node of the
/// kind starts with, they have as many children, and child for child the
/// trees below are copies again.
pub proof fn law_copy_is_node_for_node(d: &Dom, a: NodeId, b: NodeId)
    requires
        d.wf(),
        d@.contains(a),
    ensures
        d.mirrors(a, b) <==> {
            &&& d@.contains(b)
            &&& d@.node_type(b) == d@.node_type(a)
            &&& d@.name(b) == d@.name(a)
            &&& d@.value(b) == d@.value(a)
            &&& d@.node(b).extension == crate::node::empty_extension(d@.node_type(a))
            &&& d@.children(b).len() == d@.children(a).len()
            &&& forall|i: int|
                0 <= i < d@.children(a).len() ==> d.mirrors(
                    #[trigger] d@.children(a)[i],
                    d@.children(b)[i],
                )
        },
{
    d.lemma_mirrors_children(a, b, d@.children(a).len());
}

/// After `normalize` no text is left to merge: among the children of the
/// node no text node is empty, and no text node stands right after another.
pub proof fn law_normalize_leaves_nothing_to_merge(d: &Dom, n: NodeId)
    requires
        d.wf(),
        d@.contains(n),
    ensures
        d@.normalize(n).merged_upto(n, d@.normalize(n).children(n).len() as int),
{
    assert(d@.children(n).skip(0) =~= d@.children(n));
    d@.lemma_normalize_from(d.rank@, d.bound@, n, d@.children(n), 0);
}

} // verus!
