//! Laws of the document tree and of point queries.
use vstd::prelude::*;
use crate::position::{pos_le, Position, area, range_within, range_contains_point};
use crate::parser::{Node, node_wf, in_tree, child_ok, siblings_ordered};
use crate::index::{most_specific, at_least_as_specific, lemma_in_tree_wf};
use crate::parser::NodeType;
use crate::grammar::{SNode, node_view, tree_of, views};
use crate::schema::{BuildkiteSchema, doc_entries, doc_lookup, find_child, messages_of, validation_errors};

verus! {

/// Containment: in a well-formed tree, the range of every child of every
/// node lies fully inside the range of that node.
pub proof fn lemma_child_within(root: Node, n: Node, i: int)
    requires
        node_wf(root),
        in_tree(root, n),
        0 <= i < n.children.len(),
    ensures
        range_within(n.children@[i].range, n.range),
{
    lemma_in_tree_wf(root, n);
    assert(child_ok(n.node_type, n.path@, n.range, n.children@[i], i));
}

/// Path determinism: two trees parsed from the same text are the same
/// tree, so every node has the same path and range in both.
pub proof fn lemma_parse_deterministic(a: Node, b: Node, text: Seq<char>)
    requires
        node_view(a) == tree_of(text),
        node_view(b) == tree_of(text),
    ensures
        node_view(a) == node_view(b),
        a.path@ == b.path@,
        a.range == b.range,
        views(a.children@) == views(b.children@),
{
}

/// Siblings never overlap: in a well-formed tree, each child of a node ends
/// at or before the position where any later child starts.
pub proof fn lemma_siblings_disjoint(root: Node, n: Node, a: int, b: int)
    requires
        node_wf(root),
        in_tree(root, n),
        0 <= a < b < n.children.len(),
    ensures
        pos_le(n.children@[a].range.end, n.children@[b].range.start),
{
    lemma_in_tree_wf(root, n);
    assert(siblings_ordered(n.children@));
}

/// Point queries prefer leaves: when a leaf holds the point and every other
/// node holding it has a larger area (or the same area and a shorter path),
/// the most specific node is that leaf, and its path is the answer.
pub proof fn lemma_leaf_is_most_specific(root: Node, leaf: Node, m: Node, p: Position)
    requires
        in_tree(root, leaf),
        leaf.children.len() == 0,
        range_contains_point(leaf.range, p),
        forall|o: Node| #![trigger in_tree(root, o)]
            in_tree(root, o) && range_contains_point(o.range, p) && o != leaf
                ==> area(o.range) > area(leaf.range)
                || (area(o.range) == area(leaf.range) && o.path@.len() < leaf.path@.len()),
        most_specific(root, m, p),
    ensures
        m == leaf,
        m.path@ == leaf.path@,
{
    assert(at_least_as_specific(m, leaf));
}

/// Tie-break: of two nodes that hold the point with equal areas, the one
/// with the shorter path is never the most specific, and when no other node
/// holds the point the most specific is the one with the longer path.
pub proof fn lemma_tie_break(root: Node, a: Node, b: Node, m: Node, p: Position)
    requires
        in_tree(root, a),
        in_tree(root, b),
        range_contains_point(a.range, p),
        range_contains_point(b.range, p),
        area(a.range) == area(b.range),
        a.path@.len() > b.path@.len(),
        most_specific(root, m, p),
    ensures
        m != b,
        (forall|o: Node| #![trigger in_tree(root, o)]
            in_tree(root, o) && range_contains_point(o.range, p) ==> o == a || o == b) ==> m == a,
{
    assert(at_least_as_specific(m, a));
    assert(at_least_as_specific(m, b));
}

proof fn lemma_lookup_last(entries: Seq<(Seq<char>, Seq<char>)>, i: int)
    requires
        0 <= i < entries.len(),
        forall|k: int| i < k < entries.len() ==> (#[trigger] entries[k]).0 != entries[i].0,
    ensures
        doc_lookup(entries, entries[i].0) == Some(entries[i].1),
    decreases entries.len(),
{
    if i < entries.len() - 1 {
        let init = entries.drop_last();
        assert forall|k: int| i < k < init.len() implies (#[trigger] init[k]).0 != init[i].0 by {
            assert(init[k] == entries[k]);
        }
        lemma_lookup_last(init, i);
    }
}

/// Documentation completeness: each description that the schema carries is
/// recorded under its path, and looking that path up gives it back, unless
/// a later description was recorded under the same path.
pub proof fn lemma_documentation_complete(s: BuildkiteSchema, i: int)
    requires
        s.wf(),
        0 <= i < doc_entries(s.schema_value(), Seq::empty()).len(),
        forall|k: int| #![trigger doc_entries(s.schema_value(), Seq::empty())[k]]
            i < k < doc_entries(s.schema_value(), Seq::empty()).len()
            ==> doc_entries(s.schema_value(), Seq::empty())[k].0 != doc_entries(s.schema_value(), Seq::empty())[i].0,
    ensures
        doc_lookup(s.documentation_entries(), doc_entries(s.schema_value(), Seq::empty())[i].0)
            == Some(doc_entries(s.schema_value(), Seq::empty())[i].1),
{
    lemma_lookup_last(doc_entries(s.schema_value(), Seq::empty()), i);
}

proof fn lemma_no_child_keyed(cs: Seq<SNode>, key: Seq<char>, start: int)
    requires
        0 <= start,
        forall|k: int| 0 <= k < cs.len() ==> (#[trigger] cs[k]).key is None || cs[k].key->0 != key,
    ensures
        find_child(cs, key, start) is None,
    decreases cs.len() - start,
{
    if start < cs.len() {
        lemma_no_child_keyed(cs, key, start + 1);
    }
}

/// A mapping root without a `steps` key has exactly one error: the missing
/// `steps` array, at the root.
pub proof fn lemma_missing_steps(root: SNode)
    requires
        root.node_type == NodeType::Mapping,
        forall|k: int| 0 <= k < root.children.len()
            ==> (#[trigger] root.children[k]).key is None || root.children[k].key->0 != "steps"@,
    ensures
        validation_errors(root) == seq![("Pipeline must contain a 'steps' array"@, root.range)],
{
    lemma_no_child_keyed(root.children, "steps"@, 0);
}

/// The required-field law on documents: when the tree of a text is a
/// mapping with no `steps` key, validating the text gives exactly the one
/// message about the missing `steps` array.
pub proof fn lemma_document_missing_steps(text: Seq<char>)
    requires
        tree_of(text).node_type == NodeType::Mapping,
        forall|k: int| 0 <= k < tree_of(text).children.len()
            ==> (#[trigger] tree_of(text).children[k]).key is None || tree_of(text).children[k].key->0 != "steps"@,
    ensures
        messages_of(validation_errors(tree_of(text))) == seq!["Pipeline must contain a 'steps' array"@],
{
    lemma_missing_steps(tree_of(text));
    assert(messages_of(validation_errors(tree_of(text))) =~= seq!["Pipeline must contain a 'steps' array"@]);
}

} // verus!
