//! Hover information: the documentation of the node under the cursor.
use vstd::prelude::*;
use crate::index::{node_at, most_specific};
use crate::parser::{Document, Node, in_tree};
use crate::position::{Position, Range, range_contains_point};
use crate::schema::{BuildkiteSchema, doc_lookup};

verus! {

/// Documentation to show over a range of the document.
pub struct Hover {
    pub contents: String,
    pub range: Range,
}

/// The documentation of the most specific node at the position, over that
/// node's range; none when no node holds the position or its path has no
/// documentation.
pub fn provide_hover(document: &Document, position: Position, schema: &BuildkiteSchema) -> (r: Option<Hover>)
    requires
        document.wf(),
    ensures
        r matches Some(h) ==> (document.root matches Some(t) && exists|m: Node|
            most_specific(t, m, position) && h.range == m.range
            && #[trigger] doc_lookup(schema.documentation_entries(), m.path@) == Some(h.contents@)),
        r is None ==> (match document.root {
            None => true,
            Some(t) => (forall|o: Node| in_tree(t, o) ==> !range_contains_point(o.range, position))
                || exists|m: Node| most_specific(t, m, position)
                && #[trigger] doc_lookup(schema.documentation_entries(), m.path@) is None,
        }),
{
    match &document.root {
        None => None,
        Some(t) => match node_at(t, &position) {
            None => None,
            Some((m, _)) => match schema.get_documentation(m.path.as_str()) {
                None => {
                    assert(most_specific(*t, *m, position));
                    None
                },
                Some(doc) => {
                    assert(most_specific(*t, *m, position));
                    Some(Hover { contents: doc, range: m.range })
                },
            },
        },
    }
}

} // verus!
