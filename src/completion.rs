//! Completion: candidate keys for the place of the cursor.
use vstd::prelude::*;
use crate::index::{chain_paths, most_specific, strings_view};
use crate::parser::{Document, Node, descend, in_tree, join_path};
use crate::position::{Position, range_contains_point};
use crate::schema::{BuildkiteSchema, properties_at};

verus! {

/// A completion candidate.
pub struct CompletionItem {
    pub label: String,
    pub detail: String,
    pub documentation: Option<String>,
}

/// The last path of a context, or the empty path.
pub open spec fn innermost(ctx: Seq<Seq<char>>) -> Seq<char> {
    if ctx.len() == 0 {
        Seq::empty()
    } else {
        ctx.last()
    }
}

pub open spec fn labels_view(v: Seq<CompletionItem>) -> Seq<Seq<char>> {
    v.map_values(|c: CompletionItem| c.label@)
}

/// A completion item for a property.
fn create_property_completion(name: String, documentation: Option<String>) -> (r: CompletionItem)
    ensures
        r.label == name,
        r.documentation == documentation,
{
    CompletionItem { label: name, detail: "Buildkite pipeline property".to_owned(), documentation }
}

/// The candidate keys at the position: those of the path of the most
/// specific node there (of the empty path when no node holds it), each with
/// its documentation when the schema has some.
pub fn provide_completion(document: &Document, position: Position, schema: &BuildkiteSchema) -> (r: Vec<CompletionItem>)
    requires
        document.wf(),
    ensures
        (document.root matches Some(t) && exists|idx: Seq<int>| #[trigger] descend(t, idx) is Some
            && most_specific(t, descend(t, idx)->0, position)
            && labels_view(r@) == properties_at(schema.schema_value(), innermost(chain_paths(t, idx))))
        || ((match document.root {
            None => true,
            Some(t) => forall|o: Node| in_tree(t, o) ==> !range_contains_point(o.range, position),
        }) && labels_view(r@) == properties_at(schema.schema_value(), Seq::empty())),
{
    let context = document.context_at_position(position.line, position.character);
    let path = if context.len() == 0 {
        String::new()
    } else {
        context[context.len() - 1].clone()
    };
    let names = schema.get_properties_at_path(path.as_str());
    let mut items: Vec<CompletionItem> = Vec::new();
    let mut i: usize = 0;
    while i < names.len()
        invariant
            i <= names.len(),
            labels_view(items@) == names@.map_values(|s: String| s@).take(i as int),
        decreases names.len() - i,
    {
        let name = names[i].clone();
        let full = join_path(&path, &name);
        let documentation = schema.get_documentation(full.as_str());
        let ghost old_items = items@;
        let item = create_property_completion(name, documentation);
        items.push(item);
        assert(labels_view(items@) =~= labels_view(old_items).push(item.label@));
        assert(names@.map_values(|s: String| s@).take(i + 1) =~= names@.map_values(|s: String| s@).take(i as int).push(names@[i as int]@));
        i = i + 1;
    }
    assert(names@.map_values(|s: String| s@).take(i as int) =~= names@.map_values(|s: String| s@));
    proof {
        if context.len() > 0 {
            assert(strings_view(context@).last() == context@[context.len() - 1]@);
        } else {
            assert(strings_view(context@).len() == 0);
        }
    }
    items
}

} // verus!
