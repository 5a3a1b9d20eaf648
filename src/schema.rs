//! The schema model: documentation per path, the definitions table, and the
//! structural rules that a pipeline document is checked against.
use vstd::prelude::*;
use crate::json::{json_wf, JsonValue, find_member, member, member_index};
use crate::grammar::{SNode, node_view, views, tree_of, lemma_views};
use crate::parser::{Node, NodeType, build_tree, join_path, path_step, MAX_DOCUMENT_CHARS};
use crate::text::{decimal, push_all, push_decimal, chars_of};
use crate::position::Range;
use crate::index::strings_view;
use crate::yaml::{yaml_accepts, yaml_check};

verus! {

/// Documentation entries as character sequences: (path, description).
pub open spec fn docs_view(s: Seq<(String, String)>) -> Seq<(Seq<char>, Seq<char>)> {
    s.map_values(|e: (String, String)| (e.0@, e.1@))
}

/// The documentation that a schema value at `path` carries, in the order of
/// a depth-first walk: its own `description` (the root's under the empty
/// path), then that of each of its `properties` under the property's name,
/// then that of its `items` under `items`. An array (the tuple form of
/// `items`) carries that of each element under its own path; other values
/// carry none.
pub open spec fn doc_entries(v: JsonValue, path: Seq<char>) -> Seq<(Seq<char>, Seq<char>)>
    decreases v, 0int,
{
    match v {
        JsonValue::Object(ms) => {
            let own = match member(ms@, "description"@) {
                Some(JsonValue::Str(d)) => seq![(path, d@)],
                _ => Seq::empty(),
            };
            let props = match find_member(ms@, "properties"@, 0) {
                Some(j) => if 0 <= j < ms@.len() {
                    match ms@[j].1 {
                        JsonValue::Object(pm) => members_docs(pm@, path, pm@.len() as int),
                        _ => Seq::empty(),
                    }
                } else {
                    Seq::empty()
                },
                None => Seq::empty(),
            };
            let items = match find_member(ms@, "items"@, 0) {
                Some(j) => if 0 <= j < ms@.len() {
                    doc_entries(ms@[j].1, path_step(path, "items"@))
                } else {
                    Seq::empty()
                },
                None => Seq::empty(),
            };
            own + props + items
        },
        JsonValue::Array(arr) => elements_docs(arr@, path, arr@.len() as int),
        _ => Seq::empty(),
    }
}

/// The documentation of the first `n` elements of an array (the tuple form
/// of `items`), each under the array's own path.
pub open spec fn elements_docs(arr: Seq<JsonValue>, path: Seq<char>, n: int) -> Seq<(Seq<char>, Seq<char>)>
    decreases arr, n,
{
    if n <= 0 || n > arr.len() {
        Seq::empty()
    } else {
        elements_docs(arr, path, n - 1) + doc_entries(arr[n - 1], path)
    }
}

/// The documentation of the first `n` properties, each under its name.
pub open spec fn members_docs(pm: Seq<(String, JsonValue)>, path: Seq<char>, n: int) -> Seq<(Seq<char>, Seq<char>)>
    decreases pm, n,
{
    if n <= 0 || n > pm.len() {
        Seq::empty()
    } else {
        members_docs(pm, path, n - 1) + doc_entries(pm[n - 1].1, path_step(path, pm[n - 1].0@))
    }
}

/// Appends the documentation that `value` carries at `path`, as
/// `doc_entries` states it.
fn extract_documentation(value: &JsonValue, path: &String, docs: &mut Vec<(String, String)>)
    ensures
        docs_view(final(docs)@) == docs_view(old(docs)@) + doc_entries(*value, path@),
    decreases value,
{
    let ghost start = docs_view(docs@);
    match value {
        JsonValue::Object(ms) => {
            if let Some(j) = member_index(ms, "description") {
                if let JsonValue::Str(d) = &ms[j].1 {
                    docs.push((path.clone(), d.clone()));
                    assert(docs_view(docs@) =~= start + seq![(path@, d@)]);
                }
            }
            let ghost after_own = docs_view(docs@);
            if let Some(j) = member_index(ms, "properties") {
                if let JsonValue::Object(pm) = &ms[j].1 {
                    let mut i: usize = 0;
                    while i < pm.len()
                        invariant
                            i <= pm.len(),
                            j < ms.len(),
                            *value == JsonValue::Object(*ms),
                            ms@[j as int].1 == JsonValue::Object(*pm),
                            docs_view(docs@) == after_own + members_docs(pm@, path@, i as int),
                        decreases pm.len() - i,
                    {
                        let ghost before = docs_view(docs@);
                        let child_path = join_path(path, &pm[i].0);
                        proof {
                            assert(decreases_to!(*value => value->Object_0));
                            assert(decreases_to!(*ms => ms@));
                            assert(decreases_to!(ms@ => ms@[j as int]));
                            assert(decreases_to!(ms@[j as int] => ms@[j as int].1));
                            assert(decreases_to!(ms@[j as int].1 => ms@[j as int].1->Object_0));
                            assert(decreases_to!(*pm => pm@));
                            assert(decreases_to!(pm@ => pm@[i as int]));
                            assert(decreases_to!(pm@[i as int] => pm@[i as int].1));
                        }
                        extract_documentation(&pm[i].1, &child_path, docs);
                        assert(docs_view(docs@) =~= after_own + members_docs(pm@, path@, i + 1));
                        i = i + 1;
                    }
                }
            }
            let ghost after_props = docs_view(docs@);
            if let Some(j) = member_index(ms, "items") {
                let items = "items".to_owned();
                let child_path = join_path(path, &items);
                proof {
                    assert(decreases_to!(*value => value->Object_0));
                    assert(decreases_to!(*ms => ms@));
                    assert(decreases_to!(ms@ => ms@[j as int]));
                    assert(decreases_to!(ms@[j as int] => ms@[j as int].1));
                }
                extract_documentation(&ms[j].1, &child_path, docs);
            }
            assert(docs_view(docs@) =~= start + doc_entries(*value, path@));
        },
        JsonValue::Array(arr) => {
            let mut i: usize = 0;
            while i < arr.len()
                invariant
                    i <= arr.len(),
                    *value == JsonValue::Array(*arr),
                    docs_view(docs@) == start + elements_docs(arr@, path@, i as int),
                decreases arr.len() - i,
            {
                proof {
                    assert(decreases_to!(*value => value->Array_0));
                    assert(decreases_to!(*arr => arr@));
                    assert(decreases_to!(arr@ => arr@[i as int]));
                }
                extract_documentation(&arr[i], path, docs);
                assert(docs_view(docs@) =~= start + elements_docs(arr@, path@, i + 1));
                i = i + 1;
            }
            assert(docs_view(docs@) =~= start + doc_entries(*value, path@));
        },
        _ => {
            assert(docs_view(docs@) =~= start + doc_entries(*value, path@));
        },
    }
}

/// The description recorded last for `key`, the way a map keeps the last
/// value inserted under a key.
pub open spec fn doc_lookup(entries: Seq<(Seq<char>, Seq<char>)>, key: Seq<char>) -> Option<Seq<char>>
    decreases entries.len(),
{
    if entries.len() == 0 {
        None
    } else if entries.last().0 == key {
        Some(entries.last().1)
    } else {
        doc_lookup(entries.drop_last(), key)
    }
}

/// The members of the schema's `definitions` object, or of its `$defs`
/// object when it has no `definitions`; empty when it has neither.
pub open spec fn definitions_of(schema: JsonValue) -> Seq<(String, JsonValue)> {
    match schema {
        JsonValue::Object(ms) => match member(ms@, "definitions"@) {
            Some(JsonValue::Object(d)) => d@,
            _ => match member(ms@, "$defs"@) {
                Some(JsonValue::Object(d)) => d@,
                _ => Seq::empty(),
            },
        },
        _ => Seq::empty(),
    }
}

/// Schema representation of a Buildkite pipeline.
pub struct BuildkiteSchema {
    /// The schema document
    schema: JsonValue,
    /// Path and description of each documented schema element, in the order
    /// in which the schema was walked
    documentation: Vec<(String, String)>,
}

impl BuildkiteSchema {
    /// The schema document the model was built from.
    pub closed spec fn schema_value(&self) -> JsonValue {
        self.schema
    }

    /// The documentation entries, in the order in which they were found.
    pub closed spec fn documentation_entries(&self) -> Seq<(Seq<char>, Seq<char>)> {
        docs_view(self.documentation@)
    }

    /// The documentation is what the schema carries.
    pub open spec fn wf(&self) -> bool {
        &&& json_wf(self.schema_value())
        &&& self.documentation_entries() == doc_entries(self.schema_value(), Seq::empty())
    }

    /// The model of a schema document: its documentation by path.
    pub fn new(schema: JsonValue) -> (r: Self)
        requires
            json_wf(schema),
        ensures
            r.wf(),
            r.schema_value() == schema,
    {
        let mut documentation: Vec<(String, String)> = Vec::new();
        let root = String::new();
        extract_documentation(&schema, &root, &mut documentation);
        assert(docs_view(documentation@) =~= doc_entries(schema, Seq::empty()));
        BuildkiteSchema { schema, documentation }
    }

    /// The description recorded for a schema path.
    pub fn get_documentation(&self, path: &str) -> (r: Option<String>)
        ensures
            r matches Some(d) ==> doc_lookup(self.documentation_entries(), path@) == Some(d@),
            r is None ==> doc_lookup(self.documentation_entries(), path@) is None,
    {
        let key = path.to_owned();
        let mut i: usize = self.documentation.len();
        assert(docs_view(self.documentation@).take(i as int) =~= self.documentation_entries());
        while i > 0
            invariant
                i <= self.documentation.len(),
                key@ == path@,
                doc_lookup(self.documentation_entries(), path@)
                    == doc_lookup(docs_view(self.documentation@).take(i as int), path@),
            decreases i,
        {
            let ghost pre = docs_view(self.documentation@).take(i as int);
            assert(pre.drop_last() =~= docs_view(self.documentation@).take(i - 1));
            if self.documentation[i - 1].0 == key {
                return Some(self.documentation[i - 1].1.clone());
            }
            i = i - 1;
        }
        None
    }

    /// The definition with the given name.
    pub fn get_definition(&self, name: &str) -> (r: Option<&JsonValue>)
        ensures
            r matches Some(v) ==> member(definitions_of(self.schema_value()), name@) == Some(*v),
            r is None ==> member(definitions_of(self.schema_value()), name@) is None,
    {
        if let JsonValue::Object(ms) = &self.schema {
            let table = match member_index(ms, "definitions") {
                Some(j) => match &ms[j].1 {
                    JsonValue::Object(d) => Some(d),
                    _ => None,
                },
                None => None,
            };
            let table = match table {
                Some(d) => Some(d),
                None => match member_index(ms, "$defs") {
                    Some(j) => match &ms[j].1 {
                        JsonValue::Object(d) => Some(d),
                        _ => None,
                    },
                    None => None,
                },
            };
            if let Some(d) = table {
                return match member_index(d, name) {
                    Some(k) => Some(&d[k].1),
                    None => None,
                };
            }
        }
        None
    }
}

/// The path names the `steps` key: it is `steps` or ends in `/steps`.
pub open spec fn names_steps(path: Seq<char>) -> bool {
    let steps = seq!['s', 't', 'e', 'p', 's'];
    path == steps || (path.len() > 5 && path.subrange(path.len() - 6, path.len() as int) == seq!['/'].add(steps))
}

/// The names of the schema's top-level `properties`, in order.
pub open spec fn property_names(schema: JsonValue) -> Seq<Seq<char>> {
    match schema {
        JsonValue::Object(ms) => match member(ms@, "properties"@) {
            Some(JsonValue::Object(pm)) => pm@.map_values(|m: (String, JsonValue)| m.0@),
            _ => Seq::empty(),
        },
        _ => Seq::empty(),
    }
}

/// The candidate keys at a path: the schema's top-level properties at the
/// root (the empty path or `/`), the step types under `steps`, and none
/// elsewhere.
pub open spec fn properties_at(schema: JsonValue, path: Seq<char>) -> Seq<Seq<char>> {
    if path.len() == 0 || path == seq!['/'] {
        property_names(schema)
    } else if names_steps(path) {
        step_types()
    } else {
        Seq::empty()
    }
}

/// The keys of which a step holds at least one.
pub open spec fn step_types() -> Seq<Seq<char>> {
    seq!["command"@, "trigger"@, "wait"@, "block"@, "group"@]
}

/// The names of the schema's top-level properties.
fn top_level_names(schema: &JsonValue) -> (r: Vec<String>)
    ensures
        r@.map_values(|s: String| s@) == property_names(*schema),
{
    let mut r: Vec<String> = Vec::new();
    if let JsonValue::Object(ms) = schema {
        if let Some(j) = member_index(ms, "properties") {
            if let JsonValue::Object(pm) = &ms[j].1 {
                let mut i: usize = 0;
                while i < pm.len()
                    invariant
                        i <= pm.len(),
                        r@.map_values(|s: String| s@) == pm@.map_values(|m: (String, JsonValue)| m.0@).take(i as int),
                    decreases pm.len() - i,
                {
                    let ghost before = r@;
                    let name = pm[i].0.clone();
                    r.push(name);
                    assert(r@.map_values(|s: String| s@) =~= before.map_values(|s: String| s@).push(name@));
                    assert(pm@.map_values(|m: (String, JsonValue)| m.0@).take(i + 1)
                        =~= pm@.map_values(|m: (String, JsonValue)| m.0@).take(i as int).push(pm@[i as int].0@));
                    i = i + 1;
                }
                assert(pm@.map_values(|m: (String, JsonValue)| m.0@).take(i as int) =~= pm@.map_values(|m: (String, JsonValue)| m.0@));
                return r;
            }
        }
    }
    assert(r@.map_values(|s: String| s@) =~= Seq::<Seq<char>>::empty());
    r
}

fn step_type_names() -> (r: Vec<String>)
    ensures
        r@.map_values(|s: String| s@) == step_types(),
{
    let v = vec!["command".to_owned(), "trigger".to_owned(), "wait".to_owned(), "block".to_owned(), "group".to_owned()];
    assert(v@.map_values(|s: String| s@) =~= step_types());
    v
}

fn path_names_steps(c: &Vec<char>) -> (r: bool)
    ensures
        r == names_steps(c@),
{
    let n = c.len();
    let tail = n >= 5 && c[n - 5] == 's' && c[n - 4] == 't' && c[n - 3] == 'e' && c[n - 2] == 'p' && c[n - 1] == 's';
    let r = tail && (n == 5 || c[n - 6] == '/');
    proof {
        let steps = seq!['s', 't', 'e', 'p', 's'];
        if r && n == 5 {
            assert(c@ =~= steps);
        }
        if r && n > 5 {
            assert(c@.subrange(n - 6, n as int) =~= seq!['/'].add(steps));
        }
        if c@ == steps {
            assert(c@[4] == 's');
        }
        if n > 5 && c@.subrange(n - 6, n as int) == seq!['/'].add(steps) {
            assert(c@.subrange(n - 6, n as int)[0] == c@[n - 6]);
            assert(c@.subrange(n - 6, n as int)[5] == c@[n - 1]);
            assert(c@.subrange(n - 6, n as int)[4] == c@[n - 2]);
            assert(c@.subrange(n - 6, n as int)[3] == c@[n - 3]);
            assert(c@.subrange(n - 6, n as int)[2] == c@[n - 4]);
            assert(c@.subrange(n - 6, n as int)[1] == c@[n - 5]);
        }
    }
    r
}

/// A step is in error when it is not a mapping, or holds none of the step
/// type keys; the message names it by its ordinal, counted from one.
pub open spec fn step_errors(items: Seq<SNode>, n: int) -> Seq<(Seq<char>, Range)>
    decreases n,
{
    if n <= 0 || n > items.len() {
        Seq::empty()
    } else {
        step_errors(items, n - 1) + step_error(items[n - 1], n)
    }
}

pub open spec fn step_error(item: SNode, ordinal: int) -> Seq<(Seq<char>, Range)> {
    if item.node_type != NodeType::Mapping {
        seq![("Step "@ + decimal(ordinal as nat) + " must be an object"@, item.range)]
    } else if !has_step_type(item.children) {
        seq![("Step "@ + decimal(ordinal as nat) + " must contain one of: 'command', 'trigger', 'wait', 'block', or 'group'"@, item.range)]
    } else {
        Seq::empty()
    }
}

/// Some child is keyed by a step type.
pub open spec fn has_step_type(cs: Seq<SNode>) -> bool {
    exists|k: int| 0 <= k < cs.len() && (#[trigger] cs[k]).key is Some && step_types().contains(cs[k].key->0)
}

/// Index of the first child keyed `key`.
pub open spec fn find_child(cs: Seq<SNode>, key: Seq<char>, start: int) -> Option<int>
    decreases cs.len() - start,
{
    if start < 0 || start >= cs.len() {
        None
    } else if cs[start].key is Some && cs[start].key->0 == key {
        Some(start)
    } else {
        find_child(cs, key, start + 1)
    }
}

/// The errors of a document tree, each with the range of the node at fault:
/// a root that is not a mapping; a missing `steps` key (at the root); an
/// empty `steps` sequence (at it); then each step in error, in order.
pub open spec fn validation_errors(root: SNode) -> Seq<(Seq<char>, Range)> {
    if root.node_type != NodeType::Mapping {
        seq![("Document root must be a YAML object"@, root.range)]
    } else {
        match find_child(root.children, "steps"@, 0) {
            None => seq![("Pipeline must contain a 'steps' array"@, root.range)],
            Some(j) => {
                let st = root.children[j];
                if st.node_type != NodeType::Sequence {
                    Seq::empty()
                } else {
                    (if st.children.len() == 0 {
                        seq![("Pipeline must contain at least one step"@, st.range)]
                    } else {
                        Seq::empty()
                    }) + step_errors(st.children, st.children.len() as int)
                }
            },
        }
    }
}

/// The start of the message about a text that does not parse.
pub const PARSE_FAILURE: &'static str = "Failed to parse pipeline YAML: ";

/// `p` is a prefix of `m`.
pub open spec fn starts_with(m: Seq<char>, p: Seq<char>) -> bool {
    p.len() <= m.len() && m.subrange(0, p.len() as int) == p
}

/// A structural error of a document, at the node at fault.
pub struct ValidationError {
    pub message: String,
    pub range: Range,
}

/// The messages of a sequence of errors.
pub open spec fn messages_of(errs: Seq<(Seq<char>, Range)>) -> Seq<Seq<char>> {
    errs.map_values(|e: (Seq<char>, Range)| e.0)
}

pub open spec fn errors_view(v: Seq<ValidationError>) -> Seq<(Seq<char>, Range)> {
    v.map_values(|e: ValidationError| (e.message@, e.range))
}

fn find_child_index(cs: &Vec<Node>, key: &str) -> (r: Option<usize>)
    ensures
        r matches Some(j) ==> find_child(views(cs@), key@, 0) == Some(j as int) && j < cs.len(),
        r is None ==> find_child(views(cs@), key@, 0) is None,
{
    let k = key.to_owned();
    let mut i: usize = 0;
    proof { lemma_views(cs@); }
    while i < cs.len()
        invariant
            i <= cs.len(),
            k@ == key@,
            views(cs@).len() == cs.len(),
            forall|x: int| 0 <= x < cs.len() ==> #[trigger] views(cs@)[x] == node_view(cs@[x]),
            find_child(views(cs@), key@, 0) == find_child(views(cs@), key@, i as int),
        decreases cs.len() - i,
    {
        match &cs[i].key {
            Some(ck) => {
                if *ck == k {
                    return Some(i);
                }
            },
            None => {},
        }
        i = i + 1;
    }
    None
}

fn holds_step_type(cs: &Vec<Node>) -> (r: bool)
    ensures
        r == has_step_type(views(cs@)),
{
    let names = step_type_names();
    let mut i: usize = 0;
    proof { lemma_views(cs@); }
    while i < cs.len()
        invariant
            i <= cs.len(),
            names@.map_values(|s: String| s@) == step_types(),
            views(cs@).len() == cs.len(),
            forall|x: int| 0 <= x < cs.len() ==> #[trigger] views(cs@)[x] == node_view(cs@[x]),
            forall|k: int| 0 <= k < i ==> !((#[trigger] views(cs@)[k]).key is Some && step_types().contains(views(cs@)[k].key->0)),
        decreases cs.len() - i,
    {
        if let Some(ck) = &cs[i].key {
            let mut t: usize = 0;
            while t < names.len()
                invariant
                    t <= names.len(),
                    i < cs.len(),
                    views(cs@).len() == cs.len(),
                    forall|x: int| 0 <= x < cs.len() ==> #[trigger] views(cs@)[x] == node_view(cs@[x]),
                    cs@[i as int].key == Some(*ck),
                    names@.map_values(|s: String| s@) == step_types(),
                    forall|u: int| 0 <= u < t ==> names@[u]@ != ck@,
                decreases names.len() - t,
            {
                if names[t] == *ck {
                    assert(step_types()[t as int] == ck@);
                    assert(step_types().contains(ck@));
                    assert(views(cs@)[i as int].key is Some && step_types().contains(views(cs@)[i as int].key->0));
                    return true;
                }
                t = t + 1;
            }
            assert(!step_types().contains(ck@)) by {
                if step_types().contains(ck@) {
                    let u = choose|u: int| 0 <= u < step_types().len() && step_types()[u] == ck@;
                    assert(names@[u]@ == step_types()[u]);
                }
            }
        }
        i = i + 1;
    }
    false
}

fn step_message(ordinal: usize, rest: &str) -> (r: String)
    ensures
        r@ == "Step "@ + decimal(ordinal as nat) + rest@,
{
    let mut m = "Step ".to_owned();
    push_decimal(&mut m, ordinal);
    m.append(rest);
    m
}

impl BuildkiteSchema {
    /// The candidate keys at a path, as `properties_at` states them.
    pub fn get_properties_at_path(&self, path: &str) -> (r: Vec<String>)
        ensures
            r@.map_values(|s: String| s@) == properties_at(self.schema_value(), path@),
    {
        let c = chars_of(path);
        if c.len() == 0 || (c.len() == 1 && c[0] == '/') {
            proof {
                if c.len() == 1 {
                    assert(path@ =~= seq!['/']);
                }
            }
            top_level_names(&self.schema)
        } else if path_names_steps(&c) {
            assert(path@ != seq!['/']);
            step_type_names()
        } else {
            proof {
                if path@ == seq!['/'] {
                    assert(c@.len() == 1 && c@[0] == '/');
                }
            }
            let r: Vec<String> = Vec::new();
            assert(r@.map_values(|s: String| s@) =~= Seq::<Seq<char>>::empty());
            r
        }
    }

    /// The structural errors of a document tree, as `validation_errors`
    /// states them.
    pub fn validate_tree(&self, root: &Node) -> (r: Vec<ValidationError>)
        ensures
            errors_view(r@) == validation_errors(node_view(*root)),
    {
        proof { lemma_views(root.children@); }
        let mut errors: Vec<ValidationError> = Vec::new();
        if root.node_type != NodeType::Mapping {
            errors.push(ValidationError { message: "Document root must be a YAML object".to_owned(), range: root.range });
            assert(errors_view(errors@) =~= validation_errors(node_view(*root)));
            return errors;
        }
        match find_child_index(&root.children, "steps") {
            None => {
                errors.push(ValidationError { message: "Pipeline must contain a 'steps' array".to_owned(), range: root.range });
                assert(errors_view(errors@) =~= validation_errors(node_view(*root)));
            },
            Some(j) => {
                let st = &root.children[j];
                proof { lemma_views(st.children@); }
                if st.node_type == NodeType::Sequence {
                    if st.children.len() == 0 {
                        errors.push(ValidationError { message: "Pipeline must contain at least one step".to_owned(), range: st.range });
                    }
                    let ghost head = errors_view(errors@);
                    assert(head =~= (if st.children.len() == 0 {
                        seq![("Pipeline must contain at least one step"@, st.range)]
                    } else {
                        Seq::empty()
                    }));
                    let mut i: usize = 0;
                    while i < st.children.len()
                        invariant
                            i <= st.children.len(),
                            views(st.children@).len() == st.children.len(),
                            forall|x: int| 0 <= x < st.children.len() ==> #[trigger] views(st.children@)[x] == node_view(st.children@[x]),
                            errors_view(errors@) == head + step_errors(views(st.children@), i as int),
                        decreases st.children.len() - i,
                    {
                        let item = &st.children[i];
                        let ghost before = errors@;
                        if item.node_type != NodeType::Mapping {
                            errors.push(ValidationError { message: step_message(i + 1, " must be an object"), range: item.range });
                        } else if !holds_step_type(&item.children) {
                            errors.push(ValidationError {
                                message: step_message(i + 1, " must contain one of: 'command', 'trigger', 'wait', 'block', or 'group'"),
                                range: item.range,
                            });
                        }
                        assert(errors_view(errors@) =~= errors_view(before) + step_error(node_view(st.children@[i as int]), i + 1));
                        i = i + 1;
                    }
                }
                assert(errors_view(errors@) =~= validation_errors(node_view(*root)));
            },
        }
        errors
    }

    /// Checks a pipeline document: a text that is not YAML (or too large to
    /// parse) gives one message about the parse; otherwise the messages of
    /// the structural errors of its tree, in order.
    pub fn validate(&self, document: &str) -> (r: Vec<String>)
        ensures
            !(yaml_accepts(document@) && document@.len() <= MAX_DOCUMENT_CHARS) ==> r.len() == 1
                && starts_with(r@[0]@, PARSE_FAILURE@),
            (yaml_accepts(document@) && document@.len() <= MAX_DOCUMENT_CHARS) ==> strings_view(r@)
                == messages_of(validation_errors(tree_of(document@))),
    {
        let mut out: Vec<String> = Vec::new();
        match yaml_check(document) {
            Err(e) => {
                let mut m = PARSE_FAILURE.to_owned();
                let detail = e.to_string();
                push_all(&mut m, &detail);
                assert(m@.subrange(0, PARSE_FAILURE@.len() as int) =~= PARSE_FAILURE@);
                out.push(m);
            },
            Ok(()) => {
                if document.unicode_len() > MAX_DOCUMENT_CHARS {
                    let mut m = PARSE_FAILURE.to_owned();
                    push_all(&mut m, &"the document is too large".to_owned());
                    assert(m@.subrange(0, PARSE_FAILURE@.len() as int) =~= PARSE_FAILURE@);
                    out.push(m);
                } else {
                    let t = build_tree(document);
                    let errors = self.validate_tree(&t);
                    let mut i: usize = 0;
                    while i < errors.len()
                        invariant
                            i <= errors.len(),
                            strings_view(out@) == messages_of(errors_view(errors@).take(i as int)),
                        decreases errors.len() - i,
                    {
                        let ghost ev = errors_view(errors@);
                        let ghost old_out = out@;
                        let m = errors[i].message.clone();
                        out.push(m);
                        assert(strings_view(out@) =~= strings_view(old_out).push(m@));
                        assert(messages_of(ev.take(i as int).push(ev[i as int])) =~= messages_of(ev.take(i as int)).push(ev[i as int].0));
                        assert(ev.take(i + 1) =~= ev.take(i as int).push(ev[i as int]));
                        assert(ev[i as int].0 == errors@[i as int].message@);
                        assert(strings_view(out@) =~= messages_of(errors_view(errors@).take(i + 1)));
                        i = i + 1;
                    }
                    assert(errors_view(errors@).take(i as int) =~= errors_view(errors@));
                }
            },
        }
        out
    }
}

} // verus!
