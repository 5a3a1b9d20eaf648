use buildkite_ls::parser::{Document, Node, NodeType, ParseError};
use buildkite_ls::position::{area_of_range, Position, Range};

const PIPELINE: &str = "steps:\n  - label: \"Deploy\"\n    command: \"deploy.sh\"\n    agents:\n      queue: \"deploy\"\nenv:\n  FOO: \"bar\"\n";

fn parsed(text: &str) -> Document {
    let mut d = Document::new(text.to_string());
    assert!(d.parse().is_ok());
    d
}

fn range(a: u32, b: u32, c: u32, d: u32) -> Range {
    Range { start: Position { line: a, character: b }, end: Position { line: c, character: d } }
}

fn find<'a>(n: &'a Node, path: &str) -> Option<&'a Node> {
    if n.path == path {
        return Some(n);
    }
    for c in &n.children {
        if let Some(m) = find(c, path) {
            return Some(m);
        }
    }
    None
}

fn inside(inner: &Range, outer: &Range) -> bool {
    let le = |a: &Position, b: &Position| a.line < b.line || (a.line == b.line && a.character <= b.character);
    le(&outer.start, &inner.start) && le(&inner.end, &outer.end)
}

fn all_contained(n: &Node) -> bool {
    n.children.iter().all(|c| inside(&c.range, &n.range) && all_contained(c))
}

fn same_tree(a: &Node, b: &Node) -> bool {
    a.path == b.path
        && a.range == b.range
        && a.node_type == b.node_type
        && a.key == b.key
        && a.value == b.value
        && a.children.len() == b.children.len()
        && a.children.iter().zip(b.children.iter()).all(|(x, y)| same_tree(x, y))
}

#[test]
fn scenario_queue_value_path() {
    let d = parsed(PIPELINE);
    assert_eq!(d.node_at_position(4, 15), Some("steps/0/agents/queue".to_string()));
}

#[test]
fn scenario_queue_value_context() {
    let d = parsed(PIPELINE);
    assert_eq!(
        d.context_at_position(4, 15),
        vec!["steps".to_string(), "steps/0".to_string(), "steps/0/agents".to_string(), "steps/0/agents/queue".to_string()]
    );
}

#[test]
fn tree_shape_and_ranges() {
    let d = parsed(PIPELINE);
    let root = d.root.as_ref().unwrap();
    assert_eq!(root.path, "");
    assert_eq!(root.node_type, NodeType::Mapping);
    assert_eq!(root.children.len(), 2);
    let steps = find(root, "steps").unwrap();
    assert_eq!(steps.node_type, NodeType::Sequence);
    assert_eq!(steps.range, range(0, 0, 4, 21));
    let item = find(root, "steps/0").unwrap();
    assert_eq!(item.node_type, NodeType::Mapping);
    assert_eq!(item.key, None);
    assert_eq!(item.range, range(1, 2, 4, 21));
    let queue = find(root, "steps/0/agents/queue").unwrap();
    assert_eq!(queue.node_type, NodeType::Scalar);
    assert_eq!(queue.key, Some("queue".to_string()));
    assert_eq!(queue.value, "\"deploy\"");
    assert_eq!(queue.range, range(4, 6, 4, 21));
    let foo = find(root, "env/FOO").unwrap();
    assert_eq!(foo.range, range(6, 2, 6, 12));
    assert_eq!(root.range, range(0, 0, 6, 12));
}

#[test]
fn children_lie_inside_parents() {
    let d = parsed("a:\n  b:\n    - x\n    - y: 1\n      z: [1, 2]\n  c: |\n    text\n    more\nd: {}\n");
    assert!(all_contained(d.root.as_ref().unwrap()));
}

#[test]
fn parsing_twice_gives_the_same_tree() {
    let a = parsed(PIPELINE);
    let b = parsed(PIPELINE);
    assert!(same_tree(a.root.as_ref().unwrap(), b.root.as_ref().unwrap()));
}

#[test]
fn point_in_leaf_gives_leaf_path() {
    let d = parsed("a: hello\n");
    assert_eq!(d.node_at_position(0, 4), Some("a".to_string()));
}

#[test]
fn equal_areas_prefer_longer_path() {
    let child = Node {
        node_type: NodeType::Scalar,
        key: Some("a".to_string()),
        value: "x".to_string(),
        range: range(0, 0, 0, 5),
        children: vec![],
        path: "a".to_string(),
    };
    let root = Node {
        node_type: NodeType::Mapping,
        key: None,
        value: String::new(),
        range: range(0, 0, 0, 5),
        children: vec![child],
        path: String::new(),
    };
    let d = Document { text: "a: x\n".to_string(), root: Some(root) };
    assert_eq!(d.node_at_position(0, 2), Some("a".to_string()));
}

#[test]
fn point_outside_every_node() {
    let d = parsed("a: 1\n\n\nb: 2\n");
    assert_eq!(d.node_at_position(9, 0), None);
    assert!(d.context_at_position(9, 0).is_empty());
}

#[test]
fn boundaries_count_as_inside() {
    let d = parsed("a: hello\n");
    assert_eq!(d.node_at_position(0, 8), Some("a".to_string()));
}

#[test]
fn nested_key_does_not_collide_with_root_key() {
    let d = parsed("steps:\n  - agents:\n      queue: a\nqueue: b\n");
    assert_eq!(d.node_at_position(2, 14), Some("steps/0/agents/queue".to_string()));
    assert_eq!(d.node_at_position(3, 7), Some("queue".to_string()));
}

#[test]
fn sequence_indices_are_decimal() {
    let mut text = String::from("steps:\n");
    for i in 0..12 {
        text.push_str(&format!("  - command: c{}\n", i));
    }
    let d = parsed(&text);
    let root = d.root.as_ref().unwrap();
    assert!(find(root, "steps/11/command").is_some());
    assert_eq!(d.node_at_position(11, 14), Some("steps/10/command".to_string()));
}

#[test]
fn comments_quotes_and_empty_collections() {
    let d = parsed("# heading\n\"quoted key\": 1 # note\nempty: []\nnone: {}\nnull_value:\n");
    let root = d.root.as_ref().unwrap();
    let q = find(root, "quoted key").unwrap();
    assert_eq!(q.value, "1");
    assert_eq!(find(root, "empty").unwrap().node_type, NodeType::Sequence);
    assert_eq!(find(root, "none").unwrap().node_type, NodeType::Mapping);
    assert_eq!(find(root, "null_value").unwrap().value, "");
}

#[test]
fn block_scalar_spans_its_lines() {
    let d = parsed("script: |\n  echo one\n  echo two\nnext: 1\n");
    let root = d.root.as_ref().unwrap();
    assert_eq!(find(root, "script").unwrap().range, range(0, 0, 2, 10));
    assert_eq!(find(root, "next").unwrap().range, range(3, 0, 3, 7));
}

#[test]
fn invalid_yaml_is_a_syntax_error() {
    let mut d = Document::new("a: [1, 2\n".to_string());
    match d.parse() {
        Err(ParseError::Syntax { .. }) => {}
        _ => panic!("expected a syntax error"),
    }
    assert!(d.root.is_none());
}

#[test]
fn failed_update_keeps_previous_tree() {
    let mut d = parsed(PIPELINE);
    assert!(d.update("steps: [\n".to_string()).is_err());
    assert_eq!(d.text, "steps: [\n");
    assert_eq!(d.node_at_position(4, 15), Some("steps/0/agents/queue".to_string()));
    assert!(d.update("other: 1\n".to_string()).is_ok());
    assert_eq!(d.node_at_position(0, 3), Some("other".to_string()));
}

#[test]
fn empty_document_has_scalar_root() {
    let d = parsed("");
    let root = d.root.as_ref().unwrap();
    assert_eq!(root.node_type, NodeType::Scalar);
    assert!(root.children.is_empty());
}

#[test]
fn area_is_width_times_height() {
    assert_eq!(area_of_range(&range(1, 2, 4, 21)), 19 * 4);
    assert_eq!(area_of_range(&range(0, 8, 2, 3)), 5 * 3);
    assert_eq!(area_of_range(&range(3, 0, 3, 0)), 0);
}

#[test]
fn carriage_returns_are_not_content() {
    let d = parsed("a: 1\r\nb: 2\r\n");
    let root = d.root.as_ref().unwrap();
    assert_eq!(find(root, "b").unwrap().range, range(1, 0, 1, 4));
    assert_eq!(find(root, "b").unwrap().value, "2");
}

#[test]
fn top_level_sequence_paths_are_indices() {
    let d = parsed("- a\n- b: 1\n");
    let root = d.root.as_ref().unwrap();
    assert_eq!(root.node_type, NodeType::Sequence);
    assert!(find(root, "0").is_some());
    assert!(find(root, "1/b").is_some());
}

#[test]
fn context_lists_node_paths_for_keys_with_slashes() {
    let d = parsed("a/b:\n  c: 1\n");
    assert_eq!(d.context_at_position(1, 5), vec!["a/b".to_string(), "a/b/c".to_string()]);
}

#[test]
fn flow_sequence_has_item_nodes() {
    let d = parsed("a: [1, 2]\n");
    let root = d.root.as_ref().unwrap();
    let a = find(root, "a").unwrap();
    assert_eq!(a.node_type, NodeType::Sequence);
    assert_eq!(a.range, range(0, 0, 0, 9));
    assert_eq!(a.children.len(), 2);
    assert_eq!(find(root, "a/0").unwrap().range, range(0, 4, 0, 5));
    assert_eq!(find(root, "a/1").unwrap().value, "2");
    assert_eq!(find(root, "a/1").unwrap().range, range(0, 7, 0, 8));
}

#[test]
fn flow_mapping_has_entry_nodes() {
    let d = parsed("agents: {queue: x}\n");
    let root = d.root.as_ref().unwrap();
    let agents = find(root, "agents").unwrap();
    assert_eq!(agents.node_type, NodeType::Mapping);
    assert_eq!(agents.range, range(0, 0, 0, 18));
    let queue = find(root, "agents/queue").unwrap();
    assert_eq!(queue.key, Some("queue".to_string()));
    assert_eq!(queue.value, "x");
    assert_eq!(queue.range, range(0, 9, 0, 17));
    assert_eq!(d.node_at_position(0, 16), Some("agents/queue".to_string()));
}

#[test]
fn flow_roots_follow_the_value() {
    let d = parsed("[1, {b: [x]}]\n");
    let root = d.root.as_ref().unwrap();
    assert_eq!(root.node_type, NodeType::Sequence);
    assert_eq!(find(root, "1").unwrap().node_type, NodeType::Mapping);
    assert_eq!(find(root, "1/b/0").unwrap().value, "x");
    let m = parsed("{a: 1, b: 'two'}\n");
    let root = m.root.as_ref().unwrap();
    assert_eq!(root.node_type, NodeType::Mapping);
    assert_eq!(find(root, "b").unwrap().value, "'two'");
}

#[test]
fn multi_line_plain_scalar_spans_its_lines() {
    let d = parsed("a: hello\n  world\nb: 1\n");
    let root = d.root.as_ref().unwrap();
    let a = find(root, "a").unwrap();
    assert_eq!(a.value, "hello world");
    assert_eq!(a.range, range(0, 0, 1, 7));
    assert_eq!(find(root, "b").unwrap().range, range(2, 0, 2, 4));
}

#[test]
fn multi_line_quoted_scalar_spans_its_lines() {
    let d = parsed("a: \"hello\n  world\"\n");
    let a = find(d.root.as_ref().unwrap(), "a").unwrap();
    assert_eq!(a.value, "\"hello world\"");
    assert_eq!(a.range, range(0, 0, 1, 8));
}

#[test]
fn multi_line_sequence_item() {
    let d = parsed("- one\n  two\n- three\n");
    let root = d.root.as_ref().unwrap();
    assert_eq!(find(root, "0").unwrap().value, "one two");
    assert_eq!(find(root, "1").unwrap().value, "three");
}
